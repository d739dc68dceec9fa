//! A character-at-a-time scanner that splits CSV text into records of fields.
//!
//! The text is RFC 4180-style: fields separated by commas, records separated
//! by `\n`, `\r` or `\r\n`, and double-quoted fields in which `""` stands for
//! one quote and separators are ordinary characters.  Blank lines add no
//! record; a terminator after the last record adds no record.  A quote inside
//! an unquoted field, or text between a closing quote and the next separator,
//! or an unterminated quoted field, fails the whole scan.

use vstd::prelude::*;

verus! {

broadcast use crate::text::lemma_chars_deep_view;

/// Where the scanner stands inside the text.
#[derive(Clone, Copy, PartialEq, Eq, Structural, Debug)]
pub enum Mode {
    /// At the start of the text or just after a record terminator.
    RecordStart,
    /// Just after a comma.
    FieldStart,
    /// Inside an unquoted field.
    Unquoted,
    /// Inside a quoted field, after its opening quote.
    Quoted,
    /// Just after a quote read inside a quoted field.
    QuoteEnd,
    /// Just after a `\r`; a following `\n` belongs to the same terminator.
    AfterCr,
    /// The text broke the quoting rules.
    Failed,
}

/// The scanner's whole state: finished records, the fields of the record being
/// read, the field being read, and the mode.
#[verifier::ext_equal]
pub struct Scan {
    pub rows: Seq<Seq<Seq<char>>>,
    pub fields: Seq<Seq<char>>,
    pub field: Seq<char>,
    pub mode: Mode,
}

pub open spec fn scan_init() -> Scan {
    Scan { rows: Seq::empty(), fields: Seq::empty(), field: Seq::empty(), mode: Mode::RecordStart }
}

/// `m` with the current record closed and added to the finished rows.
pub open spec fn scan_end_record(m: Scan, mode: Mode) -> Scan {
    Scan {
        rows: m.rows.push(m.fields.push(m.field)),
        fields: Seq::empty(),
        field: Seq::empty(),
        mode: mode,
    }
}

/// One step at the start of a record (also used after a `\r`).
pub open spec fn scan_step_start(m: Scan, c: char) -> Scan {
    if c == '"' {
        Scan { rows: m.rows, fields: m.fields, field: m.field, mode: Mode::Quoted }
    } else if c == ',' {
        Scan { rows: m.rows, fields: m.fields.push(m.field), field: Seq::empty(), mode: Mode::FieldStart }
    } else if c == '\n' {
        Scan { rows: m.rows, fields: m.fields, field: m.field, mode: Mode::RecordStart }
    } else if c == '\r' {
        Scan { rows: m.rows, fields: m.fields, field: m.field, mode: Mode::AfterCr }
    } else {
        Scan { rows: m.rows, fields: m.fields, field: m.field.push(c), mode: Mode::Unquoted }
    }
}

/// One step of the scanner.
pub open spec fn scan_step(m: Scan, c: char) -> Scan {
    match m.mode {
        Mode::Failed => m,
        Mode::RecordStart => scan_step_start(m, c),
        Mode::AfterCr => if c == '\n' {
            Scan { rows: m.rows, fields: m.fields, field: m.field, mode: Mode::RecordStart }
        } else {
            scan_step_start(m, c)
        },
        Mode::FieldStart => {
            if c == '"' {
                Scan { rows: m.rows, fields: m.fields, field: m.field, mode: Mode::Quoted }
            } else if c == ',' {
                Scan { rows: m.rows, fields: m.fields.push(m.field), field: Seq::empty(), mode: Mode::FieldStart }
            } else if c == '\n' {
                scan_end_record(m, Mode::RecordStart)
            } else if c == '\r' {
                scan_end_record(m, Mode::AfterCr)
            } else {
                Scan { rows: m.rows, fields: m.fields, field: m.field.push(c), mode: Mode::Unquoted }
            }
        },
        Mode::Unquoted => {
            if c == '"' {
                Scan { rows: m.rows, fields: m.fields, field: m.field, mode: Mode::Failed }
            } else if c == ',' {
                Scan { rows: m.rows, fields: m.fields.push(m.field), field: Seq::empty(), mode: Mode::FieldStart }
            } else if c == '\n' {
                scan_end_record(m, Mode::RecordStart)
            } else if c == '\r' {
                scan_end_record(m, Mode::AfterCr)
            } else {
                Scan { rows: m.rows, fields: m.fields, field: m.field.push(c), mode: Mode::Unquoted }
            }
        },
        Mode::Quoted => {
            if c == '"' {
                Scan { rows: m.rows, fields: m.fields, field: m.field, mode: Mode::QuoteEnd }
            } else {
                Scan { rows: m.rows, fields: m.fields, field: m.field.push(c), mode: Mode::Quoted }
            }
        },
        Mode::QuoteEnd => {
            if c == '"' {
                Scan { rows: m.rows, fields: m.fields, field: m.field.push('"'), mode: Mode::Quoted }
            } else if c == ',' {
                Scan { rows: m.rows, fields: m.fields.push(m.field), field: Seq::empty(), mode: Mode::FieldStart }
            } else if c == '\n' {
                scan_end_record(m, Mode::RecordStart)
            } else if c == '\r' {
                scan_end_record(m, Mode::AfterCr)
            } else {
                Scan { rows: m.rows, fields: m.fields, field: m.field, mode: Mode::Failed }
            }
        },
    }
}

/// The scanner run over all of `s`.
pub open spec fn scan_run(s: Seq<char>) -> Scan
    decreases s.len(),
{
    if s.len() == 0 {
        scan_init()
    } else {
        scan_step(scan_run(s.drop_last()), s.last())
    }
}

/// End of input: an open quoted field or an earlier fault fails the scan; a
/// record still being read is closed.
pub open spec fn scan_finish(m: Scan) -> Option<Seq<Seq<Seq<char>>>> {
    match m.mode {
        Mode::Failed => None,
        Mode::Quoted => None,
        Mode::RecordStart => Some(m.rows),
        Mode::AfterCr => Some(m.rows),
        Mode::FieldStart => Some(m.rows.push(m.fields.push(m.field))),
        Mode::Unquoted => Some(m.rows.push(m.fields.push(m.field))),
        Mode::QuoteEnd => Some(m.rows.push(m.fields.push(m.field))),
    }
}

/// The records of `s`, each a sequence of fields, or `None` when the quoting
/// is malformed.
pub open spec fn spec_tokenize(s: Seq<char>) -> Option<Seq<Seq<Seq<char>>>> {
    scan_finish(scan_run(s))
}

/// Splits `text` into records of fields.  Returns `None` exactly when the
/// quoting is malformed.
pub fn tokenize(text: &str) -> (r: Option<Vec<Vec<Vec<char>>>>)
    ensures
        (match r {
            Some(rows) => spec_tokenize(text@) == Some(rows.deep_view()),
            None => spec_tokenize(text@) is None,
        }),
{
    let chars = crate::text::str_to_chars(text);
    let n: usize = chars.len();
    let mut rows: Vec<Vec<Vec<char>>> = Vec::new();
    let mut fields: Vec<Vec<char>> = Vec::new();
    let mut field: Vec<char> = Vec::new();
    let mut mode = Mode::RecordStart;
    let mut i: usize = 0;
    proof {
        assert(rows.deep_view() =~= scan_init().rows);
        assert(fields.deep_view() =~= scan_init().fields);
        assert(field@ =~= scan_init().field);
        assert(text@.take(0) =~= Seq::<char>::empty());
    }
    while i < n
        invariant
            i <= n,
            n == chars.len(),
            chars@ == text@,
            (scan_run(text@.take(i as int)) == Scan {
                rows: rows.deep_view(),
                fields: fields.deep_view(),
                field: field@,
                mode: mode,
            }),
        decreases n - i,
    {
        let ghost pre = scan_run(text@.take(i as int));
        let c = chars[i];
        proof {
            assert(text@.take(i + 1).drop_last() =~= text@.take(i as int));
            assert(text@.take(i + 1).last() == text@[i as int]);
            assert(scan_run(text@.take(i + 1)) == scan_step(pre, c));
        }
        match mode {
            Mode::Failed => {},
            Mode::RecordStart | Mode::AfterCr => {
                if mode == Mode::AfterCr && c == '\n' {
                    mode = Mode::RecordStart;
                } else if c == '"' {
                    mode = Mode::Quoted;
                } else if c == ',' {
                    let done_field = field;
                    field = Vec::new();
                    fields.push(done_field);
                    mode = Mode::FieldStart;
                    proof {
                        assert(fields.deep_view() =~~= pre.fields.push(pre.field));
                    }
                } else if c == '\n' {
                    mode = Mode::RecordStart;
                } else if c == '\r' {
                    mode = Mode::AfterCr;
                } else {
                    field.push(c);
                    mode = Mode::Unquoted;
                }
            },
            Mode::FieldStart | Mode::Unquoted => {
                if c == '"' {
                    mode = if mode == Mode::FieldStart {
                        Mode::Quoted
                    } else {
                        Mode::Failed
                    };
                } else if c == ',' {
                    let done_field = field;
                    field = Vec::new();
                    fields.push(done_field);
                    mode = Mode::FieldStart;
                    proof {
                        assert(fields.deep_view() =~~= pre.fields.push(pre.field));
                    }
                } else if c == '\n' || c == '\r' {
                    let done_field = field;
                    field = Vec::new();
                    let mut done_fields = fields;
                    fields = Vec::new();
                    done_fields.push(done_field);
                    proof {
                        assert(done_fields.deep_view() =~~= pre.fields.push(pre.field));
                    }
                    rows.push(done_fields);
                    proof {
                        assert(rows.deep_view() =~~= pre.rows.push(pre.fields.push(pre.field)));
                    }
                    mode = if c == '\n' {
                        Mode::RecordStart
                    } else {
                        Mode::AfterCr
                    };
                } else {
                    field.push(c);
                    mode = Mode::Unquoted;
                }
            },
            Mode::Quoted => {
                if c == '"' {
                    mode = Mode::QuoteEnd;
                } else {
                    field.push(c);
                }
            },
            Mode::QuoteEnd => {
                if c == '"' {
                    field.push('"');
                    mode = Mode::Quoted;
                } else if c == ',' {
                    let done_field = field;
                    field = Vec::new();
                    fields.push(done_field);
                    mode = Mode::FieldStart;
                    proof {
                        assert(fields.deep_view() =~~= pre.fields.push(pre.field));
                    }
                } else if c == '\n' || c == '\r' {
                    let done_field = field;
                    field = Vec::new();
                    let mut done_fields = fields;
                    fields = Vec::new();
                    done_fields.push(done_field);
                    proof {
                        assert(done_fields.deep_view() =~~= pre.fields.push(pre.field));
                    }
                    rows.push(done_fields);
                    proof {
                        assert(rows.deep_view() =~~= pre.rows.push(pre.fields.push(pre.field)));
                    }
                    mode = if c == '\n' {
                        Mode::RecordStart
                    } else {
                        Mode::AfterCr
                    };
                } else {
                    mode = Mode::Failed;
                }
            },
        }
        proof {
            assert((Scan {
                rows: rows.deep_view(),
                fields: fields.deep_view(),
                field: field@,
                mode: mode,
            }) =~= scan_step(pre, c));
        }
        i += 1;
    }
    proof {
        assert(text@.take(n as int) =~= text@);
    }
    match mode {
        Mode::Failed | Mode::Quoted => None,
        Mode::RecordStart | Mode::AfterCr => Some(rows),
        Mode::FieldStart | Mode::Unquoted | Mode::QuoteEnd => {
            let ghost m = scan_run(text@);
            fields.push(field);
            proof {
                assert(fields.deep_view() =~~= m.fields.push(m.field));
            }
            rows.push(fields);
            proof {
                assert(rows.deep_view() =~~= m.rows.push(m.fields.push(m.field)));
            }
            Some(rows)
        },
    }
}

} // verus!
