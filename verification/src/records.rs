//! Typed salary records: the fixed 11-column schema, the header row, the
//! conversion of a scanned row into a record, and the whole-text parse.

use vstd::prelude::*;
use crate::numbers::Decimal;
use crate::numbers::spec_year_text;
use crate::numbers::spec_decimal_text;
use crate::numbers::parse_year;
use crate::numbers::parse_decimal;
use crate::scan::spec_tokenize;
use crate::scan::tokenize;
use crate::text::chars_eq_str;
use crate::text::chars_to_string;

verus! {

broadcast use crate::text::lemma_chars_deep_view;

/// One row of the dataset, with every column held as a plain value.
#[derive(Debug, Clone, PartialEq)]
pub struct SalaryRecord {
    pub work_year: i32,
    pub experience_level: String,
    pub employment_type: String,
    pub job_title: String,
    pub salary: Decimal,
    pub salary_currency: String,
    pub salary_in_usd: Decimal,
    pub employee_residence: String,
    pub remote_ratio: Decimal,
    pub company_location: String,
    pub company_size: String,
}

/// The mathematical image of a record.
#[verifier::ext_equal]
pub struct SalaryRecordView {
    pub work_year: int,
    pub experience_level: Seq<char>,
    pub employment_type: Seq<char>,
    pub job_title: Seq<char>,
    pub salary: Decimal,
    pub salary_currency: Seq<char>,
    pub salary_in_usd: Decimal,
    pub employee_residence: Seq<char>,
    pub remote_ratio: Decimal,
    pub company_location: Seq<char>,
    pub company_size: Seq<char>,
}

impl SalaryRecordView {
    /// The numeric columns are well-formed decimals.
    pub open spec fn wf(self) -> bool {
        self.salary.wf() && self.salary_in_usd.wf() && self.remote_ratio.wf()
    }
}

impl View for SalaryRecord {
    type V = SalaryRecordView;

    open spec fn view(&self) -> SalaryRecordView {
        SalaryRecordView {
            work_year: self.work_year as int,
            experience_level: self.experience_level@,
            employment_type: self.employment_type@,
            job_title: self.job_title@,
            salary: self.salary,
            salary_currency: self.salary_currency@,
            salary_in_usd: self.salary_in_usd,
            employee_residence: self.employee_residence@,
            remote_ratio: self.remote_ratio,
            company_location: self.company_location@,
            company_size: self.company_size@,
        }
    }
}

impl DeepView for SalaryRecord {
    type V = SalaryRecordView;

    open spec fn deep_view(&self) -> SalaryRecordView {
        self.view()
    }
}

/// The required header row, in column order.
pub open spec fn spec_header() -> Seq<Seq<char>> {
    seq![
        "work_year"@,
        "experience_level"@,
        "employment_type"@,
        "job_title"@,
        "salary"@,
        "salary_currency"@,
        "salary_in_usd"@,
        "employee_residence"@,
        "remote_ratio"@,
        "company_location"@,
        "company_size"@,
    ]
}

/// True exactly when `row` is the required header row.
fn is_header_row(row: &Vec<Vec<char>>) -> (b: bool)
    ensures
        b == (row.deep_view() == spec_header()),
{
    proof {
        assert(forall|j: int|
            0 <= j < row@.len() ==> #[trigger] row.deep_view()[j] == row@[j].deep_view());
    }
    if row.len() != 11 {
        proof {
            assert(spec_header().len() == 11);
        }
        return false;
    }
    let names: [&str; 11] = [
        "work_year",
        "experience_level",
        "employment_type",
        "job_title",
        "salary",
        "salary_currency",
        "salary_in_usd",
        "employee_residence",
        "remote_ratio",
        "company_location",
        "company_size",
    ];
    let mut j: usize = 0;
    while j < 11
        invariant
            j <= 11,
            row@.len() == 11,
            row.deep_view().len() == 11,
            names@.len() == 11,
            forall|t: int| 0 <= t < 11 ==> #[trigger] names@[t]@ == spec_header()[t],
            forall|t: int| 0 <= t < 11 ==> #[trigger] row.deep_view()[t] == row@[t]@,
            forall|t: int| 0 <= t < j ==> #[trigger] row.deep_view()[t] == spec_header()[t],
        decreases 11 - j,
    {
        if !chars_eq_str(&row[j], names[j]) {
            proof {
                assert(row.deep_view()[j as int] != spec_header()[j as int]);
            }
            return false;
        }
        j += 1;
    }
    proof {
        assert(row.deep_view() =~= spec_header());
    }
    true
}

/// The typed reading of one scanned data row: eleven columns, with the year
/// and the three numeric columns well-typed.
pub open spec fn spec_typed_row(row: Seq<Seq<char>>) -> Option<SalaryRecordView> {
    if row.len() == 11 && spec_year_text(row[0]) is Some && spec_decimal_text(row[4]) is Some
        && spec_decimal_text(row[6]) is Some && spec_decimal_text(row[8]) is Some {
        Some(
            SalaryRecordView {
                work_year: spec_year_text(row[0]).unwrap(),
                experience_level: row[1],
                employment_type: row[2],
                job_title: row[3],
                salary: spec_decimal_text(row[4]).unwrap(),
                salary_currency: row[5],
                salary_in_usd: spec_decimal_text(row[6]).unwrap(),
                employee_residence: row[7],
                remote_ratio: spec_decimal_text(row[8]).unwrap(),
                company_location: row[9],
                company_size: row[10],
            },
        )
    } else {
        None
    }
}

/// Converts one scanned row into a record.  Returns `None` exactly when the
/// row is not well-typed.
fn typed_row(row: &Vec<Vec<char>>) -> (r: Option<SalaryRecord>)
    ensures
        (match r {
            Some(rec) => spec_typed_row(row.deep_view()) == Some(rec@) && rec@.wf(),
            None => spec_typed_row(row.deep_view()) is None,
        }),
{
    proof {
        assert(forall|j: int|
            0 <= j < row@.len() ==> #[trigger] row.deep_view()[j] == row@[j].deep_view());
    }
    if row.len() != 11 {
        return None;
    }
    let work_year = match parse_year(&row[0]) {
        None => {
            return None;
        },
        Some(y) => y,
    };
    let salary = match parse_decimal(&row[4]) {
        None => {
            return None;
        },
        Some(d) => d,
    };
    let salary_in_usd = match parse_decimal(&row[6]) {
        None => {
            return None;
        },
        Some(d) => d,
    };
    let remote_ratio = match parse_decimal(&row[8]) {
        None => {
            return None;
        },
        Some(d) => d,
    };
    let rec = SalaryRecord {
        work_year,
        experience_level: chars_to_string(&row[1]),
        employment_type: chars_to_string(&row[2]),
        job_title: chars_to_string(&row[3]),
        salary,
        salary_currency: chars_to_string(&row[5]),
        salary_in_usd,
        employee_residence: chars_to_string(&row[7]),
        remote_ratio,
        company_location: chars_to_string(&row[9]),
        company_size: chars_to_string(&row[10]),
    };
    proof {
        assert(rec@ =~= spec_typed_row(row.deep_view()).unwrap());
    }
    Some(rec)
}

/// Why a parse failed: malformed quoting, a wrong header row, or a data row
/// (0-based, counted over the data rows) that is not well-typed.
#[derive(Debug, Clone, Copy, PartialEq, Eq, Structural)]
pub enum ParseError {
    Quoting,
    Header,
    Row(usize),
}

/// Converts scanned data rows in order; the error is the index of the first
/// row that is not well-typed.
pub open spec fn spec_convert_rows(rows: Seq<Seq<Seq<char>>>) -> Result<Seq<SalaryRecordView>, int>
    decreases rows.len(),
{
    if rows.len() == 0 {
        Ok(Seq::empty())
    } else if spec_typed_row(rows[0]) is None {
        Err(0)
    } else {
        match spec_convert_rows(rows.skip(1)) {
            Ok(rest) => Ok(seq![spec_typed_row(rows[0]).unwrap()] + rest),
            Err(i) => Err(i + 1),
        }
    }
}

pub proof fn lemma_convert_rows_ok(rows: Seq<Seq<Seq<char>>>)
    requires
        forall|j: int| 0 <= j < rows.len() ==> (#[trigger] spec_typed_row(rows[j])) is Some,
    ensures
        spec_convert_rows(rows) == Ok::<Seq<SalaryRecordView>, int>(
            Seq::new(rows.len(), |i: int| spec_typed_row(rows[i]).unwrap()),
        ),
    decreases rows.len(),
{
    if rows.len() == 0 {
        assert(Seq::new(0, |i: int| spec_typed_row(rows[i]).unwrap()) =~= Seq::empty());
    } else {
        assert(forall|j: int| 0 <= j < rows.len() - 1 ==> rows.skip(1)[j] == rows[j + 1]);
        lemma_convert_rows_ok(rows.skip(1));
        assert(seq![spec_typed_row(rows[0]).unwrap()] + Seq::new(
            rows.skip(1).len(),
            |i: int| spec_typed_row(rows.skip(1)[i]).unwrap(),
        ) =~= Seq::new(rows.len(), |i: int| spec_typed_row(rows[i]).unwrap()));
    }
}

pub proof fn lemma_convert_rows_bad(rows: Seq<Seq<Seq<char>>>, k: int)
    requires
        0 <= k < rows.len(),
        forall|j: int| 0 <= j < k ==> (#[trigger] spec_typed_row(rows[j])) is Some,
        spec_typed_row(rows[k]) is None,
    ensures
        spec_convert_rows(rows) == Err::<Seq<SalaryRecordView>, int>(k),
    decreases k,
{
    if k > 0 {
        assert(forall|j: int| 0 <= j < rows.len() - 1 ==> rows.skip(1)[j] == rows[j + 1]);
        lemma_convert_rows_bad(rows.skip(1), k - 1);
    }
}

/// The parse of the whole text, as a value: the scanned records, the header
/// check, then the typed conversion of every data row.
pub open spec fn spec_parse(s: Seq<char>) -> Result<Seq<SalaryRecordView>, ParseError> {
    if spec_tokenize(s) is None {
        Err(ParseError::Quoting)
    } else if spec_tokenize(s).unwrap().len() == 0 {
        Ok(Seq::empty())
    } else if spec_tokenize(s).unwrap()[0] != spec_header() {
        Err(ParseError::Header)
    } else {
        match spec_convert_rows(spec_tokenize(s).unwrap().skip(1)) {
            Ok(recs) => Ok(recs),
            Err(i) => Err(ParseError::Row(i as usize)),
        }
    }
}

/// Parses CSV text into the ordered sequence of its records.
///
/// Empty text yields no records.  Otherwise the first record must be the
/// header row, and every data row must be well-typed; the first offence is
/// the error, and no records come out with it.
pub fn parse(text: &str) -> (r: Result<Vec<SalaryRecord>, ParseError>)
    ensures
        (match r {
            Ok(recs) => spec_parse(text@) == Ok::<Seq<SalaryRecordView>, ParseError>(
                recs.deep_view(),
            ) && forall|i: int|
                0 <= i < recs.deep_view().len() ==> (#[trigger] recs.deep_view()[i]).wf(),
            Err(e) => spec_parse(text@) == Err::<Seq<SalaryRecordView>, ParseError>(e),
        }),
{
    let rows = match tokenize(text) {
        None => {
            return Err(ParseError::Quoting);
        },
        Some(rows) => rows,
    };
    let ghost rows_dv = rows.deep_view();
    proof {
        assert(forall|j: int|
            0 <= j < rows@.len() ==> #[trigger] rows.deep_view()[j] == rows@[j].deep_view());
    }
    if rows.len() == 0 {
        let out: Vec<SalaryRecord> = Vec::new();
        proof {
            assert(out.deep_view() =~= Seq::<SalaryRecordView>::empty());
        }
        return Ok(out);
    }
    if !is_header_row(&rows[0]) {
        return Err(ParseError::Header);
    }
    let ghost data = rows_dv.skip(1);
    proof {
        assert(rows.deep_view()[0] == rows@[0].deep_view());
        assert(rows_dv[0] == spec_header());
    }
    let mut out: Vec<SalaryRecord> = Vec::new();
    let mut k: usize = 1;
    while k < rows.len()
        invariant
            1 <= k <= rows.len(),
            rows.deep_view() == rows_dv,
            spec_tokenize(text@) == Some(rows_dv),
            rows_dv.len() > 0,
            rows_dv[0] == spec_header(),
            forall|j: int|
                0 <= j < rows@.len() ==> #[trigger] rows.deep_view()[j] == rows@[j].deep_view(),
            rows_dv.len() == rows@.len(),
            data == rows_dv.skip(1),
            out@.len() == k - 1,
            forall|j: int| 0 <= j < k - 1 ==> (#[trigger] spec_typed_row(data[j])) is Some,
            forall|j: int|
                0 <= j < k - 1 ==> #[trigger] out.deep_view()[j] == spec_typed_row(
                    data[j],
                ).unwrap(),
            forall|j: int| 0 <= j < k - 1 ==> (#[trigger] out.deep_view()[j]).wf(),
        decreases rows@.len() - k,
    {
        proof {
            assert(rows.deep_view()[k as int] == rows@[k as int].deep_view());
            assert(data[k - 1] == rows_dv[k as int]);
        }
        match typed_row(&rows[k]) {
            None => {
                proof {
                    assert(spec_typed_row(data[k - 1]) is None);
                    lemma_convert_rows_bad(data, k - 1);
                    assert(spec_convert_rows(data) == Err::<Seq<SalaryRecordView>, int>(k - 1));
                }
                return Err(ParseError::Row(k - 1));
            },
            Some(rec) => {
                let ghost out_dv = out.deep_view();
                out.push(rec);
                proof {
                    assert(out.deep_view() =~= out_dv.push(rec@));
                }
            },
        }
        k += 1;
    }
    proof {
        lemma_convert_rows_ok(data);
        assert(out.deep_view() =~= Seq::new(data.len(), |i: int| spec_typed_row(data[i]).unwrap()));
    }
    Ok(out)
}

/// Well-typed input parses completely: when the text scans cleanly, its first
/// record is the header row, and every data row is well-typed, `parse`
/// succeeds with exactly one record per data row, in file order.
pub proof fn lemma_parse_well_typed(s: Seq<char>)
    requires
        spec_tokenize(s) is Some,
        spec_tokenize(s).unwrap().len() >= 1,
        spec_tokenize(s).unwrap()[0] == spec_header(),
        forall|j: int|
            1 <= j < spec_tokenize(s).unwrap().len() ==> (#[trigger] spec_typed_row(
                spec_tokenize(s).unwrap()[j],
            )) is Some,
    ensures
        spec_parse(s) is Ok,
        spec_parse(s).unwrap().len() == spec_tokenize(s).unwrap().len() - 1,
        forall|i: int|
            0 <= i < spec_parse(s).unwrap().len() ==> #[trigger] spec_parse(s).unwrap()[i]
                == spec_typed_row(spec_tokenize(s).unwrap()[i + 1]).unwrap(),
{
    let rows = spec_tokenize(s).unwrap();
    let data = rows.skip(1);
    assert(forall|j: int| 0 <= j < data.len() ==> data[j] == rows[j + 1]);
    lemma_convert_rows_ok(data);
}

/// A malformed data row fails the whole parse: when the text scans cleanly,
/// its first record is the header row, the data rows before row `k` are
/// well-typed and data row `k` is not, `parse` fails with `Row(k)` and no
/// records come out.
pub proof fn lemma_parse_rejects_bad_row(s: Seq<char>, k: int)
    requires
        spec_tokenize(s) is Some,
        spec_tokenize(s).unwrap().len() >= 1,
        spec_tokenize(s).unwrap()[0] == spec_header(),
        0 <= k < spec_tokenize(s).unwrap().len() - 1,
        forall|j: int|
            1 <= j < k + 1 ==> (#[trigger] spec_typed_row(spec_tokenize(s).unwrap()[j])) is Some,
        spec_typed_row(spec_tokenize(s).unwrap()[k + 1]) is None,
    ensures
        spec_parse(s) == Err::<Seq<SalaryRecordView>, ParseError>(ParseError::Row(k as usize)),
{
    let rows = spec_tokenize(s).unwrap();
    let data = rows.skip(1);
    assert(forall|j: int| 0 <= j < data.len() ==> data[j] == rows[j + 1]);
    lemma_convert_rows_bad(data, k);
}

} // verus!
