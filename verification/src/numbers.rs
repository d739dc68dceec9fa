//! Numeric text: decimal digit strings, years, and fixed-point decimal values.
//!
//! A [`Decimal`] stands for the number `± mantissa / 10^scale`.  The dataset's
//! numeric columns are held this way so that rounding can be stated and proved
//! exactly, rather than through machine floating point.

use vstd::prelude::*;
use crate::spec_digit_val;
use crate::spec_is_digit;
use crate::is_digit;

verus! {

/// Largest mantissa a well-formed [`Decimal`] may carry: `10^15`.
pub const MANTISSA_LIMIT: u64 = 1000000000000000;

/// `10^n`.
pub open spec fn pow10(n: nat) -> nat
    decreases n,
{
    if n == 0 {
        1
    } else {
        10 * pow10((n - 1) as nat)
    }
}

pub proof fn lemma_pow10_pos(n: nat)
    ensures
        pow10(n) >= 1,
    decreases n,
{
    if n > 0 {
        lemma_pow10_pos((n - 1) as nat);
    }
}

pub proof fn lemma_pow10_mono(a: nat, b: nat)
    requires
        a <= b,
    ensures
        pow10(a) <= pow10(b),
    decreases b,
{
    if a < b {
        lemma_pow10_mono(a, (b - 1) as nat);
        lemma_pow10_pos((b - 1) as nat);
    }
}

pub proof fn lemma_pow10_15()
    ensures
        pow10(15) == MANTISSA_LIMIT,
{
    reveal_with_fuel(pow10, 17);
}

/// Every character of `s` is an ASCII decimal digit.
pub open spec fn all_digits(s: Seq<char>) -> bool {
    forall|i: int| 0 <= i < s.len() ==> spec_is_digit(#[trigger] s[i])
}

/// Value of a digit string read in base ten.
pub open spec fn digits_val(s: Seq<char>) -> nat
    decreases s.len(),
{
    if s.len() == 0 {
        0
    } else {
        digits_val(s.drop_last()) * 10 + spec_digit_val(s.last())
    }
}

pub proof fn lemma_digits_val_bound(s: Seq<char>)
    requires
        all_digits(s),
    ensures
        digits_val(s) < pow10(s.len()),
    decreases s.len(),
{
    if s.len() > 0 {
        assert(all_digits(s.drop_last()));
        lemma_digits_val_bound(s.drop_last());
    }
}

/// Base-ten place value of concatenated digit strings.
pub proof fn lemma_digits_val_concat(a: Seq<char>, b: Seq<char>)
    ensures
        digits_val(a + b) == digits_val(a) * pow10(b.len()) + digits_val(b),
    decreases b.len(),
{
    if b.len() == 0 {
        assert(a + b =~= a);
        assert(pow10(b.len()) == 1);
        assert(digits_val(b) == 0);
        assert(digits_val(a + b) == digits_val(a) * pow10(b.len()) + digits_val(b))
            by (nonlinear_arith)
            requires
                digits_val(a + b) == digits_val(a),
                pow10(b.len()) == 1,
                digits_val(b) == 0,
        ;
    } else {
        let m = b.drop_last().len();
        assert((a + b).drop_last() =~= a + b.drop_last());
        assert((a + b).last() == b.last());
        lemma_digits_val_concat(a, b.drop_last());
        assert(digits_val(a + b) == digits_val(a + b.drop_last()) * 10 + spec_digit_val(b.last()));
        assert((digits_val(a) * pow10(m) + digits_val(b.drop_last())) * 10 == digits_val(a)
            * pow10(m) * 10 + digits_val(b.drop_last()) * 10) by (nonlinear_arith);
        assert(digits_val(a) * pow10(m) * 10 == digits_val(a) * (10 * pow10(m)))
            by (nonlinear_arith);
        assert(pow10(b.len()) == 10 * pow10(m));
        assert(digits_val(b) == digits_val(b.drop_last()) * 10 + spec_digit_val(b.last()));
    }
}

pub proof fn lemma_pow10_add(a: nat, b: nat)
    ensures
        pow10(a + b) == pow10(a) * pow10(b),
    decreases b,
{
    if b == 0 {
        assert(pow10(a + 0) == pow10(a) * 1);
    } else {
        lemma_pow10_add(a, (b - 1) as nat);
        assert(pow10(a + b) == 10 * pow10((a + b - 1) as nat));
        assert(pow10(a) * (10 * pow10((b - 1) as nat)) == 10 * (pow10(a) * pow10((b - 1) as nat)))
            by (nonlinear_arith);
    }
}

/// Reads the digits of `v[from..to]` in base ten.  Returns `None` exactly when
/// some character in that range is not a digit.
pub fn parse_digits(v: &Vec<char>, from: usize, to: usize) -> (r: Option<u64>)
    requires
        from <= to <= v.len(),
        to - from <= 15,
    ensures
        (match r {
            Some(u) => all_digits(v@.subrange(from as int, to as int)) && u == digits_val(
                v@.subrange(from as int, to as int),
            ),
            None => !all_digits(v@.subrange(from as int, to as int)),
        }),
{
    let ghost s = v@.subrange(from as int, to as int);
    let mut acc: u64 = 0;
    let mut i: usize = from;
    while i < to
        invariant
            from <= i <= to <= v.len(),
            to - from <= 15,
            s == v@.subrange(from as int, to as int),
            acc == digits_val(s.take(i - from)),
            acc < pow10((i - from) as nat),
            forall|j: int| 0 <= j < i - from ==> spec_is_digit(#[trigger] s[j]),
        decreases to - i,
    {
        let c = v[i];
        proof {
            assert(s[i - from] == v@[i as int]);
        }
        if !is_digit(c) {
            return None;
        }
        let d: u64 = (c as u32 - 48) as u64;
        proof {
            let k = (i - from) as int;
            assert(s.take(k + 1).drop_last() =~= s.take(k));
            assert(s.take(k + 1).last() == s[k]);
            lemma_pow10_mono((k + 1) as nat, 15);
            lemma_pow10_15();
            assert(pow10((k + 1) as nat) == 10 * pow10(k as nat));
        }
        acc = acc * 10 + d;
        i += 1;
    }
    proof {
        assert(s.take(to - from) =~= s);
    }
    Some(acc)
}

/// A fixed-point decimal number: `± mantissa / 10^scale`.
#[derive(Clone, Copy, PartialEq, Eq, Structural, Debug)]
pub struct Decimal {
    pub negative: bool,
    pub mantissa: u64,
    pub scale: u32,
}

impl Decimal {
    /// Well-formed: the scale and the mantissa are small enough that every
    /// derived quantity below fits its machine type.
    pub open spec fn wf(self) -> bool {
        self.scale <= 15 && self.mantissa < MANTISSA_LIMIT
    }

    /// The number as a scaled integer: `value = spec_signed_scaled / 10^scale`.
    pub open spec fn spec_signed_scaled(self) -> int {
        if self.negative {
            -(self.mantissa as int)
        } else {
            self.mantissa as int
        }
    }

    /// The nearest integer to the value, ties resolved away from zero.
    pub open spec fn spec_round_half_away(self) -> int {
        let p = pow10(self.scale as nat) as int;
        let q = self.mantissa as int / p;
        let r = self.mantissa as int % p;
        let mag = if 2 * r >= p {
            q + 1
        } else {
            q
        };
        if self.negative {
            -mag
        } else {
            mag
        }
    }

    /// Rounds the value to the nearest integer, ties away from zero.
    pub fn round_half_away(&self) -> (r: i64)
        requires
            self.wf(),
        ensures
            r as int == self.spec_round_half_away(),
    {
        proof {
            lemma_pow10_pos(self.scale as nat);
            lemma_pow10_mono(self.scale as nat, 15);
            lemma_pow10_15();
        }
        let p = pow10_u64(self.scale);
        let q = self.mantissa / p;
        let rem = self.mantissa % p;
        proof {
            assert(q <= self.mantissa) by (nonlinear_arith)
                requires
                    p >= 1,
                    q == self.mantissa / p,
            ;
        }
        let mag: u64 = if 2 * rem >= p {
            q + 1
        } else {
            q
        };
        if self.negative {
            -(mag as i64)
        } else {
            mag as i64
        }
    }
}

/// How far the rounded value, rescaled, lands from the number itself:
/// `signed_scaled - round * 10^scale`.
pub open spec fn spec_round_err(d: Decimal) -> int {
    d.spec_signed_scaled() - d.spec_round_half_away() * (pow10(d.scale as nat) as int)
}

/// The rounding law: `spec_round_half_away` yields a nearest integer (its
/// rescaled distance from the value is at most half a unit and no other
/// integer lands closer), and on a tie — exactly half a unit — it is the
/// integer of larger magnitude, away from zero.
pub proof fn lemma_round_half_away_nearest(d: Decimal)
    requires
        d.wf(),
    ensures
        2 * vstd::math::abs(spec_round_err(d)) <= pow10(d.scale as nat),
        forall|m: int|
            vstd::math::abs(spec_round_err(d)) <= vstd::math::abs(
                d.spec_signed_scaled() - #[trigger] (m * (pow10(d.scale as nat) as int)),
            ),
        2 * vstd::math::abs(spec_round_err(d)) == pow10(d.scale as nat)
            ==> vstd::math::abs(d.spec_round_half_away()) * (pow10(d.scale as nat) as int)
            == vstd::math::abs(d.spec_signed_scaled()) + pow10(d.scale as nat) / 2,
{
    let p = pow10(d.scale as nat) as int;
    lemma_pow10_pos(d.scale as nat);
    let m0 = d.mantissa as int;
    let q = m0 / p;
    let r = m0 % p;
    vstd::arithmetic::div_mod::lemma_fundamental_div_mod(m0, p);
    vstd::arithmetic::div_mod::lemma_mod_bound(m0, p);
    assert(m0 == q * p + r);
    assert(0 <= r < p);
    assert(q >= 0) by (nonlinear_arith)
        requires
            m0 >= 0,
            p >= 1,
            q == m0 / p,
    ;
    let mag = if 2 * r >= p {
        q + 1
    } else {
        q
    };
    assert((q + 1) * p == q * p + p) by (nonlinear_arith);
    assert(m0 - mag * p == if 2 * r >= p {
        r - p
    } else {
        r as int
    });
    let v = d.spec_signed_scaled();
    let n = d.spec_round_half_away();
    assert(n == if d.negative {
        -mag
    } else {
        mag
    });
    assert((-mag) * p == -(mag * p)) by (nonlinear_arith);
    assert(spec_round_err(d) == if d.negative {
        -(m0 - mag * p)
    } else {
        m0 - mag * p
    });
    let e = vstd::math::abs(spec_round_err(d)) as int;
    assert(e == if 2 * r >= p {
        p - r
    } else {
        r as int
    });
    assert(2 * e <= p);
    if 2 * e == p {
        assert(2 * r == p);
        assert(vstd::math::abs(n) == mag);
        assert(mag * p == q * p + p);
        assert(vstd::math::abs(v) == m0);
        assert(mag * p == m0 + (p - r));
        assert(p / 2 == p - r) by (nonlinear_arith)
            requires
                2 * r == p,
                r >= 0,
        ;
    }
    assert forall|m: int|
        vstd::math::abs(spec_round_err(d)) <= vstd::math::abs(
            v - #[trigger] (m * (pow10(d.scale as nat) as int)),
        ) by {
        if m != n {
            let k = n - m;
            assert(v - m * p == spec_round_err(d) + k * p) by (nonlinear_arith)
                requires
                    spec_round_err(d) == v - n * p,
                    k == n - m,
            ;
            if k >= 1 {
                assert(k * p >= p) by (nonlinear_arith)
                    requires
                        k >= 1,
                        p >= 1,
                ;
            } else {
                assert(k * p <= -p) by (nonlinear_arith)
                    requires
                        k <= -1,
                        p >= 1,
                ;
            }
            assert(vstd::math::abs(v - m * p) >= p - e);
        }
    }
}

/// `10^n` as a machine integer.
pub fn pow10_u64(n: u32) -> (r: u64)
    requires
        n <= 15,
    ensures
        r == pow10(n as nat),
{
    let mut r: u64 = 1;
    let mut j: u32 = 0;
    while j < n
        invariant
            j <= n <= 15,
            r == pow10(j as nat),
        decreases n - j,
    {
        proof {
            lemma_pow10_mono(j as nat + 1, 15);
            lemma_pow10_15();
            assert(pow10(j as nat + 1) == 10 * pow10(j as nat));
        }
        r = r * 10;
        j += 1;
    }
    r
}

/// Index of the first `'.'` in `s`, if any.
pub open spec fn spec_find_dot(s: Seq<char>) -> Option<int>
    decreases s.len(),
{
    if s.len() == 0 {
        None
    } else if s[0] == '.' {
        Some(0)
    } else {
        match spec_find_dot(s.skip(1)) {
            None => None,
            Some(k) => Some(k + 1),
        }
    }
}

pub proof fn lemma_find_dot_some(s: Seq<char>, k: int)
    requires
        0 <= k < s.len(),
        s[k] == '.',
        forall|j: int| 0 <= j < k ==> s[j] != '.',
    ensures
        spec_find_dot(s) == Some(k),
    decreases k,
{
    if k > 0 {
        assert(forall|j: int| 0 <= j < k - 1 ==> s.skip(1)[j] == s[j + 1]);
        lemma_find_dot_some(s.skip(1), k - 1);
    }
}

pub proof fn lemma_find_dot_none(s: Seq<char>)
    requires
        forall|j: int| 0 <= j < s.len() ==> s[j] != '.',
    ensures
        spec_find_dot(s) is None,
    decreases s.len(),
{
    if s.len() > 0 {
        assert(forall|j: int| 0 <= j < s.len() - 1 ==> s.skip(1)[j] == s[j + 1]);
        lemma_find_dot_none(s.skip(1));
    }
}

/// True when the numeric text starts with a minus sign.
pub open spec fn spec_num_negative(s: Seq<char>) -> bool {
    s.len() > 0 && s[0] == '-'
}

/// The numeric text after its optional minus sign.
pub open spec fn spec_num_body(s: Seq<char>) -> Seq<char> {
    if spec_num_negative(s) {
        s.skip(1)
    } else {
        s
    }
}

/// Integer-part digits of a body that contains a dot.
pub open spec fn spec_dec_ip(body: Seq<char>) -> Seq<char> {
    body.take(spec_find_dot(body).unwrap())
}

/// Fraction digits of a body that contains a dot.
pub open spec fn spec_dec_fp(body: Seq<char>) -> Seq<char> {
    body.skip(spec_find_dot(body).unwrap() + 1)
}

/// Both parts of a dotted body are non-empty digit strings, fifteen digits in
/// all at most.
pub open spec fn spec_dec_parts_ok(body: Seq<char>) -> bool {
    &&& spec_dec_ip(body).len() >= 1
    &&& spec_dec_fp(body).len() >= 1
    &&& spec_dec_ip(body).len() + spec_dec_fp(body).len() <= 15
    &&& all_digits(spec_dec_ip(body))
    &&& all_digits(spec_dec_fp(body))
}

/// The decimal-number grammar of a numeric column: an optional leading `'-'`,
/// one or more digits, then optionally `'.'` followed by one or more digits,
/// fifteen digits in all at most.
pub open spec fn spec_decimal_text(s: Seq<char>) -> Option<Decimal> {
    if spec_find_dot(spec_num_body(s)) is None {
        if 1 <= spec_num_body(s).len() <= 15 && all_digits(spec_num_body(s)) {
            Some(
                Decimal {
                    negative: spec_num_negative(s),
                    mantissa: digits_val(spec_num_body(s)) as u64,
                    scale: 0,
                },
            )
        } else {
            None
        }
    } else {
        if spec_dec_parts_ok(spec_num_body(s)) {
            Some(
                Decimal {
                    negative: spec_num_negative(s),
                    mantissa: digits_val(spec_dec_ip(spec_num_body(s)) + spec_dec_fp(
                        spec_num_body(s),
                    )) as u64,
                    scale: spec_dec_fp(spec_num_body(s)).len() as u32,
                },
            )
        } else {
            None
        }
    }
}

/// A well-typed numeric column always yields a well-formed [`Decimal`].
pub proof fn lemma_decimal_text_wf(s: Seq<char>)
    requires
        spec_decimal_text(s) is Some,
    ensures
        spec_decimal_text(s).unwrap().wf(),
{
    let body = spec_num_body(s);
    if spec_find_dot(body) is None {
        lemma_digits_val_bound(body);
        lemma_pow10_mono(body.len(), 15);
        lemma_pow10_15();
    } else {
        let ip = spec_dec_ip(body);
        let fp = spec_dec_fp(body);
        assert(all_digits(ip + fp)) by {
            assert(forall|j: int|
                0 <= j < ip.len() + fp.len() ==> spec_is_digit(#[trigger] (ip + fp)[j]));
        }
        lemma_digits_val_bound(ip + fp);
        lemma_pow10_mono((ip + fp).len(), 15);
        lemma_pow10_15();
    }
}

/// The year grammar: an optional leading `'-'` and one to ten digits, with the
/// value in `i32` range.
pub open spec fn spec_year_val(s: Seq<char>) -> int {
    if spec_num_negative(s) {
        -(digits_val(spec_num_body(s)) as int)
    } else {
        digits_val(spec_num_body(s)) as int
    }
}

pub open spec fn spec_year_text(s: Seq<char>) -> Option<int> {
    if 1 <= spec_num_body(s).len() <= 10 && all_digits(spec_num_body(s)) && -2147483648
        <= spec_year_val(s) <= 2147483647 {
        Some(spec_year_val(s))
    } else {
        None
    }
}

/// First `'.'` at or after `from`, if any, as an absolute index into `v`.
fn find_dot(v: &Vec<char>, from: usize) -> (r: Option<usize>)
    requires
        from <= v.len(),
    ensures
        (match r {
            Some(k) => from <= k < v.len() && spec_find_dot(v@.skip(from as int)) == Some(
                k - from,
            ),
            None => spec_find_dot(v@.skip(from as int)) is None,
        }),
{
    let ghost s = v@.skip(from as int);
    let mut i: usize = from;
    while i < v.len()
        invariant
            from <= i <= v.len(),
            s == v@.skip(from as int),
            forall|j: int| 0 <= j < i - from ==> s[j] != '.',
        decreases v.len() - i,
    {
        proof {
            assert(s[i - from] == v@[i as int]);
        }
        if v[i] == '.' {
            proof {
                lemma_find_dot_some(s, i - from);
            }
            return Some(i);
        }
        i += 1;
    }
    proof {
        lemma_find_dot_none(s);
    }
    None
}

/// Parses a numeric column.  Returns `None` exactly when the text does not fit
/// the decimal-number grammar of [`spec_decimal_text`].
pub fn parse_decimal(v: &Vec<char>) -> (r: Option<Decimal>)
    ensures
        r == spec_decimal_text(v@),
        r matches Some(d) ==> d.wf(),
{
    let negative = v.len() > 0 && v[0] == '-';
    let from: usize = if negative {
        1
    } else {
        0
    };
    let ghost body = spec_num_body(v@);
    proof {
        assert(negative == spec_num_negative(v@));
        assert(body =~= v@.subrange(from as int, v.len() as int));
        assert(body =~= v@.skip(from as int));
        if spec_decimal_text(v@) is Some {
            lemma_decimal_text_wf(v@);
        }
    }
    match find_dot(v, from) {
        None => {
            if v.len() - from >= 1 && v.len() - from <= 15 {
                match parse_digits(v, from, v.len()) {
                    Some(u) => Some(Decimal { negative, mantissa: u, scale: 0 }),
                    None => None,
                }
            } else {
                None
            }
        },
        Some(k) => {
            let ip_len = k - from;
            let fp_len = v.len() - (k + 1);
            let ghost ip = spec_dec_ip(body);
            let ghost fp = spec_dec_fp(body);
            proof {
                assert(ip =~= v@.subrange(from as int, k as int));
                assert(fp =~= v@.subrange(k + 1, v.len() as int));
            }
            if ip_len >= 1 && fp_len >= 1 && ip_len + fp_len <= 15 {
                match parse_digits(v, from, k) {
                    None => None,
                    Some(u_ip) => {
                        match parse_digits(v, k + 1, v.len()) {
                            None => None,
                            Some(u_fp) => {
                                proof {
                                    assert(all_digits(ip + fp)) by {
                                        assert(forall|j: int|
                                            0 <= j < ip.len() + fp.len() ==> spec_is_digit(
                                                #[trigger] (ip + fp)[j],
                                            ));
                                    }
                                    lemma_digits_val_concat(ip, fp);
                                    lemma_digits_val_bound(ip);
                                    lemma_digits_val_bound(fp);
                                    lemma_pow10_add(ip.len(), fp.len());
                                    lemma_pow10_mono(ip.len() + fp.len(), 15);
                                    lemma_pow10_15();
                                    lemma_pow10_pos(fp.len());
                                    assert(digits_val(ip) * pow10(fp.len()) + digits_val(fp)
                                        < pow10(ip.len()) * pow10(fp.len())) by (nonlinear_arith)
                                        requires
                                            digits_val(ip) < pow10(ip.len()),
                                            digits_val(fp) < pow10(fp.len()),
                                            pow10(fp.len()) >= 1,
                                    ;
                                }
                                let p = pow10_u64(fp_len as u32);
                                let mantissa = u_ip * p + u_fp;
                                Some(Decimal { negative, mantissa, scale: fp_len as u32 })
                            },
                        }
                    },
                }
            } else {
                None
            }
        },
    }
}

/// Parses the year column.  Returns `None` exactly when the text does not fit
/// the year grammar of [`spec_year_text`].
pub fn parse_year(v: &Vec<char>) -> (r: Option<i32>)
    ensures
        (match r {
            Some(y) => spec_year_text(v@) == Some(y as int),
            None => spec_year_text(v@) is None,
        }),
{
    let negative = v.len() > 0 && v[0] == '-';
    let from: usize = if negative {
        1
    } else {
        0
    };
    let ghost body = spec_num_body(v@);
    proof {
        assert(negative == spec_num_negative(v@));
        assert(body =~= v@.subrange(from as int, v.len() as int));
    }
    if v.len() - from >= 1 && v.len() - from <= 10 {
        match parse_digits(v, from, v.len()) {
            None => None,
            Some(u) => {
                if negative {
                    if u <= 2147483648 {
                        Some((-(u as i64)) as i32)
                    } else {
                        None
                    }
                } else {
                    if u <= 2147483647 {
                        Some(u as i32)
                    } else {
                        None
                    }
                }
            },
        }
    } else {
        None
    }
}

} // verus!
