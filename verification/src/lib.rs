//! A verified pipeline over a CSV salary dataset: parse the text into typed
//! records, keep the senior-level rows, and project each kept row to a
//! `(work_year, job_title, rounded_salary_usd)` tuple.

pub mod text;
pub mod numbers;
pub mod scan;
pub mod records;
pub mod project;
pub mod pipeline;

use vstd::prelude::*;

verus! {

/// True exactly when `c` is an ASCII decimal digit.
pub open spec fn spec_is_digit(c: char) -> bool {
    48 <= c as u32 <= 57
}

/// Numeric value of an ASCII decimal digit.
pub open spec fn spec_digit_val(c: char) -> nat {
    (c as u32 - 48) as nat
}

/// Executable digit test, equal to its specification.
pub fn is_digit(c: char) -> (b: bool)
    ensures
        b == spec_is_digit(c),
{
    let u = c as u32;
    48 <= u && u <= 57
}

} // verus!
