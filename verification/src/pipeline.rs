//! The run of the whole pipeline on an already-fetched result: parse, then
//! filter and project.  Fetching itself is I/O and stays outside the library;
//! this module decides everything that follows from the fetch's outcome.

use vstd::prelude::*;
use crate::records::SalaryRecord;
use crate::records::SalaryRecordView;
use crate::records::ParseError;
use crate::records::spec_parse;
use crate::records::parse;
use crate::project::ProjectedTuple;
use crate::project::spec_filter_project;
use crate::project::filter_and_project;

verus! {

/// A failure to obtain the dataset's text, wrapping the cause's description.
#[derive(Debug, Clone, PartialEq)]
pub struct FetchError {
    pub message: String,
}

impl View for FetchError {
    type V = Seq<char>;

    open spec fn view(&self) -> Seq<char> {
        self.message@
    }
}

/// What one run of the pipeline comes to.
#[derive(Debug)]
pub enum RunOutcome {
    /// The fetch failed; nothing was parsed.
    FetchFailed(FetchError),
    /// The text did not parse; no records were loaded.
    ParseFailed(ParseError),
    /// The records that loaded and the projection of the senior ones.
    Loaded { records: Vec<SalaryRecord>, tuples: Vec<ProjectedTuple> },
}

/// Runs the pipeline on the outcome of a fetch.  A failed fetch is reported
/// unchanged and nothing is parsed; a failed parse is reported and nothing is
/// projected; otherwise all records are loaded and the senior ones projected.
pub fn run(fetched: Result<String, FetchError>) -> (r: RunOutcome)
    ensures
        (match fetched {
            Err(e) => r == RunOutcome::FetchFailed(e),
            Ok(text) => (match spec_parse(text@) {
                Err(pe) => r == RunOutcome::ParseFailed(pe),
                Ok(recs) => r matches RunOutcome::Loaded { records, tuples }
                    && records.deep_view() == recs && tuples.deep_view() == spec_filter_project(
                    recs,
                ),
            }),
        }),
{
    match fetched {
        Err(e) => RunOutcome::FetchFailed(e),
        Ok(text) => {
            match parse(text.as_str()) {
                Err(pe) => RunOutcome::ParseFailed(pe),
                Ok(records) => {
                    let tuples = filter_and_project(&records);
                    RunOutcome::Loaded { records, tuples }
                },
            }
        },
    }
}

} // verus!
