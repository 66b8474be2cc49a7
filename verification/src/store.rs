//! The edges of one invocation that the orchestrator decides and the
//! surrounding process performs: parsing the invocation date, and the
//! open-or-create policy for a persisted table.
use vstd::prelude::*;

use crate::time::{date_valid, parse_date, spec_parse_date, Date};
use crate::PipelineError;

verus! {

/// What the surrounding process observed when it tried to open a
/// persisted table at its path.
#[derive(Clone, Copy, PartialEq, Eq, Structural, Debug)]
pub enum TableOpenOutcome {
    /// A table exists at the path and opened cleanly.
    Opened,
    /// Nothing exists at the path; absence is distinguishable from any
    /// other failure.
    MissingTable,
    /// Any other failure: corruption, permission, unexpected format.
    OpenFault,
}

/// What the run does with the table next.
#[derive(Clone, Copy, PartialEq, Eq, Structural, Debug)]
pub enum TableAction {
    UseExisting,
    CreateThenUse,
}

/// The open-or-create policy: an existing table is used as it stands, a
/// missing table is created with the registry schema and the `year`
/// partition column, and every other open failure is fatal to the run.
pub fn open_or_create_action(outcome: &TableOpenOutcome) -> (r: Result<TableAction, PipelineError>)
    ensures
        *outcome == TableOpenOutcome::Opened ==> r == Ok::<TableAction, PipelineError>(
            TableAction::UseExisting,
        ),
        *outcome == TableOpenOutcome::MissingTable ==> r == Ok::<TableAction, PipelineError>(
            TableAction::CreateThenUse,
        ),
        *outcome == TableOpenOutcome::OpenFault ==> r == Err::<TableAction, PipelineError>(
            PipelineError::TableAccess,
        ),
{
    match outcome {
        TableOpenOutcome::Opened => Ok(TableAction::UseExisting),
        TableOpenOutcome::MissingTable => Ok(TableAction::CreateThenUse),
        TableOpenOutcome::OpenFault => Err(PipelineError::TableAccess),
    }
}

/// Parses the invocation input — a `YYYY-MM-DD` byte string naming any
/// day of the target month — and fails with the input-parse error, before
/// any table is touched, on anything malformed.
pub fn parse_input_date(s: &[u8]) -> (r: Result<Date, PipelineError>)
    ensures
        spec_parse_date(s@) is Some ==> r == Ok::<Date, PipelineError>(spec_parse_date(s@)->Some_0),
        spec_parse_date(s@) is None ==> r == Err::<Date, PipelineError>(PipelineError::InputParse),
        r is Ok ==> date_valid(r->Ok_0),
{
    match parse_date(s) {
        Some(d) => Ok(d),
        None => Err(PipelineError::InputParse),
    }
}

} // verus!
