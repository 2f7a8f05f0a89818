//! The errors that the library raises.

use vstd::prelude::*;

use crate::text::concat;

verus! {

/// Why a query on the store failed.
#[derive(Debug, Clone, Copy, PartialEq, Eq, Structural)]
pub enum QueryFailure {
    /// No row has the given identifier.
    NotFound,
    /// A row would refer to a sprint, status, title or job that does not exist.
    ForeignKeyViolation,
    /// A table has used up its identifiers.
    IdExhausted,
    /// A counter would leave the range of its column.
    CounterOverflow,
    /// A row breaks a rule of its table: an unknown stage status, or a stage number
    /// other than the next one of its job.
    CheckViolation,
}

/// The errors raised throughout the library.
#[derive(Debug)]
pub enum FettersError {
    /// The application directories could not be found.
    ApplicationError,
    /// A query on the store failed.
    QueryError(QueryFailure),
    /// The schema could not be set up.
    MigrationFailure,
    /// No job applications are tracked for the named sprint.
    NoJobsAvailable(String),
    /// A worksheet could not be given its name.
    SheetNameError(String),
    /// A sprint with this name exists already.
    SprintNameConflict(String),
    /// Any other failure, with its message.
    UnknownError(String),
}

pub open spec fn error_message(e: FettersError) -> Seq<char> {
    match e {
        FettersError::ApplicationError => "Could not retrieve system application directories!"@,
        FettersError::QueryError(_) => "Query result error"@,
        FettersError::MigrationFailure => "Failed to run migrations!"@,
        FettersError::NoJobsAvailable(s) => "No job applications tracked for the current sprint ["@
            + s@ + "]"@,
        FettersError::SheetNameError(s) => "Set sheet name error: "@ + s@,
        FettersError::SprintNameConflict(s) => "There is already a sprint with name "@ + s@
            + ". Try renaming the sprint."@,
        FettersError::UnknownError(s) => s@,
    }
}

impl FettersError {
    /// The message shown to the user for this error.
    pub fn to_string(&self) -> (r: String)
        ensures
            r@ == error_message(*self),
    {
        match self {
            FettersError::ApplicationError => "Could not retrieve system application directories!".to_owned(),
            FettersError::QueryError(_) => "Query result error".to_owned(),
            FettersError::MigrationFailure => "Failed to run migrations!".to_owned(),
            FettersError::NoJobsAvailable(s) => {
                let a = concat("No job applications tracked for the current sprint [", s.as_str());
                concat(a.as_str(), "]")
            },
            FettersError::SheetNameError(s) => concat("Set sheet name error: ", s.as_str()),
            FettersError::SprintNameConflict(s) => {
                let a = concat("There is already a sprint with name ", s.as_str());
                concat(a.as_str(), ". Try renaming the sprint.")
            },
            FettersError::UnknownError(s) => s.clone(),
        }
    }
}

/// The error raised when a worksheet name is refused, with the refusal's message.
pub fn sheet_name_error(msg: &str) -> (r: FettersError)
    ensures
        r matches FettersError::SheetNameError(m) && m@ == msg@,
{
    FettersError::SheetNameError(msg.to_owned())
}

} // verus!
