//! Sprints: named, dated groups of job applications.

use vstd::prelude::*;

use crate::text::clone_opt;

verus! {

/// A new sprint row.
#[derive(Debug)]
pub struct NewSprint<'a> {
    /// The sprint name.
    pub name: &'a str,
    /// The start date (YYYY-MM-DD).
    pub start_date: &'a str,
    /// The end date (YYYY-MM-DD), if any.
    pub end_date: Option<&'a str>,
    /// The number of jobs in this sprint.
    pub num_jobs: &'a i32,
}

/// A sprint row of the store.
#[derive(Clone, Debug)]
pub struct QueriedSprint {
    /// The row identifier.
    pub id: i32,
    /// The sprint name.
    pub name: String,
    /// The start date (YYYY-MM-DD).
    pub start_date: String,
    /// The end date (YYYY-MM-DD), if any.
    pub end_date: Option<String>,
    /// The number of jobs in this sprint.
    pub num_jobs: i32,
}

impl QueriedSprint {
    /// A copy of this row.
    pub fn duplicate(&self) -> (r: QueriedSprint)
        ensures
            r == *self,
    {
        QueriedSprint {
            id: self.id,
            name: self.name.clone(),
            start_date: self.start_date.clone(),
            end_date: clone_opt(&self.end_date),
            num_jobs: self.num_jobs,
        }
    }
}

/// Changes to a sprint; absent fields stay as they are. `end_date: Some(None)`
/// removes the end date.
#[derive(Debug)]
pub struct SprintUpdate<'a> {
    /// A new name.
    pub name: Option<&'a str>,
    /// A new start date.
    pub start_date: Option<&'a str>,
    /// A new end date, or its removal.
    pub end_date: Option<Option<&'a str>>,
}

impl<'a> Default for SprintUpdate<'a> {
    fn default() -> (r: SprintUpdate<'a>)
        ensures
            r.name is None,
            r.start_date is None,
            r.end_date is None,
    {
        SprintUpdate { name: None, start_date: None, end_date: None }
    }
}

} // verus!
