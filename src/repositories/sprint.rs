//! The sprint repository.

use vstd::prelude::*;

use crate::errors::FettersError;
use crate::models::sprint::{NewSprint, QueriedSprint, SprintUpdate};
use crate::store::{
    counter_shift_post, sprint_add_post, sprint_get_or_create_post, sprint_update_post, Database,
};

verus! {

/// Relies on chrono's `Local::now` and its `%Y-%m-%d` formatting: today's date in
/// the local time zone. Nothing is claimed of the value.
#[verifier::external_body]
fn today() -> (r: String) {
    chrono::Local::now().date_naive().format("%Y-%m-%d").to_string()
}

/// Reads and writes the `sprints` table.
pub struct SprintRepository<'a> {
    /// The store.
    pub connection: &'a mut Database,
}

impl<'a> SprintRepository<'a> {
    /// Adds a new sprint; `SprintNameConflict` when the name is taken.
    pub fn add_job_sprint(&mut self, new_sprint: NewSprint) -> (r: Result<QueriedSprint, FettersError>)
        requires
            old(self).connection.well_formed(),
        ensures
            final(self).connection.well_formed(),
            sprint_add_post(old(self).connection@, final(self).connection@, new_sprint, r),
    {
        self.connection.add_sprint(new_sprint)
    }

    /// Returns the sprint named `sprint_name`, creating it with today's date when
    /// there is none.
    pub fn get_current_sprint(&mut self, sprint_name: &str) -> (r: Result<QueriedSprint, FettersError>)
        requires
            old(self).connection.well_formed(),
        ensures
            final(self).connection.well_formed(),
            exists|day: &str|
                sprint_get_or_create_post(old(self).connection@, final(self).connection@, sprint_name, day, r),
    {
        let day = today();
        self.connection.get_or_create_sprint(sprint_name, day.as_str())
    }

    /// Changes an existing sprint.
    pub fn update_sprint(&mut self, sprint_id: i32, changes: SprintUpdate) -> (r: Result<QueriedSprint, FettersError>)
        requires
            old(self).connection.well_formed(),
        ensures
            final(self).connection.well_formed(),
            sprint_update_post(old(self).connection@, final(self).connection@, sprint_id, changes, r),
    {
        self.connection.update_sprint(sprint_id, changes)
    }

    /// All sprints.
    pub fn get_all_sprints(&mut self) -> (r: Result<Vec<QueriedSprint>, FettersError>)
        ensures
            r matches Ok(v) && v@ == old(self).connection@.sprints,
            final(self).connection@ == old(self).connection@,
    {
        Ok(self.connection.all_sprints())
    }

    /// Raises the `num_jobs` counter of a sprint by one.
    pub fn increment_num_jobs(&mut self, sprint_id: i32) -> (r: Result<(), FettersError>)
        requires
            old(self).connection.well_formed(),
        ensures
            final(self).connection.well_formed(),
            counter_shift_post(old(self).connection@, final(self).connection@, sprint_id, 1i32, r),
    {
        self.connection.shift_num_jobs(sprint_id, 1)
    }

    /// Lowers the `num_jobs` counter of a sprint by one.
    pub fn decrement_num_jobs(&mut self, sprint_id: i32) -> (r: Result<(), FettersError>)
        requires
            old(self).connection.well_formed(),
        ensures
            final(self).connection.well_formed(),
            counter_shift_post(old(self).connection@, final(self).connection@, sprint_id, -1i32, r),
    {
        self.connection.shift_num_jobs(sprint_id, -1)
    }
}

} // verus!
