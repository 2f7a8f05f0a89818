//! The job repository.

use vstd::prelude::*;

use crate::cli::QueryArgs;
use crate::errors::FettersError;
use crate::insights::{jobs_per_sprint, jobs_per_status, sprint_rows_ok, status_rows_ok};
use crate::models::insight::CountAndPercentage;
use crate::models::job::{JobUpdate, NewJob, QueriedJob, TabledJob};
use crate::models::sprint::QueriedSprint;
use crate::query::{list_jobs_in, list_result};
use crate::store::{job_add_post, job_delete_post, job_update_post, jobs_in_sprint, Database};

verus! {

/// Reads and writes the `jobs` table, and the sprint counters with it.
pub struct JobRepository<'a> {
    /// The store.
    pub connection: &'a mut Database,
}

impl<'a> JobRepository<'a> {
    /// Adds a job and raises its sprint's counter in the same step.
    pub fn add_job(&mut self, new_job: NewJob) -> (r: Result<QueriedJob, FettersError>)
        requires
            old(self).connection.well_formed(),
        ensures
            final(self).connection.well_formed(),
            job_add_post(old(self).connection@, final(self).connection@, new_job, r),
    {
        self.connection.add_job(new_job)
    }

    /// Changes a job; moving it to another sprint moves one count between the two
    /// sprints' counters.
    pub fn update_job(&mut self, job_id: i32, changes: JobUpdate) -> (r: Result<QueriedJob, FettersError>)
        requires
            old(self).connection.well_formed(),
        ensures
            final(self).connection.well_formed(),
            job_update_post(old(self).connection@, final(self).connection@, job_id, changes, r),
    {
        self.connection.update_job(job_id, changes)
    }

    /// Deletes a job with its stages, lowers its sprint's counter, and returns it.
    pub fn delete_job(&mut self, job_id: i32) -> (r: Result<QueriedJob, FettersError>)
        requires
            old(self).connection.well_formed(),
        ensures
            final(self).connection.well_formed(),
            job_delete_post(old(self).connection@, final(self).connection@, job_id, r),
    {
        self.connection.delete_job(job_id)
    }

    /// Lists the jobs that the query selects, in identifier order.
    pub fn list_jobs(&mut self, query_args: &QueryArgs, current_sprint: &QueriedSprint) -> (r: Result<Vec<TabledJob>, FettersError>)
        requires
            old(self).connection.well_formed(),
        ensures
            final(self).connection@ == old(self).connection@,
            r matches Ok(v) && v@ == list_result(old(self).connection@, *query_args, current_sprint.id),
    {
        Ok(list_jobs_in(self.connection, query_args, current_sprint.id))
    }

    /// The number of jobs per status in the current sprint, with percentages.
    pub fn count_jobs_per_status(&mut self, current_sprint: &QueriedSprint) -> (r: Result<Vec<CountAndPercentage>, FettersError>)
        requires
            old(self).connection.well_formed(),
        ensures
            final(self).connection@ == old(self).connection@,
            r is Ok,
            r matches Ok(v) && (jobs_in_sprint(old(self).connection@.jobs, current_sprint.id) == 0
                ==> v@.len() == 0),
            r matches Ok(v) && (jobs_in_sprint(old(self).connection@.jobs, current_sprint.id) > 0
                ==> status_rows_ok(
                old(self).connection@,
                current_sprint.id,
                old(self).connection@.statuses.len() as int,
                v@,
            )),
    {
        Ok(jobs_per_status(self.connection, current_sprint.id))
    }

    /// The number of jobs per sprint, with percentages of the current sprint's jobs
    /// and of all jobs.
    pub fn count_jobs_per_sprint(&mut self, current_sprint: &QueriedSprint) -> (r: Result<Vec<CountAndPercentage>, FettersError>)
        requires
            old(self).connection.well_formed(),
        ensures
            final(self).connection@ == old(self).connection@,
            r is Ok,
            r matches Ok(v) && (jobs_in_sprint(old(self).connection@.jobs, current_sprint.id) == 0
                ==> v@.len() == 0),
            r matches Ok(v) && (jobs_in_sprint(old(self).connection@.jobs, current_sprint.id) > 0
                ==> sprint_rows_ok(
                old(self).connection@,
                current_sprint.id,
                old(self).connection@.sprints.len() as int,
                v@,
            )),
    {
        Ok(jobs_per_sprint(self.connection, current_sprint.id))
    }
}

} // verus!
