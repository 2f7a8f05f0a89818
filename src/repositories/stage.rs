//! The interview stage repository.

use vstd::prelude::*;

use crate::errors::{FettersError, QueryFailure};
use crate::models::stage::{InterviewStageUpdate, NewInterviewStage, QueriedInterviewStage};
use crate::store::{
    next_stage_number, renumber_post, stage_add_post, stage_delete_post, stage_update_post,
    stages_only, Database,
};

verus! {

/// Reads and writes the `interview_stages` table.
pub struct StageRepository<'a> {
    /// The store.
    pub connection: &'a mut Database,
}

impl<'a> StageRepository<'a> {
    /// Adds an interview stage; its number must be the job's next stage number.
    pub fn add_stage(&mut self, new_stage: NewInterviewStage) -> (r: Result<QueriedInterviewStage, FettersError>)
        requires
            old(self).connection.well_formed(),
        ensures
            final(self).connection.well_formed(),
            stage_add_post(old(self).connection@, final(self).connection@, new_stage, r),
    {
        self.connection.add_stage(new_stage)
    }

    /// The stages of a job, by ascending stage number.
    pub fn get_stages_for_job(&mut self, target_job_id: i32) -> (r: Result<Vec<QueriedInterviewStage>, FettersError>)
        requires
            old(self).connection.well_formed(),
        ensures
            final(self).connection@ == old(self).connection@,
            r matches Ok(v) && v@ == stages_only(old(self).connection@.stages, target_job_id),
            r matches Ok(v) && forall|i: int, j: int|
                0 <= i < j < v@.len() ==> (#[trigger] v@[i]).stage_number < (#[trigger] v@[j]).stage_number,
    {
        Ok(self.connection.stages_for_job(target_job_id))
    }

    /// The next stage number of a job: one more than its largest, or 1.
    pub fn get_next_stage_number(&mut self, target_job_id: i32) -> (r: Result<i32, FettersError>)
        requires
            old(self).connection.well_formed(),
        ensures
            final(self).connection@ == old(self).connection@,
            next_stage_number(old(self).connection@.stages, target_job_id) <= i32::MAX ==> r == Ok::<
                i32,
                FettersError,
            >(next_stage_number(old(self).connection@.stages, target_job_id) as i32),
            next_stage_number(old(self).connection@.stages, target_job_id) > i32::MAX ==> r matches Err(
                FettersError::QueryError(QueryFailure::CounterOverflow),
            ),
    {
        self.connection.next_stage_number(target_job_id)
    }

    /// Changes an interview stage.
    pub fn update_stage(&mut self, stage_id: i32, changes: InterviewStageUpdate) -> (r: Result<QueriedInterviewStage, FettersError>)
        requires
            old(self).connection.well_formed(),
        ensures
            final(self).connection.well_formed(),
            stage_update_post(old(self).connection@, final(self).connection@, stage_id, changes, r),
    {
        self.connection.update_stage(stage_id, changes)
    }

    /// Deletes an interview stage; the caller then renumbers the job's stages.
    pub fn delete_stage(&mut self, stage_id: i32) -> (r: Result<QueriedInterviewStage, FettersError>)
        requires
            old(self).connection.well_formed(),
        ensures
            final(self).connection.well_formed(),
            stage_delete_post(old(self).connection@, final(self).connection@, stage_id, r),
    {
        self.connection.delete_stage(stage_id)
    }

    /// Numbers a job's stages 1, 2, ... in order.
    pub fn renumber_stages(&mut self, target_job_id: i32) -> (r: Result<(), FettersError>)
        requires
            old(self).connection.well_formed(),
        ensures
            final(self).connection.well_formed(),
            renumber_post(old(self).connection@, final(self).connection@, target_job_id, r),
    {
        self.connection.renumber_stages(target_job_id)
    }
}

} // verus!
