//! The relational store: five tables held in memory, their invariants, and the
//! lookups that the repositories share.

use vstd::prelude::*;

use crate::models::job::{JobUpdate, NewJob, QueriedJob};
use crate::models::sprint::QueriedSprint;
use crate::models::stage::{
    status_label, InterviewStageUpdate, NewInterviewStage, QueriedInterviewStage, StageStatus,
};
use crate::models::status::QueriedStatus;
use crate::models::title::QueriedTitle;
use crate::errors::{FettersError, QueryFailure};
use crate::models::sprint::{NewSprint, SprintUpdate};
use crate::text::{clone_opt, opt_str_view, opt_view, owned, owned_opt, str_eq};

verus! {

/// The contents of the store.
pub struct DbView {
    pub sprints: Seq<QueriedSprint>,
    pub statuses: Seq<QueriedStatus>,
    pub titles: Seq<QueriedTitle>,
    pub jobs: Seq<QueriedJob>,
    pub stages: Seq<QueriedInterviewStage>,
}

/// The store: one table per entity, each kept in ascending identifier order.
pub struct Database {
    sprints: Vec<QueriedSprint>,
    statuses: Vec<QueriedStatus>,
    titles: Vec<QueriedTitle>,
    jobs: Vec<QueriedJob>,
    stages: Vec<QueriedInterviewStage>,
}

impl View for Database {
    type V = DbView;

    closed spec fn view(&self) -> DbView {
        DbView {
            sprints: self.sprints@,
            statuses: self.statuses@,
            titles: self.titles@,
            jobs: self.jobs@,
            stages: self.stages@,
        }
    }
}

/// Identifiers that grow strictly along the table and are at least one more than
/// their position, so that a table never holds more rows than `i32::MAX`.
pub open spec fn ids_ok(ids: Seq<i32>) -> bool {
    &&& forall|i: int, j: int| 0 <= i < j < ids.len() ==> ids[i] < ids[j]
    &&& forall|i: int| 0 <= i < ids.len() ==> ids[i] > i
}

/// The identifier that the next row of a table receives: one more than the last.
pub open spec fn next_id(ids: Seq<i32>) -> int {
    if ids.len() == 0 {
        1
    } else {
        ids.last() + 1
    }
}

pub open spec fn sprint_ids(s: Seq<QueriedSprint>) -> Seq<i32> {
    s.map_values(|r: QueriedSprint| r.id)
}

pub open spec fn status_ids(s: Seq<QueriedStatus>) -> Seq<i32> {
    s.map_values(|r: QueriedStatus| r.id)
}

pub open spec fn title_ids(s: Seq<QueriedTitle>) -> Seq<i32> {
    s.map_values(|r: QueriedTitle| r.id)
}

pub open spec fn job_ids(s: Seq<QueriedJob>) -> Seq<i32> {
    s.map_values(|r: QueriedJob| r.id)
}

pub open spec fn stage_ids(s: Seq<QueriedInterviewStage>) -> Seq<i32> {
    s.map_values(|r: QueriedInterviewStage| r.id)
}

pub open spec fn has_sprint(v: DbView, id: i32) -> bool {
    exists|i: int| 0 <= i < v.sprints.len() && (#[trigger] v.sprints[i]).id == id
}

pub open spec fn has_status(v: DbView, id: i32) -> bool {
    exists|i: int| 0 <= i < v.statuses.len() && (#[trigger] v.statuses[i]).id == id
}

pub open spec fn has_title(v: DbView, id: i32) -> bool {
    exists|i: int| 0 <= i < v.titles.len() && (#[trigger] v.titles[i]).id == id
}

pub open spec fn has_job(v: DbView, id: i32) -> bool {
    exists|i: int| 0 <= i < v.jobs.len() && (#[trigger] v.jobs[i]).id == id
}

/// A stage status label is one of the three known ones.
pub open spec fn is_stage_label(s: Seq<char>) -> bool {
    s == status_label(StageStatus::Scheduled) || s == status_label(StageStatus::Passed) || s
        == status_label(StageStatus::Rejected)
}

/// The invariants of the store: identifiers, unique names, references that
/// resolve, stage labels, and stage numbers that grow along the table within a job.
pub open spec fn wf(v: DbView) -> bool {
    &&& ids_ok(sprint_ids(v.sprints))
    &&& ids_ok(status_ids(v.statuses))
    &&& ids_ok(title_ids(v.titles))
    &&& ids_ok(job_ids(v.jobs))
    &&& ids_ok(stage_ids(v.stages))
    &&& forall|i: int, j: int|
        0 <= i < j < v.sprints.len() ==> (#[trigger] v.sprints[i]).name@ != (#[trigger] v.sprints[j]).name@
    &&& forall|i: int, j: int|
        0 <= i < j < v.statuses.len() ==> (#[trigger] v.statuses[i]).name@ != (#[trigger] v.statuses[j]).name@
    &&& forall|i: int, j: int|
        0 <= i < j < v.titles.len() ==> (#[trigger] v.titles[i]).name@ != (#[trigger] v.titles[j]).name@
    &&& forall|i: int|
        0 <= i < v.jobs.len() ==> {
            &&& has_sprint(v, (#[trigger] v.jobs[i]).sprint_id)
            &&& has_status(v, v.jobs[i].status_id)
            &&& has_title(v, v.jobs[i].title_id)
        }
    &&& forall|i: int|
        0 <= i < v.stages.len() ==> {
            &&& has_job(v, (#[trigger] v.stages[i]).job_id)
            &&& is_stage_label(v.stages[i].status@)
        }
    &&& forall|i: int, j: int|
        0 <= i < j < v.stages.len() && (#[trigger] v.stages[i]).job_id == (#[trigger] v.stages[j]).job_id
            ==> v.stages[i].stage_number < v.stages[j].stage_number
}

/// The number of jobs of a sprint.
pub open spec fn jobs_in_sprint(jobs: Seq<QueriedJob>, sprint_id: i32) -> nat
    decreases jobs.len(),
{
    if jobs.len() == 0 {
        0
    } else {
        jobs_in_sprint(jobs.drop_last(), sprint_id) + if jobs.last().sprint_id == sprint_id {
            1nat
        } else {
            0nat
        }
    }
}

/// Every sprint's counter equals the number of its jobs.
pub open spec fn counters_consistent(v: DbView) -> bool {
    forall|i: int|
        0 <= i < v.sprints.len() ==> (#[trigger] v.sprints[i]).num_jobs as int == jobs_in_sprint(
            v.jobs,
            v.sprints[i].id,
        )
}

/// The number of stages of a job.
pub open spec fn stages_of_job(stages: Seq<QueriedInterviewStage>, job_id: i32) -> nat
    decreases stages.len(),
{
    if stages.len() == 0 {
        0
    } else {
        stages_of_job(stages.drop_last(), job_id) + if stages.last().job_id == job_id {
            1nat
        } else {
            0nat
        }
    }
}

/// The name of the sprint with this identifier, if there is one.
pub open spec fn sprint_name(s: Seq<QueriedSprint>, id: i32) -> Option<String>
    decreases s.len(),
{
    if s.len() == 0 {
        None
    } else if s.last().id == id {
        Some(s.last().name)
    } else {
        sprint_name(s.drop_last(), id)
    }
}

/// The name of the status with this identifier, if there is one.
pub open spec fn status_name(s: Seq<QueriedStatus>, id: i32) -> Option<String>
    decreases s.len(),
{
    if s.len() == 0 {
        None
    } else if s.last().id == id {
        Some(s.last().name)
    } else {
        status_name(s.drop_last(), id)
    }
}

/// The name of the title with this identifier, if there is one.
pub open spec fn title_name(s: Seq<QueriedTitle>, id: i32) -> Option<String>
    decreases s.len(),
{
    if s.len() == 0 {
        None
    } else if s.last().id == id {
        Some(s.last().name)
    } else {
        title_name(s.drop_last(), id)
    }
}

/// The sprint counter after a change by `d`.
pub open spec fn with_num_jobs(s: QueriedSprint, n: int) -> QueriedSprint {
    QueriedSprint {
        id: s.id,
        name: s.name,
        start_date: s.start_date,
        end_date: s.end_date,
        num_jobs: n as i32,
    }
}

/// The sprints after the counter of sprint `id` changed by `d`.
pub open spec fn bump_sprint(s: Seq<QueriedSprint>, id: i32, d: int) -> Seq<QueriedSprint> {
    s.map_values(
        |r: QueriedSprint|
            if r.id == id {
                with_num_jobs(r, r.num_jobs + d)
            } else {
                r
            },
    )
}

/// What adding a sprint does: a taken name is a conflict; otherwise the sprint is
/// appended under the next identifier, unless identifiers are used up.
pub open spec fn sprint_add_post(a: DbView, b: DbView, new_sprint: NewSprint, r: Result<QueriedSprint, FettersError>) -> bool {
    &&& (sprint_name_taken(a, new_sprint.name@) ==> {
        &&& r matches Err(FettersError::SprintNameConflict(n)) && n@ == new_sprint.name@
        &&& b == a
    })
    &&& (!sprint_name_taken(a, new_sprint.name@) && next_id(sprint_ids(a.sprints))
        > i32::MAX ==> {
        &&& r matches Err(FettersError::QueryError(QueryFailure::IdExhausted))
        &&& b == a
    })
    &&& (!sprint_name_taken(a, new_sprint.name@) && next_id(sprint_ids(a.sprints))
        <= i32::MAX ==> {
        &&& r matches Ok(row)
        &&& sprint_from(row, new_sprint, next_id(sprint_ids(a.sprints)))
        &&& b.sprints == a.sprints.push(row)
        &&& same_but_sprints(a, b)
    })
}

/// What resolving a sprint by name does: the existing sprint of that name, or a new
/// one starting `today` with no end date and no jobs.
pub open spec fn sprint_get_or_create_post(a: DbView, b: DbView, sprint_name: &str, today: &str, r: Result<QueriedSprint, FettersError>) -> bool {
    &&& (sprint_name_taken(a, sprint_name@) ==> {
        &&& r matches Ok(row)
        &&& row.name@ == sprint_name@
        &&& a.sprints.contains(row)
        &&& b == a
    })
    &&& (!sprint_name_taken(a, sprint_name@) && next_id(sprint_ids(a.sprints))
        > i32::MAX ==> {
        &&& r matches Err(FettersError::QueryError(QueryFailure::IdExhausted))
        &&& b == a
    })
    &&& (!sprint_name_taken(a, sprint_name@) && next_id(sprint_ids(a.sprints))
        <= i32::MAX ==> {
        &&& r matches Ok(row)
        &&& row.id == next_id(sprint_ids(a.sprints))
        &&& row.name@ == sprint_name@
        &&& row.start_date@ == today@
        &&& row.end_date is None
        &&& row.num_jobs == 0
        &&& b.sprints == a.sprints.push(row)
        &&& same_but_sprints(a, b)
    })
}

/// What changing a sprint does: `NotFound` for an unknown identifier, a conflict
/// when another sprint has the new name, else the row replaced in place.
pub open spec fn sprint_update_post(a: DbView, b: DbView, id: i32, changes: SprintUpdate, r: Result<QueriedSprint, FettersError>) -> bool {
    &&& (!has_sprint(a, id) ==> {
        &&& r matches Err(FettersError::QueryError(QueryFailure::NotFound))
        &&& b == a
    })
    &&& (has_sprint(a, id) && rename_conflict(a, changes, id) ==> {
        &&& r matches Err(FettersError::SprintNameConflict(m)) && m@ == changes.name->0@
        &&& b == a
    })
    &&& (has_sprint(a, id) && !rename_conflict(a, changes, id) ==> {
        &&& r matches Ok(row)
        &&& exists|k: int|
            0 <= k < a.sprints.len() && a.sprints[k].id == id
                && sprint_updated(a.sprints[k], changes, row)
        &&& sprint_replaced(a.sprints, b.sprints, row)
        &&& same_but_sprints(a, b)
    })
}

/// What moving a sprint counter does: nothing for an unknown sprint, an overflow
/// error at the end of the range, else the counter moved by `delta`.
pub open spec fn counter_shift_post(a: DbView, b: DbView, id: i32, delta: i32, r: Result<(), FettersError>) -> bool {
    &&& (!has_sprint(a, id) ==> r is Ok && b == a)
    &&& (has_sprint(a, id) && !counter_fits(a, id, delta as int) ==> {
        &&& r matches Err(FettersError::QueryError(QueryFailure::CounterOverflow))
        &&& b == a
    })
    &&& (has_sprint(a, id) && counter_fits(a, id, delta as int) ==> {
        &&& r is Ok
        &&& b.sprints == bump_sprint(a.sprints, id, delta as int)
        &&& same_but_sprints(a, b)
    })
}

/// What seeding the statuses does: all seven present afterwards, nothing else added;
/// nothing changes when they were all there already.
pub open spec fn seed_post(a: DbView, b: DbView, r: Result<(), FettersError>) -> bool {
    &&& (r is Ok ==> seeded(a, b))
    &&& (r is Err ==> status_ids_short(a) && b == a
        && r matches Err(FettersError::QueryError(QueryFailure::IdExhausted)))
    &&& (!status_ids_short(a) ==> r is Ok)
    &&& ((forall|k: int| 0 <= k < 7 ==> status_named(a, #[trigger] default_status_labels()[k]))
        ==> r is Ok && b == a)
}

/// What interning a title does: the title of that name, inserted first when missing.
pub open spec fn title_intern_post(a: DbView, b: DbView, name: &str, r: Result<QueriedTitle, FettersError>) -> bool {
    &&& (r matches Ok(row) ==> title_interned(a, b, name@, row))
    &&& (title_named(a, name@) || next_id(title_ids(a.titles)) <= i32::MAX
        ==> r is Ok)
    &&& (r is Err ==> {
        &&& r matches Err(FettersError::QueryError(QueryFailure::IdExhausted))
        &&& b == a
    })
}

/// What adding a job does: the job appended and its sprint's counter raised, or an
/// error that changes nothing; counters that matched the jobs still do.
pub open spec fn job_add_post(a: DbView, b: DbView, new_job: NewJob, r: Result<QueriedJob, FettersError>) -> bool {
    &&& (!job_refs_ok(a, new_job.sprint_id, new_job.status_id, new_job.title_id) ==> {
        &&& r matches Err(FettersError::QueryError(QueryFailure::ForeignKeyViolation))
        &&& b == a
    })
    &&& (job_refs_ok(a, new_job.sprint_id, new_job.status_id, new_job.title_id) && next_id(job_ids(a.jobs)) > i32::MAX ==> {
        &&& r matches Err(FettersError::QueryError(QueryFailure::IdExhausted))
        &&& b == a
    })
    &&& (job_refs_ok(a, new_job.sprint_id, new_job.status_id, new_job.title_id) && next_id(job_ids(a.jobs)) <= i32::MAX && !counter_fits(a, new_job.sprint_id, 1) ==> {
        &&& r matches Err(FettersError::QueryError(QueryFailure::CounterOverflow))
        &&& b == a
    })
    &&& (job_refs_ok(a, new_job.sprint_id, new_job.status_id, new_job.title_id) && next_id(job_ids(a.jobs)) <= i32::MAX && counter_fits(a, new_job.sprint_id, 1) ==> {
        &&& r matches Ok(row)
        &&& job_from(row, new_job, next_id(job_ids(a.jobs)))
        &&& job_added(a, b, row)
    })
    &&& (counters_consistent(a) ==> counters_consistent(b))
}

/// What deleting a job does: the job and its stages removed and its sprint's counter
/// lowered, or an error that changes nothing; counters that matched the jobs still do.
pub open spec fn job_delete_post(a: DbView, b: DbView, id: i32, r: Result<QueriedJob, FettersError>) -> bool {
    &&& (!has_job(a, id) ==> {
        &&& r matches Err(FettersError::QueryError(QueryFailure::NotFound))
        &&& b == a
    })
    &&& (has_job(a, id) ==> exists|k: int|
        0 <= k < a.jobs.len() && (#[trigger] a.jobs[k]).id == id && {
            ||| {
                &&& !counter_fits(a, a.jobs[k].sprint_id, -1)
                &&& r matches Err(FettersError::QueryError(QueryFailure::CounterOverflow))
                &&& b == a
            }
            ||| {
                &&& counter_fits(a, a.jobs[k].sprint_id, -1)
                &&& r == Ok::<QueriedJob, FettersError>(a.jobs[k])
                &&& job_deleted(a, b, k)
            }
        })
    &&& (counters_consistent(a) ==> counters_consistent(b))
}

/// What changing a job does: the row replaced in place, with the counters of the old
/// and new sprint moved when it changes sprint, or an error that changes nothing.
pub open spec fn job_update_post(a: DbView, b: DbView, id: i32, changes: JobUpdate, r: Result<QueriedJob, FettersError>) -> bool {
    &&& (!has_job(a, id) ==> {
        &&& r matches Err(FettersError::QueryError(QueryFailure::NotFound))
        &&& b == a
    })
    &&& (has_job(a, id) ==> exists|k: int|
        0 <= k < a.jobs.len() && (#[trigger] a.jobs[k]).id == id && {
            let j = a.jobs[k];
            let sid = match changes.sprint_id { Some(s) => s, None => j.sprint_id };
            let st = match changes.status_id { Some(s) => s, None => j.status_id };
            let ti = match changes.title_id { Some(s) => s, None => j.title_id };
            let moves = sid != j.sprint_id;
            if !job_refs_ok(a, sid, st, ti) {
                &&& r matches Err(FettersError::QueryError(QueryFailure::ForeignKeyViolation))
                &&& b == a
            } else if moves && !(counter_fits(a, j.sprint_id, -1) && counter_fits(
                a,
                sid,
                1,
            )) {
                &&& r matches Err(FettersError::QueryError(QueryFailure::CounterOverflow))
                &&& b == a
            } else {
                &&& r matches Ok(row)
                &&& job_updated(j, changes, row)
                &&& job_changed(a, b, k, row)
            }
        })
    &&& (counters_consistent(a) ==> counters_consistent(b))
}

/// What adding a stage does: the stage appended under the next identifier when its
/// job exists, its status is known and its number is the job's next one.
pub open spec fn stage_add_post(a: DbView, b: DbView, new_stage: NewInterviewStage, r: Result<QueriedInterviewStage, FettersError>) -> bool {
    &&& (!has_job(a, new_stage.job_id) ==> {
        &&& r matches Err(FettersError::QueryError(QueryFailure::ForeignKeyViolation))
        &&& b == a
    })
    &&& (has_job(a, new_stage.job_id) && (!is_stage_label(new_stage.status@)
        || new_stage.stage_number != next_stage_number(a.stages, new_stage.job_id)) ==> {
        &&& r matches Err(FettersError::QueryError(QueryFailure::CheckViolation))
        &&& b == a
    })
    &&& (has_job(a, new_stage.job_id) && is_stage_label(new_stage.status@)
        && new_stage.stage_number == next_stage_number(a.stages, new_stage.job_id)
        && next_id(stage_ids(a.stages)) > i32::MAX ==> {
        &&& r matches Err(FettersError::QueryError(QueryFailure::IdExhausted))
        &&& b == a
    })
    &&& (has_job(a, new_stage.job_id) && is_stage_label(new_stage.status@)
        && new_stage.stage_number == next_stage_number(a.stages, new_stage.job_id)
        && next_id(stage_ids(a.stages)) <= i32::MAX ==> {
        &&& r matches Ok(row)
        &&& stage_from(row, new_stage, next_id(stage_ids(a.stages)))
        &&& b.stages == a.stages.push(row)
        &&& same_but_stages(a, b)
    })
}

/// The update sets a stage status that is not one of the three.
pub open spec fn bad_status_change(ch: InterviewStageUpdate) -> bool {
    match ch.status {
        Some(st) => !is_stage_label(st@),
        None => false,
    }
}

/// What changing a stage does: the row replaced in place; its job, number and
/// creation time stay.
pub open spec fn stage_update_post(a: DbView, b: DbView, id: i32, changes: InterviewStageUpdate, r: Result<QueriedInterviewStage, FettersError>) -> bool {
    &&& ((forall|i: int| 0 <= i < a.stages.len() ==> a.stages[i].id != id) ==> {
        &&& r matches Err(FettersError::QueryError(QueryFailure::NotFound))
        &&& b == a
    })
    &&& ((exists|i: int| 0 <= i < a.stages.len() && a.stages[i].id == id) && bad_status_change(changes) ==> {
        &&& r matches Err(FettersError::QueryError(QueryFailure::CheckViolation))
        &&& b == a
    })
    &&& ((exists|i: int| 0 <= i < a.stages.len() && a.stages[i].id == id) && !bad_status_change(changes) ==> exists|k: int|
        0 <= k < a.stages.len() && (#[trigger] a.stages[k]).id == id && {
            &&& r matches Ok(row)
            &&& stage_updated(a.stages[k], changes, row)
            &&& b.stages == a.stages.update(k, row)
            &&& same_but_stages(a, b)
        })
}

/// What deleting a stage does: the row removed and returned.
pub open spec fn stage_delete_post(a: DbView, b: DbView, id: i32, r: Result<QueriedInterviewStage, FettersError>) -> bool {
    &&& ((forall|i: int| 0 <= i < a.stages.len() ==> a.stages[i].id != id) ==> {
        &&& r matches Err(FettersError::QueryError(QueryFailure::NotFound))
        &&& b == a
    })
    &&& ((exists|i: int| 0 <= i < a.stages.len() && a.stages[i].id == id) ==> exists|k: int|
        0 <= k < a.stages.len() && (#[trigger] a.stages[k]).id == id && {
            &&& r == Ok::<QueriedInterviewStage, FettersError>(a.stages[k])
            &&& b.stages == a.stages.remove(k)
            &&& same_but_stages(a, b)
        })
}

/// What renumbering a job's stages does: they carry 1, 2, ... in table order.
pub open spec fn renumber_post(a: DbView, b: DbView, job_id: i32, r: Result<(), FettersError>) -> bool {
    &&& (r is Ok)
    &&& (b.stages == renumbered(a.stages, job_id))
    &&& (same_but_stages(a, b))
}

impl Database {
    /// The store's invariants: established by every constructor, kept by every operation.
    pub open spec fn well_formed(&self) -> bool {
        wf(self@)
    }

    /// An empty store.
    pub fn new() -> (r: Database)
        ensures
            r.well_formed(),
            r@.sprints.len() == 0,
            r@.statuses.len() == 0,
            r@.titles.len() == 0,
            r@.jobs.len() == 0,
            r@.stages.len() == 0,
    {
        Database {
            sprints: Vec::new(),
            statuses: Vec::new(),
            titles: Vec::new(),
            jobs: Vec::new(),
            stages: Vec::new(),
        }
    }

    /// The position of the sprint with this identifier.
    pub(crate) fn find_sprint(&self, id: i32) -> (r: Option<usize>)
        ensures
            match r {
                Some(k) => k < self@.sprints.len() && self@.sprints[k as int].id == id,
                None => !has_sprint(self@, id),
            },
    {
        let mut i: usize = 0;
        while i < self.sprints.len()
            invariant
                i <= self.sprints.len(),
                forall|j: int| 0 <= j < i ==> self.sprints@[j].id != id,
            decreases self.sprints.len() - i,
        {
            if self.sprints[i].id == id {
                return Some(i);
            }
            i += 1;
        }
        None
    }

    /// The position of the sprint with this name.
    pub(crate) fn find_sprint_by_name(&self, name: &str) -> (r: Option<usize>)
        ensures
            match r {
                Some(k) => k < self@.sprints.len() && self@.sprints[k as int].name@ == name@,
                None => forall|j: int| 0 <= j < self@.sprints.len() ==> self@.sprints[j].name@ != name@,
            },
    {
        let mut i: usize = 0;
        while i < self.sprints.len()
            invariant
                i <= self.sprints.len(),
                forall|j: int| 0 <= j < i ==> self.sprints@[j].name@ != name@,
            decreases self.sprints.len() - i,
        {
            if str_eq(self.sprints[i].name.as_str(), name) {
                return Some(i);
            }
            i += 1;
        }
        None
    }

    /// The position of the status with this identifier.
    pub(crate) fn find_status(&self, id: i32) -> (r: Option<usize>)
        ensures
            match r {
                Some(k) => k < self@.statuses.len() && self@.statuses[k as int].id == id,
                None => !has_status(self@, id),
            },
    {
        let mut i: usize = 0;
        while i < self.statuses.len()
            invariant
                i <= self.statuses.len(),
                forall|j: int| 0 <= j < i ==> self.statuses@[j].id != id,
            decreases self.statuses.len() - i,
        {
            if self.statuses[i].id == id {
                return Some(i);
            }
            i += 1;
        }
        None
    }

    /// The position of the title with this identifier.
    pub(crate) fn find_title(&self, id: i32) -> (r: Option<usize>)
        ensures
            match r {
                Some(k) => k < self@.titles.len() && self@.titles[k as int].id == id,
                None => !has_title(self@, id),
            },
    {
        let mut i: usize = 0;
        while i < self.titles.len()
            invariant
                i <= self.titles.len(),
                forall|j: int| 0 <= j < i ==> self.titles@[j].id != id,
            decreases self.titles.len() - i,
        {
            if self.titles[i].id == id {
                return Some(i);
            }
            i += 1;
        }
        None
    }

    /// The position of the job with this identifier.
    pub(crate) fn find_job(&self, id: i32) -> (r: Option<usize>)
        ensures
            match r {
                Some(k) => k < self@.jobs.len() && self@.jobs[k as int].id == id,
                None => !has_job(self@, id),
            },
    {
        let mut i: usize = 0;
        while i < self.jobs.len()
            invariant
                i <= self.jobs.len(),
                forall|j: int| 0 <= j < i ==> self.jobs@[j].id != id,
            decreases self.jobs.len() - i,
        {
            if self.jobs[i].id == id {
                return Some(i);
            }
            i += 1;
        }
        None
    }
}


/// A sprint row made from a new sprint under identifier `id`.
pub open spec fn sprint_from(row: QueriedSprint, n: NewSprint, id: int) -> bool {
    &&& row.id == id
    &&& row.name@ == n.name@
    &&& row.start_date@ == n.start_date@
    &&& opt_view(row.end_date) == opt_str_view(n.end_date)
    &&& row.num_jobs == *n.num_jobs
}

/// Some sprint is named `name`.
pub open spec fn sprint_name_taken(v: DbView, name: Seq<char>) -> bool {
    exists|i: int| 0 <= i < v.sprints.len() && (#[trigger] v.sprints[i]).name@ == name
}

/// Only the sprints table may differ between `a` and `b`.
pub open spec fn same_but_sprints(a: DbView, b: DbView) -> bool {
    &&& b.statuses == a.statuses
    &&& b.titles == a.titles
    &&& b.jobs == a.jobs
    &&& b.stages == a.stages
}

/// The identifier after `last`, or 1 for an empty table; none when it would overflow.
pub(crate) fn next_after(last: Option<i32>) -> (r: Option<i32>)
    ensures
        match last {
            None => r == Some(1i32),
            Some(l) => if l < i32::MAX {
                r == Some((l + 1) as i32)
            } else {
                r is None
            },
        },
{
    match last {
        None => Some(1),
        Some(l) => if l < i32::MAX {
            Some(l + 1)
        } else {
            None
        },
    }
}

pub proof fn lemma_ids_push(ids: Seq<i32>, x: i32)
    requires
        ids_ok(ids),
        x == next_id(ids),
    ensures
        ids_ok(ids.push(x)),
{
    let s = ids.push(x);
    assert forall|i: int, j: int| 0 <= i < j < s.len() implies s[i] < s[j] by {
        if j == ids.len() {
            if ids.len() > 0 && i < ids.len() - 1 {
                assert(ids[i] < ids[ids.len() - 1]);
            }
        }
    }
    if ids.len() > 0 {
        assert(ids[ids.len() - 1] > ids.len() - 1);
    }
}

impl Database {
    fn last_sprint_id(&self) -> (r: Option<i32>)
        ensures
            r == (if self@.sprints.len() == 0 {
                None::<i32>
            } else {
                Some(self@.sprints.last().id)
            }),
    {
        proof { reveal_view(self); }
        if self.sprints.len() == 0 {
            None
        } else {
            Some(self.sprints[self.sprints.len() - 1].id)
        }
    }

    /// Adds a sprint. Fails with `SprintNameConflict` when the name is taken.
    pub fn add_sprint(&mut self, new_sprint: NewSprint) -> (r: Result<QueriedSprint, FettersError>)
        requires
            old(self).well_formed(),
        ensures
            final(self).well_formed(),
            sprint_add_post(old(self)@, final(self)@, new_sprint, r),
    {
        proof { reveal_view(self); }
        match self.find_sprint_by_name(new_sprint.name) {
            Some(k) => {
                return Err(FettersError::SprintNameConflict(new_sprint.name.to_owned()));
            },
            None => {},
        }
        let last = self.last_sprint_id();
        let id = match next_after(last) {
            Some(id) => id,
            None => {
                proof {
                    let ids = sprint_ids(self@.sprints);
                    assert(ids.last() == self@.sprints.last().id);
                }
                return Err(FettersError::QueryError(QueryFailure::IdExhausted));
            },
        };
        let row = QueriedSprint {
            id,
            name: new_sprint.name.to_owned(),
            start_date: new_sprint.start_date.to_owned(),
            end_date: owned_opt(new_sprint.end_date),
            num_jobs: *new_sprint.num_jobs,
        };
        let ghost before = self@;
        self.sprints.push(row.duplicate());
        proof {
            let ids = sprint_ids(before.sprints);
            if before.sprints.len() > 0 {
                assert(ids.last() == before.sprints.last().id);
            }
            lemma_ids_push(ids, id);
            assert(sprint_ids(self@.sprints) =~= ids.push(id));
            lemma_sprint_push_keeps(before, self@, row);
        }
        Ok(row)
    }
}

proof fn reveal_view(db: &Database)
    ensures
        db@ == (DbView {
            sprints: db.sprints@,
            statuses: db.statuses@,
            titles: db.titles@,
            jobs: db.jobs@,
            stages: db.stages@,
        }),
{
}

/// Appending a sprint with a fresh name and a larger identifier keeps the store
/// well formed.
proof fn lemma_sprint_push_keeps(a: DbView, b: DbView, row: QueriedSprint)
    requires
        wf(a),
        b.sprints == a.sprints.push(row),
        same_but_sprints(a, b),
        ids_ok(sprint_ids(b.sprints)),
        !sprint_name_taken(a, row.name@),
    ensures
        wf(b),
{
    assert forall|i: int| 0 <= i < b.jobs.len() implies has_sprint(b, (#[trigger] b.jobs[i]).sprint_id) by {
        let k = choose|k: int| 0 <= k < a.sprints.len() && (#[trigger] a.sprints[k]).id == a.jobs[i].sprint_id;
        assert(b.sprints[k] == a.sprints[k]);
    }
    assert forall|i: int, j: int|
        0 <= i < j < b.sprints.len() implies (#[trigger] b.sprints[i]).name@ != (#[trigger] b.sprints[j]).name@ by {
        if j == a.sprints.len() {
            assert(b.sprints[i] == a.sprints[i]);
        } else {
            assert(b.sprints[i] == a.sprints[i]);
            assert(b.sprints[j] == a.sprints[j]);
        }
    }
}

/// The sprint row after applying `ch` to `old_row`.
pub open spec fn sprint_updated(old_row: QueriedSprint, ch: SprintUpdate, row: QueriedSprint) -> bool {
    &&& row.id == old_row.id
    &&& row.name@ == (match ch.name {
        Some(n) => n@,
        None => old_row.name@,
    })
    &&& row.start_date@ == (match ch.start_date {
        Some(d) => d@,
        None => old_row.start_date@,
    })
    &&& opt_view(row.end_date) == (match ch.end_date {
        Some(e) => opt_str_view(e),
        None => opt_view(old_row.end_date),
    })
    &&& row.num_jobs == old_row.num_jobs
}

/// A sprint other than `id` is named `name`.
pub open spec fn sprint_name_taken_by_other(v: DbView, name: Seq<char>, id: i32) -> bool {
    exists|i: int|
        0 <= i < v.sprints.len() && (#[trigger] v.sprints[i]).name@ == name && v.sprints[i].id != id
}

/// The update renames sprint `id` to a name that another sprint has.
pub open spec fn rename_conflict(v: DbView, ch: SprintUpdate, id: i32) -> bool {
    match ch.name {
        Some(n) => sprint_name_taken_by_other(v, n@, id),
        None => false,
    }
}

/// `b` holds `row` in place of the sprint with its identifier, all else as in `a`.
pub open spec fn sprint_replaced(a: Seq<QueriedSprint>, b: Seq<QueriedSprint>, row: QueriedSprint) -> bool {
    &&& b.len() == a.len()
    &&& forall|i: int|
        0 <= i < a.len() ==> #[trigger] b[i] == if a[i].id == row.id {
            row
        } else {
            a[i]
        }
}

impl Database {
    /// Returns the sprint named `sprint_name`, or creates it with `today` as its start
    /// date, no end date and no jobs.
    pub fn get_or_create_sprint(&mut self, sprint_name: &str, today: &str) -> (r: Result<
        QueriedSprint,
        FettersError,
    >)
        requires
            old(self).well_formed(),
        ensures
            final(self).well_formed(),
            sprint_get_or_create_post(old(self)@, final(self)@, sprint_name, today, r),
    {
        proof { reveal_view(self); }
        match self.find_sprint_by_name(sprint_name) {
            Some(k) => {
                let row = self.sprints[k].duplicate();
                assert(self@.sprints[k as int] == row);
                return Ok(row);
            },
            None => {},
        }
        let zero: i32 = 0;
        self.add_sprint(NewSprint { name: sprint_name, start_date: today, end_date: None, num_jobs: &zero })
    }

    /// Changes the sprint `id`. Fails with `NotFound` when there is none, and with
    /// `SprintNameConflict` when another sprint has the new name.
    pub fn update_sprint(&mut self, id: i32, changes: SprintUpdate) -> (r: Result<QueriedSprint, FettersError>)
        requires
            old(self).well_formed(),
        ensures
            final(self).well_formed(),
            sprint_update_post(old(self)@, final(self)@, id, changes, r),
    {
        proof { reveal_view(self); }
        let k = match self.find_sprint(id) {
            Some(k) => k,
            None => {
                return Err(FettersError::QueryError(QueryFailure::NotFound));
            },
        };
        match changes.name {
            Some(n) => {
                if self.other_sprint_named(n, id) {
                    return Err(FettersError::SprintNameConflict(n.to_owned()));
                }
            },
            None => {},
        }
        let old_row = self.sprints[k].duplicate();
        let row = QueriedSprint {
            id: old_row.id,
            name: match changes.name {
                Some(n) => n.to_owned(),
                None => old_row.name.clone(),
            },
            start_date: match changes.start_date {
                Some(d) => d.to_owned(),
                None => old_row.start_date.clone(),
            },
            end_date: match changes.end_date {
                Some(e) => owned_opt(e),
                None => clone_opt(&old_row.end_date),
            },
            num_jobs: old_row.num_jobs,
        };
        let ghost before = self@;
        self.sprints.set(k, row.duplicate());
        proof {
            lemma_sprint_unique(before, id, k as int);
            assert(sprint_ids(self@.sprints) =~= sprint_ids(before.sprints));
            assert forall|i: int| 0 <= i < before.sprints.len() implies #[trigger] self@.sprints[i]
                == if before.sprints[i].id == row.id {
                row
            } else {
                before.sprints[i]
            } by {
                if i != k {
                    assert(before.sprints[i].id != before.sprints[k as int].id);
                }
            }
            assert forall|i: int| 0 <= i < self@.jobs.len() implies has_sprint(
                self@,
                (#[trigger] self@.jobs[i]).sprint_id,
            ) by {
                let m = choose|m: int|
                    0 <= m < before.sprints.len() && (#[trigger] before.sprints[m]).id
                        == before.jobs[i].sprint_id;
                assert(self@.sprints[m].id == before.sprints[m].id);
            }
            assert forall|i: int, j: int|
                0 <= i < j < self@.sprints.len() implies (#[trigger] self@.sprints[i]).name@
                != (#[trigger] self@.sprints[j]).name@ by {
                if i == k {
                    if changes.name is Some {
                        assert(before.sprints[j].id != id);
                    }
                } else if j == k {
                    if changes.name is Some {
                        assert(before.sprints[i].id != id);
                    }
                }
            }
            assert(self@.statuses == before.statuses);
            assert(self@.titles == before.titles);
            assert(self@.jobs == before.jobs);
            assert(self@.stages == before.stages);
            assert(ids_ok(sprint_ids(self@.sprints)));
            assert(wf(self@));
        }
        Ok(row)
    }

    fn other_sprint_named(&self, name: &str, id: i32) -> (r: bool)
        ensures
            r == sprint_name_taken_by_other(self@, name@, id),
    {
        proof { reveal_view(self); }
        let mut i: usize = 0;
        while i < self.sprints.len()
            invariant
                i <= self.sprints.len(),
                forall|j: int| 0 <= j < i ==> !(self.sprints@[j].name@ == name@ && self.sprints@[j].id != id),
            decreases self.sprints.len() - i,
        {
            if self.sprints[i].id != id && str_eq(self.sprints[i].name.as_str(), name) {
                return true;
            }
            i += 1;
        }
        false
    }

    /// All sprints, in identifier order.
    pub fn all_sprints(&self) -> (r: Vec<QueriedSprint>)
        ensures
            r@ == self@.sprints,
    {
        proof { reveal_view(self); }
        let mut out: Vec<QueriedSprint> = Vec::new();
        let mut i: usize = 0;
        while i < self.sprints.len()
            invariant
                i <= self.sprints.len(),
                out@ == self.sprints@.subrange(0, i as int),
            decreases self.sprints.len() - i,
        {
            out.push(self.sprints[i].duplicate());
            i += 1;
        }
        assert(out@ =~= self.sprints@);
        out
    }

    /// Changes the job counter of sprint `id` by `delta` (one or minus one). Does
    /// nothing when there is no such sprint; fails with `CounterOverflow`, changing
    /// nothing, when the counter would leave the range of `i32`.
    pub fn shift_num_jobs(&mut self, id: i32, delta: i32) -> (r: Result<(), FettersError>)
        requires
            old(self).well_formed(),
            delta == 1 || delta == -1,
        ensures
            final(self).well_formed(),
            counter_shift_post(old(self)@, final(self)@, id, delta, r),
    {
        proof { reveal_view(self); }
        let k = match self.find_sprint(id) {
            Some(k) => k,
            None => {
                proof {
                    assert(self@.sprints.len() == self.sprints@.len());
                }
                return Ok(());
            },
        };
        let n = self.sprints[k].num_jobs;
        proof {
            lemma_sprint_unique(self@, id, k as int);
        }
        if (delta == 1 && n == i32::MAX) || (delta == -1 && n == i32::MIN) {
            return Err(FettersError::QueryError(QueryFailure::CounterOverflow));
        }
        let mut row = self.sprints[k].duplicate();
        row.num_jobs = n + delta;
        let ghost before = self@;
        self.sprints.set(k, row);
        proof {
            assert(self@.sprints =~= bump_sprint(before.sprints, id, delta as int)) by {
                assert forall|i: int| 0 <= i < before.sprints.len() implies self@.sprints[i]
                    == bump_sprint(before.sprints, id, delta as int)[i] by {
                    if i != k {
                        assert(before.sprints[i].id != id);
                    }
                }
            }
            lemma_bump_keeps(before, self@, id, delta as int);
        }
        Ok(())
    }
}

/// The counter of sprint `id` stays in range after a change by `d`.
pub open spec fn counter_fits(v: DbView, id: i32, d: int) -> bool {
    counter_fits_in(v.sprints, id, d)
}

/// The counters of the sprints `id` in `s` stay in range after a change by `d`.
pub open spec fn counter_fits_in(s: Seq<QueriedSprint>, id: i32, d: int) -> bool {
    forall|i: int|
        0 <= i < s.len() && (#[trigger] s[i]).id == id ==> i32::MIN <= s[i].num_jobs + d <= i32::MAX
}

/// The sprints with the counters of sprint `id` moved by `delta`.
fn bump_vec(v: &Vec<QueriedSprint>, id: i32, delta: i32) -> (r: Vec<QueriedSprint>)
    requires
        counter_fits_in(v@, id, delta as int),
    ensures
        r@ == bump_sprint(v@, id, delta as int),
{
    let mut out: Vec<QueriedSprint> = Vec::new();
    let mut i: usize = 0;
    while i < v.len()
        invariant
            i <= v.len(),
            counter_fits_in(v@, id, delta as int),
            out@ == bump_sprint(v@, id, delta as int).subrange(0, i as int),
        decreases v.len() - i,
    {
        let mut row = v[i].duplicate();
        if row.id == id {
            row.num_jobs = row.num_jobs + delta;
        }
        out.push(row);
        i += 1;
        assert(out@ =~= bump_sprint(v@, id, delta as int).subrange(0, i as int));
    }
    assert(out@ =~= bump_sprint(v@, id, delta as int));
    out
}

proof fn lemma_sprint_unique(v: DbView, id: i32, k: int)
    requires
        wf(v),
        0 <= k < v.sprints.len(),
        v.sprints[k].id == id,
    ensures
        forall|i: int| 0 <= i < v.sprints.len() && v.sprints[i].id == id ==> i == k,
{
    assert forall|i: int| 0 <= i < v.sprints.len() && v.sprints[i].id == id implies i == k by {
        let ids = sprint_ids(v.sprints);
        if i < k {
            assert(ids[i] < ids[k]);
        } else if k < i {
            assert(ids[k] < ids[i]);
        }
    }
}

/// Changing a sprint counter keeps the store well formed.
proof fn lemma_bump_keeps(a: DbView, b: DbView, id: i32, d: int)
    requires
        wf(a),
        b.sprints == bump_sprint(a.sprints, id, d),
        same_but_sprints(a, b),
    ensures
        wf(b),
{
    assert(sprint_ids(b.sprints) =~= sprint_ids(a.sprints));
    assert forall|i: int| 0 <= i < b.jobs.len() implies has_sprint(b, (#[trigger] b.jobs[i]).sprint_id) by {
        let m = choose|m: int| 0 <= m < a.sprints.len() && (#[trigger] a.sprints[m]).id == a.jobs[i].sprint_id;
        assert(b.sprints[m].id == a.sprints[m].id);
    }
    assert forall|i: int, j: int|
        0 <= i < j < b.sprints.len() implies (#[trigger] b.sprints[i]).name@ != (#[trigger] b.sprints[j]).name@ by {
        assert(b.sprints[i].name == a.sprints[i].name);
        assert(b.sprints[j].name == a.sprints[j].name);
    }
}

/// The seven application statuses that every store holds once seeded.
pub open spec fn default_status_labels() -> Seq<Seq<char>> {
    seq![
        "GHOSTED"@,
        "HIRED"@,
        "IN PROGRESS"@,
        "NOT HIRING ANYMORE"@,
        "OFFER RECEIVED"@,
        "PENDING"@,
        "REJECTED"@,
    ]
}

/// The seven default statuses, in seeding order.
pub fn default_statuses() -> (r: Vec<&'static str>)
    ensures
        r@.len() == 7,
        forall|k: int| 0 <= k < 7 ==> (#[trigger] r@[k])@ == default_status_labels()[k],
{
    let r = vec![
        "GHOSTED",
        "HIRED",
        "IN PROGRESS",
        "NOT HIRING ANYMORE",
        "OFFER RECEIVED",
        "PENDING",
        "REJECTED",
    ];
    r
}

/// Some status is named `name`.
pub open spec fn status_named(v: DbView, name: Seq<char>) -> bool {
    exists|i: int| 0 <= i < v.statuses.len() && (#[trigger] v.statuses[i]).name@ == name
}

/// `b` keeps every status of `a` in place and adds only statuses named in `names`;
/// the other tables are unchanged.
pub open spec fn statuses_extended(a: DbView, b: DbView, names: Set<Seq<char>>) -> bool {
    &&& b.statuses.len() >= a.statuses.len()
    &&& forall|i: int| 0 <= i < a.statuses.len() ==> #[trigger] b.statuses[i] == a.statuses[i]
    &&& forall|i: int| a.statuses.len() <= i < b.statuses.len() ==> names.contains(#[trigger] b.statuses[i].name@)
    &&& b.sprints == a.sprints
    &&& b.titles == a.titles
    &&& b.jobs == a.jobs
    &&& b.stages == a.stages
}

/// What seeding makes of the store: the default statuses all present, and nothing
/// else added.
pub open spec fn seeded(a: DbView, b: DbView) -> bool {
    &&& statuses_extended(a, b, default_status_labels().to_set())
    &&& forall|k: int| 0 <= k < 7 ==> status_named(b, #[trigger] default_status_labels()[k])
}

/// Too few status identifiers are left to seed all seven statuses.
pub open spec fn status_ids_short(v: DbView) -> bool {
    next_id(status_ids(v.statuses)) > i32::MAX - 6
}

/// Some title is named `name`.
pub open spec fn title_named(v: DbView, name: Seq<char>) -> bool {
    exists|i: int| 0 <= i < v.titles.len() && (#[trigger] v.titles[i]).name@ == name
}

/// Only the titles table may differ between `a` and `b`.
pub open spec fn same_but_titles(a: DbView, b: DbView) -> bool {
    &&& b.sprints == a.sprints
    &&& b.statuses == a.statuses
    &&& b.jobs == a.jobs
    &&& b.stages == a.stages
}

/// Interning `name` in `a` gives the store `b` and the row `row`: the title already
/// named so, or a new one appended under the next identifier.
pub open spec fn title_interned(a: DbView, b: DbView, name: Seq<char>, row: QueriedTitle) -> bool {
    &&& row.name@ == name
    &&& title_named(a, name) ==> a.titles.contains(row) && b == a
    &&& !title_named(a, name) ==> {
        &&& row.id == next_id(title_ids(a.titles))
        &&& b.titles == a.titles.push(row)
        &&& same_but_titles(a, b)
    }
}

impl Database {
    fn status_present(&self, name: &str) -> (r: bool)
        ensures
            r == status_named(self@, name@),
    {
        proof { reveal_view(self); }
        let mut i: usize = 0;
        while i < self.statuses.len()
            invariant
                i <= self.statuses.len(),
                forall|j: int| 0 <= j < i ==> self.statuses@[j].name@ != name@,
            decreases self.statuses.len() - i,
        {
            if str_eq(self.statuses[i].name.as_str(), name) {
                assert(self@.statuses[i as int].name@ == name@);
                return true;
            }
            i += 1;
        }
        false
    }

    fn last_status_id(&self) -> (r: Option<i32>)
        ensures
            r == (if self@.statuses.len() == 0 {
                None::<i32>
            } else {
                Some(self@.statuses.last().id)
            }),
    {
        proof { reveal_view(self); }
        if self.statuses.len() == 0 {
            None
        } else {
            Some(self.statuses[self.statuses.len() - 1].id)
        }
    }

    /// Inserts a status named `name` unless one exists.
    fn ensure_status(&mut self, name: &str)
        requires
            old(self).well_formed(),
            next_id(status_ids(old(self)@.statuses)) <= i32::MAX,
        ensures
            final(self).well_formed(),
            status_named(final(self)@, name@),
            statuses_extended(old(self)@, final(self)@, set![name@]),
            status_named(old(self)@, name@) ==> final(self)@ == old(self)@,
            next_id(status_ids(final(self)@.statuses)) <= next_id(status_ids(old(self)@.statuses)) + 1,
    {
        proof { reveal_view(self); }
        if self.status_present(name) {
            return;
        }
        let last = self.last_status_id();
        let ghost before = self@;
        proof {
            if before.statuses.len() > 0 {
                assert(status_ids(before.statuses).last() == before.statuses.last().id);
            }
        }
        let id = match next_after(last) {
            Some(id) => id,
            None => 1,
        };
        let row = QueriedStatus { id, name: name.to_owned() };
        self.statuses.push(row);
        proof {
            let ids = status_ids(before.statuses);
            lemma_ids_push(ids, id);
            assert(status_ids(self@.statuses) =~= ids.push(id));
            assert(self@.statuses[before.statuses.len() as int].name@ == name@);
            assert forall|i: int, j: int|
                0 <= i < j < self@.statuses.len() implies (#[trigger] self@.statuses[i]).name@
                != (#[trigger] self@.statuses[j]).name@ by {
                assert(self@.statuses[i] == before.statuses[i]);
            }
            assert(status_ids(self@.statuses).last() == id);
            assert forall|i: int| 0 <= i < self@.jobs.len() implies has_status(
                self@,
                (#[trigger] self@.jobs[i]).status_id,
            ) by {
                let m = choose|m: int|
                    0 <= m < before.statuses.len() && (#[trigger] before.statuses[m]).id
                        == before.jobs[i].status_id;
                assert(self@.statuses[m] == before.statuses[m]);
            }
            assert(self@.sprints == before.sprints);
            assert(self@.titles == before.titles);
            assert(self@.jobs == before.jobs);
            assert(self@.stages == before.stages);
            assert(wf(self@));
        }
    }

    fn all_statuses_present(&self, all: &Vec<&'static str>) -> (r: bool)
        requires
            all@.len() == 7,
            forall|k: int| 0 <= k < 7 ==> (#[trigger] all@[k])@ == default_status_labels()[k],
        ensures
            r == forall|k: int| 0 <= k < 7 ==> status_named(self@, #[trigger] default_status_labels()[k]),
    {
        let ghost labels = default_status_labels();
        proof {
            assert forall|k: int| 0 <= k < 7 implies all@[k]@ == #[trigger] labels[k] by {
                assert(all@[k]@ == default_status_labels()[k]);
            }
        }
        let mut i: usize = 0;
        while i < 7
            invariant
                i <= 7,
                all@.len() == 7,
                forall|k: int| 0 <= k < 7 ==> all@[k]@ == #[trigger] labels[k],
                labels == default_status_labels(),
                forall|k: int| 0 <= k < i ==> status_named(self@, #[trigger] labels[k]),
            decreases 7 - i,
        {
            if !self.status_present(all[i]) {
                return false;
            }
            i += 1;
        }
        true
    }

    /// Stores the seven default statuses, each unless one of that name exists.
    /// Fails, changing nothing, when too few identifiers are left.
    pub fn seed_statuses(&mut self) -> (r: Result<(), FettersError>)
        requires
            old(self).well_formed(),
        ensures
            final(self).well_formed(),
            seed_post(old(self)@, final(self)@, r),
    {
        let ghost start = self@;
        let ghost labels = default_status_labels();
        let all = default_statuses();
        if self.all_statuses_present(&all) {
            proof {
                lemma_extended_refl(start, labels.to_set());
            }
            return Ok(());
        }
        let last = self.last_status_id();
        proof {
            if start.statuses.len() > 0 {
                assert(status_ids(start.statuses).last() == start.statuses.last().id);
            }
        }
        match last {
            Some(l) => {
                if l > i32::MAX - 7 {
                    return Err(FettersError::QueryError(QueryFailure::IdExhausted));
                }
            },
            None => {},
        }
        proof {
            assert forall|k: int| 0 <= k < 7 implies all@[k]@ == #[trigger] labels[k] by {
                assert(all@[k]@ == default_status_labels()[k]);
            }
            lemma_extended_refl(start, labels.to_set());
        }
        self.ensure_status(all[0]);
        proof { lemma_seed_step(start, self@, labels, 0); }
        let ghost s1 = self@;
        self.ensure_status(all[1]);
        proof { lemma_seed_chain(start, s1, self@, labels, 1); }
        let ghost s2 = self@;
        self.ensure_status(all[2]);
        proof { lemma_seed_chain(start, s2, self@, labels, 2); }
        let ghost s3 = self@;
        self.ensure_status(all[3]);
        proof { lemma_seed_chain(start, s3, self@, labels, 3); }
        let ghost s4 = self@;
        self.ensure_status(all[4]);
        proof { lemma_seed_chain(start, s4, self@, labels, 4); }
        let ghost s5 = self@;
        self.ensure_status(all[5]);
        proof { lemma_seed_chain(start, s5, self@, labels, 5); }
        let ghost s6 = self@;
        self.ensure_status(all[6]);
        proof { lemma_seed_chain(start, s6, self@, labels, 6); }
        Ok(())
    }
}

proof fn lemma_extended_refl(a: DbView, names: Set<Seq<char>>)
    ensures
        statuses_extended(a, a, names),
{
}

/// The first seeding step: the first label is present and only it was added.
proof fn lemma_seed_step(a: DbView, b: DbView, labels: Seq<Seq<char>>, k: int)
    requires
        labels == default_status_labels(),
        k == 0,
        statuses_extended(a, b, set![labels[0]]),
        status_named(b, labels[0]),
    ensures
        statuses_extended(a, b, labels.to_set()),
        forall|m: int| 0 <= m <= k ==> status_named(b, #[trigger] labels[m]),
{
    assert(labels.to_set().contains(labels[0]));
}

/// A later seeding step: the labels seen so far stay present, the new one is
/// present, and only default labels were added since the start.
proof fn lemma_seed_chain(a: DbView, b: DbView, c: DbView, labels: Seq<Seq<char>>, k: int)
    requires
        labels == default_status_labels(),
        0 < k < 7,
        statuses_extended(a, b, labels.to_set()),
        forall|m: int| 0 <= m < k ==> status_named(b, #[trigger] labels[m]),
        statuses_extended(b, c, set![labels[k]]),
        status_named(c, labels[k]),
    ensures
        statuses_extended(a, c, labels.to_set()),
        forall|m: int| 0 <= m <= k ==> status_named(c, #[trigger] labels[m]),
{
    assert(labels.to_set().contains(labels[k]));
    assert forall|i: int| a.statuses.len() <= i < c.statuses.len() implies labels.to_set().contains(
        #[trigger] c.statuses[i].name@,
    ) by {
        if i < b.statuses.len() {
            assert(c.statuses[i] == b.statuses[i]);
        }
    }
    assert forall|m: int| 0 <= m <= k implies status_named(c, #[trigger] labels[m]) by {
        if m < k {
            let i = choose|i: int| 0 <= i < b.statuses.len() && (#[trigger] b.statuses[i]).name@ == labels[m];
            assert(c.statuses[i] == b.statuses[i]);
        }
    }
}


impl Database {
    /// All statuses, in identifier order.
    pub fn all_statuses(&self) -> (r: Vec<QueriedStatus>)
        ensures
            r@ == self@.statuses,
    {
        proof { reveal_view(self); }
        let mut out: Vec<QueriedStatus> = Vec::new();
        let mut i: usize = 0;
        while i < self.statuses.len()
            invariant
                i <= self.statuses.len(),
                out@ == self.statuses@.subrange(0, i as int),
            decreases self.statuses.len() - i,
        {
            out.push(self.statuses[i].duplicate());
            i += 1;
        }
        assert(out@ =~= self.statuses@);
        out
    }

    /// All titles, in identifier order.
    pub fn all_titles(&self) -> (r: Vec<QueriedTitle>)
        ensures
            r@ == self@.titles,
    {
        proof { reveal_view(self); }
        let mut out: Vec<QueriedTitle> = Vec::new();
        let mut i: usize = 0;
        while i < self.titles.len()
            invariant
                i <= self.titles.len(),
                out@ == self.titles@.subrange(0, i as int),
            decreases self.titles.len() - i,
        {
            out.push(self.titles[i].duplicate());
            i += 1;
        }
        assert(out@ =~= self.titles@);
        out
    }

    /// The title with identifier `id`; `NotFound` when there is none.
    pub fn title_by_id(&self, id: i32) -> (r: Result<QueriedTitle, FettersError>)
        ensures
            has_title(self@, id) <==> r is Ok,
            r matches Ok(row) ==> self@.titles.contains(row) && row.id == id,
            r is Err ==> r matches Err(FettersError::QueryError(QueryFailure::NotFound)),
    {
        proof { reveal_view(self); }
        match self.find_title(id) {
            Some(k) => {
                let row = self.titles[k].duplicate();
                assert(self@.titles[k as int] == row);
                Ok(row)
            },
            None => Err(FettersError::QueryError(QueryFailure::NotFound)),
        }
    }

    fn find_title_by_name(&self, name: &str) -> (r: Option<usize>)
        ensures
            match r {
                Some(k) => k < self@.titles.len() && self@.titles[k as int].name@ == name@,
                None => !title_named(self@, name@),
            },
    {
        proof { reveal_view(self); }
        let mut i: usize = 0;
        while i < self.titles.len()
            invariant
                i <= self.titles.len(),
                forall|j: int| 0 <= j < i ==> self.titles@[j].name@ != name@,
            decreases self.titles.len() - i,
        {
            if str_eq(self.titles[i].name.as_str(), name) {
                return Some(i);
            }
            i += 1;
        }
        None
    }

    fn last_title_id(&self) -> (r: Option<i32>)
        ensures
            r == (if self@.titles.len() == 0 {
                None::<i32>
            } else {
                Some(self@.titles.last().id)
            }),
    {
        proof { reveal_view(self); }
        if self.titles.len() == 0 {
            None
        } else {
            Some(self.titles[self.titles.len() - 1].id)
        }
    }

    /// Returns the title named `name`, inserting it first when there is none.
    pub fn intern_title(&mut self, name: &str) -> (r: Result<QueriedTitle, FettersError>)
        requires
            old(self).well_formed(),
        ensures
            final(self).well_formed(),
            title_intern_post(old(self)@, final(self)@, name, r),
    {
        proof { reveal_view(self); }
        match self.find_title_by_name(name) {
            Some(k) => {
                let row = self.titles[k].duplicate();
                assert(self@.titles[k as int] == row);
                return Ok(row);
            },
            None => {},
        }
        let last = self.last_title_id();
        let ghost before = self@;
        proof {
            if before.titles.len() > 0 {
                assert(title_ids(before.titles).last() == before.titles.last().id);
            }
        }
        let id = match next_after(last) {
            Some(id) => id,
            None => {
                return Err(FettersError::QueryError(QueryFailure::IdExhausted));
            },
        };
        let row = QueriedTitle { id, name: name.to_owned() };
        self.titles.push(row.duplicate());
        proof {
            let ids = title_ids(before.titles);
            lemma_ids_push(ids, id);
            assert(title_ids(self@.titles) =~= ids.push(id));
            assert forall|i: int, j: int|
                0 <= i < j < self@.titles.len() implies (#[trigger] self@.titles[i]).name@
                != (#[trigger] self@.titles[j]).name@ by {
                assert(self@.titles[i] == before.titles[i]);
            }
            assert forall|i: int| 0 <= i < self@.jobs.len() implies has_title(
                self@,
                (#[trigger] self@.jobs[i]).title_id,
            ) by {
                let m = choose|m: int|
                    0 <= m < before.titles.len() && (#[trigger] before.titles[m]).id
                        == before.jobs[i].title_id;
                assert(self@.titles[m] == before.titles[m]);
            }
            assert(self@.sprints == before.sprints);
            assert(self@.statuses == before.statuses);
            assert(self@.jobs == before.jobs);
            assert(self@.stages == before.stages);
            assert(wf(self@));
        }
        Ok(row)
    }
}

/// A job row made from a new job under identifier `id`.
pub open spec fn job_from(row: QueriedJob, n: NewJob, id: int) -> bool {
    &&& row.id == id
    &&& row.created@ == n.created@
    &&& row.company_name@ == n.company_name@
    &&& row.title_id == n.title_id
    &&& row.status_id == n.status_id
    &&& opt_view(row.link) == opt_str_view(n.link)
    &&& opt_view(row.notes) == opt_str_view(n.notes)
    &&& row.sprint_id == n.sprint_id
}

/// The sprint, status and title that a job names all exist.
pub open spec fn job_refs_ok(v: DbView, sprint_id: i32, status_id: i32, title_id: i32) -> bool {
    has_sprint(v, sprint_id) && has_status(v, status_id) && has_title(v, title_id)
}

/// `b` is `a` with `row` appended to the jobs and its sprint's counter raised by one.
pub open spec fn job_added(a: DbView, b: DbView, row: QueriedJob) -> bool {
    &&& row.id == next_id(job_ids(a.jobs))
    &&& b.jobs == a.jobs.push(row)
    &&& b.sprints == bump_sprint(a.sprints, row.sprint_id, 1)
    &&& b.statuses == a.statuses
    &&& b.titles == a.titles
    &&& b.stages == a.stages
}

/// The stages that do not belong to job `job_id`, in order.
pub open spec fn stages_without(s: Seq<QueriedInterviewStage>, job_id: i32) -> Seq<QueriedInterviewStage>
    decreases s.len(),
{
    if s.len() == 0 {
        s
    } else if s.last().job_id == job_id {
        stages_without(s.drop_last(), job_id)
    } else {
        stages_without(s.drop_last(), job_id).push(s.last())
    }
}

/// `b` is `a` without job `a.jobs[k]` and its stages, with its sprint's counter
/// lowered by one.
pub open spec fn job_deleted(a: DbView, b: DbView, k: int) -> bool {
    &&& 0 <= k < a.jobs.len()
    &&& b.jobs == a.jobs.remove(k)
    &&& b.sprints == bump_sprint(a.sprints, a.jobs[k].sprint_id, -1)
    &&& b.stages == stages_without(a.stages, a.jobs[k].id)
    &&& b.statuses == a.statuses
    &&& b.titles == a.titles
}

pub proof fn lemma_jobs_in_sprint_push(jobs: Seq<QueriedJob>, row: QueriedJob, sid: i32)
    ensures
        jobs_in_sprint(jobs.push(row), sid) == jobs_in_sprint(jobs, sid) + if row.sprint_id == sid {
            1int
        } else {
            0int
        },
{
    assert(jobs.push(row).drop_last() =~= jobs);
}

pub proof fn lemma_jobs_in_sprint_remove(jobs: Seq<QueriedJob>, k: int, sid: i32)
    requires
        0 <= k < jobs.len(),
    ensures
        jobs_in_sprint(jobs.remove(k), sid) + (if jobs[k].sprint_id == sid {
            1int
        } else {
            0int
        }) == jobs_in_sprint(jobs, sid),
    decreases jobs.len(),
{
    if k == jobs.len() - 1 {
        assert(jobs.remove(k) =~= jobs.drop_last());
    } else {
        let d = jobs.drop_last();
        lemma_jobs_in_sprint_remove(d, k, sid);
        assert(jobs.remove(k) =~= d.remove(k).push(jobs.last()));
        lemma_jobs_in_sprint_push(d.remove(k), jobs.last(), sid);
    }
}

/// Adding a job keeps every sprint counter equal to its number of jobs.
pub proof fn lemma_add_keeps_counters(a: DbView, b: DbView, row: QueriedJob)
    requires
        counters_consistent(a),
        job_added(a, b, row),
        counter_fits(a, row.sprint_id, 1),
    ensures
        counters_consistent(b),
{
    assert forall|i: int| 0 <= i < b.sprints.len() implies (#[trigger] b.sprints[i]).num_jobs as int
        == jobs_in_sprint(b.jobs, b.sprints[i].id) by {
        lemma_jobs_in_sprint_push(a.jobs, row, a.sprints[i].id);
    }
}

/// Deleting a job keeps every sprint counter equal to its number of jobs.
pub proof fn lemma_delete_keeps_counters(a: DbView, b: DbView, k: int)
    requires
        counters_consistent(a),
        job_deleted(a, b, k),
        counter_fits(a, a.jobs[k].sprint_id, -1),
    ensures
        counters_consistent(b),
{
    assert forall|i: int| 0 <= i < b.sprints.len() implies (#[trigger] b.sprints[i]).num_jobs as int
        == jobs_in_sprint(b.jobs, b.sprints[i].id) by {
        lemma_jobs_in_sprint_remove(a.jobs, k, a.sprints[i].id);
    }
}

pub proof fn lemma_ids_remove(ids: Seq<i32>, k: int)
    requires
        ids_ok(ids),
        0 <= k < ids.len(),
    ensures
        ids_ok(ids.remove(k)),
{
    let r = ids.remove(k);
    assert forall|i: int, j: int| 0 <= i < j < r.len() implies r[i] < r[j] by {
        let i2 = if i < k { i } else { i + 1 };
        let j2 = if j < k { j } else { j + 1 };
        assert(r[i] == ids[i2] && r[j] == ids[j2]);
    }
    assert forall|i: int| 0 <= i < r.len() implies r[i] > i by {
        let i2 = if i < k { i } else { i + 1 };
        assert(r[i] == ids[i2]);
    }
}

/// Every stage kept is a stage of the input, and the per-job order and the
/// identifier invariants carry over.
proof fn lemma_stages_without(s: Seq<QueriedInterviewStage>, job_id: i32)
    requires
        ids_ok(stage_ids(s)),
        forall|i: int, j: int|
            0 <= i < j < s.len() && (#[trigger] s[i]).job_id == (#[trigger] s[j]).job_id ==> s[i].stage_number
                < s[j].stage_number,
    ensures
        forall|i: int| 0 <= i < stages_without(s, job_id).len() ==> s.contains(#[trigger] stages_without(s, job_id)[i]),
        forall|i: int| 0 <= i < stages_without(s, job_id).len() ==> (#[trigger] stages_without(s, job_id)[i]).job_id != job_id,
        stages_without(s, job_id).len() <= s.len(),
        ids_ok(stage_ids(stages_without(s, job_id))),
        forall|i: int, j: int|
            0 <= i < j < stages_without(s, job_id).len() && (#[trigger] stages_without(s, job_id)[i]).job_id
                == (#[trigger] stages_without(s, job_id)[j]).job_id ==> stages_without(s, job_id)[i].stage_number
                < stages_without(s, job_id)[j].stage_number,
    decreases s.len(),
{
    if s.len() > 0 {
        let d = s.drop_last();
        assert(stage_ids(d) =~= stage_ids(s).drop_last());
        lemma_stages_without(d, job_id);
        let k = stages_without(d, job_id);
        assert forall|i: int| 0 <= i < k.len() implies s.contains(#[trigger] k[i]) by {
            let m = choose|m: int| 0 <= m < d.len() && d[m] == k[i];
            assert(s[m] == d[m]);
        }
        if s.last().job_id != job_id {
            let r = k.push(s.last());
            assert forall|i: int| 0 <= i < r.len() implies s.contains(#[trigger] r[i]) by {
                if i == k.len() {
                    assert(s[s.len() - 1] == r[i]);
                }
            }
            // Every kept stage before the last has a smaller identifier and position.
            assert forall|i: int| 0 <= i < k.len() implies (#[trigger] k[i]).id < s.last().id by {
                let m = choose|m: int| 0 <= m < d.len() && d[m] == k[i];
                assert(stage_ids(s)[m] < stage_ids(s)[s.len() - 1]);
            }
            assert forall|i: int|
                0 <= i < k.len() && (#[trigger] k[i]).job_id == s.last().job_id implies k[i].stage_number
                < s.last().stage_number by {
                let m = choose|m: int| 0 <= m < d.len() && d[m] == k[i];
                assert(s[m] == k[i]);
            }
            let ri = stage_ids(r);
            assert(ri =~= stage_ids(k).push(s.last().id));
            assert(stage_ids(s)[s.len() - 1] > s.len() - 1);
            assert forall|i: int, j: int| 0 <= i < j < ri.len() implies ri[i] < ri[j] by {
                if j == k.len() {
                    assert(ri[i] == k[i].id);
                } else {
                    assert(stage_ids(k)[i] < stage_ids(k)[j]);
                }
            }
            assert forall|i: int| 0 <= i < ri.len() implies ri[i] > i by {
                if i < k.len() {
                    assert(stage_ids(k)[i] > i);
                }
            }
        }
    }
}

/// The job row after applying `ch` to `old_row`.
pub open spec fn job_updated(old_row: QueriedJob, ch: JobUpdate, row: QueriedJob) -> bool {
    &&& row.id == old_row.id
    &&& row.created == old_row.created
    &&& row.company_name@ == (match ch.company_name {
        Some(c) => c@,
        None => old_row.company_name@,
    })
    &&& row.title_id == (match ch.title_id {
        Some(t) => t,
        None => old_row.title_id,
    })
    &&& row.status_id == (match ch.status_id {
        Some(t) => t,
        None => old_row.status_id,
    })
    &&& opt_view(row.link) == (match ch.link {
        Some(l) => Some(l@),
        None => opt_view(old_row.link),
    })
    &&& opt_view(row.notes) == (match ch.notes {
        Some(l) => Some(l@),
        None => opt_view(old_row.notes),
    })
    &&& row.sprint_id == (match ch.sprint_id {
        Some(t) => t,
        None => old_row.sprint_id,
    })
}

/// `b` holds `row` in place of `a.jobs[k]`, and when the job moved to another
/// sprint, the old sprint's counter is one lower and the new one's one higher.
pub open spec fn job_changed(a: DbView, b: DbView, k: int, row: QueriedJob) -> bool {
    &&& 0 <= k < a.jobs.len()
    &&& b.jobs == a.jobs.update(k, row)
    &&& b.sprints == if row.sprint_id == a.jobs[k].sprint_id {
        a.sprints
    } else {
        bump_sprint(bump_sprint(a.sprints, a.jobs[k].sprint_id, -1), row.sprint_id, 1)
    }
    &&& b.statuses == a.statuses
    &&& b.titles == a.titles
    &&& b.stages == a.stages
}

proof fn lemma_sprints_bumped_keep_ids(a: Seq<QueriedSprint>, id: i32, d: int)
    ensures
        sprint_ids(bump_sprint(a, id, d)) == sprint_ids(a),
        bump_sprint(a, id, d).len() == a.len(),
        forall|i: int| 0 <= i < a.len() ==> (#[trigger] bump_sprint(a, id, d)[i]).name == a[i].name,
        forall|i: int| 0 <= i < a.len() ==> (#[trigger] bump_sprint(a, id, d)[i]).id == a[i].id,
{
    assert(sprint_ids(bump_sprint(a, id, d)) =~= sprint_ids(a));
}

/// A store that differs from a well-formed one only by a changed job table whose
/// rows keep the invariants, and by sprint counters, is well formed.
proof fn lemma_jobs_changed_keeps(a: DbView, b: DbView)
    requires
        wf(a),
        sprint_ids(b.sprints) == sprint_ids(a.sprints),
        b.sprints.len() == a.sprints.len(),
        forall|i: int| 0 <= i < a.sprints.len() ==> (#[trigger] b.sprints[i]).name == a.sprints[i].name,
        b.statuses == a.statuses,
        b.titles == a.titles,
        ids_ok(job_ids(b.jobs)),
        forall|i: int| 0 <= i < b.jobs.len() ==> job_refs_ok(a, (#[trigger] b.jobs[i]).sprint_id, b.jobs[i].status_id, b.jobs[i].title_id),
        ids_ok(stage_ids(b.stages)),
        forall|i: int| 0 <= i < b.stages.len() ==> has_job(b, (#[trigger] b.stages[i]).job_id) && is_stage_label(b.stages[i].status@),
        forall|i: int, j: int|
            0 <= i < j < b.stages.len() && (#[trigger] b.stages[i]).job_id == (#[trigger] b.stages[j]).job_id
                ==> b.stages[i].stage_number < b.stages[j].stage_number,
    ensures
        wf(b),
{
    assert forall|i: int| 0 <= i < b.jobs.len() implies has_sprint(b, (#[trigger] b.jobs[i]).sprint_id) by {
        assert(job_refs_ok(a, b.jobs[i].sprint_id, b.jobs[i].status_id, b.jobs[i].title_id));
        let m = choose|m: int| 0 <= m < a.sprints.len() && (#[trigger] a.sprints[m]).id == b.jobs[i].sprint_id;
        assert(sprint_ids(b.sprints)[m] == sprint_ids(a.sprints)[m]);
        assert(b.sprints[m].id == sprint_ids(b.sprints)[m]);
        assert(a.sprints[m].id == sprint_ids(a.sprints)[m]);
    }
    assert forall|i: int, j: int|
        0 <= i < j < b.sprints.len() implies (#[trigger] b.sprints[i]).name@ != (#[trigger] b.sprints[j]).name@ by {
        assert(b.sprints[i].name == a.sprints[i].name);
        assert(b.sprints[j].name == a.sprints[j].name);
    }
}

pub proof fn lemma_jobs_in_sprint_update(jobs: Seq<QueriedJob>, k: int, row: QueriedJob, sid: i32)
    requires
        0 <= k < jobs.len(),
    ensures
        jobs_in_sprint(jobs.update(k, row), sid) + (if jobs[k].sprint_id == sid {
            1int
        } else {
            0int
        }) == jobs_in_sprint(jobs, sid) + (if row.sprint_id == sid {
            1int
        } else {
            0int
        }),
    decreases jobs.len(),
{
    if k == jobs.len() - 1 {
        assert(jobs.update(k, row) =~= jobs.drop_last().push(row));
        lemma_jobs_in_sprint_push(jobs.drop_last(), row, sid);
    } else {
        let d = jobs.drop_last();
        lemma_jobs_in_sprint_update(d, k, row, sid);
        assert(jobs.update(k, row) =~= d.update(k, row).push(jobs.last()));
        lemma_jobs_in_sprint_push(d.update(k, row), jobs.last(), sid);
    }
}

/// Changing a job, its sprint included, keeps every sprint counter equal to its
/// number of jobs.
pub proof fn lemma_change_keeps_counters(a: DbView, b: DbView, k: int, row: QueriedJob)
    requires
        counters_consistent(a),
        job_changed(a, b, k, row),
        row.sprint_id != a.jobs[k].sprint_id ==> counter_fits(a, a.jobs[k].sprint_id, -1) && counter_fits(
            a,
            row.sprint_id,
            1,
        ),
    ensures
        counters_consistent(b),
{
    assert forall|i: int| 0 <= i < b.sprints.len() implies (#[trigger] b.sprints[i]).num_jobs as int
        == jobs_in_sprint(b.jobs, b.sprints[i].id) by {
        lemma_jobs_in_sprint_update(a.jobs, k, row, a.sprints[i].id);
        if row.sprint_id != a.jobs[k].sprint_id {
            let m = bump_sprint(a.sprints, a.jobs[k].sprint_id, -1);
            assert(m[i].id == a.sprints[i].id);
        }
    }
}

impl Database {
    fn last_job_id(&self) -> (r: Option<i32>)
        ensures
            r == (if self@.jobs.len() == 0 {
                None::<i32>
            } else {
                Some(self@.jobs.last().id)
            }),
    {
        proof { reveal_view(self); }
        if self.jobs.len() == 0 {
            None
        } else {
            Some(self.jobs[self.jobs.len() - 1].id)
        }
    }

    /// Whether the counter of the sprint at position `k` can move by `delta`.
    fn counter_room(&self, k: usize, delta: i32) -> (r: bool)
        requires
            self.well_formed(),
            k < self@.sprints.len(),
            delta == 1 || delta == -1,
        ensures
            r == counter_fits(self@, self@.sprints[k as int].id, delta as int),
    {
        proof {
            reveal_view(self);
            lemma_sprint_unique(self@, self@.sprints[k as int].id, k as int);
        }
        let n = self.sprints[k].num_jobs;
        !((delta == 1 && n == i32::MAX) || (delta == -1 && n == i32::MIN))
    }

    /// The sprint table with the counter of the sprint at `k` moved by `delta`.
    fn bumped_sprints(&self, k: usize, delta: i32) -> (r: Vec<QueriedSprint>)
        requires
            self.well_formed(),
            k < self@.sprints.len(),
            counter_fits(self@, self@.sprints[k as int].id, delta as int),
        ensures
            r@ == bump_sprint(self@.sprints, self@.sprints[k as int].id, delta as int),
    {
        proof {
            reveal_view(self);
            lemma_sprint_unique(self@, self@.sprints[k as int].id, k as int);
        }
        bump_vec(&self.sprints, self.sprints[k].id, delta)
    }

    /// The stages that do not belong to job `job_id`.
    fn stages_kept(&self, job_id: i32) -> (r: Vec<QueriedInterviewStage>)
        ensures
            r@ == stages_without(self@.stages, job_id),
    {
        proof { reveal_view(self); }
        let mut out: Vec<QueriedInterviewStage> = Vec::new();
        let mut i: usize = 0;
        while i < self.stages.len()
            invariant
                i <= self.stages.len(),
                out@ == stages_without(self.stages@.subrange(0, i as int), job_id),
            decreases self.stages.len() - i,
        {
            let ghost pre = self.stages@.subrange(0, i as int);
            if self.stages[i].job_id != job_id {
                out.push(self.stages[i].duplicate());
            }
            i += 1;
            assert(self.stages@.subrange(0, i as int).drop_last() =~= pre);
        }
        assert(self.stages@.subrange(0, i as int) =~= self.stages@);
        out
    }

    /// Adds a job and raises its sprint's counter. Fails, changing nothing, with
    /// `ForeignKeyViolation` when its sprint, status or title does not exist,
    /// `IdExhausted` when no identifier is left, and `CounterOverflow` when the
    /// sprint's counter is at its maximum.
    pub fn add_job(&mut self, new_job: NewJob) -> (r: Result<QueriedJob, FettersError>)
        requires
            old(self).well_formed(),
        ensures
            final(self).well_formed(),
            job_add_post(old(self)@, final(self)@, new_job, r),
    {
        proof { reveal_view(self); }
        let sk = match self.find_sprint(new_job.sprint_id) {
            Some(k) => k,
            None => {
                return Err(FettersError::QueryError(QueryFailure::ForeignKeyViolation));
            },
        };
        if self.find_status(new_job.status_id).is_none() || self.find_title(new_job.title_id).is_none() {
            return Err(FettersError::QueryError(QueryFailure::ForeignKeyViolation));
        }
        let last = self.last_job_id();
        let ghost before = self@;
        proof {
            if before.jobs.len() > 0 {
                assert(job_ids(before.jobs).last() == before.jobs.last().id);
            }
        }
        let id = match next_after(last) {
            Some(id) => id,
            None => {
                return Err(FettersError::QueryError(QueryFailure::IdExhausted));
            },
        };
        if !self.counter_room(sk, 1) {
            return Err(FettersError::QueryError(QueryFailure::CounterOverflow));
        }
        let sprints = self.bumped_sprints(sk, 1);
        let row = QueriedJob {
            id,
            created: new_job.created.clone(),
            company_name: new_job.company_name.to_owned(),
            title_id: new_job.title_id,
            status_id: new_job.status_id,
            link: owned_opt(new_job.link),
            notes: owned_opt(new_job.notes),
            sprint_id: new_job.sprint_id,
        };
        self.jobs.push(row.duplicate());
        self.sprints = sprints;
        proof {
            let ids = job_ids(before.jobs);
            lemma_ids_push(ids, id);
            assert(job_ids(self@.jobs) =~= ids.push(id));
            lemma_sprints_bumped_keep_ids(before.sprints, new_job.sprint_id, 1);
            assert forall|i: int| 0 <= i < self@.jobs.len() implies job_refs_ok(
                before,
                (#[trigger] self@.jobs[i]).sprint_id,
                self@.jobs[i].status_id,
                self@.jobs[i].title_id,
            ) by {
                if i < before.jobs.len() {
                    assert(self@.jobs[i] == before.jobs[i]);
                }
            }
            assert forall|i: int| 0 <= i < self@.stages.len() implies has_job(
                self@,
                (#[trigger] self@.stages[i]).job_id,
            ) && is_stage_label(self@.stages[i].status@) by {
                let m = choose|m: int| 0 <= m < before.jobs.len() && (#[trigger] before.jobs[m]).id
                    == before.stages[i].job_id;
                assert(self@.jobs[m] == before.jobs[m]);
            }
            lemma_jobs_changed_keeps(before, self@);
            if counters_consistent(before) {
                lemma_add_keeps_counters(before, self@, row);
            }
        }
        Ok(row)
    }

    /// Deletes job `id` with its stages and lowers its sprint's counter; returns the
    /// deleted row. Fails, changing nothing, with `NotFound` when there is no such
    /// job and with `CounterOverflow` when the counter is at its minimum.
    pub fn delete_job(&mut self, id: i32) -> (r: Result<QueriedJob, FettersError>)
        requires
            old(self).well_formed(),
        ensures
            final(self).well_formed(),
            job_delete_post(old(self)@, final(self)@, id, r),
    {
        proof { reveal_view(self); }
        let k = match self.find_job(id) {
            Some(k) => k,
            None => {
                return Err(FettersError::QueryError(QueryFailure::NotFound));
            },
        };
        let row = self.jobs[k].duplicate();
        let sk = match self.find_sprint(row.sprint_id) {
            Some(sk) => sk,
            None => {
                proof {
                    assert(has_sprint(self@, self@.jobs[k as int].sprint_id));
                }
                return Err(FettersError::QueryError(QueryFailure::ForeignKeyViolation));
            },
        };
        if !self.counter_room(sk, -1) {
            return Err(FettersError::QueryError(QueryFailure::CounterOverflow));
        }
        let sprints = self.bumped_sprints(sk, -1);
        let stages = self.stages_kept(id);
        let ghost before = self@;
        self.jobs.remove(k);
        self.sprints = sprints;
        self.stages = stages;
        proof {
            assert(job_deleted(before, self@, k as int));
            lemma_ids_remove(job_ids(before.jobs), k as int);
            assert(job_ids(self@.jobs) =~= job_ids(before.jobs).remove(k as int));
            lemma_sprints_bumped_keep_ids(before.sprints, row.sprint_id, -1);
            lemma_stages_without(before.stages, id);
            let kept = self@.stages;
            assert forall|i: int| 0 <= i < self@.jobs.len() implies job_refs_ok(
                before,
                (#[trigger] self@.jobs[i]).sprint_id,
                self@.jobs[i].status_id,
                self@.jobs[i].title_id,
            ) by {
                let i2 = if i < k { i } else { i + 1 };
                assert(self@.jobs[i] == before.jobs[i2]);
            }
            assert forall|i: int| 0 <= i < kept.len() implies has_job(
                self@,
                (#[trigger] kept[i]).job_id,
            ) && is_stage_label(kept[i].status@) by {
                let n = choose|n: int| 0 <= n < before.stages.len() && before.stages[n] == kept[i];
                let m = choose|m: int| 0 <= m < before.jobs.len() && (#[trigger] before.jobs[m]).id
                    == before.stages[n].job_id;
                assert(m != k);
                let m2 = if m < k { m } else { m - 1 };
                assert(self@.jobs[m2] == before.jobs[m]);
            }
            lemma_jobs_changed_keeps(before, self@);
            if counters_consistent(before) {
                lemma_delete_keeps_counters(before, self@, k as int);
            }
        }
        Ok(row)
    }
}

impl Database {
    /// Changes job `id`; when it moves to another sprint, the old sprint's counter
    /// is lowered and the new one's raised. Fails, changing nothing, with `NotFound`
    /// when there is no such job, `ForeignKeyViolation` when the changed job would
    /// name a missing sprint, status or title, and `CounterOverflow` when a counter
    /// would leave its range.
    pub fn update_job(&mut self, id: i32, changes: JobUpdate) -> (r: Result<QueriedJob, FettersError>)
        requires
            old(self).well_formed(),
        ensures
            final(self).well_formed(),
            job_update_post(old(self)@, final(self)@, id, changes, r),
    {
        proof { reveal_view(self); }
        let k = match self.find_job(id) {
            Some(k) => k,
            None => {
                return Err(FettersError::QueryError(QueryFailure::NotFound));
            },
        };
        let j = self.jobs[k].duplicate();
        let sid = match changes.sprint_id { Some(s) => s, None => j.sprint_id };
        let st = match changes.status_id { Some(s) => s, None => j.status_id };
        let ti = match changes.title_id { Some(s) => s, None => j.title_id };
        let new_sk = match self.find_sprint(sid) {
            Some(x) => x,
            None => {
                return Err(FettersError::QueryError(QueryFailure::ForeignKeyViolation));
            },
        };
        if self.find_status(st).is_none() || self.find_title(ti).is_none() {
            return Err(FettersError::QueryError(QueryFailure::ForeignKeyViolation));
        }
        let moves = sid != j.sprint_id;
        let mut sprints: Vec<QueriedSprint> = Vec::new();
        if moves {
            let old_sk = match self.find_sprint(j.sprint_id) {
                Some(x) => x,
                None => {
                    proof {
                        assert(has_sprint(self@, self@.jobs[k as int].sprint_id));
                    }
                    return Err(FettersError::QueryError(QueryFailure::ForeignKeyViolation));
                },
            };
            if !self.counter_room(old_sk, -1) || !self.counter_room(new_sk, 1) {
                return Err(FettersError::QueryError(QueryFailure::CounterOverflow));
            }
            let first = self.bumped_sprints(old_sk, -1);
            proof {
                lemma_sprints_bumped_keep_ids(self@.sprints, j.sprint_id, -1);
                assert forall|i: int| 0 <= i < first@.len() && (#[trigger] first@[i]).id == sid implies i32::MIN
                    <= first@[i].num_jobs + 1 <= i32::MAX by {
                    assert(first@[i] == self@.sprints[i]);
                }
            }
            sprints = bump_vec(&first, sid, 1);
        }
        let row = QueriedJob {
            id: j.id,
            created: j.created.clone(),
            company_name: match changes.company_name {
                Some(c) => c.to_owned(),
                None => j.company_name.clone(),
            },
            title_id: ti,
            status_id: st,
            link: match changes.link {
                Some(l) => Some(l.to_owned()),
                None => clone_opt(&j.link),
            },
            notes: match changes.notes {
                Some(l) => Some(l.to_owned()),
                None => clone_opt(&j.notes),
            },
            sprint_id: sid,
        };
        let ghost before = self@;
        self.jobs.set(k, row.duplicate());
        if moves {
            self.sprints = sprints;
        }
        proof {
            assert(job_changed(before, self@, k as int, row));
            assert(job_ids(self@.jobs) =~= job_ids(before.jobs));
            if moves {
                lemma_sprints_bumped_keep_ids(before.sprints, j.sprint_id, -1);
                lemma_sprints_bumped_keep_ids(bump_sprint(before.sprints, j.sprint_id, -1), sid, 1);
            }
            assert forall|i: int| 0 <= i < self@.jobs.len() implies job_refs_ok(
                before,
                (#[trigger] self@.jobs[i]).sprint_id,
                self@.jobs[i].status_id,
                self@.jobs[i].title_id,
            ) by {
                if i != k {
                    assert(self@.jobs[i] == before.jobs[i]);
                }
            }
            assert forall|i: int| 0 <= i < self@.stages.len() implies has_job(
                self@,
                (#[trigger] self@.stages[i]).job_id,
            ) && is_stage_label(self@.stages[i].status@) by {
                let m = choose|m: int| 0 <= m < before.jobs.len() && (#[trigger] before.jobs[m]).id
                    == before.stages[i].job_id;
                assert(self@.jobs[m].id == before.jobs[m].id);
            }
            lemma_jobs_changed_keeps(before, self@);
            if counters_consistent(before) {
                lemma_change_keeps_counters(before, self@, k as int, row);
            }
        }
        Ok(row)
    }
}

/// The stages of job `job_id`, in order.
pub open spec fn stages_only(s: Seq<QueriedInterviewStage>, job_id: i32) -> Seq<QueriedInterviewStage>
    decreases s.len(),
{
    if s.len() == 0 {
        s
    } else if s.last().job_id == job_id {
        stages_only(s.drop_last(), job_id).push(s.last())
    } else {
        stages_only(s.drop_last(), job_id)
    }
}

/// The largest stage number of job `job_id`, if it has stages.
pub open spec fn max_stage(s: Seq<QueriedInterviewStage>, job_id: i32) -> Option<int>
    decreases s.len(),
{
    if s.len() == 0 {
        None
    } else {
        let prev = max_stage(s.drop_last(), job_id);
        if s.last().job_id == job_id {
            match prev {
                Some(m) => Some(if m > s.last().stage_number { m } else { s.last().stage_number as int }),
                None => Some(s.last().stage_number as int),
            }
        } else {
            prev
        }
    }
}

/// The number that the next stage of job `job_id` receives: one more than the
/// largest, or 1 when it has none.
pub open spec fn next_stage_number(s: Seq<QueriedInterviewStage>, job_id: i32) -> int {
    match max_stage(s, job_id) {
        Some(m) => m + 1,
        None => 1,
    }
}

/// A stage with another number.
pub open spec fn with_number(st: QueriedInterviewStage, n: int) -> QueriedInterviewStage {
    QueriedInterviewStage {
        id: st.id,
        job_id: st.job_id,
        stage_number: n as i32,
        name: st.name,
        status: st.status,
        scheduled_date: st.scheduled_date,
        notes: st.notes,
        created: st.created,
    }
}

/// The stages after job `job_id`'s stages are numbered 1, 2, ... in table order.
pub open spec fn renumbered(s: Seq<QueriedInterviewStage>, job_id: i32) -> Seq<QueriedInterviewStage> {
    Seq::new(
        s.len(),
        |i: int|
            if s[i].job_id == job_id {
                with_number(s[i], (stages_of_job(s.subrange(0, i), job_id) + 1) as int)
            } else {
                s[i]
            },
    )
}

/// Job `job_id`'s stages carry the numbers 1, 2, ... in table order.
pub open spec fn numbered(s: Seq<QueriedInterviewStage>, job_id: i32) -> bool {
    forall|i: int|
        0 <= i < s.len() && (#[trigger] s[i]).job_id == job_id ==> s[i].stage_number == stages_of_job(
            s.subrange(0, i),
            job_id,
        ) + 1
}

/// A stage row made from a new stage under identifier `id`.
pub open spec fn stage_from(row: QueriedInterviewStage, n: NewInterviewStage, id: int) -> bool {
    &&& row.id == id
    &&& row.job_id == n.job_id
    &&& row.stage_number == n.stage_number
    &&& row.name == n.name
    &&& row.status == n.status
    &&& row.scheduled_date == n.scheduled_date
    &&& row.notes == n.notes
    &&& row.created == n.created
}

/// Only the stages table may differ between `a` and `b`.
pub open spec fn same_but_stages(a: DbView, b: DbView) -> bool {
    &&& b.sprints == a.sprints
    &&& b.statuses == a.statuses
    &&& b.titles == a.titles
    &&& b.jobs == a.jobs
}

/// The stage row after applying `ch` to `old_row`.
pub open spec fn stage_updated(old_row: QueriedInterviewStage, ch: InterviewStageUpdate, row: QueriedInterviewStage) -> bool {
    &&& row.id == old_row.id
    &&& row.job_id == old_row.job_id
    &&& row.stage_number == old_row.stage_number
    &&& row.created == old_row.created
    &&& row.name == (match ch.name {
        Some(n) => Some(n),
        None => old_row.name,
    })
    &&& row.status == (match ch.status {
        Some(n) => n,
        None => old_row.status,
    })
    &&& row.scheduled_date == (match ch.scheduled_date {
        Some(n) => n,
        None => old_row.scheduled_date,
    })
    &&& row.notes == (match ch.notes {
        Some(n) => Some(n),
        None => old_row.notes,
    })
}

pub proof fn lemma_stages_of_job_step(s: Seq<QueriedInterviewStage>, i: int, job_id: i32)
    requires
        0 <= i < s.len(),
    ensures
        stages_of_job(s.subrange(0, i + 1), job_id) == stages_of_job(s.subrange(0, i), job_id) + if s[i].job_id
            == job_id {
            1int
        } else {
            0int
        },
{
    assert(s.subrange(0, i + 1).drop_last() =~= s.subrange(0, i));
}

/// Stages of a job listed from a well-ordered table come in increasing number order,
/// and each is a stage of that job in the table.
proof fn lemma_stages_only(s: Seq<QueriedInterviewStage>, job_id: i32)
    requires
        forall|i: int, j: int|
            0 <= i < j < s.len() && (#[trigger] s[i]).job_id == (#[trigger] s[j]).job_id ==> s[i].stage_number
                < s[j].stage_number,
    ensures
        forall|i: int| 0 <= i < stages_only(s, job_id).len() ==> s.contains(#[trigger] stages_only(s, job_id)[i]),
        forall|i: int| 0 <= i < stages_only(s, job_id).len() ==> (#[trigger] stages_only(s, job_id)[i]).job_id == job_id,
        forall|i: int, j: int|
            0 <= i < j < stages_only(s, job_id).len() ==> (#[trigger] stages_only(s, job_id)[i]).stage_number
                < (#[trigger] stages_only(s, job_id)[j]).stage_number,
        stages_only(s, job_id).len() == stages_of_job(s, job_id),
        max_stage(s, job_id) == if stages_only(s, job_id).len() == 0 {
            None::<int>
        } else {
            Some(stages_only(s, job_id).last().stage_number as int)
        },
    decreases s.len(),
{
    if s.len() > 0 {
        let d = s.drop_last();
        lemma_stages_only(d, job_id);
        let k = stages_only(d, job_id);
        assert forall|i: int| 0 <= i < k.len() implies s.contains(#[trigger] k[i]) by {
            let m = choose|m: int| 0 <= m < d.len() && d[m] == k[i];
            assert(s[m] == d[m]);
        }
        if s.last().job_id == job_id {
            let r = k.push(s.last());
            assert forall|i: int| 0 <= i < r.len() implies s.contains(#[trigger] r[i]) by {
                if i == k.len() {
                    assert(s[s.len() - 1] == r[i]);
                }
            }
            assert forall|i: int| 0 <= i < k.len() implies (#[trigger] k[i]).stage_number < s.last().stage_number by {
                let m = choose|m: int| 0 <= m < d.len() && d[m] == k[i];
                assert(s[m] == k[i]);
            }
            assert forall|i: int, j: int| 0 <= i < j < r.len() implies (#[trigger] r[i]).stage_number
                < (#[trigger] r[j]).stage_number by {
                if j == k.len() {
                    assert(r[i] == k[i]);
                }
            }
        }
    }
}

impl Database {
    /// The stages of job `job_id`, by ascending stage number.
    pub fn stages_for_job(&self, job_id: i32) -> (r: Vec<QueriedInterviewStage>)
        requires
            self.well_formed(),
        ensures
            r@ == stages_only(self@.stages, job_id),
            forall|i: int, j: int| 0 <= i < j < r@.len() ==> (#[trigger] r@[i]).stage_number < (#[trigger] r@[j]).stage_number,
    {
        proof {
            reveal_view(self);
            lemma_stages_only(self@.stages, job_id);
        }
        let mut out: Vec<QueriedInterviewStage> = Vec::new();
        let mut i: usize = 0;
        while i < self.stages.len()
            invariant
                i <= self.stages.len(),
                out@ == stages_only(self.stages@.subrange(0, i as int), job_id),
            decreases self.stages.len() - i,
        {
            let ghost pre = self.stages@.subrange(0, i as int);
            if self.stages[i].job_id == job_id {
                out.push(self.stages[i].duplicate());
            }
            i += 1;
            assert(self.stages@.subrange(0, i as int).drop_last() =~= pre);
        }
        assert(self.stages@.subrange(0, i as int) =~= self.stages@);
        out
    }

    /// The next stage number of job `job_id`; `CounterOverflow` when it would leave
    /// the range of `i32`.
    pub fn next_stage_number(&self, job_id: i32) -> (r: Result<i32, FettersError>)
        requires
            self.well_formed(),
        ensures
            next_stage_number(self@.stages, job_id) <= i32::MAX ==> r == Ok::<i32, FettersError>(
                next_stage_number(self@.stages, job_id) as i32,
            ),
            next_stage_number(self@.stages, job_id) > i32::MAX ==> r matches Err(
                FettersError::QueryError(QueryFailure::CounterOverflow),
            ),
            next_stage_number(self@.stages, job_id) > i32::MIN,
    {
        let mine = self.stages_for_job(job_id);
        proof {
            reveal_view(self);
            lemma_stages_only(self@.stages, job_id);
        }
        if mine.len() == 0 {
            Ok(1)
        } else {
            let m = mine[mine.len() - 1].stage_number;
            if m == i32::MAX {
                Err(FettersError::QueryError(QueryFailure::CounterOverflow))
            } else {
                Ok(m + 1)
            }
        }
    }

    fn last_stage_id(&self) -> (r: Option<i32>)
        ensures
            r == (if self@.stages.len() == 0 {
                None::<i32>
            } else {
                Some(self@.stages.last().id)
            }),
    {
        proof { reveal_view(self); }
        if self.stages.len() == 0 {
            None
        } else {
            Some(self.stages[self.stages.len() - 1].id)
        }
    }

    fn find_stage(&self, id: i32) -> (r: Option<usize>)
        ensures
            match r {
                Some(k) => k < self@.stages.len() && self@.stages[k as int].id == id,
                None => forall|i: int| 0 <= i < self@.stages.len() ==> self@.stages[i].id != id,
            },
    {
        proof { reveal_view(self); }
        let mut i: usize = 0;
        while i < self.stages.len()
            invariant
                i <= self.stages.len(),
                forall|j: int| 0 <= j < i ==> self.stages@[j].id != id,
            decreases self.stages.len() - i,
        {
            if self.stages[i].id == id {
                return Some(i);
            }
            i += 1;
        }
        None
    }
}

/// Whether `s` is one of the three stage status labels.
pub fn is_stage_label_exec(s: &str) -> (r: bool)
    ensures
        r == is_stage_label(s@),
{
    let a = StageStatus::Scheduled;
    let b = StageStatus::Passed;
    let c = StageStatus::Rejected;
    str_eq(s, a.as_str()) || str_eq(s, b.as_str()) || str_eq(s, c.as_str())
}

proof fn lemma_max_stage_bound(s: Seq<QueriedInterviewStage>, job_id: i32)
    ensures
        forall|i: int| 0 <= i < s.len() && (#[trigger] s[i]).job_id == job_id ==> max_stage(s, job_id) is Some
            && s[i].stage_number <= max_stage(s, job_id)->0,
    decreases s.len(),
{
    if s.len() > 0 {
        let d = s.drop_last();
        lemma_max_stage_bound(d, job_id);
        assert forall|i: int| 0 <= i < s.len() && (#[trigger] s[i]).job_id == job_id implies max_stage(s, job_id) is Some
            && s[i].stage_number <= max_stage(s, job_id)->0 by {
            if i < s.len() - 1 {
                assert(s[i] == d[i]);
            }
        }
    }
}

pub proof fn lemma_table_len(ids: Seq<i32>)
    requires
        ids_ok(ids),
    ensures
        ids.len() <= i32::MAX,
{
    if ids.len() > 0 {
        assert(ids[ids.len() - 1] > ids.len() - 1);
    }
}

/// A stage table that differs from a well-formed store's only in ways that keep its
/// own invariants gives a well-formed store.
proof fn lemma_stages_changed_keeps(a: DbView, b: DbView)
    requires
        wf(a),
        same_but_stages(a, b),
        ids_ok(stage_ids(b.stages)),
        forall|i: int| 0 <= i < b.stages.len() ==> has_job(a, (#[trigger] b.stages[i]).job_id) && is_stage_label(b.stages[i].status@),
        forall|i: int, j: int|
            0 <= i < j < b.stages.len() && (#[trigger] b.stages[i]).job_id == (#[trigger] b.stages[j]).job_id
                ==> b.stages[i].stage_number < b.stages[j].stage_number,
    ensures
        wf(b),
{
}

impl Database {
    /// Adds an interview stage, which must carry its job's next stage number.
    /// Fails, changing nothing, with `ForeignKeyViolation` when the job does not
    /// exist, `CheckViolation` when the status is not a stage status or the number
    /// is not the next one, and `IdExhausted` when no identifier is left.
    pub fn add_stage(&mut self, new_stage: NewInterviewStage) -> (r: Result<QueriedInterviewStage, FettersError>)
        requires
            old(self).well_formed(),
        ensures
            final(self).well_formed(),
            stage_add_post(old(self)@, final(self)@, new_stage, r),
    {
        proof { reveal_view(self); }
        if self.find_job(new_stage.job_id).is_none() {
            return Err(FettersError::QueryError(QueryFailure::ForeignKeyViolation));
        }
        if !is_stage_label_exec(new_stage.status.as_str()) {
            return Err(FettersError::QueryError(QueryFailure::CheckViolation));
        }
        match self.next_stage_number(new_stage.job_id) {
            Ok(n) => {
                if n != new_stage.stage_number {
                    return Err(FettersError::QueryError(QueryFailure::CheckViolation));
                }
            },
            Err(_) => {
                return Err(FettersError::QueryError(QueryFailure::CheckViolation));
            },
        }
        let last = self.last_stage_id();
        let ghost before = self@;
        proof {
            if before.stages.len() > 0 {
                assert(stage_ids(before.stages).last() == before.stages.last().id);
            }
        }
        let id = match next_after(last) {
            Some(id) => id,
            None => {
                return Err(FettersError::QueryError(QueryFailure::IdExhausted));
            },
        };
        let row = QueriedInterviewStage {
            id,
            job_id: new_stage.job_id,
            stage_number: new_stage.stage_number,
            name: new_stage.name,
            status: new_stage.status,
            scheduled_date: new_stage.scheduled_date,
            notes: new_stage.notes,
            created: new_stage.created,
        };
        self.stages.push(row.duplicate());
        proof {
            let ids = stage_ids(before.stages);
            lemma_ids_push(ids, id);
            assert(stage_ids(self@.stages) =~= ids.push(id));
            lemma_max_stage_bound(before.stages, row.job_id);
            assert forall|i: int, j: int|
                0 <= i < j < self@.stages.len() && (#[trigger] self@.stages[i]).job_id
                    == (#[trigger] self@.stages[j]).job_id implies self@.stages[i].stage_number
                < self@.stages[j].stage_number by {
                assert(self@.stages[i] == before.stages[i]);
                if j < before.stages.len() {
                    assert(self@.stages[j] == before.stages[j]);
                }
            }
            assert forall|i: int| 0 <= i < self@.stages.len() implies has_job(before, (#[trigger] self@.stages[i]).job_id)
                && is_stage_label(self@.stages[i].status@) by {
                if i < before.stages.len() {
                    assert(self@.stages[i] == before.stages[i]);
                }
            }
            lemma_stages_changed_keeps(before, self@);
        }
        Ok(row)
    }

    /// Changes stage `id`. Fails, changing nothing, with `NotFound` when there is no
    /// such stage and `CheckViolation` when the new status is not a stage status.
    pub fn update_stage(&mut self, id: i32, changes: InterviewStageUpdate) -> (r: Result<QueriedInterviewStage, FettersError>)
        requires
            old(self).well_formed(),
        ensures
            final(self).well_formed(),
            stage_update_post(old(self)@, final(self)@, id, changes, r),
    {
        proof { reveal_view(self); }
        let k = match self.find_stage(id) {
            Some(k) => k,
            None => {
                return Err(FettersError::QueryError(QueryFailure::NotFound));
            },
        };
        match &changes.status {
            Some(st) => {
                if !is_stage_label_exec(st.as_str()) {
                    return Err(FettersError::QueryError(QueryFailure::CheckViolation));
                }
            },
            None => {},
        }
        let old_row = self.stages[k].duplicate();
        let row = QueriedInterviewStage {
            id: old_row.id,
            job_id: old_row.job_id,
            stage_number: old_row.stage_number,
            name: match changes.name {
                Some(n) => Some(n),
                None => old_row.name,
            },
            status: match changes.status {
                Some(n) => n,
                None => old_row.status,
            },
            scheduled_date: match changes.scheduled_date {
                Some(n) => n,
                None => old_row.scheduled_date,
            },
            notes: match changes.notes {
                Some(n) => Some(n),
                None => old_row.notes,
            },
            created: old_row.created,
        };
        let ghost before = self@;
        self.stages.set(k, row.duplicate());
        proof {
            assert(stage_ids(self@.stages) =~= stage_ids(before.stages));
            assert forall|i: int, j: int|
                0 <= i < j < self@.stages.len() && (#[trigger] self@.stages[i]).job_id
                    == (#[trigger] self@.stages[j]).job_id implies self@.stages[i].stage_number
                < self@.stages[j].stage_number by {
                assert(self@.stages[i].job_id == before.stages[i].job_id);
                assert(self@.stages[j].job_id == before.stages[j].job_id);
                assert(self@.stages[i].stage_number == before.stages[i].stage_number);
                assert(self@.stages[j].stage_number == before.stages[j].stage_number);
            }
            assert forall|i: int| 0 <= i < self@.stages.len() implies has_job(before, (#[trigger] self@.stages[i]).job_id)
                && is_stage_label(self@.stages[i].status@) by {
                if i != k {
                    assert(self@.stages[i] == before.stages[i]);
                }
            }
            lemma_stages_changed_keeps(before, self@);
        }
        Ok(row)
    }

    /// Deletes stage `id` and returns it; `NotFound` when there is none. The job's
    /// remaining stages keep their numbers until `renumber_stages` runs.
    pub fn delete_stage(&mut self, id: i32) -> (r: Result<QueriedInterviewStage, FettersError>)
        requires
            old(self).well_formed(),
        ensures
            final(self).well_formed(),
            stage_delete_post(old(self)@, final(self)@, id, r),
    {
        proof { reveal_view(self); }
        let k = match self.find_stage(id) {
            Some(k) => k,
            None => {
                return Err(FettersError::QueryError(QueryFailure::NotFound));
            },
        };
        let ghost before = self@;
        let row = self.stages.remove(k);
        proof {
            lemma_ids_remove(stage_ids(before.stages), k as int);
            assert(stage_ids(self@.stages) =~= stage_ids(before.stages).remove(k as int));
            assert forall|i: int, j: int|
                0 <= i < j < self@.stages.len() && (#[trigger] self@.stages[i]).job_id
                    == (#[trigger] self@.stages[j]).job_id implies self@.stages[i].stage_number
                < self@.stages[j].stage_number by {
                let i2 = if i < k { i } else { i + 1 };
                let j2 = if j < k { j } else { j + 1 };
                assert(self@.stages[i] == before.stages[i2]);
                assert(self@.stages[j] == before.stages[j2]);
            }
            assert forall|i: int| 0 <= i < self@.stages.len() implies has_job(before, (#[trigger] self@.stages[i]).job_id)
                && is_stage_label(self@.stages[i].status@) by {
                let i2 = if i < k { i } else { i + 1 };
                assert(self@.stages[i] == before.stages[i2]);
            }
            lemma_stages_changed_keeps(before, self@);
        }
        Ok(row)
    }

    fn renumbered_stages(&self, job_id: i32) -> (r: Vec<QueriedInterviewStage>)
        requires
            self.well_formed(),
        ensures
            r@ == renumbered(self@.stages, job_id),
    {
        proof {
            reveal_view(self);
            lemma_table_len(stage_ids(self@.stages));
        }
        let mut out: Vec<QueriedInterviewStage> = Vec::new();
        let mut c: usize = 0;
        let mut i: usize = 0;
        while i < self.stages.len()
            invariant
                i <= self.stages.len(),
                self.stages@.len() <= i32::MAX,
                c == stages_of_job(self.stages@.subrange(0, i as int), job_id),
                c <= i,
                out@ == renumbered(self.stages@, job_id).subrange(0, i as int),
            decreases self.stages.len() - i,
        {
            proof {
                lemma_stages_of_job_step(self.stages@, i as int, job_id);
            }
            let mut row = self.stages[i].duplicate();
            if row.job_id == job_id {
                row.stage_number = (c + 1) as i32;
                c = c + 1;
            }
            out.push(row);
            i += 1;
            assert(out@ =~= renumbered(self.stages@, job_id).subrange(0, i as int));
        }
        assert(out@ =~= renumbered(self.stages@, job_id));
        out
    }

    /// Numbers the stages of job `job_id` 1, 2, ... in their current order.
    pub fn renumber_stages(&mut self, job_id: i32) -> (r: Result<(), FettersError>)
        requires
            old(self).well_formed(),
        ensures
            final(self).well_formed(),
            renumber_post(old(self)@, final(self)@, job_id, r),
    {
        proof { reveal_view(self); }
        let fresh = self.renumbered_stages(job_id);
        let ghost before = self@;
        self.stages = fresh;
        proof {
            let a = before.stages;
            let b = self@.stages;
            lemma_table_len(stage_ids(a));
            assert(stage_ids(b) =~= stage_ids(a));
            assert forall|i: int, j: int|
                0 <= i < j < b.len() && (#[trigger] b[i]).job_id == (#[trigger] b[j]).job_id implies b[i].stage_number
                < b[j].stage_number by {
                if a[i].job_id == job_id {
                    lemma_count_grows(a, i, j, job_id);
                    lemma_count_bound(a, j, job_id);
                }
            }
            assert forall|i: int| 0 <= i < b.len() implies has_job(before, (#[trigger] b[i]).job_id)
                && is_stage_label(b[i].status@) by {
                assert(b[i].job_id == a[i].job_id && b[i].status == a[i].status);
            }
            lemma_stages_changed_keeps(before, self@);
        }
        Ok(())
    }
}

/// The count of a job's stages before `j` exceeds the count before an earlier stage
/// `i` of that job.
proof fn lemma_count_grows(s: Seq<QueriedInterviewStage>, i: int, j: int, job_id: i32)
    requires
        0 <= i < j <= s.len(),
        s[i].job_id == job_id,
    ensures
        stages_of_job(s.subrange(0, j), job_id) >= stages_of_job(s.subrange(0, i), job_id) + 1,
    decreases j - i,
{
    lemma_stages_of_job_step(s, j - 1, job_id);
    if j - 1 > i {
        lemma_count_grows(s, i, j - 1, job_id);
    } else {
        assert(j - 1 == i);
    }
}

proof fn lemma_count_bound(s: Seq<QueriedInterviewStage>, j: int, job_id: i32)
    requires
        0 <= j <= s.len(),
    ensures
        stages_of_job(s.subrange(0, j), job_id) <= j,
    decreases j,
{
    if j > 0 {
        lemma_stages_of_job_step(s, j - 1, job_id);
        lemma_count_bound(s, j - 1, job_id);
    }
}

impl Database {
    /// The sprints table.
    pub fn sprints_table(&self) -> (r: &Vec<QueriedSprint>)
        ensures
            r@ == self@.sprints,
    {
        proof { reveal_view(self); }
        &self.sprints
    }

    /// The statuses table.
    pub fn statuses_table(&self) -> (r: &Vec<QueriedStatus>)
        ensures
            r@ == self@.statuses,
    {
        proof { reveal_view(self); }
        &self.statuses
    }

    /// The titles table.
    pub fn titles_table(&self) -> (r: &Vec<QueriedTitle>)
        ensures
            r@ == self@.titles,
    {
        proof { reveal_view(self); }
        &self.titles
    }

    /// The jobs table.
    pub fn jobs_table(&self) -> (r: &Vec<QueriedJob>)
        ensures
            r@ == self@.jobs,
    {
        proof { reveal_view(self); }
        &self.jobs
    }

    /// The interview stages table.
    pub fn stages_table(&self) -> (r: &Vec<QueriedInterviewStage>)
        ensures
            r@ == self@.stages,
    {
        proof { reveal_view(self); }
        &self.stages
    }
}

/// Whether identifiers grow strictly and each exceeds its position.
fn ids_ok_exec(ids: &Vec<i32>) -> (r: bool)
    ensures
        r == ids_ok(ids@),
{
    let mut i: usize = 0;
    while i < ids.len()
        invariant
            i <= ids.len(),
            forall|a: int, b: int| 0 <= a < b < i ==> ids@[a] < ids@[b],
            forall|a: int| 0 <= a < i ==> ids@[a] > a,
        decreases ids.len() - i,
    {
        if ids[i] as i64 <= i as i64 {
            return false;
        }
        if i > 0 && ids[i - 1] >= ids[i] {
            return false;
        }
        proof {
            assert forall|a: int, b: int| 0 <= a < b < i + 1 implies ids@[a] < ids@[b] by {
                if b == i && a < i - 1 {
                    assert(ids@[a] < ids@[i - 1]);
                }
            }
        }
        i += 1;
    }
    true
}

/// Whether no two names are equal.
fn names_distinct(names: &Vec<&str>) -> (r: bool)
    ensures
        r == forall|i: int, j: int| 0 <= i < j < names@.len() ==> names@[i]@ != names@[j]@,
{
    let mut j: usize = 0;
    while j < names.len()
        invariant
            j <= names.len(),
            forall|a: int, b: int| 0 <= a < b < j ==> names@[a]@ != names@[b]@,
        decreases names.len() - j,
    {
        let mut i: usize = 0;
        while i < j
            invariant
                i <= j < names.len(),
                forall|a: int| 0 <= a < i ==> names@[a]@ != names@[j as int]@,
            decreases j - i,
        {
            if str_eq(names[i], names[j]) {
                return false;
            }
            i += 1;
        }
        j += 1;
    }
    true
}

impl Database {
    /// A store holding the given tables, when they keep the store's invariants;
    /// `UnknownError` otherwise.
    pub fn from_tables(
        sprints: Vec<QueriedSprint>,
        statuses: Vec<QueriedStatus>,
        titles: Vec<QueriedTitle>,
        jobs: Vec<QueriedJob>,
        stages: Vec<QueriedInterviewStage>,
    ) -> (r: Result<Database, FettersError>)
        ensures
            wf(DbView { sprints: sprints@, statuses: statuses@, titles: titles@, jobs: jobs@, stages: stages@ }) <==> r is Ok,
            r matches Ok(db) ==> db.well_formed() && db@ == (DbView {
                sprints: sprints@,
                statuses: statuses@,
                titles: titles@,
                jobs: jobs@,
                stages: stages@,
            }),
    {
        let db = Database { sprints, statuses, titles, jobs, stages };
        proof { reveal_view(&db); }
        if db.tables_ok() {
            Ok(db)
        } else {
            Err(FettersError::UnknownError(owned("the stored tables break the store's invariants")))
        }
    }

    fn tables_ok(&self) -> (r: bool)
        ensures
            r == wf(self@),
    {
        proof { reveal_view(self); }
        self.ids_part() && self.names_part() && self.job_refs_part() && self.stages_part()
    }

    fn ids_part(&self) -> (r: bool)
        ensures
            r == (ids_ok(sprint_ids(self@.sprints)) && ids_ok(status_ids(self@.statuses)) && ids_ok(
                title_ids(self@.titles),
            ) && ids_ok(job_ids(self@.jobs)) && ids_ok(stage_ids(self@.stages))),
    {
        proof { reveal_view(self); }
        // Identifiers.
        let mut ids: Vec<i32> = Vec::new();
        let mut i: usize = 0;
        while i < self.sprints.len()
            invariant
                i <= self.sprints.len(),
                ids@ == sprint_ids(self.sprints@.subrange(0, i as int)),
            decreases self.sprints.len() - i,
        {
            ids.push(self.sprints[i].id);
            i += 1;
            assert(ids@ =~= sprint_ids(self.sprints@.subrange(0, i as int)));
        }
        assert(self.sprints@.subrange(0, i as int) =~= self.sprints@);
        if !ids_ok_exec(&ids) {
            return false;
        }
        let mut ids: Vec<i32> = Vec::new();
        let mut i: usize = 0;
        while i < self.statuses.len()
            invariant
                i <= self.statuses.len(),
                ids@ == status_ids(self.statuses@.subrange(0, i as int)),
            decreases self.statuses.len() - i,
        {
            ids.push(self.statuses[i].id);
            i += 1;
            assert(ids@ =~= status_ids(self.statuses@.subrange(0, i as int)));
        }
        assert(self.statuses@.subrange(0, i as int) =~= self.statuses@);
        if !ids_ok_exec(&ids) {
            return false;
        }
        let mut ids: Vec<i32> = Vec::new();
        let mut i: usize = 0;
        while i < self.titles.len()
            invariant
                i <= self.titles.len(),
                ids@ == title_ids(self.titles@.subrange(0, i as int)),
            decreases self.titles.len() - i,
        {
            ids.push(self.titles[i].id);
            i += 1;
            assert(ids@ =~= title_ids(self.titles@.subrange(0, i as int)));
        }
        assert(self.titles@.subrange(0, i as int) =~= self.titles@);
        if !ids_ok_exec(&ids) {
            return false;
        }
        let mut ids: Vec<i32> = Vec::new();
        let mut i: usize = 0;
        while i < self.jobs.len()
            invariant
                i <= self.jobs.len(),
                ids@ == job_ids(self.jobs@.subrange(0, i as int)),
            decreases self.jobs.len() - i,
        {
            ids.push(self.jobs[i].id);
            i += 1;
            assert(ids@ =~= job_ids(self.jobs@.subrange(0, i as int)));
        }
        assert(self.jobs@.subrange(0, i as int) =~= self.jobs@);
        if !ids_ok_exec(&ids) {
            return false;
        }
        let mut ids: Vec<i32> = Vec::new();
        let mut i: usize = 0;
        while i < self.stages.len()
            invariant
                i <= self.stages.len(),
                ids@ == stage_ids(self.stages@.subrange(0, i as int)),
            decreases self.stages.len() - i,
        {
            ids.push(self.stages[i].id);
            i += 1;
            assert(ids@ =~= stage_ids(self.stages@.subrange(0, i as int)));
        }
        assert(self.stages@.subrange(0, i as int) =~= self.stages@);
        if !ids_ok_exec(&ids) {
            return false;
        }
        true
    }

    fn names_part(&self) -> (r: bool)
        ensures
            r == ((forall|i: int, j: int|
                0 <= i < j < self@.sprints.len() ==> (#[trigger] self@.sprints[i]).name@ != (#[trigger] self@.sprints[j]).name@)
                && (forall|i: int, j: int|
                0 <= i < j < self@.statuses.len() ==> (#[trigger] self@.statuses[i]).name@ != (#[trigger] self@.statuses[j]).name@)
                && (forall|i: int, j: int|
                0 <= i < j < self@.titles.len() ==> (#[trigger] self@.titles[i]).name@ != (#[trigger] self@.titles[j]).name@)),
    {
        self.sprints_names_ok() && self.statuses_names_ok() && self.titles_names_ok()
    }

    fn sprints_names_ok(&self) -> (r: bool)
        ensures
            r == (forall|i: int, j: int|
                0 <= i < j < self@.sprints.len() ==> (#[trigger] self@.sprints[i]).name@ != (#[trigger] self@.sprints[j]).name@),
    {
        proof { reveal_view(self); }
        let mut names: Vec<&str> = Vec::new();
        let mut i: usize = 0;
        while i < self.sprints.len()
            invariant
                i <= self.sprints.len(),
                names@.len() == i,
                forall|k: int| 0 <= k < i ==> (#[trigger] names@[k])@ == self.sprints@[k].name@,
            decreases self.sprints.len() - i,
        {
            names.push(self.sprints[i].name.as_str());
            i += 1;
        }
        let r = names_distinct(&names);
        proof {
            reveal_view(self);
            if !r {
                let (x, y) = choose|x: int, y: int| 0 <= x < y < names@.len() && names@[x]@ == names@[y]@;
                assert(names@[x]@ == self.sprints@[x].name@);
                assert(names@[y]@ == self.sprints@[y].name@);
                assert(self@.sprints[x].name@ == self@.sprints[y].name@);
            } else {
                assert forall|x: int, y: int| 0 <= x < y < self@.sprints.len() implies (#[trigger] self@.sprints[x]).name@
                    != (#[trigger] self@.sprints[y]).name@ by {
                    assert(names@[x]@ == self.sprints@[x].name@);
                    assert(names@[y]@ == self.sprints@[y].name@);
                }
            }
        }
        r
    }

    fn statuses_names_ok(&self) -> (r: bool)
        ensures
            r == (forall|i: int, j: int|
                0 <= i < j < self@.statuses.len() ==> (#[trigger] self@.statuses[i]).name@ != (#[trigger] self@.statuses[j]).name@),
    {
        proof { reveal_view(self); }
        let mut names: Vec<&str> = Vec::new();
        let mut i: usize = 0;
        while i < self.statuses.len()
            invariant
                i <= self.statuses.len(),
                names@.len() == i,
                forall|k: int| 0 <= k < i ==> (#[trigger] names@[k])@ == self.statuses@[k].name@,
            decreases self.statuses.len() - i,
        {
            names.push(self.statuses[i].name.as_str());
            i += 1;
        }
        let r = names_distinct(&names);
        proof {
            reveal_view(self);
            if !r {
                let (x, y) = choose|x: int, y: int| 0 <= x < y < names@.len() && names@[x]@ == names@[y]@;
                assert(names@[x]@ == self.statuses@[x].name@);
                assert(names@[y]@ == self.statuses@[y].name@);
                assert(self@.statuses[x].name@ == self@.statuses[y].name@);
            } else {
                assert forall|x: int, y: int| 0 <= x < y < self@.statuses.len() implies (#[trigger] self@.statuses[x]).name@
                    != (#[trigger] self@.statuses[y]).name@ by {
                    assert(names@[x]@ == self.statuses@[x].name@);
                    assert(names@[y]@ == self.statuses@[y].name@);
                }
            }
        }
        r
    }

    fn titles_names_ok(&self) -> (r: bool)
        ensures
            r == (forall|i: int, j: int|
                0 <= i < j < self@.titles.len() ==> (#[trigger] self@.titles[i]).name@ != (#[trigger] self@.titles[j]).name@),
    {
        proof { reveal_view(self); }
        let mut names: Vec<&str> = Vec::new();
        let mut i: usize = 0;
        while i < self.titles.len()
            invariant
                i <= self.titles.len(),
                names@.len() == i,
                forall|k: int| 0 <= k < i ==> (#[trigger] names@[k])@ == self.titles@[k].name@,
            decreases self.titles.len() - i,
        {
            names.push(self.titles[i].name.as_str());
            i += 1;
        }
        let r = names_distinct(&names);
        proof {
            reveal_view(self);
            if !r {
                let (x, y) = choose|x: int, y: int| 0 <= x < y < names@.len() && names@[x]@ == names@[y]@;
                assert(names@[x]@ == self.titles@[x].name@);
                assert(names@[y]@ == self.titles@[y].name@);
                assert(self@.titles[x].name@ == self@.titles[y].name@);
            } else {
                assert forall|x: int, y: int| 0 <= x < y < self@.titles.len() implies (#[trigger] self@.titles[x]).name@
                    != (#[trigger] self@.titles[y]).name@ by {
                    assert(names@[x]@ == self.titles@[x].name@);
                    assert(names@[y]@ == self.titles@[y].name@);
                }
            }
        }
        r
    }

    fn job_refs_part(&self) -> (r: bool)
        ensures
            r == (forall|i: int|
                0 <= i < self@.jobs.len() ==> {
                    &&& has_sprint(self@, (#[trigger] self@.jobs[i]).sprint_id)
                    &&& has_status(self@, self@.jobs[i].status_id)
                    &&& has_title(self@, self@.jobs[i].title_id)
                }),
    {
        proof { reveal_view(self); }
        // References of jobs.
        let mut i: usize = 0;
        while i < self.jobs.len()
            invariant
                i <= self.jobs.len(),
                forall|k: int|
                    0 <= k < i ==> {
                        &&& has_sprint(self@, (#[trigger] self@.jobs[k]).sprint_id)
                        &&& has_status(self@, self@.jobs[k].status_id)
                        &&& has_title(self@, self@.jobs[k].title_id)
                    },
            decreases self.jobs.len() - i,
        {
            let j = &self.jobs[i];
            if self.find_sprint(j.sprint_id).is_none() || self.find_status(j.status_id).is_none()
                || self.find_title(j.title_id).is_none() {
                return false;
            }
            i += 1;
        }
        true
    }

    fn stages_part(&self) -> (r: bool)
        ensures
            r == ((forall|i: int|
                0 <= i < self@.stages.len() ==> {
                    &&& has_job(self@, (#[trigger] self@.stages[i]).job_id)
                    &&& is_stage_label(self@.stages[i].status@)
                }) && (forall|i: int, j: int|
                0 <= i < j < self@.stages.len() && (#[trigger] self@.stages[i]).job_id == (#[trigger] self@.stages[j]).job_id
                    ==> self@.stages[i].stage_number < self@.stages[j].stage_number)),
    {
        proof { reveal_view(self); }
        // Stages: job, label, and numbers growing within a job.
        let mut i: usize = 0;
        while i < self.stages.len()
            invariant
                i <= self.stages.len(),
                forall|k: int|
                    0 <= k < i ==> has_job(self@, (#[trigger] self@.stages[k]).job_id) && is_stage_label(
                        self@.stages[k].status@,
                    ),
                forall|a: int, b: int|
                    0 <= a < b < i && (#[trigger] self@.stages[a]).job_id == (#[trigger] self@.stages[b]).job_id
                        ==> self@.stages[a].stage_number < self@.stages[b].stage_number,
            decreases self.stages.len() - i,
        {
            let st = &self.stages[i];
            if self.find_job(st.job_id).is_none() || !is_stage_label_exec(st.status.as_str()) {
                return false;
            }
            let mut a: usize = 0;
            while a < i
                invariant
                    a <= i < self.stages.len(),
                    forall|c: int|
                        0 <= c < a && self@.stages[c].job_id == self@.stages[i as int].job_id
                            ==> self@.stages[c].stage_number < self@.stages[i as int].stage_number,
                decreases i - a,
            {
                if self.stages[a].job_id == self.stages[i].job_id && self.stages[a].stage_number
                    >= self.stages[i].stage_number {
                    return false;
                }
                a += 1;
            }
            i += 1;
        }
        true
    }
}
} // verus!
