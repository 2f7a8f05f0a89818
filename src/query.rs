//! The job listing query: jobs joined with their title, status, sprint and stage
//! count, filtered by the query arguments.

use vstd::prelude::*;

use crate::cli::QueryArgs;
use crate::models::job::{QueriedJob, TabledJob};
use crate::models::sprint::QueriedSprint;
use crate::models::stage::QueriedInterviewStage;
use crate::models::status::QueriedStatus;
use crate::models::title::QueriedTitle;
use crate::store::{
    lemma_stages_of_job_step, lemma_table_len, sprint_name, stage_ids, stages_of_job, status_name,
    title_name, wf, Database, DbView,
};
use crate::text::{clone_opt, contains_ci, contains_ci_exec};

verus! {

/// A text filter holds of a field: no filter, or a field present that contains it.
pub open spec fn text_matches(field: Option<String>, filter: Option<String>) -> bool {
    match filter {
        None => true,
        Some(f) => match field {
            Some(x) => contains_ci(x@, f@),
            None => false,
        },
    }
}

/// The listed form of a job: its title and status names and its number of stages,
/// absent when it has none.
pub open spec fn job_row(v: DbView, j: QueriedJob) -> TabledJob {
    let c = stages_of_job(v.stages, j.id);
    TabledJob {
        id: j.id,
        created: j.created,
        company_name: j.company_name,
        title: title_name(v.titles, j.title_id),
        status: status_name(v.statuses, j.status_id),
        stages: if c == 0 {
            None
        } else {
            Some(c as i32)
        },
        link: j.link,
        notes: j.notes,
    }
}

/// The stage filter holds of a listed row.
pub open spec fn stages_match(filter: Option<i32>, row: TabledJob) -> bool {
    match filter {
        None => true,
        Some(n) => if n == 0 {
            row.stages is Some
        } else {
            row.stages == Some(n)
        },
    }
}

/// A job is listed: it lies in the sprint scope and meets every filter.
pub open spec fn job_selected(v: DbView, q: QueryArgs, current_id: i32, j: QueriedJob) -> bool {
    &&& match q.sprint {
        Some(_) => text_matches(sprint_name(v.sprints, j.sprint_id), q.sprint),
        None => j.sprint_id == current_id,
    }
    &&& text_matches(Some(j.company_name), q.company)
    &&& text_matches(j.link, q.link)
    &&& text_matches(j.notes, q.notes)
    &&& text_matches(status_name(v.statuses, j.status_id), q.status)
    &&& text_matches(title_name(v.titles, j.title_id), q.title)
    &&& stages_match(q.stages, job_row(v, j))
}

/// The listed rows among the first `n` jobs, in table order.
pub open spec fn listed(v: DbView, q: QueryArgs, current_id: i32, n: int) -> Seq<TabledJob>
    decreases n,
{
    if n <= 0 {
        Seq::empty()
    } else if job_selected(v, q, current_id, v.jobs[n - 1]) {
        listed(v, q, current_id, n - 1).push(job_row(v, v.jobs[n - 1]))
    } else {
        listed(v, q, current_id, n - 1)
    }
}

/// What the job query returns: the listed rows among all jobs.
pub open spec fn list_result(v: DbView, q: QueryArgs, current_id: i32) -> Seq<TabledJob> {
    listed(v, q, current_id, v.jobs.len() as int)
}

/// The name of sprint `id`.
pub fn lookup_sprint_name(s: &Vec<QueriedSprint>, id: i32) -> (r: Option<String>)
    ensures
        r == sprint_name(s@, id),
{
    let mut i: usize = s.len();
    assert(s@.subrange(0, i as int) =~= s@);
    while i > 0
        invariant
            i <= s.len(),
            sprint_name(s@, id) == sprint_name(s@.subrange(0, i as int), id),
        decreases i,
    {
        assert(s@.subrange(0, i as int).drop_last() =~= s@.subrange(0, i - 1));
        if s[i - 1].id == id {
            return Some(s[i - 1].name.clone());
        }
        i -= 1;
    }
    None
}

/// The name of status `id`.
pub fn lookup_status_name(s: &Vec<QueriedStatus>, id: i32) -> (r: Option<String>)
    ensures
        r == status_name(s@, id),
{
    let mut i: usize = s.len();
    assert(s@.subrange(0, i as int) =~= s@);
    while i > 0
        invariant
            i <= s.len(),
            status_name(s@, id) == status_name(s@.subrange(0, i as int), id),
        decreases i,
    {
        assert(s@.subrange(0, i as int).drop_last() =~= s@.subrange(0, i - 1));
        if s[i - 1].id == id {
            return Some(s[i - 1].name.clone());
        }
        i -= 1;
    }
    None
}

/// The name of title `id`.
pub fn lookup_title_name(s: &Vec<QueriedTitle>, id: i32) -> (r: Option<String>)
    ensures
        r == title_name(s@, id),
{
    let mut i: usize = s.len();
    assert(s@.subrange(0, i as int) =~= s@);
    while i > 0
        invariant
            i <= s.len(),
            title_name(s@, id) == title_name(s@.subrange(0, i as int), id),
        decreases i,
    {
        assert(s@.subrange(0, i as int).drop_last() =~= s@.subrange(0, i - 1));
        if s[i - 1].id == id {
            return Some(s[i - 1].name.clone());
        }
        i -= 1;
    }
    None
}

/// The number of stages of job `job_id`.
pub fn count_stages(s: &Vec<QueriedInterviewStage>, job_id: i32) -> (r: usize)
    ensures
        r == stages_of_job(s@, job_id),
{
    let mut c: usize = 0;
    let mut i: usize = 0;
    while i < s.len()
        invariant
            i <= s.len(),
            c == stages_of_job(s@.subrange(0, i as int), job_id),
            c <= i,
        decreases s.len() - i,
    {
        proof {
            lemma_stages_of_job_step(s@, i as int, job_id);
        }
        if s[i].job_id == job_id {
            c += 1;
        }
        i += 1;
    }
    assert(s@.subrange(0, i as int) =~= s@);
    c
}

fn text_matches_exec(field: &Option<String>, filter: &Option<String>) -> (r: bool)
    ensures
        r == text_matches(*field, *filter),
{
    match filter {
        None => true,
        Some(f) => match field {
            Some(x) => contains_ci_exec(x.as_str(), f.as_str()),
            None => false,
        },
    }
}

/// Lists the jobs that the query selects, in table order.
pub fn list_jobs_in(db: &Database, q: &QueryArgs, current_id: i32) -> (r: Vec<TabledJob>)
    requires
        db.well_formed(),
    ensures
        r@ == list_result(db@, *q, current_id),
{
    let jobs = db.jobs_table();
    let stages = db.stages_table();
    let titles = db.titles_table();
    let statuses = db.statuses_table();
    let sprints = db.sprints_table();
    proof {
        lemma_table_len(stage_ids(db@.stages));
        lemma_count_le_len(db@.stages, 0);
    }
    let mut out: Vec<TabledJob> = Vec::new();
    let mut i: usize = 0;
    while i < jobs.len()
        invariant
            i <= jobs.len(),
            jobs@ == db@.jobs,
            stages@ == db@.stages,
            titles@ == db@.titles,
            statuses@ == db@.statuses,
            sprints@ == db@.sprints,
            stages@.len() <= i32::MAX,
            out@ == listed(db@, *q, current_id, i as int),
        decreases jobs.len() - i,
    {
        let j = &jobs[i];
        let c = count_stages(stages, j.id);
        proof {
            lemma_count_le_len(db@.stages, j.id);
        }
        let row = TabledJob {
            id: j.id,
            created: j.created.clone(),
            company_name: j.company_name.clone(),
            title: lookup_title_name(titles, j.title_id),
            status: lookup_status_name(statuses, j.status_id),
            stages: if c == 0 {
                None
            } else {
                Some(c as i32)
            },
            link: clone_opt(&j.link),
            notes: clone_opt(&j.notes),
        };
        assert(row == job_row(db@, db@.jobs[i as int]));
        let in_scope = match &q.sprint {
            Some(_) => {
                let name = lookup_sprint_name(sprints, j.sprint_id);
                text_matches_exec(&name, &q.sprint)
            },
            None => j.sprint_id == current_id,
        };
        let company = Some(j.company_name.clone());
        let keep = in_scope && text_matches_exec(&company, &q.company) && text_matches_exec(
            &j.link,
            &q.link,
        ) && text_matches_exec(&j.notes, &q.notes) && text_matches_exec(&row.status, &q.status)
            && text_matches_exec(&row.title, &q.title) && match q.stages {
            None => true,
            Some(n) => if n == 0 {
                row.stages.is_some()
            } else {
                row.stages == Some(n)
            },
        };
        if keep {
            out.push(row);
        }
        i += 1;
    }
    out
}

proof fn lemma_count_le_len(s: Seq<QueriedInterviewStage>, job_id: i32)
    ensures
        stages_of_job(s, job_id) <= s.len(),
    decreases s.len(),
{
    if s.len() > 0 {
        lemma_count_le_len(s.drop_last(), job_id);
    }
}

} // verus!

verus! {

/// The listing never has more rows than there are jobs.
pub proof fn lemma_listed_len(v: DbView, q: QueryArgs, current_id: i32, n: int)
    ensures
        listed(v, q, current_id, n).len() <= if n < 0 { 0 } else { n },
    decreases n,
{
    if n > 0 {
        lemma_listed_len(v, q, current_id, n - 1);
    }
}

} // verus!
