//! Insights: the number of job applications per status and per sprint, with
//! percentages.

use vstd::prelude::*;
use vstd::string::*;

use crate::models::insight::CountAndPercentage;
use crate::models::job::QueriedJob;
use crate::store::{job_ids, jobs_in_sprint, lemma_table_len, Database, DbView};
use crate::text::{decimal, push_char, push_decimal};

verus! {

/// `count / total × 100` in hundredths, rounded to nearest with ties to even.
pub open spec fn hundredths(count: nat, total: nat) -> nat
    recommends
        total > 0,
{
    let q = (count * 10000) / total;
    let r = (count * 10000) % total;
    if 2 * r > total || (2 * r == total && q % 2 == 1) {
        q + 1
    } else {
        q
    }
}

/// A percentage with two decimals and a `%` sign, e.g. "40.00%".
pub open spec fn percent_text(count: nat, total: nat) -> Seq<char> {
    let h = hundredths(count, total);
    decimal(h / 100) + seq!['.'] + decimal((h % 100) / 10) + decimal(h % 10) + seq!['%']
}

/// Formats `count / total` as a percentage with two decimals.
pub fn percent(count: u64, total: u64) -> (r: String)
    requires
        0 < total <= i32::MAX,
        count <= i32::MAX,
    ensures
        r@ == percent_text(count as nat, total as nat),
{
    let n: u64 = count * 10000;
    let q = n / total;
    let rem = n % total;
    let h = if 2 * rem > total || (2 * rem == total && q % 2 == 1) {
        q + 1
    } else {
        q
    };
    let mut s = String::new();
    push_decimal(&mut s, h / 100);
    push_char(&mut s, '.');
    push_decimal(&mut s, (h % 100) / 10);
    push_decimal(&mut s, h % 10);
    push_char(&mut s, '%');
    assert(s@ =~= percent_text(count as nat, total as nat));
    s
}

/// The number of jobs of sprint `sprint_id` with status `status_id`.
pub open spec fn jobs_with(jobs: Seq<QueriedJob>, sprint_id: i32, status_id: i32) -> nat
    decreases jobs.len(),
{
    if jobs.len() == 0 {
        0
    } else {
        jobs_with(jobs.drop_last(), sprint_id, status_id) + if jobs.last().sprint_id == sprint_id
            && jobs.last().status_id == status_id {
            1nat
        } else {
            0nat
        }
    }
}

/// An insight row: the label, the count, and the count against the two totals.
pub open spec fn insight_row(row: CountAndPercentage, label: Seq<char>, count: nat, in_sprint: nat, total: nat) -> bool {
    &&& row.label@ == label
    &&& row.count == count
    &&& row.sprint_percentage@ == percent_text(count, in_sprint)
    &&& row.overall_percentage@ == percent_text(count, total)
}

/// The per-status rows over the first `n` statuses: one for each status with jobs in
/// the current sprint.
pub open spec fn status_rows_ok(v: DbView, current_id: i32, n: int, rows: Seq<CountAndPercentage>) -> bool
    decreases n,
{
    if n <= 0 {
        rows.len() == 0
    } else {
        let st = v.statuses[n - 1];
        let c = jobs_with(v.jobs, current_id, st.id);
        if c > 0 {
            rows.len() > 0 && status_rows_ok(v, current_id, n - 1, rows.drop_last()) && insight_row(
                rows.last(),
                st.name@,
                c,
                jobs_in_sprint(v.jobs, current_id),
                v.jobs.len(),
            )
        } else {
            status_rows_ok(v, current_id, n - 1, rows)
        }
    }
}

/// The per-sprint rows over the first `n` sprints: one for each sprint with jobs.
pub open spec fn sprint_rows_ok(v: DbView, current_id: i32, n: int, rows: Seq<CountAndPercentage>) -> bool
    decreases n,
{
    if n <= 0 {
        rows.len() == 0
    } else {
        let sp = v.sprints[n - 1];
        let c = jobs_in_sprint(v.jobs, sp.id);
        if c > 0 {
            rows.len() > 0 && sprint_rows_ok(v, current_id, n - 1, rows.drop_last()) && insight_row(
                rows.last(),
                sp.name@,
                c,
                jobs_in_sprint(v.jobs, current_id),
                v.jobs.len(),
            )
        } else {
            sprint_rows_ok(v, current_id, n - 1, rows)
        }
    }
}

proof fn lemma_jobs_with_step(s: Seq<QueriedJob>, i: int, sid: i32, st: i32)
    requires
        0 <= i < s.len(),
    ensures
        jobs_with(s.subrange(0, i + 1), sid, st) == jobs_with(s.subrange(0, i), sid, st) + if s[i].sprint_id
            == sid && s[i].status_id == st {
            1int
        } else {
            0int
        },
{
    assert(s.subrange(0, i + 1).drop_last() =~= s.subrange(0, i));
}

proof fn lemma_in_sprint_step(s: Seq<QueriedJob>, i: int, sid: i32)
    requires
        0 <= i < s.len(),
    ensures
        jobs_in_sprint(s.subrange(0, i + 1), sid) == jobs_in_sprint(s.subrange(0, i), sid) + if s[i].sprint_id
            == sid {
            1int
        } else {
            0int
        },
{
    assert(s.subrange(0, i + 1).drop_last() =~= s.subrange(0, i));
}

proof fn lemma_jobs_with_le(s: Seq<QueriedJob>, sid: i32, st: i32)
    ensures
        jobs_with(s, sid, st) <= jobs_in_sprint(s, sid),
    decreases s.len(),
{
    if s.len() > 0 {
        lemma_jobs_with_le(s.drop_last(), sid, st);
    }
}

proof fn lemma_in_sprint_le(s: Seq<QueriedJob>, sid: i32)
    ensures
        jobs_in_sprint(s, sid) <= s.len(),
    decreases s.len(),
{
    if s.len() > 0 {
        lemma_in_sprint_le(s.drop_last(), sid);
    }
}

/// The number of jobs of sprint `sprint_id`.
pub fn count_in_sprint(jobs: &Vec<QueriedJob>, sprint_id: i32) -> (r: u64)
    ensures
        r == jobs_in_sprint(jobs@, sprint_id),
{
    let mut c: u64 = 0;
    let mut i: usize = 0;
    while i < jobs.len()
        invariant
            i <= jobs.len(),
            c == jobs_in_sprint(jobs@.subrange(0, i as int), sprint_id),
            c <= i,
        decreases jobs.len() - i,
    {
        proof {
            lemma_in_sprint_step(jobs@, i as int, sprint_id);
        }
        if jobs[i].sprint_id == sprint_id {
            c += 1;
        }
        i += 1;
    }
    assert(jobs@.subrange(0, i as int) =~= jobs@);
    c
}

/// The number of jobs of sprint `sprint_id` with status `status_id`.
pub fn count_with(jobs: &Vec<QueriedJob>, sprint_id: i32, status_id: i32) -> (r: u64)
    ensures
        r == jobs_with(jobs@, sprint_id, status_id),
{
    let mut c: u64 = 0;
    let mut i: usize = 0;
    while i < jobs.len()
        invariant
            i <= jobs.len(),
            c == jobs_with(jobs@.subrange(0, i as int), sprint_id, status_id),
            c <= i,
        decreases jobs.len() - i,
    {
        proof {
            lemma_jobs_with_step(jobs@, i as int, sprint_id, status_id);
        }
        if jobs[i].sprint_id == sprint_id && jobs[i].status_id == status_id {
            c += 1;
        }
        i += 1;
    }
    assert(jobs@.subrange(0, i as int) =~= jobs@);
    c
}

/// The statuses with jobs in the current sprint, each with its count and its share
/// of the sprint's jobs and of all jobs. Empty when either total is zero.
pub fn jobs_per_status(db: &Database, current_id: i32) -> (r: Vec<CountAndPercentage>)
    requires
        db.well_formed(),
    ensures
        jobs_in_sprint(db@.jobs, current_id) == 0 ==> r@.len() == 0,
        jobs_in_sprint(db@.jobs, current_id) > 0 ==> status_rows_ok(
            db@,
            current_id,
            db@.statuses.len() as int,
            r@,
        ),
{
    let jobs = db.jobs_table();
    let statuses = db.statuses_table();
    proof {
        lemma_table_len(job_ids(db@.jobs));
        lemma_in_sprint_le(db@.jobs, current_id);
    }
    let total = jobs.len() as u64;
    let in_sprint = count_in_sprint(jobs, current_id);
    let mut out: Vec<CountAndPercentage> = Vec::new();
    if in_sprint == 0 || total == 0 {
        return out;
    }
    let mut i: usize = 0;
    while i < statuses.len()
        invariant
            i <= statuses.len(),
            jobs@ == db@.jobs,
            statuses@ == db@.statuses,
            total == db@.jobs.len(),
            total <= i32::MAX,
            in_sprint == jobs_in_sprint(db@.jobs, current_id),
            0 < in_sprint <= total,
            status_rows_ok(db@, current_id, i as int, out@),
        decreases statuses.len() - i,
    {
        let st = &statuses[i];
        let c = count_with(jobs, current_id, st.id);
        proof {
            lemma_jobs_with_le(db@.jobs, current_id, st.id);
        }
        if c > 0 {
            let row = CountAndPercentage {
                label: st.name.clone(),
                count: c as i64,
                sprint_percentage: percent(c, in_sprint),
                overall_percentage: percent(c, total),
            };
            let ghost prev = out@;
            out.push(row);
            assert(out@.drop_last() == prev);
        }
        i += 1;
    }
    out
}

/// The sprints with jobs, each with its count and its share of the current sprint's
/// jobs and of all jobs. Empty when either total is zero.
pub fn jobs_per_sprint(db: &Database, current_id: i32) -> (r: Vec<CountAndPercentage>)
    requires
        db.well_formed(),
    ensures
        jobs_in_sprint(db@.jobs, current_id) == 0 ==> r@.len() == 0,
        jobs_in_sprint(db@.jobs, current_id) > 0 ==> sprint_rows_ok(
            db@,
            current_id,
            db@.sprints.len() as int,
            r@,
        ),
{
    let jobs = db.jobs_table();
    let sprints = db.sprints_table();
    proof {
        lemma_table_len(job_ids(db@.jobs));
        lemma_in_sprint_le(db@.jobs, current_id);
    }
    let total = jobs.len() as u64;
    let in_sprint = count_in_sprint(jobs, current_id);
    let mut out: Vec<CountAndPercentage> = Vec::new();
    if in_sprint == 0 || total == 0 {
        return out;
    }
    let mut i: usize = 0;
    while i < sprints.len()
        invariant
            i <= sprints.len(),
            jobs@ == db@.jobs,
            sprints@ == db@.sprints,
            total == db@.jobs.len(),
            total <= i32::MAX,
            in_sprint == jobs_in_sprint(db@.jobs, current_id),
            0 < in_sprint <= total,
            sprint_rows_ok(db@, current_id, i as int, out@),
        decreases sprints.len() - i,
    {
        let sp = &sprints[i];
        let c = count_in_sprint(jobs, sp.id);
        proof {
            lemma_in_sprint_le(db@.jobs, sp.id);
        }
        if c > 0 {
            let row = CountAndPercentage {
                label: sp.name.clone(),
                count: c as i64,
                sprint_percentage: percent(c, in_sprint),
                overall_percentage: percent(c, total),
            };
            let ghost prev = out@;
            out.push(row);
            assert(out@.drop_last() == prev);
        }
        i += 1;
    }
    out
}

} // verus!
