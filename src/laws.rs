//! Laws of the store that relate several operations or hold across sequences of
//! them, proved from the operations' contracts.

use vstd::prelude::*;

use crate::cli::QueryArgs;
use crate::errors::FettersError;
use crate::export::{export_query, row_cells_ok, row_color, sheet_layout, SheetCell};
use crate::models::job::{export_row, NewJob, QueriedJob, TabledJob};
use crate::models::sprint::QueriedSprint;
use crate::models::stage::{NewInterviewStage, QueriedInterviewStage};
use crate::models::status::QueriedStatus;
use crate::models::title::QueriedTitle;
use crate::query::{job_row, job_selected, list_result, listed, stages_match, text_matches};
use crate::store::{
    counters_consistent, default_status_labels, ids_ok, job_add_post, job_delete_post,
    lemma_table_len, max_stage, next_stage_number, numbered, renumber_post, renumbered,
    same_but_stages, seed_post, seeded, sprint_ids, sprint_name, stage_add_post, stage_delete_post,
    stage_ids, stages_of_job, stages_only, status_ids_short, status_named, title_intern_post,
    title_interned, title_named, wf, DbView,
};
use crate::text::{contains_ci, matches_at};

verus! {

// ----- sprint counters -----

/// One job operation, as its contract describes it: an add or a delete, whether it
/// succeeded or failed.
pub open spec fn job_step(a: DbView, b: DbView) -> bool {
    ||| exists|n: NewJob, r: Result<QueriedJob, FettersError>| job_add_post(a, b, n, r)
    ||| exists|id: i32, r: Result<QueriedJob, FettersError>| job_delete_post(a, b, id, r)
}

/// After any sequence of job additions and deletions, every sprint's `num_jobs`
/// equals the number of jobs that name it, provided it did at the start.
pub proof fn lemma_counters_after_job_ops(trace: Seq<DbView>)
    requires
        trace.len() >= 1,
        counters_consistent(trace[0]),
        forall|i: int| 0 <= i < trace.len() - 1 ==> job_step(#[trigger] trace[i], trace[i + 1]),
    ensures
        counters_consistent(trace.last()),
    decreases trace.len(),
{
    if trace.len() > 1 {
        let front = trace.drop_last();
        assert forall|i: int| 0 <= i < front.len() - 1 implies job_step(#[trigger] front[i], front[i + 1]) by {
            assert(job_step(trace[i], trace[i + 1]));
        }
        lemma_counters_after_job_ops(front);
        assert(job_step(trace[trace.len() - 2], trace[trace.len() - 1]));
    }
}


// ----- stage numbering -----

/// Every job's stages carry the numbers 1, 2, ... in table order.
pub open spec fn all_numbered(s: Seq<QueriedInterviewStage>) -> bool {
    forall|job_id: i32| #[trigger] numbered(s, job_id)
}

/// One stage operation, as the contracts describe it: an addition, or a deletion
/// followed by renumbering the deleted stage's job.
pub open spec fn stage_step(a: DbView, b: DbView) -> bool {
    ||| exists|n: NewInterviewStage, r: Result<QueriedInterviewStage, FettersError>| stage_add_post(a, b, n, r)
    ||| exists|
        id: i32,
        r1: Result<QueriedInterviewStage, FettersError>,
        mid: DbView,
        job_id: i32,
        r2: Result<(), FettersError>,
    |
        stage_delete_post(a, mid, id, r1) && (r1 matches Ok(row) ==> job_id == row.job_id) && renumber_post(
            mid,
            b,
            job_id,
            r2,
        )
}

/// The stage numbers of a job, in table order.
pub open spec fn stage_numbers(s: Seq<QueriedInterviewStage>, job_id: i32) -> Seq<int> {
    stages_only(s, job_id).map_values(|x: QueriedInterviewStage| x.stage_number as int)
}

proof fn lemma_numbered_prefix(s: Seq<QueriedInterviewStage>, job_id: i32)
    requires
        s.len() > 0,
        numbered(s, job_id),
    ensures
        numbered(s.drop_last(), job_id),
{
    let d = s.drop_last();
    assert forall|i: int| 0 <= i < d.len() && (#[trigger] d[i]).job_id == job_id implies d[i].stage_number
        == stages_of_job(d.subrange(0, i), job_id) + 1 by {
        assert(d.subrange(0, i) =~= s.subrange(0, i));
        assert(d[i] == s[i]);
    }
}

proof fn lemma_numbered_max(s: Seq<QueriedInterviewStage>, job_id: i32)
    requires
        numbered(s, job_id),
    ensures
        max_stage(s, job_id) == if stages_of_job(s, job_id) == 0 {
            None::<int>
        } else {
            Some(stages_of_job(s, job_id) as int)
        },
    decreases s.len(),
{
    if s.len() > 0 {
        let d = s.drop_last();
        lemma_numbered_prefix(s, job_id);
        lemma_numbered_max(d, job_id);
        if s.last().job_id == job_id {
            assert(s.subrange(0, s.len() - 1) =~= d);
            assert(s[s.len() - 1].stage_number == stages_of_job(d, job_id) + 1);
        }
    }
}

proof fn lemma_count_same_jobs(s: Seq<QueriedInterviewStage>, t: Seq<QueriedInterviewStage>, job_id: i32)
    requires
        s.len() == t.len(),
        forall|i: int| 0 <= i < s.len() ==> (#[trigger] s[i]).job_id == t[i].job_id,
    ensures
        stages_of_job(s, job_id) == stages_of_job(t, job_id),
    decreases s.len(),
{
    if s.len() > 0 {
        lemma_count_same_jobs(s.drop_last(), t.drop_last(), job_id);
        assert(s[s.len() - 1].job_id == t[t.len() - 1].job_id);
    }
}

proof fn lemma_count_remove(s: Seq<QueriedInterviewStage>, k: int, job_id: i32)
    requires
        0 <= k < s.len(),
    ensures
        stages_of_job(s.remove(k), job_id) + (if s[k].job_id == job_id {
            1int
        } else {
            0int
        }) == stages_of_job(s, job_id),
    decreases s.len(),
{
    if k == s.len() - 1 {
        assert(s.remove(k) =~= s.drop_last());
    } else {
        let d = s.drop_last();
        lemma_count_remove(d, k, job_id);
        assert(s.remove(k) =~= d.remove(k).push(s.last()));
        assert(d.remove(k).push(s.last()).drop_last() =~= d.remove(k));
    }
}

/// Appending a stage under its job's next number keeps every job numbered.
proof fn lemma_numbered_push(s: Seq<QueriedInterviewStage>, row: QueriedInterviewStage)
    requires
        all_numbered(s),
        row.stage_number == next_stage_number(s, row.job_id),
    ensures
        all_numbered(s.push(row)),
{
    let t = s.push(row);
    assert forall|job_id: i32| #[trigger] numbered(t, job_id) by {
        assert(numbered(s, job_id));
        lemma_numbered_max(s, row.job_id);
        assert(numbered(s, row.job_id));
        assert forall|i: int| 0 <= i < t.len() && (#[trigger] t[i]).job_id == job_id implies t[i].stage_number
            == stages_of_job(t.subrange(0, i), job_id) + 1 by {
            if i < s.len() {
                assert(t.subrange(0, i) =~= s.subrange(0, i));
                assert(t[i] == s[i]);
            } else {
                assert(t.subrange(0, i) =~= s);
            }
        }
    }
}

/// Removing a stage of another job keeps a job numbered.
proof fn lemma_numbered_remove(s: Seq<QueriedInterviewStage>, k: int, job_id: i32)
    requires
        0 <= k < s.len(),
        numbered(s, job_id),
        s[k].job_id != job_id,
    ensures
        numbered(s.remove(k), job_id),
{
    let t = s.remove(k);
    assert forall|i: int| 0 <= i < t.len() && (#[trigger] t[i]).job_id == job_id implies t[i].stage_number
        == stages_of_job(t.subrange(0, i), job_id) + 1 by {
        if i < k {
            assert(t.subrange(0, i) =~= s.subrange(0, i));
            assert(t[i] == s[i]);
        } else {
            assert(t[i] == s[i + 1]);
            assert(t.subrange(0, i) =~= s.subrange(0, i + 1).remove(k));
            lemma_count_remove(s.subrange(0, i + 1), k, job_id);
        }
    }
}

/// Renumbering a job numbers it.
proof fn lemma_renumbered_self(s: Seq<QueriedInterviewStage>, job_id: i32)
    requires
        s.len() <= i32::MAX,
    ensures
        numbered(renumbered(s, job_id), job_id),
{
    let t = renumbered(s, job_id);
    assert forall|i: int| 0 <= i < t.len() && (#[trigger] t[i]).job_id == job_id implies t[i].stage_number
        == stages_of_job(t.subrange(0, i), job_id) + 1 by {
        lemma_count_same_jobs(t.subrange(0, i), s.subrange(0, i), job_id);
        lemma_count_bound_le(s.subrange(0, i), job_id);
    }
}

proof fn lemma_count_bound_le(s: Seq<QueriedInterviewStage>, job_id: i32)
    ensures
        stages_of_job(s, job_id) <= s.len(),
    decreases s.len(),
{
    if s.len() > 0 {
        lemma_count_bound_le(s.drop_last(), job_id);
    }
}

/// Renumbering one job leaves another job's numbering as it was.
proof fn lemma_renumbered_other(s: Seq<QueriedInterviewStage>, job_id: i32, other: i32)
    requires
        other != job_id,
        numbered(s, other),
    ensures
        numbered(renumbered(s, job_id), other),
{
    let t = renumbered(s, job_id);
    assert forall|i: int| 0 <= i < t.len() && (#[trigger] t[i]).job_id == other implies t[i].stage_number
        == stages_of_job(t.subrange(0, i), other) + 1 by {
        lemma_count_same_jobs(t.subrange(0, i), s.subrange(0, i), other);
        assert(t[i] == s[i]);
    }
}

/// One stage operation keeps every job numbered 1, 2, ...
pub proof fn lemma_stage_step_keeps_numbering(a: DbView, b: DbView)
    requires
        wf(a),
        all_numbered(a.stages),
        stage_step(a, b),
    ensures
        all_numbered(b.stages),
{
    lemma_table_len(stage_ids(a.stages));
    if exists|n: NewInterviewStage, r: Result<QueriedInterviewStage, FettersError>| stage_add_post(a, b, n, r) {
        let (n, r) = choose|n: NewInterviewStage, r: Result<QueriedInterviewStage, FettersError>| stage_add_post(a, b, n, r);
        if r is Ok {
            let row = r->Ok_0;
            lemma_numbered_push(a.stages, row);
        }
    } else {
        let (id, r1, mid, job_id, r2) = choose|
            id: i32,
            r1: Result<QueriedInterviewStage, FettersError>,
            mid: DbView,
            job_id: i32,
            r2: Result<(), FettersError>,
        |
            stage_delete_post(a, mid, id, r1) && (r1 matches Ok(row) ==> job_id == row.job_id) && renumber_post(
                mid,
                b,
                job_id,
                r2,
            );
        if exists|i: int| 0 <= i < a.stages.len() && a.stages[i].id == id {
            let k = choose|k: int|
                0 <= k < a.stages.len() && (#[trigger] a.stages[k]).id == id && {
                    &&& r1 == Ok::<QueriedInterviewStage, FettersError>(a.stages[k])
                    &&& mid.stages == a.stages.remove(k)
                    &&& same_but_stages(a, mid)
                };
            assert forall|other: i32| #[trigger] numbered(b.stages, other) by {
                if other == job_id {
                    lemma_renumbered_self(mid.stages, job_id);
                } else {
                    assert(numbered(a.stages, other));
                    lemma_numbered_remove(a.stages, k, other);
                    lemma_renumbered_other(mid.stages, job_id, other);
                }
            }
        } else {
            assert forall|other: i32| #[trigger] numbered(b.stages, other) by {
                if other == job_id {
                    lemma_renumbered_self(mid.stages, job_id);
                } else {
                    assert(numbered(a.stages, other));
                    lemma_renumbered_other(mid.stages, job_id, other);
                }
            }
        }
    }
}

/// After any sequence of stage additions, and deletions each followed by
/// renumbering, every job's stages carry the numbers 1, 2, ..., N.
pub proof fn lemma_numbering_after_stage_ops(trace: Seq<DbView>)
    requires
        trace.len() >= 1,
        all_numbered(trace[0].stages),
        forall|i: int| 0 <= i < trace.len() ==> wf(#[trigger] trace[i]),
        forall|i: int| 0 <= i < trace.len() - 1 ==> stage_step(#[trigger] trace[i], trace[i + 1]),
    ensures
        all_numbered(trace.last().stages),
    decreases trace.len(),
{
    if trace.len() > 1 {
        let front = trace.drop_last();
        assert forall|i: int| 0 <= i < front.len() - 1 implies stage_step(#[trigger] front[i], front[i + 1]) by {
            assert(stage_step(trace[i], trace[i + 1]));
        }
        assert forall|i: int| 0 <= i < front.len() implies wf(#[trigger] front[i]) by {
            assert(wf(trace[i]));
        }
        lemma_numbering_after_stage_ops(front);
        let n = trace.len();
        assert(stage_step(trace[n - 2], trace[n - 1]));
        assert(wf(trace[n - 2]));
        lemma_stage_step_keeps_numbering(trace[n - 2], trace[n - 1]);
    }
}

/// A numbered job's stage numbers are 1, 2, ..., N in order, so their multiset is
/// {1, ..., N}.
pub proof fn lemma_numbered_is_one_to_n(s: Seq<QueriedInterviewStage>, job_id: i32)
    requires
        numbered(s, job_id),
        s.len() <= i32::MAX,
    ensures
        stage_numbers(s, job_id) == Seq::new(stages_of_job(s, job_id), |i: int| i + 1),
        stage_numbers(s, job_id).to_multiset() == Seq::new(stages_of_job(s, job_id), |i: int| i + 1).to_multiset(),
    decreases s.len(),
{
    if s.len() > 0 {
        let d = s.drop_last();
        lemma_numbered_prefix(s, job_id);
        lemma_numbered_is_one_to_n(d, job_id);
        if s.last().job_id == job_id {
            assert(s.subrange(0, s.len() - 1) =~= d);
            assert(stage_numbers(s, job_id) =~= stage_numbers(d, job_id).push(s.last().stage_number as int));
            assert(stage_numbers(s, job_id) =~= Seq::new(stages_of_job(s, job_id), |i: int| i + 1));
        } else {
            assert(stage_numbers(s, job_id) == stage_numbers(d, job_id));
        }
    } else {
        assert(stage_numbers(s, job_id) =~= Seq::new(stages_of_job(s, job_id), |i: int| i + 1));
    }
}

// ----- statuses and titles -----

proof fn lemma_labels_distinct()
    ensures
        default_status_labels().no_duplicates(),
{
    reveal_strlit("GHOSTED");
    reveal_strlit("HIRED");
    reveal_strlit("IN PROGRESS");
    reveal_strlit("NOT HIRING ANYMORE");
    reveal_strlit("OFFER RECEIVED");
    reveal_strlit("PENDING");
    reveal_strlit("REJECTED");
    let l = default_status_labels();
    assert forall|i: int, j: int| 0 <= i < l.len() && 0 <= j < l.len() && i != j implies l[i] != l[j] by {
        if l[i] == l[j] {
            assert(l[i].len() == l[j].len());
            assert(l[i][0] == l[j][0]);
        }
    }
}

/// A well-formed store whose statuses are exactly the seven default labels, each
/// present, holds seven statuses.
proof fn lemma_exactly_seven(v: DbView)
    requires
        wf(v),
        forall|i: int| 0 <= i < v.statuses.len() ==> default_status_labels().to_set().contains(#[trigger] v.statuses[i].name@),
        forall|k: int| 0 <= k < 7 ==> status_named(v, #[trigger] default_status_labels()[k]),
    ensures
        v.statuses.len() == 7,
{
    let labels = default_status_labels();
    let names = v.statuses.map_values(|r: QueriedStatus| r.name@);
    assert(names.no_duplicates()) by {
        assert forall|i: int, j: int| 0 <= i < names.len() && 0 <= j < names.len() && i != j implies names[i]
            != names[j] by {
            if i < j {
                assert(v.statuses[i].name@ != v.statuses[j].name@);
            } else {
                assert(v.statuses[j].name@ != v.statuses[i].name@);
            }
        }
    }
    assert(names.to_set() =~= labels.to_set()) by {
        assert forall|x: Seq<char>| names.to_set().contains(x) implies labels.to_set().contains(x) by {
            let i = choose|i: int| 0 <= i < names.len() && names[i] == x;
            assert(labels.to_set().contains(v.statuses[i].name@));
        }
        assert forall|x: Seq<char>| labels.to_set().contains(x) implies names.to_set().contains(x) by {
            let k = choose|k: int| 0 <= k < labels.len() && labels[k] == x;
            assert(status_named(v, labels[k]));
            let i = choose|i: int| 0 <= i < v.statuses.len() && (#[trigger] v.statuses[i]).name@ == labels[k];
            assert(names[i] == x);
        }
    }
    lemma_labels_distinct();
    names.unique_seq_to_set();
    labels.unique_seq_to_set();
}

/// Seeding an empty status table twice leaves exactly seven statuses.
pub proof fn lemma_seed_twice(a: DbView, b: DbView, c: DbView, r1: Result<(), FettersError>, r2: Result<(), FettersError>)
    requires
        wf(a),
        wf(b),
        wf(c),
        a.statuses.len() == 0,
        seed_post(a, b, r1),
        seed_post(b, c, r2),
    ensures
        b.statuses.len() == 7,
        c.statuses.len() == 7,
        c == b,
{
    assert(!status_ids_short(a));
    assert(seeded(a, b));
    lemma_exactly_seven(b);
}

/// Interning the same title name twice returns rows with the same identifier.
pub proof fn lemma_intern_twice(a: DbView, b: DbView, c: DbView, name: &str, r1: Result<QueriedTitle, FettersError>, r2: Result<QueriedTitle, FettersError>)
    requires
        wf(b),
        title_intern_post(a, b, name, r1),
        title_intern_post(b, c, name, r2),
        r1 is Ok,
    ensures
        r2 is Ok,
        r1->Ok_0.id == r2->Ok_0.id,
{
    let row1 = r1->Ok_0;
    assert(title_interned(a, b, name@, row1));
    assert(b.titles.contains(row1)) by {
        if !title_named(a, name@) {
            assert(b.titles[b.titles.len() - 1] == row1);
        }
    }
    let i1 = choose|i: int| 0 <= i < b.titles.len() && b.titles[i] == row1;
    assert(title_named(b, name@)) by {
        assert(b.titles[i1].name@ == name@);
    }
    let row2 = r2->Ok_0;
    assert(title_interned(b, c, name@, row2));
    let i2 = choose|i: int| 0 <= i < b.titles.len() && b.titles[i] == row2;
    if i1 < i2 {
        assert(b.titles[i1].name@ != b.titles[i2].name@);
    } else if i2 < i1 {
        assert(b.titles[i2].name@ != b.titles[i1].name@);
    }
}

// ----- the job query -----

/// The query with no filter: the jobs of the current sprint.
pub open spec fn unfiltered() -> QueryArgs {
    QueryArgs {
        company: None,
        link: None,
        notes: None,
        sprint: None,
        status: None,
        title: None,
        stages: None,
    }
}

proof fn lemma_listed_member(v: DbView, q: QueryArgs, current_id: i32, n: int, x: TabledJob)
    requires
        0 <= n <= v.jobs.len(),
        listed(v, q, current_id, n).contains(x),
    ensures
        exists|m: int|
            0 <= m < n && job_selected(v, q, current_id, #[trigger] v.jobs[m]) && x == job_row(v, v.jobs[m]),
    decreases n,
{
    let prev = listed(v, q, current_id, n - 1);
    if job_selected(v, q, current_id, v.jobs[n - 1]) {
        let i = choose|i: int| 0 <= i < listed(v, q, current_id, n).len() && listed(v, q, current_id, n)[i] == x;
        if i < prev.len() {
            assert(prev[i] == x);
            lemma_listed_member(v, q, current_id, n - 1, x);
        }
    } else {
        lemma_listed_member(v, q, current_id, n - 1, x);
    }
}

proof fn lemma_listed_prefix(v: DbView, q: QueryArgs, current_id: i32, m: int, n: int)
    requires
        0 <= m <= n <= v.jobs.len(),
    ensures
        listed(v, q, current_id, m).len() <= listed(v, q, current_id, n).len(),
        listed(v, q, current_id, n).subrange(0, listed(v, q, current_id, m).len() as int) == listed(v, q, current_id, m),
    decreases n - m,
{
    if m < n {
        lemma_listed_prefix(v, q, current_id, m, n - 1);
        let a = listed(v, q, current_id, m);
        let b = listed(v, q, current_id, n - 1);
        let c = listed(v, q, current_id, n);
        if job_selected(v, q, current_id, v.jobs[n - 1]) {
            assert(c.subrange(0, a.len() as int) =~= b.subrange(0, a.len() as int));
        }
    } else {
        assert(listed(v, q, current_id, n).subrange(0, listed(v, q, current_id, n).len() as int)
            =~= listed(v, q, current_id, n));
    }
}

/// A selected job's row stands in the listing at the number of rows listed before it.
proof fn lemma_listed_at(v: DbView, q: QueryArgs, current_id: i32, m: int)
    requires
        0 <= m < v.jobs.len(),
        job_selected(v, q, current_id, v.jobs[m]),
    ensures
        listed(v, q, current_id, m).len() < list_result(v, q, current_id).len(),
        list_result(v, q, current_id)[listed(v, q, current_id, m).len() as int] == job_row(v, v.jobs[m]),
{
    lemma_listed_prefix(v, q, current_id, m + 1, v.jobs.len() as int);
    let a = listed(v, q, current_id, m + 1);
    let all = list_result(v, q, current_id);
    assert(all.subrange(0, a.len() as int)[a.len() - 1] == a[a.len() - 1]);
}

/// Each text filter keeps only rows whose field contains the value (ignoring ASCII
/// case), and only rows that the unfiltered listing also returns.
pub proof fn lemma_text_filters(v: DbView, q: QueryArgs, current_id: i32)
    requires
        q.sprint is None,
        q.stages is None,
    ensures
        forall|x: TabledJob|
            #[trigger] list_result(v, q, current_id).contains(x) ==> {
                &&& list_result(v, unfiltered(), current_id).contains(x)
                &&& text_matches(Some(x.company_name), q.company)
                &&& text_matches(x.link, q.link)
                &&& text_matches(x.notes, q.notes)
                &&& text_matches(x.status, q.status)
                &&& text_matches(x.title, q.title)
            },
{
    assert forall|x: TabledJob| #[trigger] list_result(v, q, current_id).contains(x) implies {
        &&& list_result(v, unfiltered(), current_id).contains(x)
        &&& text_matches(Some(x.company_name), q.company)
        &&& text_matches(x.link, q.link)
        &&& text_matches(x.notes, q.notes)
        &&& text_matches(x.status, q.status)
        &&& text_matches(x.title, q.title)
    } by {
        lemma_listed_member(v, q, current_id, v.jobs.len() as int, x);
        let m = choose|m: int|
            0 <= m < v.jobs.len() && job_selected(v, q, current_id, #[trigger] v.jobs[m]) && x == job_row(v, v.jobs[m]);
        assert(job_selected(v, unfiltered(), current_id, v.jobs[m]));
        lemma_listed_at(v, unfiltered(), current_id, m);
    }
}

/// The sprint filter keeps only jobs whose sprint's name contains the value
/// (ignoring ASCII case).
pub proof fn lemma_sprint_filter(v: DbView, q: QueryArgs, current_id: i32)
    requires
        q.sprint is Some,
    ensures
        forall|x: TabledJob|
            #[trigger] list_result(v, q, current_id).contains(x) ==> exists|m: int|
                0 <= m < v.jobs.len() && x == job_row(v, #[trigger] v.jobs[m]) && text_matches(
                    sprint_name(v.sprints, v.jobs[m].sprint_id),
                    q.sprint,
                ),
{
    assert forall|x: TabledJob| #[trigger] list_result(v, q, current_id).contains(x) implies exists|m: int|
        0 <= m < v.jobs.len() && x == job_row(v, #[trigger] v.jobs[m]) && text_matches(
            sprint_name(v.sprints, v.jobs[m].sprint_id),
            q.sprint,
        ) by {
        lemma_listed_member(v, q, current_id, v.jobs.len() as int, x);
    }
}

/// The stage filter: with 0 every listed job has a stage; with N >= 1 every listed
/// job has exactly N stages.
pub proof fn lemma_stage_filter(v: DbView, q: QueryArgs, current_id: i32)
    requires
        wf(v),
        q.stages is Some,
    ensures
        forall|x: TabledJob|
            #[trigger] list_result(v, q, current_id).contains(x) ==> exists|m: int|
                0 <= m < v.jobs.len() && x == job_row(v, #[trigger] v.jobs[m]) && (if q.stages->0 == 0 {
                    stages_of_job(v.stages, v.jobs[m].id) >= 1
                } else {
                    stages_of_job(v.stages, v.jobs[m].id) == q.stages->0
                }),
{
    lemma_table_len(stage_ids(v.stages));
    assert forall|x: TabledJob| #[trigger] list_result(v, q, current_id).contains(x) implies exists|m: int|
        0 <= m < v.jobs.len() && x == job_row(v, #[trigger] v.jobs[m]) && (if q.stages->0 == 0 {
            stages_of_job(v.stages, v.jobs[m].id) >= 1
        } else {
            stages_of_job(v.stages, v.jobs[m].id) == q.stages->0
        }) by {
        lemma_listed_member(v, q, current_id, v.jobs.len() as int, x);
        let m = choose|m: int|
            0 <= m < v.jobs.len() && job_selected(v, q, current_id, #[trigger] v.jobs[m]) && x == job_row(v, v.jobs[m]);
        lemma_count_bound_le(v.stages, v.jobs[m].id);
        assert(stages_match(q.stages, job_row(v, v.jobs[m])));
    }
}

// ----- export -----

proof fn lemma_sprint_name_of(v: DbView, k: int)
    requires
        wf(v),
        0 <= k < v.sprints.len(),
    ensures
        sprint_name(v.sprints, v.sprints[k].id) == Some(v.sprints[k].name),
{
    lemma_sprint_name_prefix(v.sprints, k, v.sprints.len() as int);
    assert(v.sprints.subrange(0, v.sprints.len() as int) =~= v.sprints);
}

proof fn lemma_sprint_name_prefix(s: Seq<QueriedSprint>, k: int, n: int)
    requires
        ids_ok(sprint_ids(s)),
        0 <= k < n <= s.len(),
    ensures
        sprint_name(s.subrange(0, n), s[k].id) == Some(s[k].name),
    decreases n,
{
    let t = s.subrange(0, n);
    assert(t.drop_last() =~= s.subrange(0, n - 1));
    if k < n - 1 {
        assert(sprint_ids(s)[k] < sprint_ids(s)[n - 1]);
        lemma_sprint_name_prefix(s, k, n - 1);
    }
}

proof fn lemma_contains_self(s: Seq<char>)
    ensures
        contains_ci(s, s),
{
    assert(matches_at(s, s, 0));
}

/// The rows of an export of the current sprint: the row of every job of that
/// sprint appears in the worksheet, and in the order of the listing, which is the
/// order of the jobs.
pub proof fn lemma_export_round_trip(v: DbView, ci: int, rows: Seq<Vec<SheetCell>>)
    requires
        wf(v),
        0 <= ci < v.sprints.len(),
        sheet_layout(list_result(v, export_query(v.sprints[ci].name), v.sprints[ci].id), rows),
    ensures
        forall|k: int|
            0 <= k < v.jobs.len() && (#[trigger] v.jobs[k]).sprint_id == v.sprints[ci].id ==> {
                let i = listed(v, export_query(v.sprints[ci].name), v.sprints[ci].id, k).len() + 1int;
                &&& 1 <= i < rows.len()
                &&& row_cells_ok(rows[i]@, i + 1, export_row(job_row(v, v.jobs[k])), row_color(job_row(v, v.jobs[k])))
            },
        forall|k1: int, k2: int|
            0 <= k1 < k2 < v.jobs.len() && (#[trigger] v.jobs[k1]).sprint_id == v.sprints[ci].id
                && (#[trigger] v.jobs[k2]).sprint_id == v.sprints[ci].id ==> listed(
                v,
                export_query(v.sprints[ci].name),
                v.sprints[ci].id,
                k1,
            ).len() < listed(v, export_query(v.sprints[ci].name), v.sprints[ci].id, k2).len(),
{
    let cur = v.sprints[ci];
    let q = export_query(cur.name);
    lemma_sprint_name_of(v, ci);
    lemma_contains_self(cur.name@);
    assert forall|k: int| 0 <= k < v.jobs.len() && (#[trigger] v.jobs[k]).sprint_id == cur.id implies {
        let i = listed(v, q, cur.id, k).len() + 1int;
        &&& 1 <= i < rows.len()
        &&& row_cells_ok(rows[i]@, i + 1, export_row(job_row(v, v.jobs[k])), row_color(job_row(v, v.jobs[k])))
    } by {
        assert(job_selected(v, q, cur.id, v.jobs[k]));
        lemma_listed_at(v, q, cur.id, k);
    }
    assert forall|k1: int, k2: int|
        0 <= k1 < k2 < v.jobs.len() && (#[trigger] v.jobs[k1]).sprint_id == cur.id && (#[trigger] v.jobs[k2]).sprint_id
            == cur.id implies listed(v, q, cur.id, k1).len() < listed(v, q, cur.id, k2).len() by {
        assert(job_selected(v, q, cur.id, v.jobs[k1]));
        lemma_listed_prefix(v, q, cur.id, k1 + 1, k2);
    }
}
} // verus!
