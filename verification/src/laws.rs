//! Laws of the job table, stated over the views and proved once for
//! every state the invariant admits.

use vstd::prelude::*;

use crate::job::JobView;
use crate::job::ProcFilter;
use crate::job::ProcView;
use crate::job::Status;
use crate::job::all_terminal;
use crate::job::count_matching;
use crate::job::notify_job;
use crate::job::notify_proc;
use crate::job::notify_table;
use crate::table::has_job_id;
use crate::table::job_has_pid;
use crate::table::job_index_of;
use crate::table::job_with_id;
use crate::table::table_wf;

verus! {

/// A count under any filter is non-negative.
pub proof fn lemma_count_nonneg(procs: Seq<ProcView>, f: ProcFilter)
    ensures
        count_matching(procs, f) >= 0,
    decreases procs.len(),
{
    if procs.len() > 0 {
        lemma_count_nonneg(procs.drop_last(), f);
    }
}

/// Counting every process equals counting the terminal ones plus the
/// live ones: the two filters partition each job's pipeline.
pub proof fn lemma_count_partition(procs: Seq<ProcView>)
    ensures
        count_matching(procs, ProcFilter::All) == count_matching(procs, ProcFilter::Done)
            + count_matching(procs, ProcFilter::Remaining),
    decreases procs.len(),
{
    if procs.len() > 0 {
        lemma_count_partition(procs.drop_last());
    }
}

/// For every live job, the `All` count splits into the `Done` count
/// plus the `Remaining` count.
pub proof fn lemma_job_count_partition(v: Seq<JobView>, id: usize)
    requires
        has_job_id(v, id),
    ensures
        count_matching(job_with_id(v, id).procs, ProcFilter::All) == count_matching(
            job_with_id(v, id).procs,
            ProcFilter::Done,
        ) + count_matching(job_with_id(v, id).procs, ProcFilter::Remaining),
{
    lemma_count_partition(job_with_id(v, id).procs);
}

/// The `Remaining` count of a pipeline is zero exactly when every one
/// of its processes has reached a terminal state: a job is reported
/// fully done if and only if each of its notification chains ended in
/// `Done` or `Terminated`.
pub proof fn lemma_remaining_zero_iff_all_terminal(procs: Seq<ProcView>)
    ensures
        count_matching(procs, ProcFilter::Remaining) == 0 <==> all_terminal(procs),
    decreases procs.len(),
{
    if procs.len() > 0 {
        let rest = procs.drop_last();
        lemma_remaining_zero_iff_all_terminal(rest);
        lemma_count_nonneg(rest, ProcFilter::Remaining);
        assert(all_terminal(procs) ==> all_terminal(rest) && crate::job::is_terminal(
            procs.last().status,
        ));
        assert(all_terminal(rest) && crate::job::is_terminal(procs.last().status)
            ==> all_terminal(procs)) by {
            if all_terminal(rest) && crate::job::is_terminal(procs.last().status) {
                assert forall|k: int|
                    0 <= k < procs.len() implies crate::job::is_terminal(
                    (#[trigger] procs[k]).status,
                ) by {
                    if k < procs.len() - 1 {
                        assert(procs[k] == rest[k]);
                    }
                }
            }
        }
    }
}

/// The `Remaining` count of a live job is zero exactly when every one
/// of its processes has reached a terminal state.
pub proof fn lemma_job_done_iff_all_terminal(v: Seq<JobView>, id: usize)
    requires
        has_job_id(v, id),
    ensures
        count_matching(job_with_id(v, id).procs, ProcFilter::Remaining) == 0 <==> all_terminal(
            job_with_id(v, id).procs,
        ),
{
    lemma_remaining_zero_iff_all_terminal(job_with_id(v, id).procs);
}

/// Immediately after a registration, each pid of the new job resolves
/// to the new job's id: under the table invariant no other live job
/// contains that pid.
pub proof fn lemma_new_pid_resolves_to_new_job(v: Seq<JobView>, jv: JobView, pid: usize, id: usize)
    requires
        table_wf(v.push(jv)),
        job_has_pid(jv, pid),
        has_job_id(v.push(jv), id),
        job_has_pid(job_with_id(v.push(jv), id), pid),
    ensures
        id == jv.id,
{
    let w = v.push(jv);
    let i = job_index_of(w, id);
    assert(0 <= i < w.len() && w[i].id == id);
    let k = choose|k: int| 0 <= k < w[i].procs.len() && (#[trigger] w[i].procs[k].pid) == pid;
    let n = v.len() as int;
    assert(w[n] == jv);
    let k2 = choose|k2: int| 0 <= k2 < jv.procs.len() && (#[trigger] jv.procs[k2].pid) == pid;
    assert(w[n].procs[k2].pid == pid);
    if i != n {
        assert(w[i].procs[k].pid != w[n].procs[k2].pid);
        assert(false);
    }
}

/// Delivering the same `(pid, st)` notification twice leaves the table
/// exactly as delivering it once leaves it.
pub proof fn lemma_notify_idempotent(v: Seq<JobView>, pid: usize, st: Status)
    ensures
        notify_table(notify_table(v, pid, st), pid, st) == notify_table(v, pid, st),
{
    let v1 = notify_table(v, pid, st);
    let v2 = notify_table(v1, pid, st);
    assert forall|i: int| 0 <= i < v.len() implies v2[i] == v1[i] by {
        assert(v1[i] == notify_job(v[i], pid, st));
        assert(v2[i] == notify_job(v1[i], pid, st));
        assert forall|k: int| 0 <= k < v[i].procs.len() implies v2[i].procs[k] == v1[i].procs[k] by {
            assert(v1[i].procs[k] == notify_proc(#[trigger] v[i].procs[k], pid, st));
            assert(v2[i].procs[k] == notify_proc(v1[i].procs[k], pid, st));
        }
        assert(v2[i].procs =~= v1[i].procs);
        assert(v2[i] =~~= v1[i]);
    }
    assert(v2 =~~= v1);
}

} // verus!
