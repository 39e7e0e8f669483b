//! The job table owned by the shell session: registration, lookup,
//! status notifications, and release of finished jobs.

use vstd::prelude::*;

use vstd::std_specs::vec::vec_index_mut;
use vstd::string::StrSliceExecFns;

use crate::job::Execution;
use crate::job::Job;
use crate::job::JobError;
use crate::job::JobView;
use crate::job::MAX_ARGS;
use crate::job::MAX_PATH_LEN;
use crate::job::MAX_TOKEN_LEN;
use crate::job::ProcFilter;
use crate::job::Process;
use crate::job::Status;
use crate::job::all_terminal;
use crate::job::count_matching;
use crate::job::job_wf;
use crate::job::notify_job;
use crate::job::notify_proc;
use crate::job::notify_table;
use crate::job::proc_wf;
use crate::job::procs_wf;

verus! {

/// Session state owned by the shell: the session attributes and the
/// table of live jobs, kept in creation order.
pub struct Shell {
    pub cur_user: String,
    pub cur_dir: String,
    pub pw_dir: String,
    pub jobs: Vec<Job>,
}

impl View for Shell {
    type V = Seq<JobView>;

    open spec fn view(&self) -> Seq<JobView> {
        self.jobs.deep_view()
    }
}

/// Job ids are unique within the live table.
pub open spec fn distinct_ids(v: Seq<JobView>) -> bool {
    forall|i: int, j: int| 0 <= i < j < v.len() ==> (#[trigger] v[i].id) != (#[trigger] v[j].id)
}

/// Pids are unique across all live processes of all jobs.
pub open spec fn distinct_pids(v: Seq<JobView>) -> bool {
    forall|i1: int, k1: int, i2: int, k2: int|
        0 <= i1 < v.len() && 0 <= k1 < v[i1].procs.len() && 0 <= i2 < v.len() && 0 <= k2
            < v[i2].procs.len() && (i1 != i2 || k1 != k2) ==> (#[trigger] v[i1].procs[k1].pid) != (
        #[trigger] v[i2].procs[k2].pid)
}

/// Well-formedness of the whole table.
pub open spec fn table_wf(v: Seq<JobView>) -> bool {
    &&& distinct_ids(v)
    &&& distinct_pids(v)
    &&& forall|i: int| 0 <= i < v.len() ==> crate::job::job_wf(#[trigger] v[i])
}

/// Some live job carries id `id`.
pub open spec fn has_job_id(v: Seq<JobView>, id: usize) -> bool {
    exists|i: int| 0 <= i < v.len() && (#[trigger] v[i].id) == id
}

/// Index of the job with id `id` (meaningful when `has_job_id` holds;
/// unique under `distinct_ids`).
pub open spec fn job_index_of(v: Seq<JobView>, id: usize) -> int {
    choose|i: int| 0 <= i < v.len() && (#[trigger] v[i].id) == id
}

/// The job with id `id`.
pub open spec fn job_with_id(v: Seq<JobView>, id: usize) -> JobView {
    v[job_index_of(v, id)]
}

/// Job `j` contains a process with pid `pid`.
pub open spec fn job_has_pid(j: JobView, pid: usize) -> bool {
    exists|k: int| 0 <= k < j.procs.len() && (#[trigger] j.procs[k].pid) == pid
}

/// Some live process of some job carries pid `pid`.
pub open spec fn has_pid(v: Seq<JobView>, pid: usize) -> bool {
    exists|i: int| 0 <= i < v.len() && job_has_pid(#[trigger] v[i], pid)
}

/// Under `distinct_ids`, the index of a job determines `job_index_of`.
pub proof fn lemma_job_index_unique(v: Seq<JobView>, id: usize, i: int)
    requires
        distinct_ids(v),
        0 <= i < v.len(),
        v[i].id == id,
    ensures
        job_index_of(v, id) == i,
        job_with_id(v, id) == v[i],
        has_job_id(v, id),
{
    assert(has_job_id(v, id));
    let j = job_index_of(v, id);
    assert(0 <= j < v.len() && v[j].id == id);
    if i != j {
        assert(v[i].id != v[j].id);
    }
}

/// A notification for a pid the table does not track changes nothing.
pub proof fn lemma_notify_absent(v: Seq<JobView>, pid: usize, st: Status)
    requires
        !has_pid(v, pid),
    ensures
        notify_table(v, pid, st) == v,
{
    let w = notify_table(v, pid, st);
    assert forall|i: int| 0 <= i < v.len() implies w[i] == v[i] by {
        assert(!job_has_pid(v[i], pid));
        assert forall|k: int| 0 <= k < v[i].procs.len() implies notify_proc(
            #[trigger] v[i].procs[k],
            pid,
            st,
        ) == v[i].procs[k] by {
            assert(v[i].procs[k].pid != pid);
        }
        assert(v[i].procs.map_values(|p: crate::job::ProcView| notify_proc(p, pid, st))
            =~= v[i].procs);
        assert(notify_job(v[i], pid, st) =~~= v[i]);
    }
    assert(w =~~= v);
}

/// A notification moves no pid, no id, no argv and no structure: it
/// preserves the table invariant.
pub proof fn lemma_notify_preserves_wf(v: Seq<JobView>, pid: usize, st: Status)
    requires
        table_wf(v),
    ensures
        table_wf(notify_table(v, pid, st)),
{
    let w = notify_table(v, pid, st);
    assert forall|i: int| 0 <= i < w.len() implies job_wf(#[trigger] w[i]) by {
        assert(w[i] == notify_job(v[i], pid, st));
        assert(job_wf(v[i]));
        assert forall|k: int| 0 <= k < w[i].procs.len() implies proc_wf(
            #[trigger] w[i].procs[k],
        ) by {
            assert(w[i].procs[k] == notify_proc(v[i].procs[k], pid, st));
            assert(proc_wf(v[i].procs[k]));
        }
        assert(w[i].procs[0] == notify_proc(v[i].procs[0], pid, st));
    }
    assert forall|i: int, j: int| 0 <= i < j < w.len() implies (#[trigger] w[i].id)
        != (#[trigger] w[j].id) by {
        assert(w[i] == notify_job(v[i], pid, st));
        assert(w[j] == notify_job(v[j], pid, st));
    }
    assert forall|i1: int, k1: int, i2: int, k2: int|
        0 <= i1 < w.len() && 0 <= k1 < w[i1].procs.len() && 0 <= i2 < w.len() && 0 <= k2
            < w[i2].procs.len() && (i1 != i2 || k1 != k2) implies (#[trigger] w[i1].procs[k1].pid)
        != (#[trigger] w[i2].procs[k2].pid) by {
        assert(w[i1] == notify_job(v[i1], pid, st));
        assert(w[i2] == notify_job(v[i2], pid, st));
        assert(w[i1].procs[k1] == notify_proc(v[i1].procs[k1], pid, st));
        assert(w[i2].procs[k2] == notify_proc(v[i2].procs[k2], pid, st));
        assert(v[i1].procs[k1].pid != v[i2].procs[k2].pid);
    }
}

/// Removing one job keeps every other job intact: the table invariant
/// is preserved.
pub proof fn lemma_remove_preserves_wf(v: Seq<JobView>, idx: int)
    requires
        table_wf(v),
        0 <= idx < v.len(),
    ensures
        table_wf(v.remove(idx)),
{
    let w = v.remove(idx);
    v.remove_ensures(idx);
    assert forall|i: int| 0 <= i < w.len() implies job_wf(#[trigger] w[i]) by {
        if i < idx {
            assert(w[i] == v[i]);
        } else {
            assert(w[i] == v[i + 1]);
        }
    }
    assert forall|i: int, j: int| 0 <= i < j < w.len() implies (#[trigger] w[i].id)
        != (#[trigger] w[j].id) by {
        let oi: int = if i < idx { i } else { i + 1 };
        let oj: int = if j < idx { j } else { j + 1 };
        assert(w[i] == v[oi]);
        assert(w[j] == v[oj]);
        assert(v[oi].id != v[oj].id);
    }
    assert forall|i1: int, k1: int, i2: int, k2: int|
        0 <= i1 < w.len() && 0 <= k1 < w[i1].procs.len() && 0 <= i2 < w.len() && 0 <= k2
            < w[i2].procs.len() && (i1 != i2 || k1 != k2) implies (#[trigger] w[i1].procs[k1].pid)
        != (#[trigger] w[i2].procs[k2].pid) by {
        let o1: int = if i1 < idx { i1 } else { i1 + 1 };
        let o2: int = if i2 < idx { i2 } else { i2 + 1 };
        assert(w[i1] == v[o1]);
        assert(w[i2] == v[o2]);
        assert(v[o1].procs[k1].pid != v[o2].procs[k2].pid);
    }
}

/// Among the distinct ids of `v.len()` jobs there is always a free id
/// no greater than `v.len()` itself.
pub proof fn lemma_exists_free_id(v: Seq<JobView>)
    requires
        distinct_ids(v),
        v.len() <= usize::MAX,
    ensures
        exists|c: usize| c <= v.len() && !has_job_id(v, c),
    decreases v.len(),
{
    let n = v.len() as usize;
    if !has_job_id(v, n) {
        assert(n <= v.len() && !has_job_id(v, n));
    } else {
        let i = choose|i: int| 0 <= i < v.len() && v[i].id == n;
        let rest = v.remove(i);
        v.remove_ensures(i);
        assert forall|p: int, q: int| 0 <= p < q < rest.len() implies (#[trigger] rest[p].id)
            != (#[trigger] rest[q].id) by {
            let op: int = if p < i { p } else { p + 1 };
            let oq: int = if q < i { q } else { q + 1 };
            assert(rest[p] == v[op]);
            assert(rest[q] == v[oq]);
        }
        lemma_exists_free_id(rest);
        let c = choose|c: usize| c <= rest.len() && !has_job_id(rest, c);
        assert forall|j: int| 0 <= j < v.len() implies (#[trigger] v[j].id) != c by {
            if j == i {
                assert(v[j].id == n);
                assert(c < n);
            } else {
                let rj: int = if j < i { j } else { j - 1 };
                assert(rest[rj] == v[j]);
                assert(!has_job_id(rest, c));
                assert(rest[rj].id != c);
            }
        }
        assert(c <= v.len() && !has_job_id(v, c));
    }
}

impl Shell {
    /// The table invariant: unique ids, unique pids, well-formed jobs.
    pub open spec fn wf(&self) -> bool {
        table_wf(self@)
    }

    /// A fresh session with no jobs.
    pub fn new(cur_user: String, cur_dir: String, pw_dir: String) -> (r: Shell)
        ensures
            r.wf(),
            r@ == Seq::<JobView>::empty(),
            r.cur_user == cur_user,
            r.cur_dir == cur_dir,
            r.pw_dir == pw_dir,
    {
        let s = Shell { cur_user, cur_dir, pw_dir, jobs: Vec::new() };
        proof {
            assert(s@ =~= Seq::<JobView>::empty());
        }
        s
    }

    /// Index of the job carrying id `id`, scanning in table order.
    fn find_job_index(&self, id: usize) -> (r: Option<usize>)
        ensures
            match r {
                Some(i) => i < self.jobs.len() && self@[i as int].id == id,
                None => !has_job_id(self@, id),
            },
    {
        let n = self.jobs.len();
        let mut i: usize = 0;
        while i < n
            invariant
                n == self.jobs.len(),
                i <= n,
                forall|j: int| 0 <= j < i ==> (#[trigger] self@[j].id) != id,
            decreases n - i,
        {
            if self.jobs[i].id == id {
                return Some(i);
            }
            i += 1;
        }
        None
    }

    /// Looks a job up by its id; `None` when no live job carries it —
    /// an unknown id is a normal, reportable condition, not a fault.
    pub fn get_job_by_id(&self, id: usize) -> (r: Option<&Job>)
        requires
            self.wf(),
        ensures
            match r {
                Some(j) => has_job_id(self@, id) && j@ == job_with_id(self@, id),
                None => !has_job_id(self@, id),
            },
    {
        match self.find_job_index(id) {
            Some(i) => {
                let j = &self.jobs[i];
                proof {
                    lemma_job_index_unique(self@, id, i as int);
                }
                Some(j)
            },
            None => None,
        }
    }

    /// First pipeline stage of the job with id `id`, or `None` for an
    /// unknown id. A live job always has a first stage.
    pub fn get_root_by_job_id(&self, id: usize) -> (r: Option<&Process>)
        requires
            self.wf(),
        ensures
            match r {
                Some(p) => has_job_id(self@, id) && p@ == job_with_id(self@, id).procs[0],
                None => !has_job_id(self@, id),
            },
    {
        match self.find_job_index(id) {
            Some(i) => {
                proof {
                    lemma_job_index_unique(self@, id, i as int);
                }
                let job = &self.jobs[i];
                Some(&job.procs[0])
            },
            None => None,
        }
    }

    /// Process group of the job with id `id`, or `None` for an unknown id.
    pub fn get_pgid_by_job_id(&self, id: usize) -> (r: Option<usize>)
        requires
            self.wf(),
        ensures
            match r {
                Some(pgid) => has_job_id(self@, id) && pgid == job_with_id(self@, id).pgid,
                None => !has_job_id(self@, id),
            },
    {
        match self.find_job_index(id) {
            Some(i) => {
                proof {
                    lemma_job_index_unique(self@, id, i as int);
                }
                Some(self.jobs[i].pgid)
            },
            None => None,
        }
    }

    /// Walks the pipeline of job `id` once and counts the stages the
    /// filter admits: every stage for `All`, the stages already in a
    /// terminal state for `Done`, the still-live stages for `Remaining`.
    /// `None` for an unknown id, distinguishing "no such job" from a
    /// count of zero.
    pub fn get_proc_count(&self, id: usize, filter: ProcFilter) -> (r: Option<usize>)
        requires
            self.wf(),
        ensures
            match r {
                Some(c) => has_job_id(self@, id) && c == count_matching(
                    job_with_id(self@, id).procs,
                    filter,
                ),
                None => !has_job_id(self@, id),
            },
    {
        let i = match self.find_job_index(id) {
            Some(i) => i,
            None => { return None; },
        };
        proof {
            lemma_job_index_unique(self@, id, i as int);
        }
        let job = &self.jobs[i];
        let ghost procs = job_with_id(self@, id).procs;
        let m = job.procs.len();
        let mut count: usize = 0;
        let mut k: usize = 0;
        while k < m
            invariant
                m == job.procs.len(),
                k <= m,
                procs == job@.procs,
                procs.len() == m,
                count <= k,
                count == count_matching(procs.subrange(0, k as int), filter),
            decreases m - k,
        {
            let st = job.procs[k].status;
            let admitted = match filter {
                ProcFilter::All => true,
                ProcFilter::Done => st == Status::Done || st == Status::Terminated,
                ProcFilter::Remaining => !(st == Status::Done || st == Status::Terminated),
            };
            proof {
                assert(procs.subrange(0, k + 1).drop_last() =~= procs.subrange(0, k as int));
                assert(procs.subrange(0, k + 1).last() == procs[k as int]);
            }
            if admitted {
                count += 1;
            }
            k += 1;
        }
        proof {
            assert(procs.subrange(0, m as int) =~= procs);
        }
        Some(count)
    }

    /// Scans every job's pipeline and returns the id of the job owning
    /// `pid`, or `None` when no tracked process carries that pid.
    pub fn get_job_id_by_pid(&self, pid: usize) -> (r: Option<usize>)
        requires
            self.wf(),
        ensures
            match r {
                Some(id) => has_job_id(self@, id) && job_has_pid(job_with_id(self@, id), pid),
                None => !has_pid(self@, pid),
            },
    {
        match self.find_pid(pid) {
            Some((i, k)) => {
                let id = self.jobs[i].id;
                proof {
                    lemma_job_index_unique(self@, id, i as int);
                    assert(self@[i as int].procs[k as int].pid == pid);
                    assert(job_has_pid(self@[i as int], pid));
                }
                Some(id)
            },
            None => None,
        }
    }

    /// Resolves the job a `fg`/`bg` command addresses: the explicitly
    /// requested id, or, with no argument, the current job per
    /// `get_next_job_id`. `JobNotFound` when the id is unknown or the
    /// table is empty.
    pub fn resolve_job_id(&self, requested: Option<usize>) -> (r: Result<usize, JobError>)
        requires
            self.wf(),
        ensures
            match r {
                Ok(id) => has_job_id(self@, id) && match requested {
                    Some(q) => id == q,
                    None => self@.len() > 0 && id == self@[0].id,
                },
                Err(e) => e == JobError::JobNotFound && match requested {
                    Some(q) => !has_job_id(self@, q),
                    None => self@.len() == 0,
                },
            },
    {
        match requested {
            Some(q) => {
                match self.find_job_index(q) {
                    Some(i) => {
                        proof {
                            lemma_job_index_unique(self@, q, i as int);
                        }
                        Ok(q)
                    },
                    None => Err(JobError::JobNotFound),
                }
            },
            None => {
                match self.get_next_job_id() {
                    Some(id) => {
                        proof {
                            lemma_job_index_unique(self@, id, 0);
                        }
                        Ok(id)
                    },
                    None => Err(JobError::JobNotFound),
                }
            },
        }
    }

    /// Checks one process record against the argv and path bounds.
    /// Lengths are counted in characters.
    fn proc_within_bounds(p: &Process) -> (r: bool)
        ensures
            r == proc_wf(p@),
    {
        if p.argv.len() > MAX_ARGS {
            return false;
        }
        let na = p.argv.len();
        let mut t: usize = 0;
        while t < na
            invariant
                na == p.argv.len(),
                t <= na,
                forall|u: int| 0 <= u < t ==> (#[trigger] p@.argv[u]).len() <= MAX_TOKEN_LEN,
            decreases na - t,
        {
            if p.argv[t].as_str().unicode_len() > MAX_TOKEN_LEN {
                proof {
                    assert(p@.argv[t as int].len() > MAX_TOKEN_LEN);
                }
                return false;
            }
            t += 1;
        }
        match &p.input_path {
            Some(s) => {
                if s.as_str().unicode_len() > MAX_PATH_LEN {
                    return false;
                }
            },
            None => {},
        }
        match &p.output_path {
            Some(s) => {
                if s.as_str().unicode_len() > MAX_PATH_LEN {
                    return false;
                }
            },
            None => {},
        }
        true
    }

    /// Smallest id no live job carries; ids are reused once a job has
    /// been released.
    fn find_free_id(&self) -> (id: usize)
        requires
            self.wf(),
        ensures
            !has_job_id(self@, id),
            forall|c: usize| c < id ==> has_job_id(self@, c),
    {
        let n = self.jobs.len();
        let mut cand: usize = 0;
        while cand < n
            invariant
                self.wf(),
                n == self.jobs.len(),
                cand <= n,
                forall|c: usize| c < cand ==> has_job_id(self@, c),
            decreases n - cand,
        {
            if self.find_job_index(cand).is_none() {
                return cand;
            }
            cand += 1;
        }
        proof {
            lemma_exists_free_id(self@);
            let c = choose|c: usize| c <= self@.len() && !has_job_id(self@, c);
            if c < n {
                assert(has_job_id(self@, c));
            }
            assert(c == n);
        }
        n
    }

    /// Registers a freshly spawned pipeline as a new job. The stages
    /// arrive in pipeline order, already carrying the pids and the
    /// shared process group the spawn layer assigned; the job takes the
    /// smallest free id and joins the back of the table, so the table
    /// stays in creation order. A record exceeding the argv or path
    /// bounds is rejected whole with `ArgumentOverflow`, leaving the
    /// table unchanged: malformed records are never stored.
    pub fn register_job(&mut self, procs: Vec<Process>, pgid: usize, mode: Execution) -> (r:
        Result<usize, JobError>)
        requires
            old(self).wf(),
            procs@.len() >= 1,
            forall|t: int|
                0 <= t < procs@.len() ==> !has_pid(old(self)@, (#[trigger] procs@[t]).pid),
            forall|t1: int, t2: int|
                0 <= t1 < t2 < procs@.len() ==> (#[trigger] procs@[t1]).pid != (
                #[trigger] procs@[t2]).pid,
        ensures
            final(self).wf(),
            match r {
                Ok(id) => {
                    &&& procs_wf(procs.deep_view())
                    &&& !has_job_id(old(self)@, id)
                    &&& forall|c: usize| c < id ==> has_job_id(old(self)@, c)
                    &&& final(self)@ == old(self)@.push(
                        (JobView {
                            id,
                            procs: procs.deep_view(),
                            command: procs.deep_view()[0].command,
                            pgid,
                            mode,
                        }),
                    )
                },
                Err(e) => {
                    &&& e == JobError::ArgumentOverflow
                    &&& !procs_wf(procs.deep_view())
                    &&& *final(self) == *old(self)
                },
            },
    {
        let np = procs.len();
        let mut t: usize = 0;
        while t < np
            invariant
                self.wf(),
                np == procs.len(),
                t <= np,
                forall|u: int| 0 <= u < t ==> proc_wf(#[trigger] procs.deep_view()[u]),
            decreases np - t,
        {
            if !Self::proc_within_bounds(&procs[t]) {
                proof {
                    assert(!proc_wf(procs.deep_view()[t as int]));
                }
                return Err(JobError::ArgumentOverflow);
            }
            t += 1;
        }
        let id = self.find_free_id();
        let command = procs[0].command;
        let new_job = Job { id, procs, command, pgid, mode };
        let ghost v0 = self@;
        let ghost jv = new_job@;
        self.jobs.push(new_job);
        proof {
            let v1 = self@;
            assert forall|j: int| 0 <= j < v1.len() implies v1[j] == v0.push(jv)[j] by {
                if j < v0.len() {
                    assert(self.jobs@[j] == old(self).jobs@[j]);
                }
            }
            assert(v1 =~~= v0.push(jv));
            assert forall|i: int| 0 <= i < v1.len() implies job_wf(#[trigger] v1[i]) by {
                if i < v0.len() {
                    assert(v1[i] == v0[i]);
                } else {
                    assert(v1[i] == jv);
                }
            }
            assert forall|i: int, j: int| 0 <= i < j < v1.len() implies (#[trigger] v1[i].id)
                != (#[trigger] v1[j].id) by {
                if j < v0.len() {
                    assert(v1[i] == v0[i] && v1[j] == v0[j]);
                } else {
                    assert(v1[j] == jv);
                    assert(v1[i] == v0[i]);
                    assert(!has_job_id(v0, jv.id));
                }
            }
            assert forall|i1: int, k1: int, i2: int, k2: int|
                0 <= i1 < v1.len() && 0 <= k1 < v1[i1].procs.len() && 0 <= i2 < v1.len() && 0 <= k2
                    < v1[i2].procs.len() && (i1 != i2 || k1 != k2) implies (
            #[trigger] v1[i1].procs[k1].pid) != (#[trigger] v1[i2].procs[k2].pid) by {
                if i1 < v0.len() && i2 < v0.len() {
                    assert(v1[i1] == v0[i1] && v1[i2] == v0[i2]);
                } else if i1 < v0.len() && i2 == v0.len() as int {
                    assert(v1[i2] == jv);
                    assert(v1[i1] == v0[i1]);
                    assert(!has_pid(v0, jv.procs[k2].pid));
                    assert(job_has_pid(v0[i1], v1[i1].procs[k1].pid));
                } else if i1 == v0.len() as int && i2 < v0.len() {
                    assert(v1[i1] == jv);
                    assert(v1[i2] == v0[i2]);
                    assert(!has_pid(v0, jv.procs[k1].pid));
                    assert(job_has_pid(v0[i2], v1[i2].procs[k2].pid));
                } else {
                    assert(v1[i1] == jv && v1[i2] == jv);
                }
            }
        }
        Ok(id)
    }

    /// Position `(job index, stage index)` of the process carrying `pid`.
    fn find_pid(&self, pid: usize) -> (r: Option<(usize, usize)>)
        ensures
            match r {
                Some(ik) => {
                    &&& ik.0 < self.jobs.len()
                    &&& ik.1 < self@[ik.0 as int].procs.len()
                    &&& self@[ik.0 as int].procs[ik.1 as int].pid == pid
                },
                None => !has_pid(self@, pid),
            },
    {
        let n = self.jobs.len();
        let mut i: usize = 0;
        while i < n
            invariant
                n == self.jobs.len(),
                i <= n,
                forall|j: int| 0 <= j < i ==> !job_has_pid(#[trigger] self@[j], pid),
            decreases n - i,
        {
            let job = &self.jobs[i];
            let m = job.procs.len();
            let mut k: usize = 0;
            while k < m
                invariant
                    i < self.jobs.len(),
                    job == &self.jobs[i as int],
                    m == job.procs.len(),
                    k <= m,
                    forall|t: int| 0 <= t < k ==> (#[trigger] job@.procs[t].pid) != pid,
                decreases m - k,
            {
                if job.procs[k].pid == pid {
                    proof {
                        assert(self@[i as int] == job@);
                        assert(job@.procs[k as int].pid == pid);
                    }
                    return Some((i, k));
                }
                k += 1;
            }
            proof {
                assert(!job_has_pid(self@[i as int], pid));
            }
            i += 1;
        }
        None
    }

    /// Applies an asynchronous `(pid, st)` child-status notification,
    /// the only way any process's status ever moves. The process
    /// carrying `pid` takes the new status unless it is already
    /// terminal — `Done` and `Terminated` absorb every later
    /// notification, so duplicates are no-ops — and every other record
    /// is untouched. A notification for an untracked pid is benign:
    /// the table stays as it is and `ProcessNotFound` reports the
    /// anomaly.
    pub fn on_status_change(&mut self, pid: usize, st: Status) -> (r: Result<(), JobError>)
        requires
            old(self).wf(),
        ensures
            final(self).wf(),
            final(self)@ == notify_table(old(self)@, pid, st),
            match r {
                Ok(u) => has_pid(old(self)@, pid),
                Err(e) => e == JobError::ProcessNotFound && !has_pid(old(self)@, pid),
            },
    {
        let ghost v0 = self@;
        match self.find_pid(pid) {
            Some((i, k)) => {
                let ghost jobs0 = self.jobs@;
                let job = vec_index_mut(&mut self.jobs, i);
                let p = vec_index_mut(&mut job.procs, k);
                if !(p.status == Status::Done || p.status == Status::Terminated) {
                    p.status = st;
                }
                proof {
                    let w = notify_table(v0, pid, st);
                    let v1 = self@;
                    assert forall|ii: int| 0 <= ii < v0.len() implies v1[ii] == w[ii] by {
                        assert(w[ii] == notify_job(v0[ii], pid, st));
                        if ii == i {
                            assert forall|t: int| 0 <= t < v0[ii].procs.len() implies v1[ii].procs[t]
                                == notify_proc(#[trigger] v0[ii].procs[t], pid, st) by {
                                if t != k {
                                    assert(v0[ii].procs[t].pid != pid);
                                }
                            }
                            assert(v1[ii].procs =~= w[ii].procs);
                            assert(v1[ii] =~~= w[ii]);
                        } else {
                            assert(v1[ii] == v0[ii]);
                            assert forall|t: int| 0 <= t < v0[ii].procs.len() implies notify_proc(
                                #[trigger] v0[ii].procs[t],
                                pid,
                                st,
                            ) == v0[ii].procs[t] by {
                                assert(v0[ii].procs[t].pid != pid);
                            }
                            assert(w[ii].procs =~= v0[ii].procs);
                            assert(w[ii] =~~= v0[ii]);
                        }
                    }
                    assert(v1 =~~= w);
                    lemma_notify_preserves_wf(v0, pid, st);
                    assert(has_pid(v0, pid));
                }
                Ok(())
            },
            None => {
                proof {
                    lemma_notify_absent(v0, pid, st);
                }
                Err(JobError::ProcessNotFound)
            },
        }
    }

    /// Removes the record of job `id` from the table, after confirming
    /// that every process of its pipeline is in a terminal state.
    /// `JobNotFound` when the id is absent; `StillRunning` — with the
    /// table left exactly as it was — when any process of the job is
    /// still live, since releasing a live job would leak an untracked
    /// process group.
    pub fn release_job(&mut self, id: usize) -> (r: Result<(), JobError>)
        requires
            old(self).wf(),
        ensures
            final(self).wf(),
            match r {
                Ok(u) => {
                    &&& has_job_id(old(self)@, id)
                    &&& all_terminal(job_with_id(old(self)@, id).procs)
                    &&& final(self)@ == old(self)@.remove(job_index_of(old(self)@, id))
                },
                Err(e) => {
                    &&& *final(self) == *old(self)
                    &&& if has_job_id(old(self)@, id) {
                        e == JobError::StillRunning && !all_terminal(
                            job_with_id(old(self)@, id).procs,
                        )
                    } else {
                        e == JobError::JobNotFound
                    }
                },
            },
    {
        let i = match self.find_job_index(id) {
            Some(i) => i,
            None => { return Err(JobError::JobNotFound) },
        };
        proof {
            lemma_job_index_unique(self@, id, i as int);
        }
        let job = &self.jobs[i];
        let m = job.procs.len();
        let mut k: usize = 0;
        while k < m
            invariant
                self.wf(),
                i < self.jobs.len(),
                job == &self.jobs[i as int],
                self@[i as int].id == id,
                job_index_of(self@, id) == i as int,
                m == job.procs.len(),
                k <= m,
                forall|t: int| 0 <= t < k ==> crate::job::is_terminal(
                    (#[trigger] job@.procs[t]).status,
                ),
            decreases m - k,
        {
            let st = job.procs[k].status;
            if !(st == Status::Done || st == Status::Terminated) {
                proof {
                    assert(job@.procs[k as int] == self@[i as int].procs[k as int]);
                    assert(!all_terminal(self@[i as int].procs));
                }
                return Err(JobError::StillRunning);
            }
            k += 1;
        }
        proof {
            assert(all_terminal(job@.procs));
        }
        let ghost v0 = self@;
        let ghost jobs0 = self.jobs@;
        self.jobs.remove(i);
        proof {
            jobs0.remove_ensures(i as int);
            v0.remove_ensures(i as int);
            let w = v0.remove(i as int);
            let v1 = self@;
            assert forall|j: int| 0 <= j < w.len() implies v1[j] == w[j] by {
                if j < i {
                    assert(self.jobs@[j] == jobs0[j]);
                    assert(w[j] == v0[j]);
                } else {
                    assert(self.jobs@[j] == jobs0[j + 1]);
                    assert(w[j] == v0[j + 1]);
                }
            }
            assert(v1 =~~= w);
            lemma_remove_preserves_wf(v0, i as int);
        }
        Ok(())
    }

    /// Whether `fg`/`bg` must send a continue signal to job `id`'s
    /// process group before anything else: true exactly when some
    /// stage is currently `Suspended`. `None` for an unknown id.
    pub fn job_needs_continue(&self, id: usize) -> (r: Option<bool>)
        requires
            self.wf(),
        ensures
            match r {
                Some(b) => has_job_id(self@, id) && (b <==> exists|k: int|
                    0 <= k < job_with_id(self@, id).procs.len() && (#[trigger] job_with_id(
                        self@,
                        id,
                    ).procs[k]).status == Status::Suspended),
                None => !has_job_id(self@, id),
            },
    {
        let i = match self.find_job_index(id) {
            Some(i) => i,
            None => { return None; },
        };
        proof {
            lemma_job_index_unique(self@, id, i as int);
        }
        let job = &self.jobs[i];
        let m = job.procs.len();
        let mut k: usize = 0;
        while k < m
            invariant
                self.wf(),
                i < self.jobs.len(),
                job == &self.jobs[i as int],
                self@[i as int].id == id,
                job_index_of(self@, id) == i as int,
                m == job.procs.len(),
                k <= m,
                forall|t: int| 0 <= t < k ==> (#[trigger] job@.procs[t]).status
                    != Status::Suspended,
            decreases m - k,
        {
            if job.procs[k].status == Status::Suspended {
                proof {
                    assert(job@.procs[k as int].status == Status::Suspended);
                }
                return Some(true);
            }
            k += 1;
        }
        Some(false)
    }

    /// Id of the current job for a bare `fg`/`bg`: the earliest-registered
    /// still-live job, i.e. the front of the table (the table keeps
    /// creation order). `None` on an empty table.
    pub fn get_next_job_id(&self) -> (r: Option<usize>)
        ensures
            match r {
                Some(id) => self@.len() > 0 && id == self@[0].id,
                None => self@.len() == 0,
            },
    {
        if self.jobs.len() > 0 {
            Some(self.jobs[0].id)
        } else {
            None
        }
    }
}

} // verus!
