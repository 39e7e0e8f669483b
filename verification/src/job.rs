//! Data model: one process of a pipeline, one job (a pipeline of
//! processes), and the mathematical views the contracts are stated over.

use vstd::prelude::*;

verus! {

/// Upper bound on the number of argv tokens of one process.
pub const MAX_ARGS: usize = 64;

/// Upper bound on the length of one argv token, counted in characters.
pub const MAX_TOKEN_LEN: usize = 1024;

/// Upper bound on the length of a redirect path, counted in characters.
pub const MAX_PATH_LEN: usize = 1024;

/// What a process runs: an external binary, or one of the shell builtins.
#[derive(Clone, Copy, Debug, PartialEq, Eq, Structural)]
pub enum Command {
    External,
    Exit,
    Cd,
    Jobs,
    Fg,
    Bg,
    Kill,
    Export,
    Unset,
}

/// Run state of one process. `Done` and `Terminated` are absorbing;
/// `Continued` is transient — it records that a resume was just
/// requested and collapses back to `Running` once the resumed child
/// reports in.
#[derive(Clone, Copy, Debug, PartialEq, Eq, Structural)]
pub enum Status {
    Running,
    Done,
    Suspended,
    Continued,
    Terminated,
}

/// How a job was launched, which decides how its completion is reported.
#[derive(Clone, Copy, Debug, PartialEq, Eq, Structural)]
pub enum Execution {
    Background,
    Foreground,
    Pipeline,
}

/// Filter for counting the processes of a job. `Done` counts the
/// stages whose work is over — status `Done` or `Terminated` — and
/// `Remaining` the rest, so a job with `Remaining` count zero is ready
/// for release.
#[derive(Clone, Copy, Debug, PartialEq, Eq, Structural)]
pub enum ProcFilter {
    All,
    Done,
    Remaining,
}

/// Position of a process within its pipeline: whether it reads from a
/// predecessor stage, writes to a successor stage, both, or neither.
#[derive(Clone, Copy, Debug, PartialEq, Eq, Structural)]
pub enum Role {
    Only,
    First,
    Middle,
    Last,
}

/// Errors of the job table. `JobNotFound`: the id is absent.
/// `ProcessNotFound`: a notification named an untracked pid (benign).
/// `StillRunning`: release refused, the job still has a live process.
/// `ArgumentOverflow`: a record exceeded the argv or path bounds.
#[derive(Clone, Copy, Debug, PartialEq, Eq, Structural)]
pub enum JobError {
    JobNotFound,
    ProcessNotFound,
    StillRunning,
    ArgumentOverflow,
}

/// One OS process taking part in a job.
pub struct Process {
    pub command: Command,
    pub argv: Vec<String>,
    pub input_path: Option<String>,
    pub output_path: Option<String>,
    pub pid: usize,
    pub role: Role,
    pub status: Status,
}

/// Mathematical view of a `Process`.
#[verifier::ext_equal]
pub struct ProcView {
    pub command: Command,
    pub argv: Seq<Seq<char>>,
    pub input_path: Option<Seq<char>>,
    pub output_path: Option<Seq<char>>,
    pub pid: usize,
    pub role: Role,
    pub status: Status,
}

impl View for Process {
    type V = ProcView;

    open spec fn view(&self) -> ProcView {
        ProcView {
            command: self.command,
            argv: self.argv.deep_view(),
            input_path: self.input_path.deep_view(),
            output_path: self.output_path.deep_view(),
            pid: self.pid,
            role: self.role,
            status: self.status,
        }
    }
}

/// One job: a pipeline of processes sharing a process group, kept in
/// stage order, plus job-level metadata.
pub struct Job {
    pub id: usize,
    pub procs: Vec<Process>,
    pub command: Command,
    pub pgid: usize,
    pub mode: Execution,
}

/// Mathematical view of a `Job`.
#[verifier::ext_equal]
pub struct JobView {
    pub id: usize,
    pub procs: Seq<ProcView>,
    pub command: Command,
    pub pgid: usize,
    pub mode: Execution,
}

impl View for Job {
    type V = JobView;

    open spec fn view(&self) -> JobView {
        JobView {
            id: self.id,
            procs: self.procs.deep_view(),
            command: self.command,
            pgid: self.pgid,
            mode: self.mode,
        }
    }
}

impl DeepView for Process {
    type V = ProcView;

    open spec fn deep_view(&self) -> ProcView {
        self.view()
    }
}

impl DeepView for Job {
    type V = JobView;

    open spec fn deep_view(&self) -> JobView {
        self.view()
    }
}

/// A process no longer changes state once it is `Done` or `Terminated`.
pub open spec fn is_terminal(s: Status) -> bool {
    s == Status::Done || s == Status::Terminated
}

/// Effect of a `(pid, new)` notification on the status of the process it
/// names: terminal states absorb every later notification.
pub open spec fn apply_status(cur: Status, new: Status) -> Status {
    if is_terminal(cur) {
        cur
    } else {
        new
    }
}

/// Whether a process with status `s` is counted under filter `f`:
/// `Done` counts the stages already in a terminal state, `Remaining`
/// the stages still live, `All` every stage.
pub open spec fn filter_admits(f: ProcFilter, s: Status) -> bool {
    match f {
        ProcFilter::All => true,
        ProcFilter::Done => is_terminal(s),
        ProcFilter::Remaining => !is_terminal(s),
    }
}

/// Number of processes of `procs` admitted by filter `f`.
pub open spec fn count_matching(procs: Seq<ProcView>, f: ProcFilter) -> int
    decreases procs.len(),
{
    if procs.len() == 0 {
        0
    } else {
        count_matching(procs.drop_last(), f) + (if filter_admits(f, procs.last().status) {
            1int
        } else {
            0int
        })
    }
}

/// Every process of `procs` is in a terminal state.
pub open spec fn all_terminal(procs: Seq<ProcView>) -> bool {
    forall|k: int| 0 <= k < procs.len() ==> is_terminal(#[trigger] procs[k].status)
}

/// Effect of a `(pid, st)` notification on one process: only the status
/// of the process carrying `pid` moves, and only if it is not terminal.
pub open spec fn notify_proc(p: ProcView, pid: usize, st: Status) -> ProcView {
    if p.pid == pid {
        ProcView { status: apply_status(p.status, st), ..p }
    } else {
        p
    }
}

/// Effect of a `(pid, st)` notification on one job.
pub open spec fn notify_job(j: JobView, pid: usize, st: Status) -> JobView {
    JobView { procs: j.procs.map_values(|p: ProcView| notify_proc(p, pid, st)), ..j }
}

/// Effect of a `(pid, st)` notification on the whole table: the one
/// process carrying `pid` takes `apply_status`, everything else stays.
pub open spec fn notify_table(v: Seq<JobView>, pid: usize, st: Status) -> Seq<JobView> {
    v.map_values(|j: JobView| notify_job(j, pid, st))
}

/// Bounds on one process record: within the argv and path limits.
pub open spec fn proc_wf(p: ProcView) -> bool {
    &&& p.argv.len() <= MAX_ARGS
    &&& forall|t: int| 0 <= t < p.argv.len() ==> (#[trigger] p.argv[t]).len() <= MAX_TOKEN_LEN
    &&& match p.input_path {
        Some(s) => s.len() <= MAX_PATH_LEN,
        None => true,
    }
    &&& match p.output_path {
        Some(s) => s.len() <= MAX_PATH_LEN,
        None => true,
    }
}

/// Every process record of `ps` is within bounds.
pub open spec fn procs_wf(ps: Seq<ProcView>) -> bool {
    forall|k: int| 0 <= k < ps.len() ==> proc_wf(#[trigger] ps[k])
}

/// A stored job always keeps at least one process (a fully reclaimed job
/// is pruned from the table, never retained empty), every record within
/// bounds, and the job's display kind equal to its first stage's kind.
pub open spec fn job_wf(j: JobView) -> bool {
    &&& j.procs.len() >= 1
    &&& procs_wf(j.procs)
    &&& j.command == j.procs[0].command
}

} // verus!
