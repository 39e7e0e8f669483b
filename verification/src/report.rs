//! Reporting: the text of `jobs` listings and single-job status
//! reports, built and proved character-for-character against spec
//! functions. Callers print the returned text; nothing here touches
//! the terminal.

use vstd::prelude::*;
use vstd::string::StringExecFns;

use crate::job::Command;
use crate::job::Job;
use crate::job::JobError;
use crate::job::JobView;
use crate::job::ProcView;
use crate::job::Process;
use crate::job::Status;
use crate::table::Shell;
use crate::table::has_job_id;
use crate::table::job_with_id;

verus! {

/// Text shown for a status in job listings.
pub open spec fn spec_status_text(s: Status) -> Seq<char> {
    match s {
        Status::Running => "Running"@,
        Status::Done => "Done"@,
        Status::Suspended => "Suspended"@,
        Status::Continued => "Continued"@,
        Status::Terminated => "Terminated"@,
    }
}

/// Display mapping of a status.
pub fn status_text(s: Status) -> (r: &'static str)
    ensures
        r@ == spec_status_text(s),
{
    match s {
        Status::Running => "Running",
        Status::Done => "Done",
        Status::Suspended => "Suspended",
        Status::Continued => "Continued",
        Status::Terminated => "Terminated",
    }
}

/// Text shown for a command kind in job listings.
pub open spec fn spec_command_text(c: Command) -> Seq<char> {
    match c {
        Command::External => "external"@,
        Command::Exit => "exit"@,
        Command::Cd => "cd"@,
        Command::Jobs => "jobs"@,
        Command::Fg => "fg"@,
        Command::Bg => "bg"@,
        Command::Kill => "kill"@,
        Command::Export => "export"@,
        Command::Unset => "unset"@,
    }
}

/// Display mapping of a command kind.
pub fn command_text(c: Command) -> (r: &'static str)
    ensures
        r@ == spec_command_text(c),
{
    match c {
        Command::External => "external",
        Command::Exit => "exit",
        Command::Cd => "cd",
        Command::Jobs => "jobs",
        Command::Fg => "fg",
        Command::Bg => "bg",
        Command::Kill => "kill",
        Command::Export => "export",
        Command::Unset => "unset",
    }
}

/// Decimal digit character of `d`.
pub open spec fn spec_digit(d: int) -> char {
    if d == 0 {
        '0'
    } else if d == 1 {
        '1'
    } else if d == 2 {
        '2'
    } else if d == 3 {
        '3'
    } else if d == 4 {
        '4'
    } else if d == 5 {
        '5'
    } else if d == 6 {
        '6'
    } else if d == 7 {
        '7'
    } else if d == 8 {
        '8'
    } else {
        '9'
    }
}

/// Decimal rendering of `n`, most significant digit first, no sign and
/// no leading zero except for zero itself.
pub open spec fn spec_uint_chars(n: nat) -> Seq<char>
    decreases n,
{
    if n < 10 {
        seq![spec_digit(n as int)]
    } else {
        spec_uint_chars(n / 10) + seq![spec_digit((n % 10) as int)]
    }
}

/// One decimal digit as text.
fn digit_text(d: usize) -> (r: &'static str)
    requires
        d < 10,
    ensures
        r@ == seq![spec_digit(d as int)],
{
    proof {
        reveal_strlit("0");
        reveal_strlit("1");
        reveal_strlit("2");
        reveal_strlit("3");
        reveal_strlit("4");
        reveal_strlit("5");
        reveal_strlit("6");
        reveal_strlit("7");
        reveal_strlit("8");
        reveal_strlit("9");
    }
    let r = match d {
        0 => "0",
        1 => "1",
        2 => "2",
        3 => "3",
        4 => "4",
        5 => "5",
        6 => "6",
        7 => "7",
        8 => "8",
        _ => "9",
    };
    proof {
        assert(r@ =~= seq![spec_digit(d as int)]);
    }
    r
}

/// Decimal rendering of `n`.
pub fn uint_text(n: usize) -> (r: String)
    ensures
        r@ == spec_uint_chars(n as nat),
    decreases n,
{
    if n < 10 {
        let mut s = String::new();
        s.append(digit_text(n));
        proof {
            assert(s@ =~= spec_uint_chars(n as nat));
        }
        s
    } else {
        let mut s = uint_text(n / 10);
        s.append(digit_text(n % 10));
        proof {
            assert(s@ =~= spec_uint_chars(n as nat));
        }
        s
    }
}

/// The argv tokens of a process, each preceded by one space.
pub open spec fn spec_argv_chars(argv: Seq<Seq<char>>) -> Seq<char>
    decreases argv.len(),
{
    if argv.len() == 0 {
        Seq::empty()
    } else {
        spec_argv_chars(argv.drop_last()) + " "@ + argv.last()
    }
}

/// Renders the argv tokens of a process.
fn argv_text(argv: &Vec<String>) -> (r: String)
    ensures
        r@ == spec_argv_chars(argv.deep_view()),
{
    let mut s = String::new();
    let n = argv.len();
    let mut t: usize = 0;
    proof {
        assert(argv.deep_view().subrange(0, 0) =~= Seq::<Seq<char>>::empty());
    }
    while t < n
        invariant
            n == argv.len(),
            t <= n,
            s@ == spec_argv_chars(argv.deep_view().subrange(0, t as int)),
        decreases n - t,
    {
        s.append(" ");
        s.append(argv[t].as_str());
        proof {
            let dv = argv.deep_view();
            assert(dv.subrange(0, t + 1).drop_last() =~= dv.subrange(0, t as int));
            assert(dv.subrange(0, t + 1).last() == dv[t as int]);
        }
        t += 1;
    }
    proof {
        assert(argv.deep_view().subrange(0, n as int) =~= argv.deep_view());
    }
    s
}

/// One line of a job report: pid, status, and the reconstructed command
/// line of one pipeline stage.
pub open spec fn spec_proc_line(p: ProcView) -> Seq<char> {
    "\t"@ + spec_uint_chars(p.pid as nat) + "\t"@ + spec_status_text(p.status) + "\t"@
        + spec_command_text(p.command) + spec_argv_chars(p.argv) + "\n"@
}

/// Renders one pipeline stage as one report line.
pub fn proc_line(p: &Process) -> (r: String)
    ensures
        r@ == spec_proc_line(p@),
{
    let mut s = String::new();
    s.append("\t");
    s.append(uint_text(p.pid).as_str());
    s.append("\t");
    s.append(status_text(p.status));
    s.append("\t");
    s.append(command_text(p.command));
    s.append(argv_text(&p.argv).as_str());
    s.append("\n");
    proof {
        assert(s@ =~= spec_proc_line(p@));
    }
    s
}

/// The stage lines of one job, consecutive, with a pipe continuation
/// marker between non-terminal stages.
pub open spec fn spec_proc_lines(procs: Seq<ProcView>) -> Seq<char>
    decreases procs.len(),
{
    if procs.len() == 0 {
        Seq::empty()
    } else {
        spec_proc_lines(procs.drop_last()) + (if procs.len() >= 2 {
            "|\n"@
        } else {
            Seq::<char>::empty()
        }) + spec_proc_line(procs.last())
    }
}

/// Report of one job: a `[id]` header line, one line per stage, and a
/// blank line after the last stage.
pub open spec fn spec_job_report(j: JobView) -> Seq<char> {
    "["@ + spec_uint_chars(j.id as nat) + "]\n"@ + spec_proc_lines(j.procs) + "\n"@
}

/// Renders one job's report.
pub fn job_report(j: &Job) -> (r: String)
    ensures
        r@ == spec_job_report(j@),
{
    let mut s = String::new();
    s.append("[");
    s.append(uint_text(j.id).as_str());
    s.append("]\n");
    let m = j.procs.len();
    let mut k: usize = 0;
    proof {
        assert(j@.procs.subrange(0, 0) =~= Seq::<ProcView>::empty());
        assert(s@ =~= "["@ + spec_uint_chars(j.id as nat) + "]\n"@ + spec_proc_lines(
            j@.procs.subrange(0, 0),
        ));
    }
    while k < m
        invariant
            m == j.procs.len(),
            s@ == "["@ + spec_uint_chars(j.id as nat) + "]\n"@ + spec_proc_lines(
                j@.procs.subrange(0, k as int),
            ),
            k <= m,
        decreases m - k,
    {
        if k > 0 {
            s.append("|\n");
        }
        let line = proc_line(&j.procs[k]);
        s.append(line.as_str());
        proof {
            let ps = j@.procs;
            assert(ps.subrange(0, k + 1).drop_last() =~= ps.subrange(0, k as int));
            assert(ps.subrange(0, k + 1).last() == ps[k as int]);
            assert(s@ =~= "["@ + spec_uint_chars(j.id as nat) + "]\n"@ + spec_proc_lines(
                ps.subrange(0, k + 1),
            ));
        }
        k += 1;
    }
    s.append("\n");
    proof {
        assert(j@.procs.subrange(0, m as int) =~= j@.procs);
        assert(s@ =~= spec_job_report(j@));
    }
    s
}

/// The pid lines of one job: each stage's pid on a line of its own.
pub open spec fn spec_pid_lines(procs: Seq<ProcView>) -> Seq<char>
    decreases procs.len(),
{
    if procs.len() == 0 {
        Seq::empty()
    } else {
        spec_pid_lines(procs.drop_last()) + " "@ + spec_uint_chars(procs.last().pid as nat) + "\n"@
    }
}

/// Short report of one job: the `[id]` header, one pid per line, and a
/// blank line after the last stage.
pub open spec fn spec_job_pids_report(j: JobView) -> Seq<char> {
    "["@ + spec_uint_chars(j.id as nat) + "]\n"@ + spec_pid_lines(j.procs) + "\n"@
}

/// Every live job's report, in table order — creation order, so the
/// reuse of a reclaimed id never reorders the listing.
pub open spec fn spec_jobs_listing(v: Seq<JobView>) -> Seq<char>
    decreases v.len(),
{
    if v.len() == 0 {
        Seq::empty()
    } else {
        spec_jobs_listing(v.drop_last()) + spec_job_report(v.last())
    }
}

impl Shell {
    /// Text of the status report of job `id`: header, one line per
    /// stage, and a blank line after the last stage. `JobNotFound`
    /// when the id is absent.
    pub fn job_status_report(&self, id: usize) -> (r: Result<String, JobError>)
        requires
            self.wf(),
        ensures
            match r {
                Ok(s) => has_job_id(self@, id) && s@ == spec_job_report(job_with_id(self@, id)),
                Err(e) => e == JobError::JobNotFound && !has_job_id(self@, id),
            },
    {
        match self.get_job_by_id(id) {
            Some(j) => Ok(job_report(j)),
            None => Err(JobError::JobNotFound),
        }
    }

    /// Text of the pid listing of job `id`: header, one pid per line,
    /// and a blank line after the last stage. `None` when the id is
    /// absent.
    pub fn job_pids_report(&self, id: usize) -> (r: Option<String>)
        requires
            self.wf(),
        ensures
            match r {
                Some(s) => has_job_id(self@, id) && s@ == spec_job_pids_report(
                    job_with_id(self@, id),
                ),
                None => !has_job_id(self@, id),
            },
    {
        let j = match self.get_job_by_id(id) {
            Some(j) => j,
            None => { return None; },
        };
        let mut s = String::new();
        s.append("[");
        s.append(uint_text(j.id).as_str());
        s.append("]\n");
        let m = j.procs.len();
        let mut k: usize = 0;
        proof {
            assert(j@.procs.subrange(0, 0) =~= Seq::<ProcView>::empty());
            assert(s@ =~= "["@ + spec_uint_chars(j.id as nat) + "]\n"@ + spec_pid_lines(
                j@.procs.subrange(0, 0),
            ));
        }
        while k < m
            invariant
                m == j.procs.len(),
                s@ == "["@ + spec_uint_chars(j.id as nat) + "]\n"@ + spec_pid_lines(
                    j@.procs.subrange(0, k as int),
                ),
                k <= m,
            decreases m - k,
        {
            s.append(" ");
            s.append(uint_text(j.procs[k].pid).as_str());
            s.append("\n");
            proof {
                let ps = j@.procs;
                assert(ps.subrange(0, k + 1).drop_last() =~= ps.subrange(0, k as int));
                assert(ps.subrange(0, k + 1).last() == ps[k as int]);
                assert(s@ =~= "["@ + spec_uint_chars(j.id as nat) + "]\n"@ + spec_pid_lines(
                    ps.subrange(0, k + 1),
                ));
            }
            k += 1;
        }
        s.append("\n");
        proof {
            assert(j@.procs.subrange(0, m as int) =~= j@.procs);
            assert(j@ == job_with_id(self@, id));
            assert(s@ =~= spec_job_pids_report(j@));
        }
        Some(s)
    }

    /// Text of the `jobs` listing: every live job's report, in table
    /// order.
    pub fn list_jobs(&self) -> (r: String)
        requires
            self.wf(),
        ensures
            r@ == spec_jobs_listing(self@),
    {
        let mut s = String::new();
        let n = self.jobs.len();
        let mut i: usize = 0;
        proof {
            assert(self@.subrange(0, 0) =~= Seq::<JobView>::empty());
            assert(s@ =~= spec_jobs_listing(self@.subrange(0, 0)));
        }
        while i < n
            invariant
                n == self.jobs.len(),
                i <= n,
                s@ == spec_jobs_listing(self@.subrange(0, i as int)),
            decreases n - i,
        {
            let rep = job_report(&self.jobs[i]);
            s.append(rep.as_str());
            proof {
                assert(self@.subrange(0, i + 1).drop_last() =~= self@.subrange(0, i as int));
                assert(self@.subrange(0, i + 1).last() == self@[i as int]);
                assert(s@ =~= spec_jobs_listing(self@.subrange(0, i + 1)));
            }
            i += 1;
        }
        proof {
            assert(self@.subrange(0, n as int) =~= self@);
        }
        s
    }
}

} // verus!
