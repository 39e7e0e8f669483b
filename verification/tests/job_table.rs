use jobctl::job::Command;
use jobctl::job::Execution;
use jobctl::job::JobError;
use jobctl::job::ProcFilter;
use jobctl::job::Process;
use jobctl::job::Role;
use jobctl::job::Status;
use jobctl::table::Shell;

fn new_shell() -> Shell {
    Shell::new(String::new(), String::new(), String::new())
}

fn proc_with(pid: usize, status: Status) -> Process {
    Process {
        command: Command::External,
        argv: vec![String::from("ls")],
        input_path: None,
        output_path: None,
        pid,
        role: Role::Only,
        status,
    }
}

fn pipeline(pids: &[usize]) -> Vec<Process> {
    pids.iter().map(|&pid| proc_with(pid, Status::Running)).collect()
}

#[test]
fn count_partition_all_is_done_plus_remaining() {
    let mut sh = new_shell();
    let id = sh.register_job(pipeline(&[10, 11, 12]), 10, Execution::Background).unwrap();
    sh.on_status_change(11, Status::Done).unwrap();
    let all = sh.get_proc_count(id, ProcFilter::All).unwrap();
    let done = sh.get_proc_count(id, ProcFilter::Done).unwrap();
    let remaining = sh.get_proc_count(id, ProcFilter::Remaining).unwrap();
    assert_eq!(all, 3);
    assert_eq!(done, 1);
    assert_eq!(remaining, 2);
    assert_eq!(all, done + remaining);
}

#[test]
fn remaining_zero_iff_every_stage_terminal() {
    let mut sh = new_shell();
    let id = sh.register_job(pipeline(&[20, 21]), 20, Execution::Background).unwrap();
    assert_eq!(sh.get_proc_count(id, ProcFilter::Remaining).unwrap(), 2);
    sh.on_status_change(20, Status::Done).unwrap();
    assert_eq!(sh.get_proc_count(id, ProcFilter::Remaining).unwrap(), 1);
    sh.on_status_change(21, Status::Terminated).unwrap();
    assert_eq!(sh.get_proc_count(id, ProcFilter::Remaining).unwrap(), 0);
    assert_eq!(sh.get_proc_count(id, ProcFilter::Done).unwrap(), 2);
}

#[test]
fn release_still_running_leaves_table_unchanged() {
    let mut sh = new_shell();
    let id = sh.register_job(pipeline(&[30, 31]), 30, Execution::Background).unwrap();
    sh.on_status_change(30, Status::Done).unwrap();
    let all_before = sh.get_proc_count(id, ProcFilter::All).unwrap();
    let rem_before = sh.get_proc_count(id, ProcFilter::Remaining).unwrap();
    assert_eq!(sh.release_job(id), Err(JobError::StillRunning));
    assert_eq!(sh.get_proc_count(id, ProcFilter::All).unwrap(), all_before);
    assert_eq!(sh.get_proc_count(id, ProcFilter::Remaining).unwrap(), rem_before);
    assert!(sh.get_job_by_id(id).is_some());
}

#[test]
fn job_id_for_pid_across_three_jobs() {
    let mut sh = new_shell();
    let a = sh.register_job(pipeline(&[100]), 100, Execution::Background).unwrap();
    let b = sh.register_job(pipeline(&[200, 201]), 200, Execution::Background).unwrap();
    let c = sh.register_job(pipeline(&[300, 301, 302]), 300, Execution::Background).unwrap();
    assert_eq!(sh.get_job_id_by_pid(100), Some(a));
    assert_eq!(sh.get_job_id_by_pid(200), Some(b));
    assert_eq!(sh.get_job_id_by_pid(201), Some(b));
    assert_eq!(sh.get_job_id_by_pid(300), Some(c));
    assert_eq!(sh.get_job_id_by_pid(302), Some(c));
    assert_eq!(sh.get_job_id_by_pid(999), None);
}

#[test]
fn pid_never_registered_resolves_to_none() {
    let sh = new_shell();
    assert_eq!(sh.get_job_id_by_pid(1), None);
}

#[test]
fn duplicate_notification_is_a_no_op() {
    let mut once = new_shell();
    let mut twice = new_shell();
    let ida = once.register_job(pipeline(&[40, 41]), 40, Execution::Background).unwrap();
    let idb = twice.register_job(pipeline(&[40, 41]), 40, Execution::Background).unwrap();
    once.on_status_change(40, Status::Suspended).unwrap();
    twice.on_status_change(40, Status::Suspended).unwrap();
    twice.on_status_change(40, Status::Suspended).unwrap();
    assert_eq!(once.list_jobs(), twice.list_jobs());
    assert_eq!(
        once.get_proc_count(ida, ProcFilter::Remaining).unwrap(),
        twice.get_proc_count(idb, ProcFilter::Remaining).unwrap()
    );
}

#[test]
fn duplicate_terminal_notification_is_a_no_op() {
    let mut sh = new_shell();
    let id = sh.register_job(pipeline(&[50]), 50, Execution::Background).unwrap();
    sh.on_status_change(50, Status::Done).unwrap();
    let listing = sh.list_jobs();
    sh.on_status_change(50, Status::Done).unwrap();
    assert_eq!(sh.list_jobs(), listing);
    assert_eq!(sh.get_proc_count(id, ProcFilter::Remaining).unwrap(), 0);
}

#[test]
fn three_stage_pipeline_runs_to_release() {
    let mut sh = new_shell();
    let id = sh.register_job(pipeline(&[100, 101, 102]), 100, Execution::Pipeline).unwrap();
    assert_eq!(sh.get_proc_count(id, ProcFilter::All), Some(3));
    assert_eq!(sh.get_proc_count(id, ProcFilter::Remaining), Some(3));
    sh.on_status_change(100, Status::Done).unwrap();
    assert_eq!(sh.get_proc_count(id, ProcFilter::Remaining), Some(2));
    sh.on_status_change(101, Status::Done).unwrap();
    assert_eq!(sh.get_proc_count(id, ProcFilter::Remaining), Some(1));
    sh.on_status_change(102, Status::Done).unwrap();
    assert_eq!(sh.get_proc_count(id, ProcFilter::Remaining), Some(0));
    assert_eq!(sh.release_job(id), Ok(()));
    assert!(sh.get_job_by_id(id).is_none());
}

#[test]
fn fg_with_no_argument_on_empty_table_is_job_not_found() {
    let sh = new_shell();
    assert_eq!(sh.resolve_job_id(None), Err(JobError::JobNotFound));
}

#[test]
fn resolve_explicit_and_default_ids() {
    let mut sh = new_shell();
    let a = sh.register_job(pipeline(&[60]), 60, Execution::Background).unwrap();
    let b = sh.register_job(pipeline(&[61]), 61, Execution::Background).unwrap();
    assert_eq!(sh.resolve_job_id(None), Ok(a));
    assert_eq!(sh.resolve_job_id(Some(b)), Ok(b));
    assert_eq!(sh.resolve_job_id(Some(77)), Err(JobError::JobNotFound));
}

#[test]
fn notification_for_unknown_pid_is_benign() {
    let mut sh = new_shell();
    let id = sh.register_job(pipeline(&[70]), 70, Execution::Background).unwrap();
    let listing = sh.list_jobs();
    assert_eq!(sh.on_status_change(71, Status::Done), Err(JobError::ProcessNotFound));
    assert_eq!(sh.list_jobs(), listing);
    assert_eq!(sh.get_proc_count(id, ProcFilter::Remaining), Some(1));
}

#[test]
fn release_of_unknown_id_is_job_not_found() {
    let mut sh = new_shell();
    assert_eq!(sh.release_job(5), Err(JobError::JobNotFound));
}

#[test]
fn terminal_status_absorbs_later_notifications() {
    let mut sh = new_shell();
    let id = sh.register_job(pipeline(&[80]), 80, Execution::Background).unwrap();
    sh.on_status_change(80, Status::Done).unwrap();
    sh.on_status_change(80, Status::Running).unwrap();
    assert_eq!(sh.get_proc_count(id, ProcFilter::Done), Some(1));
    let root = sh.get_root_by_job_id(id).unwrap();
    assert_eq!(root.status, Status::Done);
}

#[test]
fn suspend_and_continue_transitions() {
    let mut sh = new_shell();
    let id = sh.register_job(pipeline(&[90]), 90, Execution::Foreground).unwrap();
    sh.on_status_change(90, Status::Suspended).unwrap();
    assert_eq!(sh.get_root_by_job_id(id).unwrap().status, Status::Suspended);
    sh.on_status_change(90, Status::Continued).unwrap();
    assert_eq!(sh.get_root_by_job_id(id).unwrap().status, Status::Continued);
    sh.on_status_change(90, Status::Running).unwrap();
    assert_eq!(sh.get_root_by_job_id(id).unwrap().status, Status::Running);
}

#[test]
fn released_id_is_reused_by_the_next_job() {
    let mut sh = new_shell();
    let a = sh.register_job(pipeline(&[110]), 110, Execution::Background).unwrap();
    let b = sh.register_job(pipeline(&[111]), 111, Execution::Background).unwrap();
    assert_eq!(a, 0);
    assert_eq!(b, 1);
    sh.on_status_change(110, Status::Done).unwrap();
    assert_eq!(sh.release_job(a), Ok(()));
    let c = sh.register_job(pipeline(&[112]), 112, Execution::Background).unwrap();
    assert_eq!(c, 0);
    assert_eq!(sh.get_job_id_by_pid(111), Some(b));
    assert_eq!(sh.get_job_id_by_pid(112), Some(c));
}

#[test]
fn next_job_id_follows_creation_order() {
    let mut sh = new_shell();
    assert_eq!(sh.get_next_job_id(), None);
    let a = sh.register_job(pipeline(&[120]), 120, Execution::Background).unwrap();
    let b = sh.register_job(pipeline(&[121]), 121, Execution::Background).unwrap();
    assert_eq!(sh.get_next_job_id(), Some(a));
    sh.on_status_change(120, Status::Terminated).unwrap();
    sh.release_job(a).unwrap();
    assert_eq!(sh.get_next_job_id(), Some(b));
}

#[test]
fn pgid_and_root_lookups() {
    let mut sh = new_shell();
    let id = sh.register_job(pipeline(&[130, 131]), 130, Execution::Background).unwrap();
    assert_eq!(sh.get_pgid_by_job_id(id), Some(130));
    assert_eq!(sh.get_pgid_by_job_id(9), None);
    assert_eq!(sh.get_root_by_job_id(id).unwrap().pid, 130);
    assert!(sh.get_root_by_job_id(9).is_none());
}

#[test]
fn continue_needed_only_while_a_stage_is_suspended() {
    let mut sh = new_shell();
    let id = sh.register_job(pipeline(&[180, 181]), 180, Execution::Background).unwrap();
    assert_eq!(sh.job_needs_continue(id), Some(false));
    sh.on_status_change(181, Status::Suspended).unwrap();
    assert_eq!(sh.job_needs_continue(id), Some(true));
    sh.on_status_change(181, Status::Continued).unwrap();
    assert_eq!(sh.job_needs_continue(id), Some(false));
    assert_eq!(sh.job_needs_continue(9), None);
}

#[test]
fn oversized_argv_is_rejected_whole() {
    let mut sh = new_shell();
    let mut p = proc_with(140, Status::Running);
    p.argv = (0..65).map(|i| format!("a{}", i)).collect();
    assert_eq!(sh.register_job(vec![p], 140, Execution::Background), Err(JobError::ArgumentOverflow));
    assert_eq!(sh.get_job_id_by_pid(140), None);
    assert_eq!(sh.get_next_job_id(), None);
}

#[test]
fn oversized_token_is_rejected_whole() {
    let mut sh = new_shell();
    let mut p = proc_with(150, Status::Running);
    p.argv = vec!["x".repeat(1025)];
    assert_eq!(sh.register_job(vec![p], 150, Execution::Background), Err(JobError::ArgumentOverflow));
    assert_eq!(sh.get_job_id_by_pid(150), None);
}

#[test]
fn longest_token_within_bounds_is_accepted() {
    let mut sh = new_shell();
    let mut p = proc_with(160, Status::Running);
    p.argv = vec!["x".repeat(1024)];
    p.output_path = Some("o".repeat(1024));
    assert!(sh.register_job(vec![p], 160, Execution::Background).is_ok());
}

#[test]
fn oversized_path_is_rejected_whole() {
    let mut sh = new_shell();
    let mut p = proc_with(170, Status::Running);
    p.input_path = Some("i".repeat(1025));
    assert_eq!(sh.register_job(vec![p], 170, Execution::Background), Err(JobError::ArgumentOverflow));
}
