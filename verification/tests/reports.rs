use jobctl::job::Command;
use jobctl::job::Execution;
use jobctl::job::JobError;
use jobctl::job::Process;
use jobctl::job::Role;
use jobctl::job::Status;
use jobctl::report::command_text;
use jobctl::report::status_text;
use jobctl::report::uint_text;
use jobctl::table::Shell;

fn new_shell() -> Shell {
    Shell::new(String::new(), String::new(), String::new())
}

fn stage(pid: usize, command: Command, argv: &[&str]) -> Process {
    Process {
        command,
        argv: argv.iter().map(|a| a.to_string()).collect(),
        input_path: None,
        output_path: None,
        pid,
        role: Role::Only,
        status: Status::Running,
    }
}

#[test]
fn decimal_rendering_is_exact() {
    assert_eq!(uint_text(0), "0");
    assert_eq!(uint_text(7), "7");
    assert_eq!(uint_text(10), "10");
    assert_eq!(uint_text(90210), "90210");
    assert_eq!(uint_text(usize::MAX), usize::MAX.to_string());
}

#[test]
fn status_text_is_exact() {
    assert_eq!(status_text(Status::Running), "Running");
    assert_eq!(status_text(Status::Done), "Done");
    assert_eq!(status_text(Status::Suspended), "Suspended");
    assert_eq!(status_text(Status::Continued), "Continued");
    assert_eq!(status_text(Status::Terminated), "Terminated");
}

#[test]
fn command_text_is_exact() {
    assert_eq!(command_text(Command::External), "external");
    assert_eq!(command_text(Command::Exit), "exit");
    assert_eq!(command_text(Command::Cd), "cd");
    assert_eq!(command_text(Command::Jobs), "jobs");
    assert_eq!(command_text(Command::Fg), "fg");
    assert_eq!(command_text(Command::Bg), "bg");
    assert_eq!(command_text(Command::Kill), "kill");
    assert_eq!(command_text(Command::Export), "export");
    assert_eq!(command_text(Command::Unset), "unset");
}

#[test]
fn single_stage_status_report() {
    let mut sh = new_shell();
    let id = sh
        .register_job(vec![stage(7, Command::External, &["ls", "-l"])], 7, Execution::Background)
        .unwrap();
    let report = sh.job_status_report(id).unwrap();
    assert_eq!(report, "[0]\n\t7\tRunning\texternal ls -l\n\n");
}

#[test]
fn pipeline_report_uses_continuation_marker() {
    let mut sh = new_shell();
    let id = sh
        .register_job(
            vec![stage(100, Command::External, &["cat"]), stage(101, Command::External, &["wc"])],
            100,
            Execution::Pipeline,
        )
        .unwrap();
    sh.on_status_change(101, Status::Done).unwrap();
    let report = sh.job_status_report(id).unwrap();
    assert_eq!(report, "[0]\n\t100\tRunning\texternal cat\n|\n\t101\tDone\texternal wc\n\n");
}

#[test]
fn status_report_of_unknown_id_fails() {
    let sh = new_shell();
    assert_eq!(sh.job_status_report(3), Err(JobError::JobNotFound));
}

#[test]
fn pid_report_lists_one_pid_per_line() {
    let mut sh = new_shell();
    let id = sh
        .register_job(
            vec![stage(41, Command::External, &["a"]), stage(42, Command::External, &["b"])],
            41,
            Execution::Background,
        )
        .unwrap();
    assert_eq!(sh.job_pids_report(id).unwrap(), "[0]\n 41\n 42\n\n");
    assert_eq!(sh.job_pids_report(9), None);
}

#[test]
fn listing_concatenates_jobs_in_creation_order() {
    let mut sh = new_shell();
    assert_eq!(sh.list_jobs(), "");
    sh.register_job(vec![stage(1, Command::Jobs, &[])], 1, Execution::Background).unwrap();
    sh.register_job(vec![stage(2, Command::External, &["vi"])], 2, Execution::Background).unwrap();
    assert_eq!(sh.list_jobs(), "[0]\n\t1\tRunning\tjobs\n\n[1]\n\t2\tRunning\texternal vi\n\n");
}
