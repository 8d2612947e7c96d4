use gash::exec::Directive;
use gash::functional::{borrowed_maybe, maybe};
use gash::numfmt::format_u32;
use gash::process::{BgProcess, FgProcess, cmd_exists, output_redirect};
use gash::parser::Cmd;
use gash::shell::Shell;

#[test]
fn background_launch_returns_control_and_registers_the_job() {
    let mut shell = Shell::new("gash > ");
    // the directive comes back at once: nothing waits on the job
    let directive = shell.run_cmdline("sleep 5 &");
    let (program, argv) = match directive {
        Directive::Background { program, argv } => (program, argv),
        _ => panic!("expected a background directive"),
    };
    assert_eq!(program, "sleep");
    assert_eq!(argv, ["5"]);
    // the supervisor reports the pid; the shell announces and registers
    let job = BgProcess::new(program, argv).with_pid(4242);
    assert_eq!(Shell::job_announcement(&job), "sleep 4242");
    shell.register_job(job);
    assert_eq!(shell.jobs(), ["sleep 4242"]);
    // the job stays registered until it exits or the shell does
    assert_eq!(shell.processes.len(), 1);
}

#[test]
fn exit_signals_every_registered_job_without_waiting() {
    let mut shell = Shell::new("> ");
    shell.register_job(BgProcess::new("sleep".to_string(), vec!["5".to_string()]).with_pid(4242));
    shell.register_job(BgProcess::new("yes".to_string(), Vec::new()).with_pid(77));
    // kill_all only reports the pids to signal; it neither blocks nor waits
    assert_eq!(shell.kill_all(), [4242, 77]);
    assert_eq!(shell.processes.len(), 2);
}

#[test]
fn liveness_sweep_removes_exactly_the_finished_jobs() {
    let mut shell = Shell::new("> ");
    shell.register_job(BgProcess::new("a".to_string(), Vec::new()).with_pid(1));
    shell.register_job(BgProcess::new("b".to_string(), Vec::new()).with_pid(2));
    shell.register_job(BgProcess::new("c".to_string(), Vec::new()).with_pid(3));
    shell.disown_dead(&vec![true, false, true]);
    assert_eq!(shell.jobs(), ["b 2"]);
    shell.disown_dead(&vec![false]);
    assert_eq!(shell.jobs(), ["b 2"]);
    shell.disown_dead(&vec![true]);
    assert_eq!(shell.jobs(), Vec::<String>::new());
}

#[test]
fn history_is_recorded_and_joined_with_newlines() {
    let mut shell = Shell::new("> ");
    assert_eq!(shell.show_hist(), "");
    shell.push_hist("echo hi");
    shell.push_hist("jobs");
    assert_eq!(shell.show_hist(), "echo hi\njobs");
}

#[test]
fn empty_history_entries_never_start_the_joined_display() {
    // a documented quirk: entries are only appended once a first non-empty
    // one has been seen
    let mut shell = Shell::new("> ");
    shell.push_hist("");
    shell.push_hist("b");
    assert_eq!(shell.show_hist(), "b");
}

#[test]
fn pid_rendering_is_plain_decimal() {
    assert_eq!(format_u32(0), "0");
    assert_eq!(format_u32(7), "7");
    assert_eq!(format_u32(10), "10");
    assert_eq!(format_u32(90210), "90210");
    assert_eq!(format_u32(u32::MAX), "4294967295");
}

#[test]
fn foreground_process_requests_its_own_descriptors() {
    let fg = FgProcess::new(
        "echo".to_string(),
        vec!["hi".to_string()],
        Some(gash::process::STDIN_FILENO),
        Some(gash::process::STDOUT_FILENO),
    );
    let request = fg.run();
    assert_eq!(request.command, "echo");
    assert_eq!(request.args, ["hi"]);
    assert_eq!(request.in_fd, Some(0));
    assert_eq!(request.out_fd, Some(1));
    assert_eq!(request.err_fd, None);
}

#[test]
fn command_lookup_gates_the_command() {
    let cmd = Cmd::new("ls -l").unwrap();
    assert!(cmd_exists(*cmd, false).is_none());
    let cmd = Cmd::new("ls -l").unwrap();
    let through = cmd_exists(*cmd, true).unwrap();
    assert_eq!(through.program, "ls");
}

#[test]
fn failed_stage_output_is_not_written_to_the_redirect_target() {
    assert_eq!(output_redirect(true, vec![104, 105]), Some(vec![104, 105]));
    assert_eq!(output_redirect(false, vec![104, 105]), None);
}

#[test]
fn maybe_chains_fallible_steps() {
    assert_eq!(maybe(Some(3u32), |x| Some(x + 1)), Some(4));
    assert_eq!(maybe(None::<u32>, |x| Some(x + 1)), None);
    assert_eq!(maybe(Some(3u32), |_| None::<u32>), None);
    let v = Some("word".to_string());
    assert_eq!(borrowed_maybe(&v, |s| Some(s.len())), Some(4));
    assert_eq!(borrowed_maybe(&None::<String>, |s| Some(s.len())), None);
}
