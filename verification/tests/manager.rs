use jobshell::state::jobs::builder::Environment;
use jobshell::state::jobs::{BuiltinHandler, Configuration, Error, Job, Run, Status, WaitState};
use jobshell::state::control::{echo_line, is_host_builtin, set_arguments};
use jobshell::state::drive::{Prepared, Waited};
use jobshell::state::{describe, find_job_by_pid, max_job_pid, ShellState};
use jobshell::syntax::lexer::lex;
use jobshell::syntax::parser::parse;
use jobshell::sys::Os;

/// The host side of the builtins: it notes what it is asked to do.
struct Host {
    calls: Vec<(String, Vec<String>)>,
}

impl BuiltinHandler for Host {
    fn handle_builtin(&mut self, name: &str, args: &[String]) -> i8 {
        self.calls.push((name.to_string(), args.to_vec()));
        match name {
            "echo" | "echo-stderr" | "jobs" => 0,
            _ => -1,
        }
    }

    fn is_builtin(&mut self, name: &str) -> bool {
        matches!(name, "cd" | "echo" | "echo-stderr" | "exit" | "set")
    }
}

fn state() -> ShellState<Host> {
    ShellState::new(Host { calls: Vec::new() })
}

fn path_env() -> Environment {
    Environment { vars: vec![("PATH".to_string(), "/bin:/usr/bin".to_string())] }
}

fn enqueue(state: &mut ShellState<Host>, line: &str, os: &mut Os) -> Result<(), Error> {
    let expr = parse(&lex(line).unwrap()).unwrap();
    match state.enqueue_job(&expr, &path_env(), os) {
        Run::Done(r) => r,
        Run::Child(_) => panic!("no process is created for builtins"),
    }
}

fn program(pid: i32, pgid: i32, state: WaitState) -> Job {
    let mut job = Job::external("/bin/sleep".to_string(), vec!["30".to_string()], Vec::new(), false);
    job.status = Status::Started(pid, pgid, state);
    job
}

#[test]
fn new_manager_has_no_jobs() {
    let s = state();
    assert!(s.foreground_jobs.is_empty());
    assert!(s.background_jobs.is_empty());
    assert!(s.stopped_jobs.is_empty());
    assert_eq!(s.current_job_pid, None);
}

#[test]
fn foreground_job_waits_in_the_queue_until_run() {
    let mut s = state();
    let mut os = Os::new();
    enqueue(&mut s, "echo hello world", &mut os).unwrap();
    assert_eq!(s.foreground_jobs.len(), 1);
    assert_eq!(s.foreground_jobs[0].job.status, Status::NotStarted);
    assert!(s.host.calls.is_empty());
    assert!(matches!(s.run_foreground_jobs(&mut os), Run::Done(Ok(()))));
    assert!(s.foreground_jobs.is_empty());
    assert!(s.background_jobs.is_empty());
    assert!(s.stopped_jobs.is_empty());
    assert_eq!(s.current_job_pid, None);
    assert_eq!(s.host.calls, vec![("echo".to_string(), vec!["hello world".to_string()])]);
    assert_eq!(os.held_count(), 0);
}

#[test]
fn foreground_jobs_run_first_in_first_out() {
    let mut s = state();
    let mut os = Os::new();
    enqueue(&mut s, "echo one", &mut os).unwrap();
    enqueue(&mut s, "echo two", &mut os).unwrap();
    assert!(matches!(s.run_foreground_jobs(&mut os), Run::Done(Ok(()))));
    let firsts: Vec<String> = s.host.calls.iter().map(|c| c.1[0].clone()).collect();
    assert_eq!(firsts, vec!["one".to_string(), "two".to_string()]);
}

#[test]
fn get_next_job_takes_the_head() {
    let mut s = state();
    let mut os = Os::new();
    assert!(s.get_next_job().is_none());
    enqueue(&mut s, "echo one", &mut os).unwrap();
    enqueue(&mut s, "echo two", &mut os).unwrap();
    let job = s.get_next_job().unwrap();
    assert_eq!(describe(&job), "echo one");
    assert_eq!(s.foreground_jobs.len(), 1);
}

#[test]
fn background_builtin_runs_at_once() {
    let mut s = state();
    let mut os = Os::new();
    enqueue(&mut s, "echo now &", &mut os).unwrap();
    assert!(s.foreground_jobs.is_empty());
    assert!(s.background_jobs.is_empty());
    assert_eq!(s.host.calls, vec![("echo".to_string(), vec!["now".to_string()])]);
    s.background_reaper();
    assert!(s.background_jobs.is_empty());
    assert!(s.stopped_jobs.is_empty());
}

#[test]
fn build_errors_leave_the_queues_alone() {
    let mut s = state();
    let mut os = Os::new();
    assert!(matches!(enqueue(&mut s, "no-such-command-at-all", &mut os), Err(Error::CommandNotFound(_))));
    assert!(s.foreground_jobs.is_empty());
    assert!(s.background_jobs.is_empty());
}

#[test]
fn job_control_names_are_builtins() {
    let mut s = state();
    for name in ["fg", "bg", "jobs", "cd", "echo", "echo-stderr", "exit", "set"] {
        assert!(s.is_builtin(name), "{}", name);
    }
    assert!(!s.is_builtin("ls"));
}

#[test]
fn other_builtins_go_to_the_host() {
    let mut s = state();
    assert_eq!(s.handle_builtin("echo", &["x".to_string()]), 0);
    assert_eq!(s.handle_builtin("unknown", &[]), -1);
    assert_eq!(s.host.calls.len(), 2);
}

#[test]
fn fg_without_jobs_complains() {
    let mut s = state();
    assert_eq!(s.fg(None), -1);
    assert_eq!(s.host.calls, vec![("echo-stderr".to_string(), vec!["error: no such job".to_string()])]);
    assert_eq!(s.bg(None), -1);
    assert_eq!(s.fg(Some("12")), -1);
    assert_eq!(s.fg(Some("twelve")), -1);
}

#[test]
fn fg_prefers_the_stopped_job_with_the_greatest_pid() {
    let mut s = state();
    s.push_stopped(program(4194910, 4194910, WaitState::Stopped(20)));
    s.push_stopped(program(4194930, 4194930, WaitState::Stopped(20)));
    s.push_background(program(4194950, 4194950, WaitState::StillAlive));
    assert_eq!(s.fg(None), 0);
    assert_eq!(s.foreground_jobs.len(), 1);
    assert_eq!(s.foreground_jobs[0].job.status, Status::Started(4194930, 4194930, WaitState::Stopped(20)));
    assert_eq!(s.stopped_jobs.len(), 1);
    assert_eq!(s.background_jobs.len(), 1);
}

#[test]
fn fg_falls_back_to_background_jobs() {
    let mut s = state();
    s.push_background(program(4194910, 4194910, WaitState::StillAlive));
    s.push_background(program(4194920, 4194920, WaitState::StillAlive));
    assert_eq!(s.fg(None), 0);
    assert_eq!(s.foreground_jobs[0].job.status.pid(), Some(4194920));
    assert_eq!(s.background_jobs.len(), 1);
}

#[test]
fn fg_by_pid_puts_the_job_at_the_head() {
    let mut s = state();
    let mut os = Os::new();
    enqueue(&mut s, "echo waiting", &mut os).unwrap();
    s.push_stopped(program(4194910, 4194910, WaitState::Stopped(20)));
    s.push_background(program(4194920, 4194920, WaitState::StillAlive));
    assert_eq!(s.fg(Some("4194920")), 0);
    assert_eq!(s.foreground_jobs.len(), 2);
    assert_eq!(s.foreground_jobs[0].job.status.pid(), Some(4194920));
    assert_eq!(s.foreground_jobs[1].job.status, Status::NotStarted);
    assert_eq!(s.fg(Some("4194910")), 0);
    assert_eq!(s.foreground_jobs[0].job.status.pid(), Some(4194910));
    assert!(s.stopped_jobs.is_empty());
    assert!(s.background_jobs.is_empty());
}

#[test]
fn bg_resumes_a_stopped_job_in_the_background() {
    let own_group = nix::unistd::getpgrp().as_raw();
    let mut s = state();
    s.push_stopped(program(4194910, own_group, WaitState::Stopped(20)));
    assert_eq!(s.bg(None), 0);
    assert!(s.stopped_jobs.is_empty());
    assert_eq!(s.background_jobs.len(), 1);
    assert_eq!(s.background_jobs[0].job.status, Status::Started(4194910, own_group, WaitState::StillAlive));
}

#[test]
fn bg_leaves_a_job_it_cannot_resume_among_the_stopped() {
    let mut s = state();
    s.push_stopped(program(4194910, 4194911, WaitState::Stopped(20)));
    assert_eq!(s.bg(Some("4194910")), -1);
    assert_eq!(s.stopped_jobs.len(), 1);
    assert!(s.background_jobs.is_empty());
}

#[test]
fn bg_only_looks_among_the_stopped() {
    let mut s = state();
    s.push_background(program(4194920, 4194920, WaitState::StillAlive));
    assert_eq!(s.bg(Some("4194920")), -1);
    assert_eq!(
        s.host.calls.last().unwrap(),
        &("echo-stderr".to_string(), vec!["error: job 4194920 has not stopped".to_string()])
    );
    assert_eq!(s.bg(None), -1);
    assert_eq!(s.background_jobs.len(), 1);
}

#[test]
fn jobs_report_lists_both_queues() {
    let mut s = state();
    s.push_background(program(4194920, 4194920, WaitState::StillAlive));
    s.push_stopped(program(4194910, 4194910, WaitState::Stopped(20)));
    s.push_stopped(program(4194911, 4194911, WaitState::Stopped(20)));
    let lines = s.jobs();
    assert_eq!(
        lines,
        vec![
            "background: ".to_string(),
            "  0: running /bin/sleep 30".to_string(),
            "stopped: ".to_string(),
            "  0: stopped /bin/sleep 30".to_string(),
            "  1: stopped /bin/sleep 30".to_string(),
        ]
    );
    assert_eq!(s.handle_builtin("jobs", &[]), 0);
    assert_eq!(s.host.calls.last().unwrap(), &("jobs".to_string(), lines));
}

#[test]
fn describe_writes_a_pipeline_with_bars() {
    let left = Job::external("/bin/ls".to_string(), vec!["-l".to_string()], Vec::new(), false);
    let right = Job::builtin("echo".to_string(), Vec::new(), Vec::new(), false);
    assert_eq!(describe(&Job::pipeline(left, right, false)), "/bin/ls -l | echo");
}

#[test]
fn reaper_drops_jobs_it_cannot_wait_for_and_moves_stopped_ones() {
    let mut s = state();
    s.push_background(program(4194920, 4194920, WaitState::StillAlive));
    s.push_background(program(4194921, 4194921, WaitState::StillAlive));
    s.push_background(program(4194922, 4194922, WaitState::StillAlive));
    s.background_jobs[1].job.status = Status::Started(4194921, 4194921, WaitState::Stopped(19));
    s.background_jobs[2].job.status = Status::Started(4194922, 4194922, WaitState::Exited(0));
    s.background_reaper();
    assert!(s.background_jobs.is_empty());
    assert_eq!(s.stopped_jobs.len(), 1);
    assert_eq!(s.stopped_jobs[0].job.status.pid(), Some(4194921));
}

#[test]
fn foreground_loop_gives_up_a_job_it_cannot_wait_for() {
    let mut s = state();
    let mut os = Os::new();
    s.push_foreground(program(4194920, 4194920, WaitState::StillAlive));
    assert!(matches!(s.run_foreground_jobs(&mut os), Run::Done(Err(Error::Wait))));
    assert!(s.foreground_jobs.is_empty());
    assert!(s.stopped_jobs.is_empty());
    assert_eq!(s.current_job_pid, None);
}

#[test]
fn foreground_loop_drops_a_job_that_has_ended() {
    let mut s = state();
    let mut os = Os::new();
    s.push_foreground(program(4194920, 4194920, WaitState::Exited(0)));
    assert!(matches!(s.run_foreground_jobs(&mut os), Run::Done(Ok(()))));
    assert!(s.foreground_jobs.is_empty());
}

#[test]
fn fg_inside_the_loop_is_picked_up_by_the_loop() {
    let mut s = state();
    let mut os = Os::new();
    s.push_stopped(program(4194910, 4194911, WaitState::Stopped(20)));
    enqueue(&mut s, "fg", &mut os).unwrap();
    // the job comes to the foreground, cannot be resumed, and is stopped again
    assert!(matches!(s.run_foreground_jobs(&mut os), Run::Done(Err(Error::Wait))));
    assert!(s.foreground_jobs.is_empty());
    assert_eq!(s.stopped_jobs.len(), 1);
}

#[test]
fn queue_searches() {
    let mut s = state();
    s.push_stopped(program(4194910, 4194910, WaitState::Stopped(20)));
    s.push_stopped(Job::builtin("echo".to_string(), Vec::new(), Vec::new(), false));
    s.push_stopped(program(4194905, 4194905, WaitState::Stopped(20)));
    assert_eq!(max_job_pid(&s.stopped_jobs), Some(4194910));
    assert_eq!(find_job_by_pid(&s.stopped_jobs, 4194905), Some(2));
    assert_eq!(find_job_by_pid(&s.stopped_jobs, 1), None);
    assert_eq!(max_job_pid(&s.background_jobs), None);
}

#[test]
fn pipeline_configuration_is_kept() {
    let mut s = state();
    let mut os = Os::new();
    enqueue(&mut s, "echo a | echo b", &mut os).unwrap();
    assert!(matches!(s.foreground_jobs[0].job.configuration, Configuration::Pipeline(_, _)));
    assert!(matches!(s.run_foreground_jobs(&mut os), Run::Done(Ok(()))));
    assert_eq!(s.host.calls.len(), 2);
    assert_eq!(os.held_count(), 0);
}

#[test]
fn a_pipeline_with_an_ampersand_is_a_background_job() {
    let mut s = state();
    let mut os = Os::new();
    enqueue(&mut s, "echo a | echo b &", &mut os).unwrap();
    assert!(s.foreground_jobs.is_empty());
    assert!(s.background_jobs.is_empty());
    assert_eq!(s.host.calls.len(), 2);
    let expr = parse(&lex("echo a & | echo b").unwrap()).unwrap();
    let job = match Job::from_expr(&expr, &mut s, &path_env(), &mut os) {
        Run::Done(r) => r.unwrap(),
        Run::Child(_) => panic!("no process is created for builtins"),
    };
    assert!(job.background);
    let expr = parse(&lex("echo a | echo b").unwrap()).unwrap();
    let job = match Job::from_expr(&expr, &mut s, &path_env(), &mut os) {
        Run::Done(r) => r.unwrap(),
        Run::Child(_) => panic!("no process is created for builtins"),
    };
    assert!(!job.background);
}

#[test]
fn jobs_are_put_in_their_places() {
    let mut s = state();
    s.place_started(program(4194950, 4194950, WaitState::StillAlive));
    s.place_started(program(4194951, 4194951, WaitState::Exited(0)));
    assert_eq!(s.background_jobs.len(), 1);
    let stopped = program(4194952, 4194952, WaitState::Stopped(20));
    assert!(matches!(s.place_waited(stopped, Ok(WaitState::Stopped(20))), Waited::Settled(Ok(()))));
    assert_eq!(s.stopped_jobs.len(), 1);
    let ended = program(4194953, 4194953, WaitState::Exited(3));
    assert!(matches!(s.place_waited(ended, Ok(WaitState::Exited(3))), Waited::Settled(Ok(()))));
    let killed = program(4194954, 4194954, WaitState::Signaled(9));
    assert!(matches!(s.place_waited(killed, Ok(WaitState::Signaled(9))), Waited::Settled(Ok(()))));
    let lost = program(4194955, 4194955, WaitState::StillAlive);
    assert!(matches!(s.place_waited(lost, Err(Error::Wait)), Waited::Settled(Err(Error::Wait))));
    let alive = program(4194956, 4194956, WaitState::StillAlive);
    match s.place_waited(alive, Ok(WaitState::StillAlive)) {
        Waited::Running(job) => assert_eq!(job.status, Status::Started(4194956, 4194956, WaitState::StillAlive)),
        other => panic!("unexpected {:?}", other),
    }
    assert_eq!(s.stopped_jobs.len(), 1);
    assert_eq!(s.background_jobs.len(), 1);
    assert!(s.foreground_jobs.is_empty());
    s.place_reaped(program(4194957, 4194957, WaitState::Continued), Ok(WaitState::Continued));
    s.place_reaped(program(4194958, 4194958, WaitState::Stopped(19)), Ok(WaitState::Stopped(19)));
    s.place_reaped(program(4194959, 4194959, WaitState::Exited(0)), Ok(WaitState::Exited(0)));
    s.place_reaped(program(4194960, 4194960, WaitState::StillAlive), Err(Error::Wait));
    assert_eq!(s.background_jobs.len(), 2);
    assert_eq!(s.stopped_jobs.len(), 2);
    s.put_stopped(0, program(4194961, 4194961, WaitState::Stopped(20)));
    assert_eq!(s.stopped_jobs[0].job.status, Status::Started(4194961, 4194961, WaitState::Stopped(20)));
    assert_eq!(s.stopped_jobs.len(), 3);
}

#[test]
fn the_reaper_moves_a_job_on_record_as_stopped() {
    let mut s = state();
    s.push_background(program(4194970, 4194970, WaitState::StillAlive));
    s.push_background(program(4194971, 4194971, WaitState::StillAlive));
    s.background_jobs[0].job.status = Status::Started(4194970, 4194970, WaitState::Stopped(20));
    s.background_jobs[1].job.status = Status::Started(4194971, 4194971, WaitState::Exited(0));
    s.background_reaper();
    assert!(s.background_jobs.is_empty());
    assert_eq!(s.stopped_jobs.len(), 1);
    assert_eq!(s.stopped_jobs[0].job.status, Status::Started(4194970, 4194970, WaitState::Stopped(20)));
}

#[test]
fn a_built_job_is_queued_by_its_flag() {
    let mut s = state();
    let mut os = Os::new();
    let job = Job::builtin("echo".to_string(), vec!["x".to_string()], Vec::new(), false);
    assert!(matches!(s.enqueue(job, &mut os), Run::Done(Ok(()))));
    assert_eq!(s.foreground_jobs.len(), 1);
    assert!(s.host.calls.is_empty());
    let job = Job::builtin("echo".to_string(), vec!["y".to_string()], Vec::new(), true);
    assert!(matches!(s.enqueue(job, &mut os), Run::Done(Ok(()))));
    assert_eq!(s.foreground_jobs.len(), 1);
    assert!(s.background_jobs.is_empty());
    assert_eq!(s.host.calls, vec![("echo".to_string(), vec!["y".to_string()])]);
}

#[test]
fn the_builtins_of_the_host_are_named() {
    for name in ["cd", "echo", "echo-stderr", "exit", "set"] {
        assert!(is_host_builtin(name));
    }
    for name in ["fg", "bg", "jobs", "ls", "", "Echo"] {
        assert!(!is_host_builtin(name));
    }
    assert_eq!(echo_line(&["hello".to_string(), "world".to_string()]), "hello world");
    assert_eq!(echo_line(&[]), "");
    assert_eq!(echo_line(&["a b".to_string()]), "a b");
    assert_eq!(
        set_arguments(&["A".to_string(), "b c".to_string(), "d".to_string()]),
        Some(("A".to_string(), "b c".to_string()))
    );
    assert_eq!(set_arguments(&["A".to_string()]), None);
    assert_eq!(set_arguments(&["".to_string(), "b".to_string()]), None);
    assert_eq!(set_arguments(&["A=B".to_string(), "b".to_string()]), None);
    assert_eq!(set_arguments(&["A".to_string(), "b\0".to_string()]), None);
}

#[test]
fn a_job_is_got_ready_for_the_foreground() {
    let mut s = state();
    let mut os = Os::new();
    let ended = program(4194980, 4194980, WaitState::Exited(0));
    assert!(matches!(s.prepare(ended, &mut os), Run::Done(Prepared::Settled(Ok(())))));
    assert_eq!(s.current_job_pid, Some(4194980));
    assert!(s.stopped_jobs.is_empty());
    let builtin = Job::builtin("echo".to_string(), vec!["x".to_string()], Vec::new(), false);
    assert!(matches!(s.prepare(builtin, &mut os), Run::Done(Prepared::Settled(Ok(())))));
    assert_eq!(s.host.calls, vec![("echo".to_string(), vec!["x".to_string()])]);
    let stopped = program(4194981, 4194981, WaitState::Stopped(20));
    assert!(matches!(s.prepare(stopped, &mut os), Run::Done(Prepared::Settled(Err(Error::Wait)))));
    assert_eq!(s.stopped_jobs.len(), 1);
    let running = program(4194982, 4194982, WaitState::StillAlive);
    match s.prepare(running, &mut os) {
        Run::Done(Prepared::Wait(job)) => {
            assert_eq!(job.status, Status::Started(4194982, 4194982, WaitState::StillAlive))
        }
        other => panic!("unexpected {:?}", other),
    }
    assert_eq!(s.current_job_pid, Some(4194982));
    assert!(s.foreground_jobs.is_empty());
    assert!(s.background_jobs.is_empty());
    assert_eq!(os.held_count(), 0);
}

#[test]
fn a_job_can_be_put_at_the_head_of_the_queue() {
    let mut s = state();
    s.push_foreground(Job::builtin("echo".to_string(), vec!["two".to_string()], Vec::new(), false));
    s.push_foreground_first(Job::builtin("echo".to_string(), vec!["one".to_string()], Vec::new(), false));
    assert_eq!(s.foreground_jobs.len(), 2);
    assert_eq!(describe(&s.foreground_jobs[0].job), "echo one");
    assert_eq!(s.foreground_jobs[0].job.get_status(), Status::NotStarted);
}
