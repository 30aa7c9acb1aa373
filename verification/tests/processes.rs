use jobshell::state::jobs::builder::Environment;
use jobshell::state::jobs::{BuiltinHandler, ChildImage, Configuration, Job, Run, Status, WaitState};
use jobshell::state::ShellState;
use jobshell::syntax::lexer::lex;
use jobshell::syntax::parser::parse;
use jobshell::sys::{Os, WaitHow};

/// A host without builtins of its own.
struct Bare {
    jobs_lines: Vec<String>,
}

impl BuiltinHandler for Bare {
    fn handle_builtin(&mut self, name: &str, args: &[String]) -> i8 {
        if name == "jobs" {
            self.jobs_lines = args.to_vec();
        }
        0
    }

    fn is_builtin(&mut self, _name: &str) -> bool {
        false
    }
}

fn environment() -> Environment {
    Environment { vars: vec![("PATH".to_string(), "/bin:/usr/bin".to_string())] }
}

/// Turns the process into the program of the image; a process that is
/// still there afterwards ends itself.
fn become_image(image: ChildImage) -> ! {
    if image.prepared {
        let mut words: Vec<Vec<u8>> = Vec::new();
        let mut path = image.path.clone().into_bytes();
        path.push(0);
        words.push(path);
        for arg in &image.args {
            let mut bytes = arg.clone().into_bytes();
            bytes.push(0);
            words.push(bytes);
        }
        let argv: Vec<&core::ffi::CStr> =
            words.iter().map(|w| core::ffi::CStr::from_bytes_with_nul(w).unwrap()).collect();
        let _ = nix::unistd::execvp(argv[0], &argv);
    }
    let _ = nix::sys::signal::kill(nix::unistd::getpid(), nix::sys::signal::Signal::SIGKILL);
    loop {}
}

fn done<T>(run: Run<T>) -> T {
    match run {
        Run::Done(value) => value,
        Run::Child(image) => become_image(image),
    }
}

fn build<B: BuiltinHandler>(line: &str, host: &mut B, os: &mut Os) -> Job {
    let expr = parse(&lex(line).unwrap()).unwrap();
    done(Job::from_expr(&expr, host, &environment(), os)).unwrap()
}

fn enqueue(state: &mut ShellState<Bare>, line: &str, os: &mut Os) {
    let expr = parse(&lex(line).unwrap()).unwrap();
    done(state.enqueue_job(&expr, &environment(), os)).unwrap();
}

fn read_file(path: &str) -> String {
    let fd = nix::fcntl::open(path, nix::fcntl::OFlag::O_RDONLY, nix::sys::stat::Mode::empty()).unwrap();
    let mut all = Vec::new();
    let mut buf = [0u8; 256];
    loop {
        let n = nix::unistd::read(fd, &mut buf).unwrap();
        if n == 0 {
            break;
        }
        all.extend_from_slice(&buf[..n]);
    }
    nix::unistd::close(fd).unwrap();
    String::from_utf8(all).unwrap()
}

fn touch(path: &str) {
    let fd = nix::fcntl::open(
        path,
        nix::fcntl::OFlag::O_WRONLY | nix::fcntl::OFlag::O_CREAT,
        nix::sys::stat::Mode::from_bits_truncate(0o644),
    )
    .unwrap();
    nix::unistd::close(fd).unwrap();
}

fn scratch(name: &str) -> String {
    format!("/tmp/jobshell-proc-{}-{}", nix::unistd::getpid(), name)
}

fn kill_and_reap(pid: i32) {
    let _ = nix::sys::signal::kill(nix::unistd::Pid::from_raw(pid), nix::sys::signal::Signal::SIGKILL);
    let _ = nix::sys::wait::waitpid(nix::unistd::Pid::from_raw(pid), None);
}

#[test]
fn a_program_that_fails_leaves_its_output_file_empty() {
    let mut host = Bare { jobs_lines: Vec::new() };
    let mut os = Os::new();
    let out = scratch("out");
    let line = format!("cat /nonexistent-jobshell-file > {} 2> /dev/null", out);
    let mut job = build(&line, &mut host, &mut os);
    assert!(matches!(job.configuration, Configuration::External(_, _, _)));
    let status = done(job.run(&mut host, &mut os)).unwrap();
    assert!(matches!(status, Status::Started(_, _, WaitState::StillAlive)));
    let state = job.wait(WaitHow::Changed, &mut os).unwrap();
    match state {
        WaitState::Exited(code) => assert_ne!(code, 0),
        other => panic!("unexpected state {:?}", other),
    }
    assert_eq!(read_file(&out), "");
    assert_eq!(os.held_count(), 0);
    nix::unistd::unlink(out.as_str()).unwrap();
}

#[test]
fn a_pipeline_of_programs_shares_one_group() {
    let mut host = Bare { jobs_lines: Vec::new() };
    let mut os = Os::new();
    let dir = scratch("dir");
    let _ = nix::unistd::mkdir(dir.as_str(), nix::sys::stat::Mode::from_bits_truncate(0o755));
    for name in ["a", "b", "c"] {
        touch(&format!("{}/{}", dir, name));
    }
    let out = scratch("count");
    let line = format!("ls {} | wc -l > {}", dir, out);
    let mut job = build(&line, &mut host, &mut os);
    assert!(matches!(job.configuration, Configuration::Pipeline(_, _)));
    done(job.run(&mut host, &mut os)).unwrap();
    match &job.configuration {
        Configuration::Pipeline(left, right) => match (left.status, right.status) {
            (Status::Started(left_pid, left_group, _), Status::Started(right_pid, right_group, _)) => {
                assert_eq!(left_group, right_group);
                assert_eq!(left_group, left_pid);
                assert_ne!(left_pid, right_pid);
                assert_ne!(left_group, nix::unistd::getpgrp().as_raw());
            }
            other => panic!("a side was not started: {:?}", other),
        },
        other => panic!("not a pipeline: {:?}", other),
    }
    let state = job.wait(WaitHow::Changed, &mut os).unwrap();
    assert_eq!(state, WaitState::Exited(0));
    assert_eq!(read_file(&out).trim(), "3");
    assert_eq!(os.held_count(), 0);
    for name in ["a", "b", "c"] {
        nix::unistd::unlink(format!("{}/{}", dir, name).as_str()).unwrap();
    }
    nix::unistd::unlinkat(None, dir.as_str(), nix::unistd::UnlinkatFlags::RemoveDir).unwrap();
    nix::unistd::unlink(out.as_str()).unwrap();
}

#[test]
fn a_background_program_runs_while_the_shell_goes_on() {
    let mut state = ShellState::new(Bare { jobs_lines: Vec::new() });
    let mut os = Os::new();
    enqueue(&mut state, "sleep 30 &", &mut os);
    assert!(state.foreground_jobs.is_empty());
    assert_eq!(state.background_jobs.len(), 1);
    let pid = match state.background_jobs[0].job.status {
        Status::Started(pid, _, WaitState::StillAlive) => pid,
        other => panic!("unexpected status {:?}", other),
    };
    assert_eq!(state.handle_builtin("jobs", &[]), 0);
    assert_eq!(state.host.jobs_lines.len(), 3);
    assert_eq!(state.host.jobs_lines[0], "background: ");
    assert!(state.host.jobs_lines[1].starts_with("  0: running /"));
    assert!(state.host.jobs_lines[1].ends_with("/sleep 30"));
    assert_eq!(state.host.jobs_lines[2], "stopped: ");
    assert_eq!(state.jobs(), state.host.jobs_lines);
    state.background_reaper();
    assert_eq!(state.background_jobs.len(), 1);
    assert!(matches!(state.background_jobs[0].job.status, Status::Started(_, _, WaitState::StillAlive)));
    assert_eq!(os.held_count(), 0);
    kill_and_reap(pid);
}

#[test]
fn a_stopped_program_is_resumed_and_brought_back() {
    let mut state = ShellState::new(Bare { jobs_lines: Vec::new() });
    let mut os = Os::new();
    let mut job = build("sleep 30", &mut state, &mut os);
    let (pid, group) = match done(job.run(&mut state, &mut os)).unwrap() {
        Status::Started(pid, group, WaitState::StillAlive) => (pid, group),
        other => panic!("unexpected status {:?}", other),
    };
    nix::sys::signal::killpg(nix::unistd::Pid::from_raw(group), nix::sys::signal::Signal::SIGTSTP).unwrap();
    let stopped = job.wait(WaitHow::Changed, &mut os).unwrap();
    assert_eq!(stopped, WaitState::Stopped(nix::sys::signal::Signal::SIGTSTP as i32));
    state.push_stopped(job);
    assert_eq!(state.stopped_jobs.len(), 1);
    assert_eq!(state.bg(None), 0);
    assert!(state.stopped_jobs.is_empty());
    assert_eq!(state.background_jobs.len(), 1);
    assert!(matches!(
        state.background_jobs[0].job.status,
        Status::Started(_, _, WaitState::StillAlive) | Status::Started(_, _, WaitState::Continued)
    ));
    assert_eq!(state.fg(None), 0);
    assert!(state.background_jobs.is_empty());
    assert_eq!(state.foreground_jobs.len(), 1);
    nix::sys::signal::killpg(nix::unistd::Pid::from_raw(group), nix::sys::signal::Signal::SIGINT).unwrap();
    done(state.run_foreground_jobs(&mut os)).unwrap();
    assert!(state.foreground_jobs.is_empty());
    assert!(state.background_jobs.is_empty());
    assert!(state.stopped_jobs.is_empty());
    assert_eq!(os.held_count(), 0);
    assert!(nix::sys::signal::kill(nix::unistd::Pid::from_raw(pid), None).is_err());
}

#[test]
fn the_reaper_keeps_running_jobs_in_their_order() {
    let mut state = ShellState::new(Bare { jobs_lines: Vec::new() });
    let mut os = Os::new();
    enqueue(&mut state, "sleep 30 &", &mut os);
    enqueue(&mut state, "sleep 31 &", &mut os);
    enqueue(&mut state, "sleep 32 &", &mut os);
    let pids: Vec<i32> = state
        .background_jobs
        .iter()
        .map(|slot| match slot.job.status {
            Status::Started(pid, _, _) => pid,
            other => panic!("unexpected status {:?}", other),
        })
        .collect();
    assert_eq!(pids.len(), 3);
    kill_and_reap(pids[1]);
    state.background_reaper();
    let left: Vec<i32> = state
        .background_jobs
        .iter()
        .map(|slot| match slot.job.status {
            Status::Started(pid, _, WaitState::StillAlive) => pid,
            other => panic!("unexpected status {:?}", other),
        })
        .collect();
    assert_eq!(left, vec![pids[0], pids[2]]);
    assert!(state.stopped_jobs.is_empty());
    state.background_reaper();
    assert_eq!(state.background_jobs.len(), 2);
    kill_and_reap(pids[0]);
    kill_and_reap(pids[2]);
}

#[test]
fn a_pipeline_in_the_background_is_one_background_job() {
    let mut state = ShellState::new(Bare { jobs_lines: Vec::new() });
    let mut os = Os::new();
    enqueue(&mut state, "sleep 30 | sleep 31 &", &mut os);
    assert!(state.foreground_jobs.is_empty());
    assert_eq!(state.background_jobs.len(), 1);
    let job = &state.background_jobs[0].job;
    assert!(job.background);
    let pids = match &job.configuration {
        Configuration::Pipeline(left, right) => match (left.status, right.status) {
            (
                Status::Started(left_pid, left_group, WaitState::StillAlive),
                Status::Started(right_pid, right_group, WaitState::StillAlive),
            ) => {
                assert_eq!(left_group, left_pid);
                assert_eq!(right_group, left_pid);
                assert_eq!(job.status, right.status);
                vec![left_pid, right_pid]
            }
            other => panic!("a side was not started: {:?}", other),
        },
        other => panic!("not a pipeline: {:?}", other),
    };
    assert_eq!(os.held_count(), 0);
    for pid in pids {
        kill_and_reap(pid);
    }
}
