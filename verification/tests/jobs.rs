use jobshell::state::jobs::run::{builtin_status, capture_ready, captured_text, started, take_chunk, ReadStep};
use jobshell::sys::ForkOutcome;
use jobshell::state::jobs::builder::{
    is_regular_mode, candidate_path, choose_executable, expand_literal, glob_free, join_components, literal_arguments,
    resolve_executable, set_option, Environment,
};
use jobshell::state::jobs::{
    BuiltinHandler, Configuration, Error, FdOption, Job, Run, Status, WaitState,
};
use jobshell::syntax::lexer::lex;
use jobshell::syntax::parser::parse;
use jobshell::syntax::tokens::StringLiteralComponent;
use jobshell::sys::Os;

/// A handler that knows `echo`, `true` and `false`; `echo` writes its
/// arguments to descriptor 1.
struct Recorder {
    calls: Vec<(String, Vec<String>)>,
}

impl Recorder {
    fn new() -> Recorder {
        Recorder { calls: Vec::new() }
    }
}

impl BuiltinHandler for Recorder {
    fn handle_builtin(&mut self, name: &str, args: &[String]) -> i8 {
        self.calls.push((name.to_string(), args.to_vec()));
        match name {
            "echo" => {
                let line = format!("{}\n", args.join(" "));
                let _ = nix::unistd::write(1, line.as_bytes());
                0
            }
            "true" => 0,
            "false" => 1,
            _ => -1,
        }
    }

    fn is_builtin(&mut self, name: &str) -> bool {
        matches!(name, "echo" | "true" | "false")
    }
}

fn env(pairs: &[(&str, &str)]) -> Environment {
    Environment { vars: pairs.iter().map(|(k, v)| (k.to_string(), v.to_string())).collect() }
}

fn build(line: &str, handler: &mut Recorder, env: &Environment, os: &mut Os) -> Result<Job, Error> {
    let tokens = lex(line).unwrap();
    let expr = parse(&tokens).unwrap();
    match Job::from_expr(&expr, handler, env, os) {
        Run::Done(r) => r,
        Run::Child(_) => panic!("no process is created for builtins"),
    }
}

fn read_file(path: &str) -> String {
    let fd = nix::fcntl::open(path, nix::fcntl::OFlag::O_RDONLY, nix::sys::stat::Mode::empty()).unwrap();
    let mut all = Vec::new();
    let mut buf = [0u8; 256];
    loop {
        let n = nix::unistd::read(fd, &mut buf).unwrap();
        if n == 0 {
            break;
        }
        all.extend_from_slice(&buf[..n]);
    }
    nix::unistd::close(fd).unwrap();
    String::from_utf8(all).unwrap()
}

fn scratch(name: &str) -> String {
    format!("/tmp/jobshell-test-{}-{}", nix::unistd::getpid(), name)
}

#[test]
fn echo_hello_world_is_a_builtin_job_that_exits_with_zero() {
    let mut handler = Recorder::new();
    let mut os = Os::new();
    let path = scratch("echo");
    let line = format!("echo hello world > {}", path);
    let mut job = build(&line, &mut handler, &env(&[]), &mut os).unwrap();
    match &job.configuration {
        Configuration::Builtin(name, args, options) => {
            assert_eq!(name, "echo");
            assert_eq!(args, &vec!["hello".to_string(), "world".to_string()]);
            assert_eq!(options.len(), 1);
        }
        other => panic!("not a builtin: {:?}", other),
    }
    assert_eq!(job.status, Status::NotStarted);
    assert!(!job.background);
    let status = match job.run(&mut handler, &mut os) {
        Run::Done(r) => r.unwrap(),
        Run::Child(_) => panic!("no process is created for builtins"),
    };
    match status {
        Status::Started(pid, _, WaitState::Exited(code)) => {
            assert_eq!(pid, nix::unistd::getpid().as_raw());
            assert_eq!(code, 0);
        }
        other => panic!("unexpected status {:?}", other),
    }
    assert_eq!(job.status, status);
    assert_eq!(read_file(&path), "hello world\n");
    assert_eq!(os.held_count(), 0);
    nix::unistd::unlink(path.as_str()).unwrap();
}

#[test]
fn builtin_exit_code_is_the_handlers() {
    let mut handler = Recorder::new();
    let mut os = Os::new();
    let mut job = build("false", &mut handler, &env(&[]), &mut os).unwrap();
    match job.run(&mut handler, &mut os) {
        Run::Done(Ok(Status::Started(_, _, WaitState::Exited(code)))) => assert_eq!(code, 1),
        other => panic!("unexpected {:?}", other),
    }
}

#[test]
fn builtin_is_not_called_when_a_redirection_fails() {
    let mut handler = Recorder::new();
    let mut os = Os::new();
    let mut job = build("echo hi < /nonexistent/dir/file", &mut handler, &env(&[]), &mut os).unwrap();
    match job.run(&mut handler, &mut os) {
        Run::Done(Ok(Status::Started(_, _, WaitState::Exited(code)))) => assert_eq!(code, -1),
        other => panic!("unexpected {:?}", other),
    }
    assert!(handler.calls.is_empty());
    assert_eq!(os.held_count(), 0);
}

#[test]
fn append_adds_to_the_end_and_overwrite_starts_anew() {
    let mut handler = Recorder::new();
    let mut os = Os::new();
    let path = scratch("append");
    for line in [format!("echo one > {}", path), format!("echo two >> {}", path)] {
        let mut job = build(&line, &mut handler, &env(&[]), &mut os).unwrap();
        assert!(matches!(job.run(&mut handler, &mut os), Run::Done(Ok(_))));
    }
    assert_eq!(read_file(&path), "one\ntwo\n");
    let mut job = build(&format!("echo three > {}", path), &mut handler, &env(&[]), &mut os).unwrap();
    assert!(matches!(job.run(&mut handler, &mut os), Run::Done(Ok(_))));
    assert_eq!(read_file(&path), "three\n");
    assert_eq!(os.held_count(), 0);
    nix::unistd::unlink(path.as_str()).unwrap();
}

#[test]
fn subshell_output_becomes_one_argument() {
    let mut handler = Recorder::new();
    let mut os = Os::new();
    let path = scratch("nested");
    let line = format!("echo `echo nested` > {}", path);
    let mut job = build(&line, &mut handler, &env(&[]), &mut os).unwrap();
    match &job.configuration {
        Configuration::Builtin(_, args, _) => assert_eq!(args, &vec!["nested".to_string()]),
        other => panic!("not a builtin: {:?}", other),
    }
    assert!(matches!(job.run(&mut handler, &mut os), Run::Done(Ok(_))));
    assert_eq!(read_file(&path), "nested\n");
    assert_eq!(os.held_count(), 0);
    nix::unistd::unlink(path.as_str()).unwrap();
}

#[test]
fn subshell_output_has_its_whitespace_collapsed() {
    let mut handler = Recorder::new();
    let mut os = Os::new();
    let job = build("true `echo \"  a   b \"`", &mut handler, &env(&[]), &mut os).unwrap();
    match &job.configuration {
        Configuration::Builtin(_, args, _) => assert_eq!(args, &vec!["a b".to_string()]),
        other => panic!("not a builtin: {:?}", other),
    }
}

#[test]
fn failing_subshell_stops_the_build() {
    let mut handler = Recorder::new();
    let mut os = Os::new();
    let r = build("echo `no-such-command-anywhere`", &mut handler, &env(&[("PATH", "/nonexistent")]), &mut os);
    match r {
        Err(Error::Subshell(inner)) => assert!(matches!(*inner, Error::CommandNotFound(_))),
        other => panic!("unexpected {:?}", other),
    }
    assert_eq!(os.held_count(), 0);
}

#[test]
fn pipeline_of_builtins_reports_the_right_side() {
    let mut handler = Recorder::new();
    let mut os = Os::new();
    let mut job = build("true | false", &mut handler, &env(&[]), &mut os).unwrap();
    assert!(matches!(job.configuration, Configuration::Pipeline(_, _)));
    assert!(!job.background);
    let status = match job.run(&mut handler, &mut os) {
        Run::Done(r) => r.unwrap(),
        Run::Child(_) => panic!("no process is created for builtins"),
    };
    assert!(matches!(status, Status::Started(_, _, WaitState::Exited(1))));
    match &job.configuration {
        Configuration::Pipeline(left, right) => {
            assert!(matches!(left.status, Status::Started(_, _, WaitState::Exited(0))));
            assert_eq!(right.status, status);
        }
        _ => unreachable!(),
    }
    assert_eq!(os.held_count(), 0);
}

#[test]
fn pipeline_is_built_from_both_sides() {
    let mut handler = Recorder::new();
    let mut os = Os::new();
    let job = build("sh -c ls | sh -c wc", &mut handler, &env(&[("PATH", "/bin:/usr/bin")]), &mut os).unwrap();
    match &job.configuration {
        Configuration::Pipeline(left, right) => {
            for side in [left, right] {
                match &side.configuration {
                    Configuration::External(path, args, _) => {
                        assert!(path.ends_with("sh") || path.ends_with("dash") || path.ends_with("bash"));
                        assert_eq!(args.len(), 2);
                    }
                    other => panic!("not a program: {:?}", other),
                }
            }
        }
        other => panic!("not a pipeline: {:?}", other),
    }
}

#[test]
fn pipeline_errors_name_the_side() {
    let mut handler = Recorder::new();
    let mut os = Os::new();
    let e = env(&[("PATH", "/nonexistent")]);
    assert!(matches!(build("nothing-here | true", &mut handler, &e, &mut os), Err(Error::LeftPipe(_))));
    assert!(matches!(build("true | nothing-here", &mut handler, &e, &mut os), Err(Error::RightPipe(_))));
}

#[test]
fn background_flag_and_redirections_are_noted() {
    let mut handler = Recorder::new();
    let mut os = Os::new();
    let job = build("sh -c true > /tmp/out 2>&1 < /dev/null &", &mut handler, &env(&[("PATH", "/bin:/usr/bin")]), &mut os).unwrap();
    assert!(job.background);
    match &job.configuration {
        Configuration::External(_, args, options) => {
            assert_eq!(args, &vec!["-c".to_string(), "true".to_string()]);
            assert_eq!(options.len(), 2);
            assert_eq!(options[0].0, 1);
            assert!(matches!(&options[0].1, FdOption::Input(p) if p == "/dev/null"));
            assert_eq!(options[1].0, 2);
            assert!(matches!(&options[1].1, FdOption::Fd(1)));
        }
        other => panic!("not a program: {:?}", other),
    }
}

#[test]
fn later_redirection_of_a_descriptor_replaces_the_earlier() {
    let mut options: Vec<(i32, FdOption)> = Vec::new();
    set_option(&mut options, 1, FdOption::Overwrite("a".to_string()));
    set_option(&mut options, 2, FdOption::Fd(1));
    set_option(&mut options, 1, FdOption::Append("b".to_string()));
    assert_eq!(options.len(), 2);
    assert!(matches!(&options[0], (1, FdOption::Append(p)) if p == "b"));
    assert!(matches!(&options[1], (2, FdOption::Fd(1))));
}

#[test]
fn command_not_found_and_corrupt_path() {
    let mut handler = Recorder::new();
    let mut os = Os::new();
    match build("surely-not-a-command", &mut handler, &env(&[("PATH", "/bin")]), &mut os) {
        Err(Error::CommandNotFound(name)) => assert_eq!(name, "surely-not-a-command"),
        other => panic!("unexpected {:?}", other),
    }
    assert!(matches!(build("ls", &mut handler, &env(&[]), &mut os), Err(Error::CorruptPath)));
}

#[test]
fn variables_are_expanded_when_the_job_is_built() {
    let mut handler = Recorder::new();
    let mut os = Os::new();
    let e = env(&[("WHO", "world"), ("HOME", "/home/me")]);
    let job = build("true hello-${WHO}! ~/x ${MISSING}y ${WHO}", &mut handler, &e, &mut os).unwrap();
    match &job.configuration {
        Configuration::Builtin(_, args, _) => {
            assert_eq!(
                args,
                &vec![
                    "hello-world!".to_string(),
                    "/home/me/x".to_string(),
                    "y".to_string(),
                    "world".to_string()
                ]
            );
        }
        other => panic!("not a builtin: {:?}", other),
    }
}

#[test]
fn a_variable_ends_at_the_blank_after_it() {
    let mut handler = Recorder::new();
    let mut os = Os::new();
    let e = env(&[("WHO", "world")]);
    let job = build("true ${WHO} and more", &mut handler, &e, &mut os).unwrap();
    match &job.configuration {
        Configuration::Builtin(_, args, _) => {
            assert_eq!(args, &vec!["world".to_string(), "and".to_string(), "more".to_string()]);
        }
        other => panic!("not a builtin: {:?}", other),
    }
}

#[test]
fn join_components_uses_the_first_value_of_a_name() {
    let e = env(&[("A", "1"), ("A", "2")]);
    let parts = vec![
        StringLiteralComponent::Literal("x".to_string()),
        StringLiteralComponent::EnvVar("A".to_string()),
        StringLiteralComponent::EnvVar("B".to_string()),
        StringLiteralComponent::Literal("z".to_string()),
    ];
    assert_eq!(join_components(&parts, &e), "x1z");
}

#[test]
fn glob_free_literal_is_exactly_one_argument() {
    assert!(glob_free("plain/path-1.txt"));
    assert!(!glob_free("*.rs"));
    assert!(!glob_free("a?"));
    assert!(!glob_free("[ab]"));
    assert_eq!(literal_arguments("no such file anywhere".to_string()), vec!["no such file anywhere".to_string()]);
    assert_eq!(literal_arguments("/tmp".to_string()), vec!["/tmp".to_string()]);
}

#[test]
fn glob_pattern_expands_to_what_it_matches_or_stays() {
    let dir = scratch("glob");
    nix::unistd::mkdir(dir.as_str(), nix::sys::stat::Mode::S_IRWXU).unwrap();
    for name in ["a.txt", "b.txt"] {
        let fd = nix::fcntl::open(
            format!("{}/{}", dir, name).as_str(),
            nix::fcntl::OFlag::O_CREAT | nix::fcntl::OFlag::O_WRONLY,
            nix::sys::stat::Mode::S_IRWXU,
        )
        .unwrap();
        nix::unistd::close(fd).unwrap();
    }
    let found = literal_arguments(format!("{}/*.txt", dir));
    assert_eq!(found, vec![format!("{}/a.txt", dir), format!("{}/b.txt", dir)]);
    let none = literal_arguments(format!("{}/*.md", dir));
    assert_eq!(none, vec![format!("{}/*.md", dir)]);
    for name in ["a.txt", "b.txt"] {
        nix::unistd::unlink(format!("{}/{}", dir, name).as_str()).unwrap();
    }
    let _ = nix::unistd::unlinkat(None, dir.as_str(), nix::unistd::UnlinkatFlags::RemoveDir);
}

#[test]
fn expand_literal_keeps_the_word_unless_every_match_is_readable() {
    let word = || "w*".to_string();
    assert_eq!(expand_literal(word(), None), vec!["w*".to_string()]);
    assert_eq!(expand_literal(word(), Some(vec![])), vec!["w*".to_string()]);
    assert_eq!(
        expand_literal(word(), Some(vec![Some("wa".to_string()), None])),
        vec!["w*".to_string()]
    );
    assert_eq!(
        expand_literal(word(), Some(vec![Some("wa".to_string()), Some("wb".to_string())])),
        vec!["wa".to_string(), "wb".to_string()]
    );
}

#[test]
fn candidate_path_joins_directory_and_name() {
    assert_eq!(candidate_path("/bin", "ls"), "/bin/ls");
    assert_eq!(candidate_path("/bin/", "ls"), "/bin/ls");
    assert_eq!(candidate_path("", "ls"), "ls");
    assert_eq!(candidate_path("/bin", "/usr/bin/ls"), "/usr/bin/ls");
}

#[test]
fn choose_executable_prefers_what_the_name_resolves_to() {
    let candidates = vec![("/a/x".to_string(), false), ("/b/x".to_string(), true), ("/c/x".to_string(), true)];
    assert_eq!(choose_executable("x", Some(("/cwd/x".to_string(), true)), &candidates).unwrap(), "/cwd/x");
    assert_eq!(choose_executable("x", Some(("/cwd/x".to_string(), false)), &candidates).unwrap(), "/b/x");
    assert_eq!(choose_executable("x", None, &candidates).unwrap(), "/b/x");
    assert!(matches!(choose_executable("d/x", None, &candidates), Err(Error::CommandNotFound(n)) if n == "d/x"));
    assert!(matches!(choose_executable("x", None, &[]), Err(Error::CommandNotFound(n)) if n == "x"));
}

#[test]
fn resolve_executable_searches_the_path_in_order() {
    let e = env(&[("PATH", "/nonexistent:/bin:/usr/bin")]);
    let found = resolve_executable("sh", &e).unwrap();
    assert!(found == "/bin/sh" || found == "/usr/bin/sh");
    assert!(matches!(resolve_executable("sh", &env(&[])), Err(Error::CorruptPath)));
}

#[test]
fn program_with_a_nul_in_an_argument_is_not_started() {
    let mut handler = Recorder::new();
    let mut os = Os::new();
    let mut job = Job::external("/bin/sh".to_string(), vec!["a\0b".to_string()], Vec::new(), false);
    assert!(matches!(job.run(&mut handler, &mut os), Run::Done(Err(Error::StringEncoding))));
    assert_eq!(job.status, Status::NotStarted);
    assert_eq!(os.held_count(), 0);
}

#[test]
fn waiting_reports_what_is_on_record() {
    let mut job = Job::builtin("true".to_string(), Vec::new(), Vec::new(), false);
    assert!(matches!(job.wait_without_restore(jobshell::sys::WaitHow::Ended), Err(Error::Wait)));
    job.status = Status::Started(1, 1, WaitState::Exited(3));
    assert_eq!(job.wait_without_restore(jobshell::sys::WaitHow::Ended).unwrap(), WaitState::Exited(3));
    let mut program = Job::external("/bin/true".to_string(), Vec::new(), Vec::new(), false);
    assert!(matches!(program.wait_without_restore(jobshell::sys::WaitHow::Ended), Err(Error::Wait)));
    program.status = Status::Started(4194999, 4194999, WaitState::Stopped(20));
    assert_eq!(program.wait_without_restore(jobshell::sys::WaitHow::Ended).unwrap(), WaitState::Stopped(20));
    assert_eq!(program.status, Status::Started(4194999, 4194999, WaitState::Stopped(20)));
}

#[test]
fn continuing_leaves_a_job_that_is_not_stopped_alone() {
    let mut job = Job::external("/bin/true".to_string(), Vec::new(), Vec::new(), false);
    assert!(job.cont(true).is_ok());
    assert_eq!(job.status, Status::NotStarted);
    job.status = Status::Started(4194999, 4194999, WaitState::Exited(0));
    assert!(job.cont(true).is_ok());
    assert_eq!(job.status, Status::Started(4194999, 4194999, WaitState::Exited(0)));
}

#[test]
fn continuing_a_stopped_job_signals_its_group() {
    let own_group = nix::unistd::getpgrp().as_raw();
    let mut job = Job::external("/bin/true".to_string(), Vec::new(), Vec::new(), false);
    job.status = Status::Started(4194999, own_group, WaitState::Stopped(20));
    assert!(job.cont(true).is_ok());
    assert_eq!(job.status, Status::Started(4194999, own_group, WaitState::StillAlive));
    let mut gone = Job::external("/bin/true".to_string(), Vec::new(), Vec::new(), false);
    gone.status = Status::Started(4194999, 4194998, WaitState::Stopped(20));
    assert!(matches!(gone.cont(true), Err(Error::Wait)));
    assert_eq!(gone.status, Status::Started(4194999, 4194998, WaitState::Stopped(20)));
}

#[test]
fn live_pids_lists_programs_that_have_not_ended() {
    let mut a = Job::external("/bin/a".to_string(), Vec::new(), Vec::new(), false);
    a.status = Status::Started(4194901, 4194901, WaitState::StillAlive);
    let mut b = Job::external("/bin/b".to_string(), Vec::new(), Vec::new(), false);
    b.status = Status::Started(4194902, 4194901, WaitState::Exited(0));
    let mut c = Job::builtin("true".to_string(), Vec::new(), Vec::new(), false);
    c.status = Status::Started(4194903, 4194903, WaitState::StillAlive);
    let fresh_b = Job::external("/bin/b".to_string(), Vec::new(), Vec::new(), false);
    let fresh_c = Job::builtin("true".to_string(), Vec::new(), Vec::new(), false);
    let mut inner = Job::pipeline(fresh_b, fresh_c, false);
    if let Configuration::Pipeline(l, r) = &mut inner.configuration {
        l.status = b.status;
        r.status = c.status;
    }
    let fresh_a = Job::external("/bin/a".to_string(), Vec::new(), Vec::new(), false);
    let mut outer = Job::pipeline(fresh_a, inner, false);
    if let Configuration::Pipeline(l, _) = &mut outer.configuration {
        l.status = a.status;
    }
    assert_eq!(outer.live_pids(), vec![4194901]);
    assert_eq!(outer.finalise(), Vec::<i32>::new());
}

#[test]
fn a_job_leads_its_own_group_only() {
    let mut job = Job::external("/bin/true".to_string(), Vec::new(), Vec::new(), false);
    assert!(!job.leads(Some(7)));
    assert!(!job.leads(None));
    job.status = Status::Started(41, 40, WaitState::StillAlive);
    assert!(job.leads(Some(40)));
    assert!(!job.leads(Some(41)));
    assert!(!job.leads(None));
}

#[test]
fn a_mode_tells_a_regular_file() {
    assert!(is_regular_mode(Some(0o100644), 0o170000, 0o100000));
    assert!(is_regular_mode(Some(0o100000), 0o170000, 0o100000));
    assert!(!is_regular_mode(Some(0o040755), 0o170000, 0o100000));
    assert!(!is_regular_mode(Some(0o120777), 0o170000, 0o100000));
    assert!(!is_regular_mode(Some(0o644), 0o170000, 0o100000));
    assert!(!is_regular_mode(None, 0o170000, 0o100000));
}

#[test]
fn a_builtin_has_exited_with_the_handlers_code() {
    assert_eq!(builtin_status(7, Some(5), 3), Status::Started(7, 5, WaitState::Exited(3)));
    assert_eq!(builtin_status(7, None, -1), Status::Started(7, 7, WaitState::Exited(-1)));
}

#[test]
fn a_new_process_is_alive_in_its_group() {
    assert!(matches!(started(ForkOutcome::Failed, None), Some(Err(Error::Fork))));
    assert!(matches!(
        started(ForkOutcome::Parent(41), None),
        Some(Ok(Status::Started(41, 41, WaitState::StillAlive)))
    ));
    assert!(matches!(
        started(ForkOutcome::Parent(41), Some(40)),
        Some(Ok(Status::Started(41, 40, WaitState::StillAlive)))
    ));
    assert!(started(ForkOutcome::Child, Some(40)).is_none());
}

#[test]
fn a_job_is_assembled_from_what_was_found() {
    let job = Job::assemble(true, None, "echo".to_string(), vec!["x".to_string()], Vec::new(), true).unwrap();
    assert!(matches!(&job.configuration, Configuration::Builtin(name, args, _) if name == "echo" && args.len() == 1));
    assert!(job.background);
    let job = Job::assemble(false, Some(Ok("/bin/ls".to_string())), "ls".to_string(), Vec::new(), Vec::new(), false)
        .unwrap();
    assert!(matches!(&job.configuration, Configuration::External(path, _, _) if path == "/bin/ls"));
    assert!(matches!(
        Job::assemble(false, Some(Err(Error::CorruptPath)), "ls".to_string(), Vec::new(), Vec::new(), false),
        Err(Error::CorruptPath)
    ));
    assert!(matches!(
        Job::assemble(false, None, "ls".to_string(), Vec::new(), Vec::new(), false),
        Err(Error::CommandNotFound(name)) if name == "ls"
    ));
    let left = Job::builtin("a".to_string(), Vec::new(), Vec::new(), false);
    let right = Job::builtin("b".to_string(), Vec::new(), Vec::new(), true);
    let both = Job::piped(Ok(left), Ok(right)).unwrap();
    assert!(both.background);
    assert!(matches!(both.configuration, Configuration::Pipeline(_, _)));
    let left = Job::builtin("a".to_string(), Vec::new(), Vec::new(), false);
    assert!(matches!(Job::piped(Ok(left), Err(Error::CorruptPath)), Err(Error::RightPipe(_))));
    let right = Job::builtin("b".to_string(), Vec::new(), Vec::new(), false);
    assert!(matches!(Job::piped(Err(Error::CorruptPath), Ok(right)), Err(Error::LeftPipe(_))));
    match Job::piped(Err(Error::CommandNotFound("l".to_string())), Err(Error::CommandNotFound("r".to_string()))) {
        Err(Error::LeftPipe(inner)) => assert!(matches!(*inner, Error::CommandNotFound(name) if name == "l")),
        other => panic!("unexpected {:?}", other),
    }
}

#[test]
fn the_output_of_a_sub_shell_is_text_or_an_error() {
    assert!(capture_ready(Ok(WaitState::Exited(0)), true).is_ok());
    assert!(capture_ready(Ok(WaitState::Exited(1)), true).is_ok());
    assert!(matches!(capture_ready(Ok(WaitState::Exited(0)), false), Err(Error::Pipe)));
    assert!(matches!(capture_ready(Ok(WaitState::Signaled(9)), true), Err(Error::SubshellExecution)));
    assert!(matches!(capture_ready(Err(Error::Wait), true), Err(Error::SubshellExecution)));
    assert_eq!(captured_text(Some(b"a b\n".to_vec())).unwrap(), "a b\n");
    assert_eq!(captured_text(Some(Vec::new())).unwrap(), "");
    assert!(matches!(captured_text(Some(vec![0xff, 0x41])), Err(Error::Pipe)));
    assert!(matches!(captured_text(None), Err(Error::Pipe)));
}

#[test]
fn chunks_are_gathered_until_the_input_ends() {
    let mut all = vec![1u8, 2];
    assert_eq!(take_chunk(&mut all, Some(vec![3, 4])), ReadStep::More);
    assert_eq!(all, vec![1, 2, 3, 4]);
    assert_eq!(take_chunk(&mut all, Some(Vec::new())), ReadStep::Ended);
    assert_eq!(all, vec![1, 2, 3, 4]);
    assert_eq!(take_chunk(&mut all, None), ReadStep::Failed);
    assert_eq!(all, vec![1, 2, 3, 4]);
}
