use jobshell::readline::display::{Column, DisplayString, Row};
use jobshell::readline::terminal_buffer::TerminalBuffer;
use jobshell::readline::{CursorManager, CursorMove, Readline};
use jobshell::shell::{LineOutcome, Shell};
use jobshell::state::jobs::builder::Environment;
use jobshell::state::jobs::{BuiltinHandler, Error, Run};
use jobshell::state::ShellState;
use jobshell::syntax::lexer::LexError;
use jobshell::sys::Os;

struct Echo {
    said: Vec<Vec<String>>,
}

impl BuiltinHandler for Echo {
    fn handle_builtin(&mut self, name: &str, args: &[String]) -> i8 {
        if name == "echo" {
            self.said.push(args.to_vec());
        }
        0
    }

    fn is_builtin(&mut self, name: &str) -> bool {
        name == "echo"
    }
}

fn run(state: &mut ShellState<Echo>, line: &str) -> LineOutcome {
    let env = Environment { vars: vec![("PATH".to_string(), "/nowhere-at-all".to_string())] };
    let mut os = Os::new();
    let outcome = match Shell::run_line(state, line, &env, &mut os) {
        Run::Done(outcome) => outcome,
        Run::Child(_) => panic!("no process is created for builtins"),
    };
    assert_eq!(os.held_count(), 0);
    outcome
}

fn row(text: &str, cursor: Option<usize>) -> Row {
    let mut left = DisplayString::from_text(text);
    left.cursor = cursor;
    Row { columns: vec![Column { left, center: DisplayString::new(), right: DisplayString::new() }] }
}

#[test]
fn trim_takes_the_white_space_at_the_ends() {
    assert_eq!(Shell::trim("  echo  hi \t\n"), "echo  hi");
    assert_eq!(Shell::trim("echo"), "echo");
    assert_eq!(Shell::trim(" \t "), "");
    assert_eq!(Shell::trim(""), "");
    assert_eq!(Shell::trim("\u{2003}a b\u{a0}"), "a b");
    assert_eq!(Shell::trim("  x"), "  x".trim());
}

#[test]
fn a_line_runs_to_its_end() {
    let mut state = ShellState::new(Echo { said: Vec::new() });
    assert!(matches!(run(&mut state, "  echo hello world\n"), LineOutcome::Ran));
    assert_eq!(state.host.said, vec![vec!["hello world".to_string()]]);
    assert!(state.foreground_jobs.is_empty());
    assert_eq!(state.current_job_pid, None);
}

#[test]
fn a_line_that_is_no_command_changes_nothing() {
    let mut state = ShellState::new(Echo { said: Vec::new() });
    assert!(matches!(run(&mut state, " echo ${A "), LineOutcome::LexFailed(LexError::Incomplete(_))));
    assert!(matches!(run(&mut state, " echo $x "), LineOutcome::LexFailed(LexError::Invalid(5))));
    assert!(matches!(
        run(&mut state, "echo a | "),
        LineOutcome::ParseFailed(jobshell::syntax::parser::Error::PipeConstruction)
    ));
    assert!(matches!(
        run(&mut state, "> out"),
        LineOutcome::ParseFailed(jobshell::syntax::parser::Error::ExpectedCommandName)
    ));
    match run(&mut state, "no-such-program-anywhere x") {
        LineOutcome::BuildFailed(Error::CommandNotFound(name)) => assert_eq!(name, "no-such-program-anywhere"),
        other => panic!("unexpected outcome {:?}", other),
    }
    assert!(state.host.said.is_empty());
    assert!(state.foreground_jobs.is_empty());
    assert!(state.background_jobs.is_empty());
    assert!(state.stopped_jobs.is_empty());
}

#[test]
fn cursor_moves_are_written_as_control_sequences() {
    let mut out = String::new();
    CursorMove { left: 3, right: 0, up: 0, down: 12 }.write_to(&mut out);
    assert_eq!(out, "\x1b[3D\x1b[12B");
    assert_eq!(out, format!("{}{}", termion::cursor::Left(3), termion::cursor::Down(12)));
    let mut out = String::new();
    CursorMove { left: 0, right: 7, up: 2, down: 0 }.write_to(&mut out);
    assert_eq!(out, format!("{}{}", termion::cursor::Right(7), termion::cursor::Up(2)));
    let mut out = String::from("x");
    CursorMove { left: 0, right: 0, up: 0, down: 0 }.write_to(&mut out);
    assert_eq!(out, "x");
}

#[test]
fn a_frame_is_composed_around_the_lines() {
    let mut cursor = CursorManager::new();
    cursor.move_to(4, 2);
    let mut screen = TerminalBuffer::new();
    let rows = vec![row("$ ls", Some(4)), row("more", None)];
    assert!(Readline::can_draw(&rows, &screen));
    let text = Readline::compose(&rows, &mut cursor, &mut screen, 10).expect("the rows fit");
    let lines = screen.last_rendered.clone();
    assert_eq!(lines.len(), 2);
    assert!(lines[0].contains("$ ls"));
    let hide = format!("{}", termion::cursor::Hide);
    let show = format!("{}", termion::cursor::Show);
    assert_eq!(hide, "\x1b[?25l");
    assert_eq!(show, "\x1b[?25h");
    assert_eq!(
        text,
        format!(
            "{hide}\x1b[4D\x1b[2A\x1b[2K{}\r\n\x1b[2K{}\r\n\x1b[2A\x1b[4C{show}",
            lines[0],
            lines[1],
            hide = hide,
            show = show
        )
    );
    assert_eq!(cursor.position(), (4, 0));
    assert!(!cursor.is_hidden());
    assert!(screen.buffer.is_empty());
    assert_eq!(screen.terminal_width, 10);
    let rows = vec![row("$ ls", None), row("more", Some(1))];
    let text = Readline::compose(&rows, &mut cursor, &mut screen, 10).expect("the rows fit");
    assert_eq!(text, format!("{hide}\x1b[4D\r\n\r\n\x1b[2A\x1b[1C\x1b[1B{show}", hide = hide, show = show));
    assert_eq!(cursor.position(), (1, 1));
    let rows = vec![row("$ ls", None)];
    let text = Readline::compose(&rows, &mut cursor, &mut screen, 10).expect("the rows fit");
    assert_eq!(text, format!("{hide}\x1b[1D\x1b[1A\r\n\x1b[1A{hide}", hide = hide));
    assert_eq!(cursor.position(), (0, 0));
    assert!(cursor.is_hidden());
}

#[test]
fn rows_that_cannot_be_drawn_give_no_frame() {
    let mut cursor = CursorManager::new();
    cursor.move_to(1, 1);
    let mut screen = TerminalBuffer::new();
    let wide = vec![row("0123456789", None)];
    assert!(Readline::compose(&wide, &mut cursor, &mut screen, 5).is_none());
    assert_eq!(screen.terminal_width, 5);
    assert!(screen.buffer.is_empty());
    assert_eq!(cursor.position(), (1, 1));
    let twice = vec![row("a", Some(0)), row("b", Some(1))];
    assert!(!Readline::can_draw(&twice, &screen));
    assert!(Readline::compose(&twice, &mut cursor, &mut screen, 5).is_none());
    assert!(Readline::compose(&[], &mut cursor, &mut screen, 5).is_some());
}

#[test]
fn the_reader_draws_what_the_editor_shows() {
    let record = jobshell::history::History::new(None);
    let completer = jobshell::completion::Completer::new(vec![
        jobshell::completion::engines::user_completion::UserCompletion::new("name"),
    ]);
    let mut editor = jobshell::readline::editor::Editor::new(completer, &record);
    editor.handle_input(jobshell::readline::Key::Char('l'));
    editor.handle_input(jobshell::readline::Key::Char('s'));
    let mut cursor = CursorManager::new();
    let mut screen = TerminalBuffer::new();
    let reader = Readline::new();
    let text = reader.render(&mut editor, &mut cursor, &mut screen, 40).expect("the line fits");
    assert_eq!(screen.last_rendered.len(), 1);
    assert!(screen.last_rendered[0].contains("$ prompt "));
    assert!(screen.last_rendered[0].contains("ls"));
    assert!(text.starts_with("\x1b[?25l\x1b[2K"));
    assert!(text.ends_with("\r\n\x1b[1A\x1b[11C\x1b[?25h"));
    assert_eq!(cursor.position(), (11, 0));
    assert!(reader.render(&mut editor, &mut cursor, &mut screen, 4).is_none());
}

#[test]
fn a_line_is_taken_in_without_being_run() {
    let mut state = ShellState::new(Echo { said: Vec::new() });
    let env = Environment { vars: vec![("PATH".to_string(), "/nowhere-at-all".to_string())] };
    let mut os = Os::new();
    assert!(matches!(Shell::queue_line(&mut state, " echo one ", &env, &mut os), Run::Done(Ok(()))));
    assert_eq!(state.foreground_jobs.len(), 1);
    assert!(state.host.said.is_empty());
    assert!(matches!(
        Shell::queue_line(&mut state, "echo \"\"", &env, &mut os),
        Run::Done(Err(LineOutcome::LexFailed(LexError::Invalid(5))))
    ));
    assert!(matches!(
        Shell::queue_line(&mut state, "| x", &env, &mut os),
        Run::Done(Err(LineOutcome::ParseFailed(_)))
    ));
    assert!(matches!(
        Shell::queue_line(&mut state, "nothing-of-that-name", &env, &mut os),
        Run::Done(Err(LineOutcome::BuildFailed(Error::CommandNotFound(_))))
    ));
    assert_eq!(state.foreground_jobs.len(), 1);
    assert_eq!(os.held_count(), 0);
}
