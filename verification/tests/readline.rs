use jobshell::completion::engines::user_completion::UserCompletion;
use jobshell::completion::{Completer, Engine};
use jobshell::history::{Entry, History};
use jobshell::readline::display::color::{Base, Mode};
use jobshell::readline::display::{
    capped_sum, Color, Column, DisplayString, DisplayStringComponent, Row, Style, BOLD, ITALIC, NORMAL,
};
use jobshell::readline::editor::Editor as PromptEditor;
use jobshell::readline::line_editor::liner::buffer::Buffer;
use jobshell::readline::line_editor::liner::editor::{get_buffer_words, CursorPosition, Editor};
use jobshell::readline::line_editor::liner::event::{Event, EventKind};
use jobshell::readline::line_editor::liner::history::HistoryManager;
use jobshell::readline::line_editor::liner::keymap::emacs::{emacs_move_word, Emacs, EmacsMoveDir};
use jobshell::readline::line_editor::liner::keymap::KeyMap;
use jobshell::readline::line_editor::LineEditor;
use jobshell::readline::{CursorManager, CursorMove, Key, Readline, ReadlineEvent};

struct Many;

impl Engine for Many {
    fn completions(&mut self, start: &str, _line: &str) -> Option<Vec<(String, String)>> {
        match start {
            "" => None,
            "on" => Some(vec![("one".to_string(), String::new())]),
            _ => Some(vec![("two".to_string(), String::new()), ("three".to_string(), String::new())]),
        }
    }

    fn category(&self) -> String {
        "Words".to_string()
    }
}

fn history(lines: &[&str]) -> History {
    History::new(Some(
        lines.iter().enumerate().map(|(i, l)| Entry { timestamp: i as i64, command: l.to_string() }).collect(),
    ))
}

fn editor(line: &str, lines: &[&str]) -> Editor<Many> {
    Editor::new_with_init_buffer(Buffer::from_str(line), Some(&history(lines)), Some(Completer::new(vec![Many])))
}

fn text(ed: &Editor<Many>) -> String {
    ed.current_buffer().to_text()
}

#[test]
fn buffer_edits_can_be_undone_and_redone() {
    let mut b = Buffer::new();
    assert!(b.is_empty());
    b.insert(0, &['a', 'c']);
    b.insert(1, &['b']);
    assert_eq!(b.to_text(), "abc");
    assert_eq!(b.remove(0, 2), 2);
    assert_eq!(b.to_text(), "c");
    assert!(b.undo());
    assert_eq!(b.to_text(), "abc");
    assert!(b.undo());
    assert_eq!(b.to_text(), "ac");
    assert!(b.redo());
    assert_eq!(b.to_text(), "abc");
    assert!(b.revert());
    assert_eq!(b.to_text(), "");
    assert!(!b.undo());
    assert!(!b.revert());
    b.truncate(0);
    assert_eq!(b.num_chars(), 0);
}

#[test]
fn buffer_words_and_prefixes() {
    assert_eq!(Buffer::from_str("ls  -l  ").last_arg(), Some(vec!['-', 'l']));
    assert_eq!(Buffer::from_str("   ").last_arg(), None);
    assert_eq!(Buffer::from_str("one").last_arg(), Some(vec!['o', 'n', 'e']));
    let long = Buffer::from_str("git status");
    assert!(long.starts_with(&Buffer::from_str("git")));
    assert!(!long.starts_with(&Buffer::from_str("git status")));
    assert!(!long.starts_with(&Buffer::from_str("")));
    assert!(!long.starts_with(&Buffer::from_str("sta")));
    assert_eq!(long.range(4, 10), "status");
    let mut short = Buffer::from_str("git");
    short.insert_from_buffer(&long);
    assert_eq!(short.to_text(), "git status");
}

#[test]
fn words_are_split_at_blanks_that_are_not_escaped() {
    assert_eq!(get_buffer_words(&Buffer::from_str("ab  cd e")), vec![(0, 2), (4, 6), (7, 8)]);
    assert_eq!(get_buffer_words(&Buffer::from_str("a\\ b c")), vec![(0, 4), (5, 6)]);
    assert_eq!(get_buffer_words(&Buffer::from_str("  ")), Vec::<(usize, usize)>::new());
    assert_eq!(get_buffer_words(&Buffer::from_str("x ")), vec![(0, 1)]);
}

#[test]
fn cursor_position_among_words() {
    let words = [(1, 3), (5, 8)];
    assert_eq!(CursorPosition::get(0, &words), CursorPosition::InSpace(None, Some(0)));
    assert_eq!(CursorPosition::get(1, &words), CursorPosition::OnWordLeftEdge(0));
    assert_eq!(CursorPosition::get(2, &words), CursorPosition::InWord(0));
    assert_eq!(CursorPosition::get(3, &words), CursorPosition::OnWordRightEdge(0));
    assert_eq!(CursorPosition::get(4, &words), CursorPosition::InSpace(Some(0), Some(1)));
    assert_eq!(CursorPosition::get(5, &words), CursorPosition::OnWordLeftEdge(1));
    assert_eq!(CursorPosition::get(8, &words), CursorPosition::OnWordRightEdge(1));
    assert_eq!(CursorPosition::get(9, &words), CursorPosition::InSpace(Some(1), None));
    assert_eq!(CursorPosition::get(3, &[]), CursorPosition::InSpace(None, None));
}

#[test]
fn history_manager_finds_the_newest_longer_line() {
    let manager = HistoryManager::new(Some(&history(&["git status", "ls", "git stash"])));
    assert_eq!(manager.len(), 3);
    let line = Buffer::from_str("git st");
    assert_eq!(manager.get_newest_match(None, &line).unwrap().to_text(), "git stash");
    assert_eq!(manager.get_newest_match(Some(2), &line).unwrap().to_text(), "git status");
    assert!(manager.get_newest_match(Some(0), &line).is_none());
    assert!(manager.get_newest_match(None, &Buffer::from_str("")).is_none());
    assert!(manager.get_newest_match(None, &Buffer::from_str("ls")).is_none());
    assert_eq!(HistoryManager::new(None).len(), 0);
}

#[test]
fn editor_starts_at_the_end_of_its_line() {
    let ed = editor("hello", &[]);
    assert_eq!(ed.cursor(), 5);
    assert_eq!(ed.current_history_location(), None);
    assert!(ed.cursor_is_at_end_of_line());
    let empty: Editor<Many> = Editor::new(None, None);
    assert_eq!(empty.cursor(), 0);
    assert!(empty.current_buffer().is_empty());
}

#[test]
fn editor_inserts_and_deletes_at_the_cursor() {
    let mut ed = editor("held", &[]);
    ed.move_cursor_left(1);
    ed.insert_after_cursor('l');
    ed.insert_str_after_cursor("o wor");
    assert_eq!(text(&ed), "hello word");
    assert_eq!(ed.cursor(), 9);
    ed.insert_chars_after_cursor(&['l']);
    assert_eq!(text(&ed), "hello world");
    ed.delete_before_cursor();
    assert_eq!(text(&ed), "hello word");
    ed.delete_after_cursor();
    assert_eq!(text(&ed), "hello wor");
    ed.delete_after_cursor();
    assert_eq!(text(&ed), "hello wor");
    ed.move_cursor_to(5);
    ed.delete_all_after_cursor();
    assert_eq!(text(&ed), "hello");
    ed.move_cursor_to(2);
    ed.delete_all_before_cursor();
    assert_eq!(text(&ed), "llo");
    assert_eq!(ed.cursor(), 0);
    ed.delete_before_cursor();
    assert_eq!(text(&ed), "llo");
}

#[test]
fn editor_deletes_up_to_a_position() {
    let mut ed = editor("0123456789", &[]);
    ed.move_cursor_to(3);
    ed.delete_until(6);
    assert_eq!(text(&ed), "0126789");
    assert_eq!(ed.cursor(), 3);
    ed.delete_until(1);
    assert_eq!(text(&ed), "06789");
    assert_eq!(ed.cursor(), 1);
    ed.delete_until_inclusive(2);
    assert_eq!(text(&ed), "089");
    assert_eq!(ed.cursor(), 1);
    ed.move_cursor_to(2);
    ed.delete_until_inclusive(0);
    assert_eq!(text(&ed), "");
    assert_eq!(ed.cursor(), 0);
}

#[test]
fn editor_moves_the_cursor_within_the_line() {
    let mut ed = editor("abc", &[]);
    ed.move_cursor_left(10);
    assert_eq!(ed.cursor(), 0);
    ed.move_cursor_right(2);
    assert_eq!(ed.cursor(), 2);
    ed.move_cursor_right(10);
    assert_eq!(ed.cursor(), 3);
    ed.move_cursor_to(99);
    assert_eq!(ed.cursor(), 3);
    ed.move_cursor_to_start_of_line();
    assert_eq!(ed.cursor(), 0);
    assert!(!ed.cursor_is_at_end_of_line());
    ed.move_cursor_to_end_of_line();
    assert_eq!(ed.cursor(), 3);
    ed.no_eol = true;
    assert!(!ed.cursor_is_at_end_of_line());
    ed.move_cursor_left(1);
    assert!(ed.cursor_is_at_end_of_line());
}

#[test]
fn editor_walks_the_history() {
    let mut ed = editor("new", &["first", "second"]);
    ed.move_up();
    assert_eq!(ed.current_history_location(), Some(1));
    assert_eq!(text(&ed), "second");
    assert_eq!(ed.cursor(), 6);
    ed.move_up();
    ed.move_up();
    assert_eq!(ed.current_history_location(), Some(0));
    assert_eq!(text(&ed), "first");
    ed.move_down();
    ed.move_down();
    assert_eq!(ed.current_history_location(), None);
    assert_eq!(text(&ed), "new");
    ed.move_down();
    assert_eq!(ed.current_history_location(), None);
    ed.move_to_start_of_history();
    assert_eq!(ed.current_history_location(), Some(0));
    ed.move_to_end_of_history();
    assert_eq!(ed.current_history_location(), None);
    assert_eq!(ed.cursor(), 3);
    let mut alone = editor("x", &[]);
    alone.move_up();
    alone.move_to_start_of_history();
    assert_eq!(alone.current_history_location(), None);
}

#[test]
fn editor_undoes_edits_of_the_line_shown() {
    let mut ed = editor("", &[]);
    ed.insert_str_after_cursor("ab");
    ed.insert_str_after_cursor("cd");
    ed.move_cursor_to(1);
    assert!(ed.undo());
    assert_eq!(text(&ed), "ab");
    assert_eq!(ed.cursor(), 2);
    assert!(ed.redo());
    assert_eq!(text(&ed), "abcd");
    assert!(!ed.redo());
    assert!(ed.revert());
    assert_eq!(text(&ed), "");
    assert!(!ed.undo());
    assert!(!ed.revert());
}

#[test]
fn editor_deletes_the_word_before_the_cursor() {
    let mut ed = editor("one two  ", &[]);
    ed.delete_word_before_cursor(false);
    assert_eq!(text(&ed), "one two  ");
    ed.delete_word_before_cursor(true);
    assert_eq!(text(&ed), "one ");
    assert_eq!(ed.cursor(), 4);
    ed.move_cursor_to(2);
    ed.delete_word_before_cursor(false);
    assert_eq!(text(&ed), "e ");
    assert_eq!(ed.cursor(), 0);
    assert_eq!(ed.get_word_before_cursor(true), None);
    let (words, position) = ed.get_words_and_cursor_position();
    assert_eq!(words, vec![(0, 1)]);
    assert_eq!(position, CursorPosition::OnWordLeftEdge(0));
}

#[test]
fn editor_completes_when_one_proposal_fits() {
    let mut ed = editor("say on", &[]);
    assert!(matches!(ed.complete(), ReadlineEvent::Continue));
    assert_eq!(text(&ed), "say one");
    assert_eq!(ed.cursor(), 7);
    let mut many = editor("say t", &[]);
    match many.complete() {
        ReadlineEvent::StartCompletionPager(all) => assert_eq!(all.len(), 2),
        other => panic!("unexpected {:?}", other),
    }
    assert_eq!(text(&many), "say t");
    let mut none = editor("say ", &[]);
    assert!(matches!(none.complete(), ReadlineEvent::Continue));
    assert_eq!(text(&none), "say ");
    let mut bare: Editor<Many> = Editor::new(None, None);
    assert!(matches!(bare.complete(), ReadlineEvent::Continue));
}

#[test]
fn editor_suggests_from_the_history() {
    let mut ed = editor("git st", &["git status", "ls", "git stash"]);
    assert!(ed.is_currently_showing_autosuggestion());
    assert_eq!(ed.current_autosuggestion().unwrap().to_text(), "git stash");
    ed.accept_autosuggestion();
    assert_eq!(text(&ed), "git stash");
    assert_eq!(ed.cursor(), 9);
    assert!(!ed.is_currently_showing_autosuggestion());
    let mut off = editor("git st", &["git status"]);
    off.show_autosuggestions = false;
    assert!(off.current_autosuggestion().is_none());
    off.accept_autosuggestion();
    assert_eq!(text(&off), "git st");
    off.current_buffer_mut().truncate(0);
    assert!(matches!(off.handle_newline(), ReadlineEvent::Done));
    assert!(matches!(off.clear(), ReadlineEvent::ClearScreen));
}

#[test]
fn emacs_moves_by_words() {
    let mut ed = editor("one two three", &[]);
    emacs_move_word(&mut ed, EmacsMoveDir::Left);
    assert_eq!(ed.cursor(), 8);
    emacs_move_word(&mut ed, EmacsMoveDir::Left);
    assert_eq!(ed.cursor(), 4);
    emacs_move_word(&mut ed, EmacsMoveDir::Right);
    assert_eq!(ed.cursor(), 7);
    emacs_move_word(&mut ed, EmacsMoveDir::Right);
    assert_eq!(ed.cursor(), 13);
    emacs_move_word(&mut ed, EmacsMoveDir::Right);
    assert_eq!(ed.cursor(), 13);
    ed.move_cursor_to(0);
    emacs_move_word(&mut ed, EmacsMoveDir::Left);
    assert_eq!(ed.cursor(), 0);
}

#[test]
fn emacs_keys() {
    let mut emacs = Emacs::new(editor("", &["echo last-word", "ls other"]));
    for c in "hi there".chars() {
        assert!(matches!(emacs.handle_key(Key::Char(c)), ReadlineEvent::Continue));
    }
    assert_eq!(text(emacs.editor()), "hi there");
    emacs.handle_key(Key::Ctrl('a'));
    assert_eq!(emacs.editor().cursor(), 0);
    emacs.handle_key(Key::Ctrl('e'));
    assert_eq!(emacs.editor().cursor(), 8);
    emacs.handle_key(Key::Ctrl('h'));
    assert_eq!(text(emacs.editor()), "hi ther");
    emacs.handle_key(Key::Backspace);
    emacs.handle_key(Key::Left);
    emacs.handle_key(Key::Delete);
    assert_eq!(text(emacs.editor()), "hi th");
    emacs.handle_key(Key::Ctrl('w'));
    assert_eq!(text(emacs.editor()), "hi ");
    emacs.handle_key(Key::Ctrl('x'));
    assert_eq!(text(emacs.editor()), "hi th");
    emacs.handle_key(Key::Alt('b'));
    assert_eq!(emacs.editor().cursor(), 3);
    emacs.handle_key(Key::Ctrl('k'));
    assert_eq!(text(emacs.editor()), "hi ");
    emacs.handle_key(Key::Alt('.'));
    assert_eq!(text(emacs.editor()), "hi other");
    emacs.handle_key(Key::Alt('.'));
    assert_eq!(text(emacs.editor()), "hi last-word");
    emacs.handle_key(Key::Alt('.'));
    assert_eq!(text(emacs.editor()), "hi last-word");
    emacs.handle_key(Key::Ctrl('u'));
    assert_eq!(text(emacs.editor()), "");
    assert!(matches!(emacs.handle_key(Key::Ctrl('l')), ReadlineEvent::ClearScreen));
    assert!(matches!(emacs.handle_key(Key::Ctrl('c')), ReadlineEvent::Interrupted));
    assert!(matches!(emacs.handle_key(Key::Ctrl('d')), ReadlineEvent::Eof));
    assert!(matches!(emacs.handle_key(Key::Char('\n')), ReadlineEvent::Done));
    emacs.handle_key(Key::Up);
    assert_eq!(text(emacs.editor()), "ls other");
    emacs.handle_key(Key::Ctrl('p'));
    emacs.handle_key(Key::Down);
    emacs.handle_key(Key::Ctrl('n'));
    assert_eq!(emacs.editor().current_history_location(), None);
    emacs.handle_key(Key::Alt('<'));
    assert_eq!(emacs.editor().current_history_location(), Some(0));
    emacs.handle_key(Key::Alt('>'));
    assert_eq!(emacs.editor().current_history_location(), None);
    assert!(matches!(emacs.handle_key(Key::Null), ReadlineEvent::Continue));
    assert!(matches!(emacs.handle_key(Key::F(1)), ReadlineEvent::Continue));
}

#[test]
fn emacs_accepts_the_suggestion_with_the_right_arrow_at_the_end() {
    let mut emacs = Emacs::new(editor("git st", &["git stash"]));
    emacs.handle_key(Key::Right);
    assert_eq!(text(emacs.editor()), "git stash");
    let mut other = Emacs::new(editor("git st", &["git stash"]));
    other.handle_key(Key::Ctrl('f'));
    assert_eq!(text(other.editor()), "git stash");
    let mut tab = Emacs::new(editor("say on", &[]));
    emacs.handle_key(Key::Char('\t'));
    tab.handle_key(Key::Char('\t'));
    assert_eq!(text(tab.editor()), "say one");
}

#[test]
fn line_editor_and_prompt_editor_hand_keys_on() {
    let record = history(&["old"]);
    let completer = Completer::new(vec![UserCompletion::new("name")]);
    let mut line = LineEditor::new(DisplayString::from_text("> "), completer, &record);
    line.handle_input(Key::Char('a'));
    line.handle_input(Key::Char('b'));
    assert_eq!(line.buffer(), &['a', 'b']);
    assert_eq!(line.cursor(), 2);
    let mut prompt = PromptEditor::new(Completer::new(vec![UserCompletion::new("name")]), &record);
    prompt.handle_input(Key::Char('x'));
    assert!(matches!(prompt.handle_input(Key::Char('\n')), ReadlineEvent::Done));
    assert_eq!(prompt.buffer(), "x");
    let _ = Readline::new();
    let ed = editor("", &[]);
    let event = Event::new(&ed, EventKind::BeforeComplete);
    assert!(matches!(event.kind, EventKind::BeforeComplete));
}

#[test]
fn display_widths_count_columns() {
    let plain = DisplayStringComponent::from_text("abc");
    assert_eq!(plain.width(), 3);
    assert_eq!(plain.len(), 3);
    let wide = DisplayStringComponent::new("日本", Color::new(Mode::Light(Base::Red), Mode::Normal(Base::Reset)), Style::of(BOLD));
    assert_eq!(wide.width(), 4);
    assert_eq!(wide.width_cjk(), 4);
    assert_eq!(wide.len(), 6);
    assert!(wide.style.contains(Style::of(BOLD)));
    assert!(!wide.style.contains(Style::of(ITALIC)));
    assert_eq!(wide.style.with(Style::of(ITALIC)).bits, 3);
    assert_eq!(Style::of(NORMAL).bits, 0);
    let mut string = DisplayString::new();
    assert_eq!(string.width(), 0);
    string.components.push(plain);
    string.components.push(wide);
    assert_eq!(string.width(), 7);
    assert_eq!(string.len(), 9);
    assert_eq!(string.to_text(), "abc日本");
    let copy = string.duplicate();
    assert_eq!(copy.to_text(), "abc日本");
    let column = Column { left: string, center: DisplayString::from_text("xy"), right: DisplayString::new() };
    assert_eq!(column.width(), 9);
    let row = Row { columns: vec![column.clone(), column] };
    assert_eq!(row.width(), 18);
    assert_eq!(capped_sum(usize::MAX, 1), usize::MAX);
    assert_eq!(capped_sum(2, 3), 5);
    assert_eq!(Color::plain(), Color::new(Mode::Normal(Base::Reset), Mode::Normal(Base::Reset)));
}

#[test]
fn cursor_manager_reports_relative_moves() {
    let mut cursor = CursorManager::new();
    assert_eq!(cursor.position(), (0, 0));
    assert!(!cursor.is_hidden());
    assert_eq!(cursor.move_to(5, 2), CursorMove { left: 0, right: 5, up: 0, down: 2 });
    assert_eq!(cursor.move_to(3, 4), CursorMove { left: 2, right: 0, up: 0, down: 2 });
    assert_eq!(cursor.move_to(3, 0), CursorMove { left: 0, right: 0, up: 4, down: 0 });
    assert_eq!(cursor.position(), (3, 0));
    cursor.set_hidden(true);
    assert!(cursor.is_hidden());
}
