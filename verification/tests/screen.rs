use jobshell::completion::engines::user_completion::UserCompletion;
use jobshell::completion::Completer;
use jobshell::history::History;
use jobshell::readline::display::color::{Base, Mode};
use jobshell::readline::display::{
    Color, Column, DisplayString, DisplayStringComponent, Render, Row, Style, BOLD, ITALIC, NORMAL, UNDERLINE,
};
use jobshell::readline::line_editor::{sub_strings, wrap_words, LineEditor};
use jobshell::readline::terminal_buffer::{column_accepts, column_starts, TerminalBuffer};
use jobshell::readline::Key;

const PLAIN: &str = "\x1b[39m\x1b[49m\x1b[m";

fn text(s: &str, cursor: Option<usize>) -> DisplayString {
    let mut t = if s.is_empty() { DisplayString::new() } else { DisplayString::from_text(s) };
    t.cursor = cursor;
    t
}

fn column(left: &str, center: &str, right: &str) -> Column {
    Column { left: text(left, None), center: text(center, None), right: text(right, None) }
}

fn shown(s: &str) -> String {
    if s.is_empty() {
        String::new()
    } else {
        format!("{}{}", PLAIN, s)
    }
}

fn parts(t: &DisplayString) -> Vec<(String, Color, Style)> {
    t.components.iter().map(|c| (c.text.clone(), c.color, c.style)).collect()
}

#[test]
fn colour_codes_are_those_of_the_terminal() {
    assert_eq!(Color::new(Mode::Normal(Base::Red), Mode::Light(Base::Blue)).code(), "\x1b[38;5;1m\x1b[48;5;12m");
    assert_eq!(Color::plain().code(), "\x1b[39m\x1b[49m");
    assert_eq!(Color::new(Mode::Light(Base::Reset), Mode::Light(Base::Reset)).code(), "\x1b[39m\x1b[49m");
    assert_eq!(Color::new(Mode::Light(Base::White), Mode::Normal(Base::Black)).code(), "\x1b[38;5;15m\x1b[48;5;0m");
    let mut out = String::from("x");
    Color::new(Mode::Normal(Base::Green), Mode::Normal(Base::Reset)).write_to(&mut out);
    assert_eq!(out, "x\x1b[38;5;2m\x1b[49m");
    assert_eq!(Mode::Normal(Base::Cyan).number(), Some(6));
    assert_eq!(Mode::Light(Base::Cyan).number(), Some(14));
    assert_eq!(Mode::Light(Base::Reset).number(), None);
    assert_eq!(Base::Magenta.number(), Some(5));
}

#[test]
fn colour_codes_agree_with_termion() {
    let code = |fg: Mode, bg: Mode| Color::new(fg, bg).code();
    let reset = Mode::Normal(Base::Reset);
    let fg = |m: Mode| code(m, reset);
    let bg = |m: Mode| code(reset, m);
    let no_bg = format!("{}", termion::color::Bg(termion::color::Reset));
    let no_fg = format!("{}", termion::color::Fg(termion::color::Reset));
    assert_eq!(fg(Mode::Normal(Base::Black)), format!("{}{}", termion::color::Fg(termion::color::Black), no_bg));
    assert_eq!(fg(Mode::Normal(Base::Red)), format!("{}{}", termion::color::Fg(termion::color::Red), no_bg));
    assert_eq!(fg(Mode::Normal(Base::Green)), format!("{}{}", termion::color::Fg(termion::color::Green), no_bg));
    assert_eq!(fg(Mode::Normal(Base::Yellow)), format!("{}{}", termion::color::Fg(termion::color::Yellow), no_bg));
    assert_eq!(fg(Mode::Normal(Base::Blue)), format!("{}{}", termion::color::Fg(termion::color::Blue), no_bg));
    assert_eq!(fg(Mode::Normal(Base::Magenta)), format!("{}{}", termion::color::Fg(termion::color::Magenta), no_bg));
    assert_eq!(fg(Mode::Normal(Base::Cyan)), format!("{}{}", termion::color::Fg(termion::color::Cyan), no_bg));
    assert_eq!(fg(Mode::Normal(Base::White)), format!("{}{}", termion::color::Fg(termion::color::White), no_bg));
    assert_eq!(fg(Mode::Light(Base::Black)), format!("{}{}", termion::color::Fg(termion::color::LightBlack), no_bg));
    assert_eq!(fg(Mode::Light(Base::Red)), format!("{}{}", termion::color::Fg(termion::color::LightRed), no_bg));
    assert_eq!(fg(Mode::Light(Base::Green)), format!("{}{}", termion::color::Fg(termion::color::LightGreen), no_bg));
    assert_eq!(fg(Mode::Light(Base::Yellow)), format!("{}{}", termion::color::Fg(termion::color::LightYellow), no_bg));
    assert_eq!(fg(Mode::Light(Base::Blue)), format!("{}{}", termion::color::Fg(termion::color::LightBlue), no_bg));
    assert_eq!(
        fg(Mode::Light(Base::Magenta)),
        format!("{}{}", termion::color::Fg(termion::color::LightMagenta), no_bg)
    );
    assert_eq!(fg(Mode::Light(Base::Cyan)), format!("{}{}", termion::color::Fg(termion::color::LightCyan), no_bg));
    assert_eq!(fg(Mode::Light(Base::White)), format!("{}{}", termion::color::Fg(termion::color::LightWhite), no_bg));
    assert_eq!(bg(Mode::Normal(Base::Black)), format!("{}{}", no_fg, termion::color::Bg(termion::color::Black)));
    assert_eq!(bg(Mode::Normal(Base::White)), format!("{}{}", no_fg, termion::color::Bg(termion::color::White)));
    assert_eq!(bg(Mode::Light(Base::Black)), format!("{}{}", no_fg, termion::color::Bg(termion::color::LightBlack)));
    assert_eq!(bg(Mode::Light(Base::White)), format!("{}{}", no_fg, termion::color::Bg(termion::color::LightWhite)));
    assert_eq!(bg(Mode::Light(Base::Yellow)), format!("{}{}", no_fg, termion::color::Bg(termion::color::LightYellow)));
    assert_eq!(Style::of(NORMAL).code(), format!("{}", termion::style::Reset));
    assert_eq!(Style::of(BOLD).code(), format!("{}", termion::style::Bold));
    assert_eq!(Style::of(ITALIC).code(), format!("{}", termion::style::Italic));
    assert_eq!(Style::of(UNDERLINE).code(), format!("{}", termion::style::Underline));
}

#[test]
fn style_codes_follow_the_settings() {
    assert_eq!(Style::of(NORMAL).code(), "\x1b[m");
    assert_eq!(Style::of(BOLD).code(), "\x1b[1m");
    assert_eq!(Style::of(BOLD | UNDERLINE).code(), "\x1b[1m\x1b[4m");
    assert_eq!(Style::of(BOLD | ITALIC | UNDERLINE).code(), "\x1b[1m\x1b[3m\x1b[4m");
    assert_eq!(Style::of(8).code(), "");
    let mut out = String::from("x");
    Style::of(ITALIC).write_to(&mut out);
    assert_eq!(out, "x\x1b[3m");
}

#[test]
fn a_column_places_its_three_texts() {
    let only_left = column("ab", "", "");
    assert!(column_accepts(&only_left, 2));
    assert!(!column_accepts(&only_left, 1));
    let s = column_starts(&only_left, 10, 6);
    assert_eq!((s.left, s.center, s.right), (10, 16, 16));
    let ends = column("ab", "", "xyz");
    assert!(column_accepts(&ends, 5));
    assert!(!column_accepts(&ends, 4));
    let s = column_starts(&ends, 10, 8);
    assert_eq!((s.left, s.center, s.right), (10, 12, 15));
    let middle = column("ab", "mid", "");
    assert!(column_accepts(&middle, 8));
    assert!(!column_accepts(&middle, 6));
    assert!(column_accepts(&middle, 7));
    let s = column_starts(&middle, 10, 8);
    assert_eq!((s.left, s.center, s.right), (10, 15, 18));
    let all = column("ab", "mid", "xyz");
    assert!(column_accepts(&all, 10));
    assert!(!column_accepts(&all, 9));
    let s = column_starts(&all, 10, 12);
    assert_eq!((s.left, s.center, s.right), (10, 13, 19));
}

#[test]
fn a_row_of_one_column_fills_the_line() {
    let mut t = TerminalBuffer::new();
    assert_eq!(t.terminal_width, 80);
    t.set_width(6);
    assert_eq!(t.terminal_width, 6);
    let mut col = column("ab", "", "");
    col.left.cursor = Some(1);
    let row = Row { columns: vec![col] };
    assert!(t.accepts(&row));
    assert_eq!(t.add_row(&row), Some(1));
    assert_eq!(t.buffer.len(), 1);
    assert_eq!(t.buffer[0], format!("{p}{p}ab{p}    {p}{p}{p}", p = PLAIN));
}

#[test]
fn a_row_of_columns_shares_the_cells() {
    let mut t = TerminalBuffer::new();
    t.set_width(20);
    let mut second = column("", "mid", "");
    second.center.cursor = Some(2);
    let row = Row { columns: vec![column("ab", "", "xyz"), second] };
    assert!(t.accepts(&row));
    assert_eq!(t.add_row(&row), Some(92));
    let first = format!("{}{p}{}{p}{}{}{p}", shown("ab"), " ".repeat(0), format!("{}{}", "\x1b[39m\x1b[49m ".repeat(55), shown("xyz")), "", p = PLAIN);
    let other = format!("{p}{}{}{p}{}{p}", " ".repeat(30), shown("mid"), "\x1b[39m\x1b[49m ".repeat(27), p = PLAIN);
    assert_eq!(t.buffer[0], format!("{p}{}{}{p}", first, other, p = PLAIN));
    let three = Row { columns: vec![column("a", "", ""), column("b", "", ""), column("c", "", "")] };
    let mut wide = TerminalBuffer::new();
    wide.set_width(200);
    assert!(wide.accepts(&three));
    assert_eq!(wide.add_row(&three), None);
    let cell = |s: &str, n: usize| format!("{}{p}{}{p}{p}", shown(s), " ".repeat(n - 1), p = PLAIN);
    assert_eq!(wide.buffer[0], format!("{p}{}{}{}{p}", cell("a", 66), cell("b", 67), cell("c", 67), p = PLAIN));
}

#[test]
fn rows_that_cannot_be_laid_out_are_refused() {
    let mut t = TerminalBuffer::new();
    t.set_width(4);
    assert!(!t.accepts(&Row { columns: vec![column("abcde", "", "")] }));
    assert!(t.accepts(&Row { columns: vec![column("abcd", "", "")] }));
    assert!(t.accepts(&Row { columns: vec![] }));
    let mut twice = column("ab", "", "c");
    twice.left.cursor = Some(0);
    twice.right.cursor = Some(0);
    assert!(!t.accepts(&Row { columns: vec![twice] }));
    let mut far = column("ab", "", "");
    far.left.cursor = Some(usize::MAX);
    assert!(t.accepts(&Row { columns: vec![far] }));
    let mut too_far = column("", "", "c");
    too_far.right.cursor = Some(usize::MAX);
    assert!(!t.accepts(&Row { columns: vec![too_far] }));
    assert!(!t.accepts(&Row { columns: vec![column("a", "bcd", "")] }));
    t.set_width(usize::MAX);
    assert!(t.accepts(&Row { columns: vec![column("a", "", ""), column("b", "", ""), column("c", "", "")] }));
    assert!(!t.accepts(&Row { columns: vec![column("a", "", ""), column("b", "", "")] }));
    assert_eq!(t.add_row(&Row { columns: vec![] }), None);
    assert_eq!(t.buffer[0], format!("{p}{p}", p = PLAIN));
}

#[test]
fn a_frame_draws_only_the_lines_that_changed() {
    let mut t = TerminalBuffer::new();
    assert_eq!(t.render(), format!("{}", termion::cursor::Up(0)));
    t.set_width(4);
    let one = Row { columns: vec![column("one", "", "")] };
    let two = Row { columns: vec![column("two", "", "")] };
    t.add_row(&one);
    t.add_row(&two);
    let lines = t.buffer.clone();
    let clear = format!("{}", termion::clear::CurrentLine);
    assert_eq!(clear, "\x1b[2K");
    assert_eq!(t.render(), format!("{c}{}\r\n{c}{}\r\n\x1b[2A", lines[0], lines[1], c = clear));
    assert!(t.buffer.is_empty());
    assert_eq!(t.last_rendered, lines);
    t.add_row(&one);
    t.add_row(&one);
    t.add_row(&two);
    assert_eq!(t.render(), format!("\r\n{c}{}\r\n{c}{}\r\n{}", lines[0], lines[1], termion::cursor::Up(3), c = clear));
    assert_eq!(t.last_rendered, vec![lines[0].clone(), lines[0].clone(), lines[1].clone()]);
    t.add_row(&one);
    assert_eq!(t.render(), "\r\n\x1b[1A");
    assert_eq!(t.last_rendered.len(), 1);
}

#[test]
fn a_text_is_cut_into_stretches() {
    assert_eq!(sub_strings("abcdefg", 3), vec!["abc", "def", "g"]);
    assert_eq!(sub_strings("abcdef", 3), vec!["abc", "def"]);
    assert_eq!(sub_strings("ab", 3), vec!["ab"]);
    assert_eq!(sub_strings("", 3), Vec::<String>::new());
    assert_eq!(sub_strings("αβγ", 2), vec!["αβ", "γ"]);
    assert_eq!(sub_strings("abc", 1), vec!["a", "b", "c"]);
}

#[test]
fn words_go_to_one_row_while_they_fit() {
    let prompt = DisplayString::from_text("$ ");
    let words = vec!["ls".to_string(), " ".to_string(), "-l".to_string()];
    let rows = wrap_words(&prompt, &words, 4, 80);
    assert_eq!(rows.len(), 1);
    assert_eq!(rows[0].columns.len(), 1);
    let bold = (Color::new(Mode::Normal(Base::White), Mode::Normal(Base::Reset)), Style::of(BOLD));
    let blue = (Color::new(Mode::Normal(Base::Blue), Mode::Light(Base::Reset)), Style::of(NORMAL));
    assert_eq!(
        parts(&rows[0].columns[0].left),
        vec![
            ("$ ".to_string(), Color::plain(), Style::of(NORMAL)),
            ("ls".to_string(), bold.0, bold.1),
            (" ".to_string(), blue.0, blue.1),
            ("-l".to_string(), blue.0, blue.1),
        ]
    );
    assert_eq!(rows[0].columns[0].left.cursor, Some(4));
    assert!(rows[0].columns[0].center.components.is_empty());
    assert!(rows[0].columns[0].right.components.is_empty());
    assert_eq!(rows[0].width(), 7);
    assert_eq!(wrap_words(&prompt, &words, 2, 80)[0].columns[0].left.cursor, Some(2));
    assert_eq!(wrap_words(&prompt, &words, 7, 80)[0].columns[0].left.cursor, Some(7));
    assert_eq!(wrap_words(&prompt, &words, 8, 80)[0].columns[0].left.cursor, None);
    let none = wrap_words(&prompt, &[], 2, 80);
    assert_eq!(none.len(), 1);
    assert_eq!(parts(&none[0].columns[0].left).len(), 1);
    assert_eq!(none[0].columns[0].left.cursor, Some(2));
}

#[test]
fn words_wrap_at_the_width_of_the_terminal() {
    let prompt = DisplayString::from_text("$ ");
    let words = vec!["abcdefg".to_string()];
    let rows = wrap_words(&prompt, &words, 9, 5);
    assert_eq!(rows.len(), 3);
    let texts: Vec<Vec<String>> =
        rows.iter().map(|r| parts(&r.columns[0].left).into_iter().map(|p| p.0).collect()).collect();
    assert_eq!(texts, vec![vec!["$ "], vec!["abcde"], vec!["fg"]]);
    assert_eq!(rows[0].columns[0].left.cursor, None);
    assert_eq!(rows[1].columns[0].left.cursor, None);
    assert_eq!(rows[2].columns[0].left.cursor, Some(2));
    let rows = wrap_words(&prompt, &words, 4, 5);
    assert_eq!(rows[1].columns[0].left.cursor, Some(2));
    assert_eq!(rows[2].columns[0].left.cursor, None);
    let words = vec!["ab".to_string(), " ".to_string(), "cd".to_string()];
    let rows = wrap_words(&prompt, &words, 6, 6);
    let texts: Vec<Vec<String>> =
        rows.iter().map(|r| parts(&r.columns[0].left).into_iter().map(|p| p.0).collect()).collect();
    assert_eq!(texts, vec![vec!["$ ", "ab", " "], vec!["cd"]]);
    assert_eq!(rows[1].columns[0].left.cursor, Some(1));
    assert_eq!(rows[1].columns[0].left.components[0].style, Style::of(NORMAL));
}

#[test]
fn the_line_editor_shows_the_prompt_and_the_line() {
    let record = History::new(None);
    let completer = Completer::new(vec![UserCompletion::new("name")]);
    let mut line = LineEditor::new(DisplayString::from_text("> "), completer, &record);
    for c in "ls -l".chars() {
        line.handle_input(Key::Char(c));
    }
    let rows = line.render(80);
    assert_eq!(rows.len(), 1);
    let texts: Vec<String> = parts(&rows[0].columns[0].left).into_iter().map(|p| p.0).collect();
    assert_eq!(texts, vec!["> ", "ls", " ", "-", "l"]);
    assert_eq!(rows[0].columns[0].left.cursor, Some(7));
    assert_eq!(rows[0].columns[0].left.components[1].style, Style::of(BOLD));
    line.handle_input(Key::Left);
    line.handle_input(Key::Left);
    assert_eq!(line.render(80)[0].columns[0].left.cursor, Some(5));
    let mut screen = TerminalBuffer::new();
    assert!(screen.accepts(&rows[0]));
    assert_eq!(screen.add_row(&rows[0]), Some(7));
    let _ = DisplayStringComponent::from_text("x");
}
