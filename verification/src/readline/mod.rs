//! Reading a line: the editor, its history and what it shows.

use vstd::prelude::*;
use crate::completion::{Completions, Engine};
use crate::readline::display::{Render, Row};
use crate::readline::editor::Editor;
use crate::readline::terminal_buffer::TerminalBuffer;

pub mod display;
pub mod editor;
pub mod history;
pub mod keymap;
pub mod line_buffer;
pub mod line_editor;
pub mod terminal_buffer;

verus! {

/// What the editor answers to a key.
#[derive(Debug)]
pub enum ReadlineEvent {
    /// The screen is to be cleared and drawn anew.
    ClearScreen,
    /// The line is complete.
    Done,
    /// The input has ended.
    Eof,
    /// The line was given up.
    Interrupted,
    /// A search of the history is to start.
    HistorySearch,
    /// Nothing more to do for this key.
    Continue,
    /// More than one completion fits: the pager is to show them.
    StartCompletionPager(Completions),
}

/// A key, as the terminal reports it.
#[derive(Debug, Clone, Copy, PartialEq, Eq)]
pub enum Key {
    Backspace,
    Left,
    Right,
    Up,
    Down,
    Home,
    End,
    PageUp,
    PageDown,
    BackTab,
    Delete,
    Insert,
    /// A function key.
    F(u8),
    /// A plain character.
    Char(char),
    /// A character with Alt held.
    Alt(char),
    /// A character with Ctrl held.
    Ctrl(char),
    Null,
    Esc,
}

/// Reads lines from the terminal.
pub struct Readline {}

/// The control sequence that moves the cursor by `n` cells in the
/// direction that `letter` stands for; nothing for no cell.
pub open spec fn step_code(n: u16, letter: char) -> Seq<char> {
    if n > 0 {
        crate::readline::display::lead() + crate::text::decimal_nat(n as nat) + seq![letter]
    } else {
        Seq::empty()
    }
}

/// The control sequences of relative moves: first along the row.
pub open spec fn move_code(m: CursorMove) -> Seq<char> {
    step_code(m.left, 'D') + step_code(m.right, 'C') + step_code(m.up, 'A') + step_code(m.down, 'B')
}

/// The control sequence that hides or shows the cursor.
pub open spec fn hidden_code(hidden: bool) -> Seq<char> {
    crate::readline::display::lead() + seq!['?', '2', '5', if hidden { 'l' } else { 'h' }]
}

/// Whether each row can be laid out on a terminal of `width` cells.
pub open spec fn rows_fit(rows: Seq<Row>, width: int) -> bool {
    forall|k: int| 0 <= k < rows.len() ==> crate::readline::terminal_buffer::row_fits((#[trigger] rows[k]).columns@, width)
}

/// Whether a text of the row holds the cursor.
pub open spec fn holds_cursor(row: Row) -> bool {
    crate::readline::terminal_buffer::cursors(row.columns@, row.columns@.len() as int) > 0
}

/// The number of rows among the first `k` that hold the cursor.
pub open spec fn rows_with_cursor(rows: Seq<Row>, k: int) -> nat
    decreases k,
{
    if k <= 0 || k > rows.len() {
        0
    } else {
        rows_with_cursor(rows, k - 1) + if holds_cursor(rows[k - 1]) { 1nat } else { 0nat }
    }
}

/// Whether rows can be drawn on a terminal of `width` cells: each can be
/// laid out, and at most one holds the cursor.
pub open spec fn drawable(rows: Seq<Row>, width: int) -> bool {
    rows_fit(rows, width) && rows_with_cursor(rows, rows.len() as int) <= 1
}

/// The lines that show the rows.
pub open spec fn lines_of(rows: Seq<Row>, width: int) -> Seq<Seq<char>> {
    Seq::new(rows.len(), |k: int| crate::readline::terminal_buffer::row_text(rows[k].columns@, width))
}

/// The cell and the row of the cursor among the first `k` rows: those of
/// the last row that gives one.
pub open spec fn cursor_among(rows: Seq<Row>, width: int, k: int) -> Option<(int, int)>
    decreases k,
{
    if k <= 0 || k > rows.len() {
        None
    } else {
        match crate::readline::terminal_buffer::row_cursor(rows[k - 1].columns@, width) {
            Some(cell) => Some((cell, k - 1)),
            None => cursor_among(rows, width, k - 1),
        }
    }
}

/// What is written after a frame: the moves that take the cursor from
/// the start of the first line to its cell, and the control sequence
/// that shows it; or, where no row gives a cell, the one that hides it.
/// Cell and row are taken modulo 65536.
pub open spec fn cursor_text(at: Option<(int, int)>) -> Seq<char> {
    match at {
        Some((x, y)) => move_code(
            CursorMove { left: 0, right: (x % 65536) as u16, up: 0, down: (y % 65536) as u16 },
        ) + hidden_code(false),
        None => hidden_code(true),
    }
}

/// Writes the control sequence of one move after `out`.
fn push_step(out: &mut String, n: u16, letter: char)
    ensures
        final(out)@ == old(out)@ + step_code(n, letter),
{
    if n > 0 {
        proof {
            reveal_strlit("\x1b[");
        }
        out.append("\x1b[");
        let digits = crate::text::decimal_u64(n as u64);
        out.append(digits.as_str());
        crate::text::push_char(out, letter);
        assert(out@ =~= old(out)@ + step_code(n, letter));
    } else {
        assert(out@ =~= old(out)@ + step_code(n, letter));
    }
}

/// Writes the control sequence that hides or shows the cursor after
/// `out`.
fn push_hidden(out: &mut String, hidden: bool)
    ensures
        final(out)@ == old(out)@ + hidden_code(hidden),
{
    proof {
        reveal_strlit("\x1b[?25l");
        reveal_strlit("\x1b[?25h");
    }
    if hidden {
        out.append("\x1b[?25l");
    } else {
        out.append("\x1b[?25h");
    }
    assert(out@ =~= old(out)@ + hidden_code(hidden));
}

/// Whether a text of the row holds the cursor.
fn row_holds_cursor(row: &Row) -> (r: bool)
    ensures
        r == holds_cursor(*row),
{
    let n = row.columns.len();
    let mut i: usize = 0;
    while i < n
        invariant
            i <= n,
            n == row.columns@.len(),
            crate::readline::terminal_buffer::cursors(row.columns@, i as int) == 0,
        decreases n - i,
    {
        let col = &row.columns[i];
        if col.left.cursor.is_some() || col.center.cursor.is_some() || col.right.cursor.is_some() {
            proof {
                crate::readline::terminal_buffer::lemma_cursors_grow(row.columns@, i + 1, n as int);
            }
            return true;
        }
        i += 1;
    }
    false
}

impl CursorMove {
    /// Writes the control sequences of the moves after `out`.
    pub fn write_to(&self, out: &mut String)
        ensures
            final(out)@ == old(out)@ + move_code(*self),
    {
        push_step(out, self.left, 'D');
        push_step(out, self.right, 'C');
        push_step(out, self.up, 'A');
        push_step(out, self.down, 'B');
        assert(out@ =~= old(out)@ + move_code(*self));
    }
}

impl Readline {
    /// A reader.
    pub fn new() -> Readline {
        Readline {  }
    }

    /// Whether rows can be drawn on the terminal, see [`drawable`].
    pub fn can_draw(rows: &[Row], term_buffer: &TerminalBuffer) -> (r: bool)
        ensures
            r == drawable(rows@, term_buffer.terminal_width as int),
    {
        let n = rows.len();
        let mut seen: usize = 0;
        let mut i: usize = 0;
        while i < n
            invariant
                i <= n,
                n == rows@.len(),
                seen == rows_with_cursor(rows@, i as int),
                seen <= 1,
                forall|k: int|
                    0 <= k < i ==> crate::readline::terminal_buffer::row_fits(
                        (#[trigger] rows@[k]).columns@,
                        term_buffer.terminal_width as int,
                    ),
            decreases n - i,
        {
            if !term_buffer.accepts(&rows[i]) {
                return false;
            }
            if row_holds_cursor(&rows[i]) {
                if seen == 1 {
                    proof {
                        lemma_rows_with_cursor_grow(rows@, i + 1, n as int);
                    }
                    return false;
                }
                seen += 1;
            }
            i += 1;
        }
        true
    }

    /// The text that draws rows on a terminal that is `width` cells
    /// wide: it hides the cursor, takes it to the start of the first
    /// line, draws the lines that have changed, and shows the cursor in
    /// its cell where a row gives one. `None`, with nothing but the
    /// width noted, where the rows cannot be drawn, see [`drawable`].
    pub fn compose(
        rows: &[Row],
        cursor: &mut CursorManager,
        term_buffer: &mut TerminalBuffer,
        width: usize,
    ) -> (r: Option<String>)
        ensures
            final(term_buffer).terminal_width == width,
            r is Some == drawable(rows@, width as int),
            r is None ==> {
                &&& final(term_buffer).buffer == old(term_buffer).buffer
                &&& final(term_buffer).last_rendered == old(term_buffer).last_rendered
                &&& *final(cursor) == *old(cursor)
            },
            r matches Some(text) ==> {
                &&& text@ == hidden_code(true) + move_code(
                    CursorMove { left: old(cursor).xpos, right: 0, up: old(cursor).ypos, down: 0 },
                ) + crate::readline::terminal_buffer::frame_text(
                    old(term_buffer).lines() + lines_of(rows@, width as int),
                    old(term_buffer).on_screen(),
                ) + cursor_text(cursor_among(rows@, width as int, rows@.len() as int))
                &&& final(term_buffer).on_screen() == old(term_buffer).lines() + lines_of(rows@, width as int)
                &&& final(term_buffer).lines().len() == 0
                &&& match cursor_among(rows@, width as int, rows@.len() as int) {
                    Some((x, y)) => final(cursor).xpos == x % 65536 && final(cursor).ypos == y % 65536
                        && !final(cursor).hidden,
                    None => final(cursor).xpos == 0 && final(cursor).ypos == 0 && final(cursor).hidden,
                }
            },
    {
        term_buffer.set_width(width);
        if !Readline::can_draw(rows, term_buffer) {
            return None;
        }
        let n = rows.len();
        let mut place: Option<(u16, u16)> = None;
        let mut i: usize = 0;
        assert(term_buffer.lines() =~= old(term_buffer).lines() + lines_of(rows@, width as int).take(0));
        while i < n
            invariant
                i <= n,
                n == rows@.len(),
                rows_fit(rows@, width as int),
                term_buffer.terminal_width == width,
                term_buffer.last_rendered == old(term_buffer).last_rendered,
                term_buffer.lines() == old(term_buffer).lines() + lines_of(rows@, width as int).take(i as int),
                match cursor_among(rows@, width as int, i as int) {
                    Some((x, y)) => place == Some(((x % 65536) as u16, (y % 65536) as u16)),
                    None => place is None,
                },
            decreases n - i,
        {
            let ghost before = term_buffer.lines();
            assert(crate::readline::terminal_buffer::row_fits(rows@[i as int].columns@, width as int));
            match term_buffer.add_row(&rows[i]) {
                Some(cell) => {
                    place = Some(((cell % 65536) as u16, (i % 65536) as u16));
                },
                None => {},
            }
            i += 1;
            assert(term_buffer.lines() =~= old(term_buffer).lines() + lines_of(rows@, width as int).take(
                i as int,
            ));
        }
        assert(lines_of(rows@, width as int).take(n as int) =~= lines_of(rows@, width as int));
        let mut out = String::new();
        cursor.set_hidden(true);
        push_hidden(&mut out, true);
        let home = cursor.move_to(0, 0);
        home.write_to(&mut out);
        let frame = term_buffer.render();
        out.append(frame.as_str());
        match place {
            Some((x, y)) => {
                let there = cursor.move_to(x, y);
                there.write_to(&mut out);
                cursor.set_hidden(false);
                push_hidden(&mut out, false);
            },
            None => {
                push_hidden(&mut out, true);
            },
        }
        assert(out@ =~= hidden_code(true) + move_code(
            CursorMove { left: old(cursor).xpos, right: 0, up: old(cursor).ypos, down: 0 },
        ) + crate::readline::terminal_buffer::frame_text(
            old(term_buffer).lines() + lines_of(rows@, width as int),
            old(term_buffer).on_screen(),
        ) + cursor_text(cursor_among(rows@, width as int, rows@.len() as int)));
        Some(out)
    }

    /// The text that draws what the editor shows, see
    /// [`Readline::compose`]; `None` where the rows the editor shows
    /// cannot be drawn.
    pub fn render<E: Engine>(
        &self,
        editor: &mut Editor<E>,
        cursor: &mut CursorManager,
        term_buffer: &mut TerminalBuffer,
        terminal_width: usize,
    ) -> (r: Option<String>)
        requires
            old(editor).wf(),
            terminal_width > 0,
        ensures
            *final(editor) == *old(editor),
            final(term_buffer).terminal_width == terminal_width,
            r is None ==> {
                &&& final(term_buffer).buffer == old(term_buffer).buffer
                &&& final(term_buffer).last_rendered == old(term_buffer).last_rendered
                &&& *final(cursor) == *old(cursor)
            },
            exists|rows: Seq<Row>|
                {
                    &&& crate::readline::display::rows_view(rows) == old(editor).line_editor.rows_shown(
                        terminal_width,
                    )
                    &&& r is Some == drawable(rows, terminal_width as int)
                    &&& r matches Some(text) ==> {
                        &&& text@ == hidden_code(true) + move_code(
                            CursorMove { left: old(cursor).xpos, right: 0, up: old(cursor).ypos, down: 0 },
                        ) + crate::readline::terminal_buffer::frame_text(
                            old(term_buffer).lines() + lines_of(rows, terminal_width as int),
                            old(term_buffer).on_screen(),
                        ) + cursor_text(cursor_among(rows, terminal_width as int, rows.len() as int))
                        &&& final(term_buffer).on_screen() == old(term_buffer).lines() + lines_of(
                            rows,
                            terminal_width as int,
                        )
                        &&& final(term_buffer).lines().len() == 0
                    }
                },
    {
        let rows = editor.render(terminal_width);
        Readline::compose(rows.as_slice(), cursor, term_buffer, terminal_width)
    }
}

/// More rows hold the cursor no fewer times.
pub proof fn lemma_rows_with_cursor_grow(rows: Seq<Row>, k: int, j: int)
    requires
        0 <= k <= j <= rows.len(),
    ensures
        rows_with_cursor(rows, k) <= rows_with_cursor(rows, j),
    decreases j - k,
{
    if k < j {
        lemma_rows_with_cursor_grow(rows, k, j - 1);
    }
}


/// The relative moves that take the cursor from where it was to where it
/// is to be.
#[derive(Debug, Clone, Copy, PartialEq, Eq, Structural)]
pub struct CursorMove {
    pub left: u16,
    pub right: u16,
    pub up: u16,
    pub down: u16,
}

/// Where the cursor of the terminal is, and whether it is hidden.
pub struct CursorManager {
    pub xpos: u16,
    pub ypos: u16,
    pub hidden: bool,
}

impl CursorManager {
    /// A shown cursor at the origin.
    pub fn new() -> (c: CursorManager)
        ensures
            c.xpos == 0,
            c.ypos == 0,
            !c.hidden,
    {
        CursorManager { xpos: 0, ypos: 0, hidden: false }
    }

    /// The column and the row of the cursor.
    pub fn position(&self) -> (p: (u16, u16))
        ensures
            p == (self.xpos, self.ypos),
    {
        (self.xpos, self.ypos)
    }

    /// Whether the cursor is hidden.
    pub fn is_hidden(&self) -> (h: bool)
        ensures
            h == self.hidden,
    {
        self.hidden
    }

    /// Notes that the cursor is hidden or shown.
    pub fn set_hidden(&mut self, hidden: bool)
        ensures
            final(self).hidden == hidden,
            final(self).xpos == old(self).xpos,
            final(self).ypos == old(self).ypos,
    {
        self.hidden = hidden;
    }

    /// Notes that the cursor is at column `x` of row `y`, and returns the
    /// moves that take it there.
    pub fn move_to(&mut self, x: u16, y: u16) -> (m: CursorMove)
        ensures
            final(self).xpos == x,
            final(self).ypos == y,
            final(self).hidden == old(self).hidden,
            old(self).xpos - m.left + m.right == x,
            old(self).ypos - m.up + m.down == y,
            m.left == 0 || m.right == 0,
            m.up == 0 || m.down == 0,
    {
        let mut m = CursorMove { left: 0, right: 0, up: 0, down: 0 };
        if x < self.xpos {
            m.left = self.xpos - x;
        } else if x > self.xpos {
            m.right = x - self.xpos;
        }
        if y < self.ypos {
            m.up = self.ypos - y;
        } else if y > self.ypos {
            m.down = y - self.ypos;
        }
        self.xpos = x;
        self.ypos = y;
        m
    }
}

} // verus!
