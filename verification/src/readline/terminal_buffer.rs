//! The lines of the screen: rows are laid out into lines of text with
//! control sequences, and a frame is the text that brings the terminal
//! from the lines it shows to the new ones.

use vstd::prelude::*;
use crate::readline::display::color::{Base, Mode};
use crate::readline::display::{Color, Column, DisplayString, DisplayStringComponent, Row, Style};

verus! {

/// The colours a terminal starts with.
pub open spec fn plain() -> Color {
    Color { foreground: Mode::Normal(Base::Reset), background: Mode::Normal(Base::Reset) }
}

/// The control sequences that take colours and style back.
pub open spec fn plain_code() -> Seq<char> {
    crate::readline::display::color_code(plain()) + crate::readline::display::style_code(Style { bits: 0 })
}

/// `n` blanks.
pub open spec fn blanks(n: int) -> Seq<char>
    decreases n,
{
    if n <= 0 {
        Seq::empty()
    } else {
        blanks(n - 1).push(' ')
    }
}

/// `n` blanks, each after the control sequence that takes the colours
/// back.
pub open spec fn plain_blanks(n: int) -> Seq<char>
    decreases n,
{
    if n <= 0 {
        Seq::empty()
    } else {
        plain_blanks(n - 1) + crate::readline::display::color_code(plain()).push(' ')
    }
}

/// The stretches of a text, each after the control sequences of its
/// colours and its style.
pub open spec fn shown(components: Seq<DisplayStringComponent>) -> Seq<char>
    decreases components.len(),
{
    if components.len() == 0 {
        Seq::empty()
    } else {
        shown(components.drop_last()) + crate::readline::display::color_code(components.last().color)
            + crate::readline::display::style_code(components.last().style) + components.last().text@
    }
}

/// Where the three texts of a column start.
pub struct Places {
    pub left: int,
    pub center: int,
    pub right: int,
}

/// Where the texts of a column start, in a column of `width` cells that
/// begins at cell `begin`. The left text starts the column and the right
/// text ends it. A middle text with nothing to its right starts half way
/// through what the left text leaves; with a text to its right it has as
/// much room before it, counted from the start of the column, as after
/// it.
pub open spec fn places(col: Column, begin: int, width: int) -> Places {
    let l = crate::readline::display::total_width(col.left.components@) as int;
    let c = crate::readline::display::total_width(col.center.components@) as int;
    let r = crate::readline::display::total_width(col.right.components@) as int;
    let end = begin + width;
    if c == 0 && r == 0 {
        Places { left: begin, center: end, right: end }
    } else if c == 0 {
        Places { left: begin, center: begin + l, right: end - r }
    } else if r == 0 {
        Places { left: begin, center: begin + l + (width - l) / 2, right: end }
    } else {
        Places { left: begin, center: begin + (end - r - begin - c) / 2, right: end - r }
    }
}

/// Whether the three texts of a column, placed as [`places`] says, follow
/// one another within `width` cells without overlap.
pub open spec fn column_fits(col: Column, width: int) -> bool {
    let l = crate::readline::display::total_width(col.left.components@) as int;
    let c = crate::readline::display::total_width(col.center.components@) as int;
    let r = crate::readline::display::total_width(col.right.components@) as int;
    let p = places(col, 0, width);
    p.left + l <= p.center && p.center + c <= p.right && p.right + r <= width
}

/// The cell of the cursor in a column of `width` cells that begins at
/// cell `begin`: the cursor of the right text where it has one, else
/// that of the middle text, else that of the left one.
pub open spec fn column_cursor(col: Column, begin: int, width: int) -> Option<int> {
    let p = places(col, begin, width);
    match (col.left.cursor, col.center.cursor, col.right.cursor) {
        (_, _, Some(at)) => Some(p.right + at),
        (_, Some(at), None) => Some(p.center + at),
        (Some(at), None, None) => Some(p.left + at),
        (None, None, None) => None,
    }
}

/// The number of texts of a column that hold the cursor.
pub open spec fn cursor_count(col: Column) -> nat {
    ((if col.left.cursor is Some { 1nat } else { 0nat }) + (if col.center.cursor is Some { 1nat } else { 0nat })
        + (if col.right.cursor is Some { 1nat } else { 0nat })) as nat
}

/// The text of a column of `width` cells: the three texts, each followed
/// by the control sequences that take colours and style back, and blanks
/// where no text is.
pub open spec fn column_text(col: Column, width: int) -> Seq<char> {
    let l = crate::readline::display::total_width(col.left.components@) as int;
    let c = crate::readline::display::total_width(col.center.components@) as int;
    let r = crate::readline::display::total_width(col.right.components@) as int;
    let p = places(col, 0, width);
    shown(col.left.components@) + plain_code() + blanks(p.center - (p.left + l)) + shown(col.center.components@)
        + plain_code() + plain_blanks(p.right - (p.center + c)) + shown(col.right.components@) + plain_code()
        + blanks(width - (p.right + r))
}

/// Writes `n` blanks after `out`.
fn push_blanks(out: &mut String, n: usize)
    ensures
        final(out)@ == old(out)@ + blanks(n as int),
{
    let mut i: usize = 0;
    proof {
        reveal_strlit(" ");
    }
    assert(out@ =~= old(out)@ + blanks(0));
    while i < n
        invariant
            i <= n,
            out@ == old(out)@ + blanks(i as int),
        decreases n - i,
    {
        out.append(" ");
        i += 1;
        assert(out@ =~= old(out)@ + blanks(i as int)) by {
            reveal_strlit(" ");
        }
    }
}

/// Writes `n` blanks after `out`, each after the control sequence that
/// takes the colours back.
fn push_plain_blanks(out: &mut String, n: usize)
    ensures
        final(out)@ == old(out)@ + plain_blanks(n as int),
{
    let mut i: usize = 0;
    assert(out@ =~= old(out)@ + plain_blanks(0));
    while i < n
        invariant
            i <= n,
            out@ == old(out)@ + plain_blanks(i as int),
        decreases n - i,
    {
        Color::plain().write_to(out);
        out.append(" ");
        i += 1;
        assert(out@ =~= old(out)@ + plain_blanks(i as int)) by {
            reveal_strlit(" ");
        }
    }
}

/// Writes the control sequences that take colours and style back after
/// `out`.
fn push_plain(out: &mut String)
    ensures
        final(out)@ == old(out)@ + plain_code(),
{
    Color::plain().write_to(out);
    Style::of(0).write_to(out);
    assert(out@ =~= old(out)@ + plain_code());
}

/// Writes a text after `out`, each stretch after the control sequences
/// of its colours and its style.
fn push_shown(out: &mut String, text: &DisplayString)
    ensures
        final(out)@ == old(out)@ + shown(text.components@),
{
    let mut i: usize = 0;
    assert(text.components@.take(0) =~= Seq::<DisplayStringComponent>::empty());
    assert(out@ =~= old(out)@ + shown(text.components@.take(0)));
    while i < text.components.len()
        invariant
            i <= text.components@.len(),
            out@ == old(out)@ + shown(text.components@.take(i as int)),
        decreases text.components@.len() - i,
    {
        let ghost before = out@;
        let part = &text.components[i];
        part.color.write_to(out);
        part.style.write_to(out);
        out.append(part.text.as_str());
        assert(text.components@.take(i + 1).drop_last() =~= text.components@.take(i as int));
        assert(text.components@.take(i + 1).last() == text.components@[i as int]);
        i += 1;
        assert(out@ =~= old(out)@ + shown(text.components@.take(i as int)));
    }
    assert(text.components@.take(text.components@.len() as int) =~= text.components@);
}

/// Where the three texts of a column start, as machine words.
pub struct Starts {
    pub left: usize,
    pub center: usize,
    pub right: usize,
}

/// Whether the texts of a column fit into `width` cells, see
/// [`column_fits`].
pub fn column_accepts(col: &Column, width: usize) -> (r: bool)
    ensures
        r == column_fits(*col, width as int),
{
    let l = col.left.width();
    let c = col.center.width();
    let r = col.right.width();
    if c == 0 && r == 0 {
        l <= width
    } else if c == 0 {
        l <= width && r <= width - l
    } else if r == 0 {
        l <= width && c <= (width - l) - (width - l) / 2
    } else {
        r <= width && c <= width - r && l <= (width - r - c) / 2
    }
}

/// Where the texts of a column start, see [`places`].
pub fn column_starts(col: &Column, begin: usize, width: usize) -> (s: Starts)
    requires
        column_fits(*col, width as int),
        begin + width <= usize::MAX,
    ensures
        s.left == places(*col, begin as int, width as int).left,
        s.center == places(*col, begin as int, width as int).center,
        s.right == places(*col, begin as int, width as int).right,
{
    let l = col.left.width();
    let c = col.center.width();
    let r = col.right.width();
    let end = begin + width;
    if c == 0 && r == 0 {
        Starts { left: begin, center: end, right: end }
    } else if c == 0 {
        Starts { left: begin, center: begin + l, right: end - r }
    } else if r == 0 {
        Starts { left: begin, center: begin + l + (width - l) / 2, right: end }
    } else {
        Starts { left: begin, center: begin + (end - r - begin - c) / 2, right: end - r }
    }
}

/// The cells a row is laid out over on a terminal of `width` cells: the
/// width of the terminal for a row of one column, else at least 120.
pub open spec fn row_span(columns: int, width: int) -> int {
    if columns == 1 || width >= 120 {
        width
    } else {
        120
    }
}

/// The cells that are left of `total` when the first `k` of `n` columns
/// have theirs: each column takes its even share of what is left.
pub open spec fn cells_left(n: int, total: int, k: int) -> int
    decreases k,
{
    if k <= 0 || k > n {
        total
    } else {
        cells_left(n, total, k - 1) - cells_left(n, total, k - 1) / (n - (k - 1))
    }
}

/// The width of column `k` of `n`.
pub open spec fn share(n: int, total: int, k: int) -> int {
    if 0 <= k < n {
        cells_left(n, total, k) / (n - k)
    } else {
        0
    }
}

/// The cell that the layout takes column `k` of `n` to begin at: `k`
/// times its own width.
pub open spec fn origin(n: int, total: int, k: int) -> int {
    k * share(n, total, k)
}

/// The text of the first `k` columns.
pub open spec fn columns_text(columns: Seq<Column>, total: int, k: int) -> Seq<char>
    decreases k,
{
    if k <= 0 || k > columns.len() {
        Seq::empty()
    } else {
        columns_text(columns, total, k - 1) + column_text(columns[k - 1], share(columns.len() as int, total, k - 1))
    }
}

/// The cell of the cursor among the first `k` columns: that of the last
/// column that has one.
pub open spec fn columns_cursor(columns: Seq<Column>, total: int, k: int) -> Option<int>
    decreases k,
{
    if k <= 0 || k > columns.len() {
        None
    } else {
        let n = columns.len() as int;
        match column_cursor(columns[k - 1], origin(n, total, k - 1), share(n, total, k - 1)) {
            Some(at) => Some(at),
            None => columns_cursor(columns, total, k - 1),
        }
    }
}

/// The number of texts among the first `k` columns that hold the cursor.
pub open spec fn cursors(columns: Seq<Column>, k: int) -> nat
    decreases k,
{
    if k <= 0 || k > columns.len() {
        0
    } else {
        cursors(columns, k - 1) + cursor_count(columns[k - 1])
    }
}

/// Whether column `k` can be laid out: its texts fit into its width, and
/// its end and its cursor are cells that a machine word can count.
pub open spec fn column_placed(columns: Seq<Column>, total: int, k: int) -> bool {
    let n = columns.len() as int;
    let w = share(n, total, k);
    &&& column_fits(columns[k], w)
    &&& origin(n, total, k) + w <= usize::MAX
    &&& match column_cursor(columns[k], origin(n, total, k), w) {
        Some(at) => at <= usize::MAX,
        None => true,
    }
}

/// Whether the first `k` columns can be laid out.
pub open spec fn columns_placed(columns: Seq<Column>, total: int, k: int) -> bool
    decreases k,
{
    if k <= 0 || k > columns.len() {
        true
    } else {
        columns_placed(columns, total, k - 1) && column_placed(columns, total, k - 1)
    }
}

/// Whether a row can be laid out on a terminal of `width` cells: it is
/// no wider than the terminal, at most one of its texts holds the
/// cursor, and each column can be laid out.
pub open spec fn row_fits(columns: Seq<Column>, width: int) -> bool {
    &&& crate::readline::display::row_width(columns) <= width
    &&& cursors(columns, columns.len() as int) <= 1
    &&& columns_placed(columns, row_span(columns.len() as int, width), columns.len() as int)
}

/// The line that shows a row on a terminal of `width` cells: the columns
/// one after the other, between control sequences that take colours and
/// style back.
pub open spec fn row_text(columns: Seq<Column>, width: int) -> Seq<char> {
    plain_code() + columns_text(columns, row_span(columns.len() as int, width), columns.len() as int)
        + plain_code()
}

/// The cell of the cursor in a row on a terminal of `width` cells.
pub open spec fn row_cursor(columns: Seq<Column>, width: int) -> Option<int> {
    columns_cursor(columns, row_span(columns.len() as int, width), columns.len() as int)
}

/// What is left of `total` cells is never less than nothing.
pub proof fn lemma_cells_left(n: int, total: int, k: int)
    requires
        0 <= total,
        0 <= k <= n,
    ensures
        0 <= cells_left(n, total, k) <= total,
        k < n ==> 0 <= share(n, total, k) <= cells_left(n, total, k),
    decreases k,
{
    if k > 0 {
        lemma_cells_left(n, total, k - 1);
        let before = cells_left(n, total, k - 1);
        let d = n - (k - 1);
        assert(0 <= before / d <= before) by (nonlinear_arith)
            requires
                0 <= before,
                1 <= d,
        ;
    }
    if k < n {
        let here = cells_left(n, total, k);
        let d = n - k;
        assert(0 <= here / d <= here) by (nonlinear_arith)
            requires
                0 <= here,
                1 <= d,
        ;
    }
}

/// The number of texts of a column that hold the cursor, up to two.
fn count_cursors(col: &Column) -> (n: usize)
    ensures
        n == cursor_count(*col),
{
    let mut n: usize = 0;
    if col.left.cursor.is_some() {
        n += 1;
    }
    if col.center.cursor.is_some() {
        n += 1;
    }
    if col.right.cursor.is_some() {
        n += 1;
    }
    n
}

/// The cell of the cursor in a column, see [`column_cursor`]; `None`
/// also where the cell is more than a machine word can count.
fn cursor_in(col: &Column, starts: &Starts) -> (r: (bool, Option<usize>))
    ensures
        match (col.left.cursor, col.center.cursor, col.right.cursor) {
            (_, _, Some(at)) => r.0 == (starts.right + at <= usize::MAX) && (r.0 ==> r.1 == Some(
                (starts.right + at) as usize,
            )),
            (_, Some(at), None) => r.0 == (starts.center + at <= usize::MAX) && (r.0 ==> r.1 == Some(
                (starts.center + at) as usize,
            )),
            (Some(at), None, None) => r.0 == (starts.left + at <= usize::MAX) && (r.0 ==> r.1 == Some(
                (starts.left + at) as usize,
            )),
            (None, None, None) => r.0 && r.1 is None,
        },
{
    let (start, at) = match (col.left.cursor, col.center.cursor, col.right.cursor) {
        (_, _, Some(at)) => (starts.right, at),
        (_, Some(at), None) => (starts.center, at),
        (Some(at), None, None) => (starts.left, at),
        (None, None, None) => {
            return (true, None);
        },
    };
    match start.checked_add(at) {
        Some(cell) => (true, Some(cell)),
        None => (false, None),
    }
}

/// The lines of the screen.
pub struct TerminalBuffer {
    pub buffer: Vec<String>,
    pub last_rendered: Vec<String>,
    pub terminal_width: usize,
}

impl TerminalBuffer {
    /// The lines laid out since the last frame.
    pub open spec fn lines(&self) -> Seq<Seq<char>> {
        crate::text::views(self.buffer@)
    }

    /// The lines of the last frame.
    pub open spec fn on_screen(&self) -> Seq<Seq<char>> {
        crate::text::views(self.last_rendered@)
    }

    /// No lines, on a terminal of 80 cells.
    pub fn new() -> (t: TerminalBuffer)
        ensures
            t.lines().len() == 0,
            t.on_screen().len() == 0,
            t.terminal_width == 80,
    {
        TerminalBuffer { buffer: Vec::new(), last_rendered: Vec::new(), terminal_width: 80 }
    }

    /// Notes the width of the terminal.
    pub fn set_width(&mut self, width: usize)
        ensures
            final(self).terminal_width == width,
            final(self).buffer == old(self).buffer,
            final(self).last_rendered == old(self).last_rendered,
    {
        self.terminal_width = width;
    }

    /// Whether a row can be laid out on this terminal, see [`row_fits`].
    pub fn accepts(&self, row: &Row) -> (r: bool)
        ensures
            r == row_fits(row.columns@, self.terminal_width as int),
    {
        let n = row.columns.len();
        let ghost cols = row.columns@;
        let total: usize = if n == 1 || self.terminal_width >= 120 {
            self.terminal_width
        } else {
            120
        };
        if row.width() > self.terminal_width {
            return false;
        }
        let mut left = total;
        let mut seen: usize = 0;
        let mut i: usize = 0;
        while i < n
            invariant
                i <= n,
                n == cols.len(),
                cols == row.columns@,
                left == cells_left(n as int, total as int, i as int),
                seen == cursors(cols, i as int),
                seen <= 1,
                columns_placed(cols, total as int, i as int),
                total == row_span(n as int, self.terminal_width as int),
                crate::readline::display::row_width(cols) <= self.terminal_width,
            decreases n - i,
        {
            proof {
                lemma_cells_left(n as int, total as int, i as int);
            }
            let col = &row.columns[i];
            let width = left / (n - i);
            let found = count_cursors(col);
            let begin = match i.checked_mul(width) {
                Some(b) => b,
                None => {
                    proof {
                        lemma_unplaced(cols, total as int, i as int);
                    }
                    return false;
                },
            };
            if seen + found > 1 {
                proof {
                    lemma_cursors_grow(cols, i as int + 1, n as int);
                }
                return false;
            }
            if !column_accepts(col, width) || begin > usize::MAX - width {
                proof {
                    lemma_unplaced(cols, total as int, i as int);
                }
                return false;
            }
            let starts = column_starts(col, begin, width);
            let (counted, _) = cursor_in(col, &starts);
            if !counted {
                proof {
                    lemma_unplaced(cols, total as int, i as int);
                }
                return false;
            }
            seen += found;
            left -= width;
            i += 1;
        }
        true
    }
}

/// Writes the text of a column of `width` cells after `out`.
fn push_column(out: &mut String, col: &Column, width: usize)
    requires
        column_fits(*col, width as int),
    ensures
        final(out)@ == old(out)@ + column_text(*col, width as int),
{
    let starts = column_starts(col, 0, width);
    let l = col.left.width();
    let c = col.center.width();
    let r = col.right.width();
    push_shown(out, &col.left);
    push_plain(out);
    push_blanks(out, starts.center - (starts.left + l));
    push_shown(out, &col.center);
    push_plain(out);
    push_plain_blanks(out, starts.right - (starts.center + c));
    push_shown(out, &col.right);
    push_plain(out);
    push_blanks(out, width - (starts.right + r));
    assert(out@ =~= old(out)@ + column_text(*col, width as int));
}

/// The control sequence that clears the line of the cursor.
pub open spec fn clear_line() -> Seq<char> {
    crate::readline::display::lead() + seq!['2', 'K']
}

/// The control sequence that takes the cursor up by `n` lines.
pub open spec fn cursor_up(n: nat) -> Seq<char> {
    crate::readline::display::lead() + crate::text::decimal_nat(n) + seq!['A']
}

/// The text that draws the first `k` lines over what the terminal shows:
/// a line that the terminal shows already is passed over, any other is
/// cleared and written; each ends with a return and a line feed.
pub open spec fn lines_drawn(lines: Seq<Seq<char>>, on_screen: Seq<Seq<char>>, k: int) -> Seq<char>
    decreases k,
{
    if k <= 0 || k > lines.len() {
        Seq::empty()
    } else {
        lines_drawn(lines, on_screen, k - 1) + (if k - 1 < on_screen.len() && on_screen[k - 1] == lines[k - 1] {
            Seq::<char>::empty()
        } else {
            clear_line() + lines[k - 1]
        }) + seq!['\r', '\n']
    }
}

/// The text that draws the lines over what the terminal shows and takes
/// the cursor back up to the first of them. The count of lines is taken
/// modulo 65536.
pub open spec fn frame_text(lines: Seq<Seq<char>>, on_screen: Seq<Seq<char>>) -> Seq<char> {
    lines_drawn(lines, on_screen, lines.len() as int) + cursor_up((lines.len() % 65536) as nat)
}

impl TerminalBuffer {
    /// Lays a row out into a line, adds the line to those of the next
    /// frame, and returns the cell of the cursor where the row holds it.
    pub fn add_row(&mut self, row: &Row) -> (cursor: Option<usize>)
        requires
            row_fits(row.columns@, old(self).terminal_width as int),
        ensures
            final(self).terminal_width == old(self).terminal_width,
            final(self).last_rendered == old(self).last_rendered,
            final(self).lines() == old(self).lines().push(
                row_text(row.columns@, old(self).terminal_width as int),
            ),
            match row_cursor(row.columns@, old(self).terminal_width as int) {
                Some(at) => 0 <= at <= usize::MAX && cursor == Some(at as usize),
                None => cursor is None,
            },
    {
        let n = row.columns.len();
        let ghost cols = row.columns@;
        let total: usize = if n == 1 || self.terminal_width >= 120 {
            self.terminal_width
        } else {
            120
        };
        let mut out = String::new();
        push_plain(&mut out);
        let mut cursor: Option<usize> = None;
        let mut left = total;
        let mut i: usize = 0;
        assert(out@ =~= plain_code() + columns_text(cols, total as int, 0));
        while i < n
            invariant
                i <= n,
                n == cols.len(),
                cols == row.columns@,
                left == cells_left(n as int, total as int, i as int),
                columns_placed(cols, total as int, n as int),
                out@ == plain_code() + columns_text(cols, total as int, i as int),
                match columns_cursor(cols, total as int, i as int) {
                    Some(at) => 0 <= at <= usize::MAX && cursor == Some(at as usize),
                    None => cursor is None,
                },
            decreases n - i,
        {
            proof {
                lemma_cells_left(n as int, total as int, i as int);
                lemma_placed_shrinks(cols, total as int, i as int + 1, n as int);
                assert(column_placed(cols, total as int, i as int));
            }
            let col = &row.columns[i];
            let width = left / (n - i);
            assert(width == share(n as int, total as int, i as int));
            assert(i * width == origin(n as int, total as int, i as int));
            let begin = i * width;
            let starts = column_starts(col, begin, width);
            push_column(&mut out, col, width);
            let (_, found) = cursor_in(col, &starts);
            if found.is_some() {
                cursor = found;
            }
            left -= width;
            i += 1;
            assert(out@ =~= plain_code() + columns_text(cols, total as int, i as int));
        }
        push_plain(&mut out);
        assert(out@ =~= row_text(cols, self.terminal_width as int));
        let ghost before = self.buffer@;
        self.buffer.push(out);
        assert(self.lines() =~= old(self).lines().push(row_text(cols, self.terminal_width as int))) by {
            assert(self.buffer@.drop_last() =~= before);
        }
        cursor
    }

    /// The text that draws the lines laid out since the last frame over
    /// what the terminal shows, see [`frame_text`]. The lines are then
    /// those that the terminal shows, and none is laid out. The cursor
    /// is taken to be at the start of the first line, and is there again
    /// after.
    pub fn render(&mut self) -> (frame: String)
        ensures
            frame@ == frame_text(old(self).lines(), old(self).on_screen()),
            final(self).on_screen() == old(self).lines(),
            final(self).lines().len() == 0,
            final(self).terminal_width == old(self).terminal_width,
    {
        let mut frame = String::new();
        let n = self.buffer.len();
        let ghost lines = self.lines();
        let ghost on_screen = self.on_screen();
        let mut i: usize = 0;
        assert(frame@ =~= lines_drawn(lines, on_screen, 0));
        while i < n
            invariant
                i <= n,
                n == self.buffer@.len(),
                lines == self.lines(),
                on_screen == self.on_screen(),
                frame@ == lines_drawn(lines, on_screen, i as int),
            decreases n - i,
        {
            let line = &self.buffer[i];
            let known = i < self.last_rendered.len() && crate::text::same_text(
                self.last_rendered[i].as_str(),
                line.as_str(),
            );
            proof {
                reveal_strlit("\x1b[2K");
                reveal_strlit("\r\n");
            }
            if !known {
                frame.append("\x1b[2K");
                frame.append(line.as_str());
            }
            frame.append("\r\n");
            i += 1;
            assert(frame@ =~= lines_drawn(lines, on_screen, i as int));
        }
        proof {
            reveal_strlit("\x1b[");
            reveal_strlit("A");
        }
        frame.append("\x1b[");
        let count = crate::text::decimal_u64((n % 65536) as u64);
        frame.append(count.as_str());
        frame.append("A");
        assert(frame@ =~= frame_text(lines, on_screen));
        let mut drawn: Vec<String> = Vec::new();
        core::mem::swap(&mut drawn, &mut self.buffer);
        self.last_rendered = drawn;
        frame
    }
}

/// Where a column cannot be laid out, the columns cannot.
pub proof fn lemma_unplaced(columns: Seq<Column>, total: int, k: int)
    requires
        0 <= k < columns.len(),
        !column_placed(columns, total, k),
    ensures
        !columns_placed(columns, total, columns.len() as int),
{
    if columns_placed(columns, total, columns.len() as int) {
        lemma_placed_shrinks(columns, total, k + 1, columns.len() as int);
    }
}

/// Where the first `j` columns can be laid out, so can the first `k` of
/// them.
pub proof fn lemma_placed_shrinks(columns: Seq<Column>, total: int, k: int, j: int)
    requires
        0 <= k <= j <= columns.len(),
        columns_placed(columns, total, j),
    ensures
        columns_placed(columns, total, k),
    decreases j - k,
{
    if k < j {
        lemma_placed_shrinks(columns, total, k, j - 1);
    }
}

/// More columns hold the cursor no fewer times.
pub proof fn lemma_cursors_grow(columns: Seq<Column>, k: int, j: int)
    requires
        0 <= k <= j <= columns.len(),
    ensures
        cursors(columns, k) <= cursors(columns, j),
    decreases j - k,
{
    if k < j {
        lemma_cursors_grow(columns, k, j - 1);
    }
}

} // verus!
