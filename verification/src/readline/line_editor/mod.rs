//! The line editor: a prompt and one edited line.

use vstd::prelude::*;
use crate::completion::{Completer, Engine};
use crate::history::History;
use crate::readline::display::color::{Base, Mode};
use crate::readline::display::{
    capped_sum, Color, Column, ColumnView, DisplayString, DisplayStringComponent, PartView, Render, Row,
    RowView, Style, TextView,
};
use crate::readline::line_editor::liner::editor::Editor;
use crate::readline::line_editor::liner::keymap::emacs::Emacs;
use crate::readline::line_editor::liner::keymap::KeyMap;
use crate::readline::{Key, ReadlineEvent};

pub mod liner;

verus! {

/// A prompt and the line edited after it: one row, one column.
pub struct LineEditor<E> {
    pub prompt: DisplayString,
    pub editor: Emacs<E>,
}

impl<E: Engine> LineEditor<E> {
    /// The editor is well formed.
    pub open spec fn wf(&self) -> bool {
        self.editor.wf()
    }

    /// An editor on an empty line after the prompt.
    pub fn new(prompt: DisplayString, completer: Completer<E>, history: &History) -> (r: Self)
        ensures
            r.wf(),
            r.prompt == prompt,
            r.editor.ed.line() == Seq::<char>::empty(),
            r.editor.ed.cursor == 0,
    {
        LineEditor { prompt, editor: Emacs::new(Editor::new(Some(history), Some(completer))) }
    }

    /// Handles a key: the prompt stays, and the line changes as
    /// [`Emacs::key_outcome`] says.
    pub fn handle_input(&mut self, key: Key) -> (r: ReadlineEvent)
        requires
            old(self).wf(),
        ensures
            final(self).wf(),
            final(self).prompt == old(self).prompt,
            Emacs::key_outcome(&old(self).editor, &final(self).editor, key, r),
    {
        self.editor.handle_key(key)
    }

    /// The characters of the line shown.
    pub fn buffer(&self) -> (r: &[char])
        requires
            self.wf(),
        ensures
            r@ == self.editor.ed.line(),
    {
        self.editor.ed.current_buffer().chars()
    }

    /// The cursor: the number of characters before it.
    pub fn cursor(&self) -> (r: usize)
        ensures
            r == self.editor.ed.cursor,
    {
        self.editor.ed.cursor()
    }
}

/// A stretch of the line as it is shown: the first word bold in white,
/// the others blue.
pub open spec fn part_of(text: Seq<char>, first: bool) -> PartView {
    PartView {
        text,
        color: if first {
            Color { foreground: Mode::Normal(Base::White), background: Mode::Normal(Base::Reset) }
        } else {
            Color { foreground: Mode::Normal(Base::Blue), background: Mode::Light(Base::Reset) }
        },
        style: Style { bits: if first { 1 } else { 0 } },
        width: crate::readline::display::text_width(text),
        width_cjk: crate::readline::display::text_width_cjk(text),
    }
}

/// A row of one column with text at its left only.
pub open spec fn lone(parts: Seq<PartView>, cursor: Option<usize>) -> RowView {
    RowView {
        columns: seq![
            ColumnView {
                left: TextView { parts, cursor },
                center: TextView { parts: Seq::empty(), cursor: None },
                right: TextView { parts: Seq::empty(), cursor: None },
            },
        ],
    }
}

/// Rows under way: the rows, the width of the last of them, and the
/// widths of those before it together.
pub struct Wrapped {
    pub rows: Seq<RowView>,
    pub last: nat,
    pub before: nat,
}

/// The rows before any of the line is placed: one row with the prompt,
/// which holds the cursor where the cursor is `cursor` cells into the
/// row and the prompt alone is as wide.
pub open spec fn started(prompt: TextView, prompt_width: nat, cursor: usize) -> Wrapped {
    Wrapped {
        rows: seq![lone(prompt.parts, if prompt_width >= cursor { Some(cursor) } else { prompt.cursor })],
        last: prompt_width,
        before: 0,
    }
}

/// The rows after one more stretch is placed. The stretch starts a row
/// where the last row would with it be as wide as the terminal, else it
/// goes to the end of the last row. The row that it goes to holds the
/// cursor where the cursor is `cursor` cells into all the rows and the
/// stretch is the one that reaches so far.
pub open spec fn placed(s: Wrapped, part: PartView, cursor: usize, width: usize) -> Wrapped {
    let sofar = crate::readline::display::capped((s.before + s.last) as int);
    let here = cursor > sofar && crate::readline::display::capped(sofar + part.width) >= cursor;
    if crate::readline::display::capped(s.last + part.width) >= width {
        Wrapped {
            rows: s.rows.push(lone(seq![part], if here { Some((cursor - sofar) as usize) } else { None })),
            last: part.width as nat,
            before: sofar,
        }
    } else {
        let text = s.rows.last().columns[0].left;
        Wrapped {
            rows: s.rows.update(
                s.rows.len() - 1,
                lone(
                    text.parts.push(part),
                    if here {
                        Some(crate::readline::display::capped((cursor - sofar) + s.last) as usize)
                    } else {
                        text.cursor
                    },
                ),
            ),
            last: (s.last + part.width) as nat,
            before: s.before,
        }
    }
}

/// The rows after the first `k` stretches of a word are placed.
pub open spec fn placed_all(s: Wrapped, texts: Seq<Seq<char>>, k: int, first: bool, cursor: usize, width: usize) -> Wrapped
    decreases k,
{
    if k <= 0 || k > texts.len() {
        s
    } else {
        placed(placed_all(s, texts, k - 1, first, cursor, width), part_of(texts[k - 1], first), cursor, width)
    }
}

/// The rows after the first `k` words are placed, each cut into
/// stretches no longer than the terminal is wide.
pub open spec fn wrapped(
    prompt: TextView,
    prompt_width: nat,
    words: Seq<Seq<char>>,
    k: int,
    cursor: usize,
    width: usize,
) -> Wrapped
    decreases k,
{
    if k <= 0 || k > words.len() {
        started(prompt, prompt_width, cursor)
    } else {
        let cut = pieces(words[k - 1], width as int);
        placed_all(
            wrapped(prompt, prompt_width, words, k - 1, cursor, width),
            cut,
            cut.len() as int,
            k - 1 == 0,
            cursor,
            width,
        )
    }
}

/// Whether the rows in hand are those of `s`: the last of them is one
/// column with text at its left only, and as wide as `s` has it.
pub open spec fn in_hand(rows: Seq<Row>, s: Wrapped) -> bool {
    &&& crate::readline::display::rows_view(rows) == s.rows
    &&& rows.len() >= 1
    &&& rows.last().columns@.len() == 1
    &&& rows.last().columns@[0].center.components@.len() == 0
    &&& rows.last().columns@[0].right.components@.len() == 0
    &&& rows.last().columns@[0].center.cursor is None
    &&& rows.last().columns@[0].right.cursor is None
    &&& crate::readline::display::total_width(rows.last().columns@[0].left.components@) == s.last
}

/// A row of one column with the given text at its left.
fn lone_row(left: DisplayString) -> (row: Row)
    ensures
        row@ == lone(left@.parts, left.cursor),
        row.columns@.len() == 1,
        row.columns@[0].left == left,
        row.columns@[0].center.components@.len() == 0,
        row.columns@[0].right.components@.len() == 0,
        row.columns@[0].center.cursor is None,
        row.columns@[0].right.cursor is None,
{
    let mut columns: Vec<Column> = Vec::new();
    columns.push(Column { left, center: DisplayString::new(), right: DisplayString::new() });
    let row = Row { columns };
    assert(row@.columns =~= lone(left@.parts, left.cursor).columns) by {
        assert(row.columns@[0].center@.parts =~= Seq::<PartView>::empty());
        assert(row.columns@[0].right@.parts =~= Seq::<PartView>::empty());
    }
    row
}

/// Places one more stretch, see [`placed`].
fn place(
    rows: &mut Vec<Row>,
    before: &mut usize,
    text: &str,
    first: bool,
    cursor: usize,
    width: usize,
    Ghost(s): Ghost<Wrapped>,
)
    requires
        in_hand(old(rows)@, s),
        *old(before) == s.before,
    ensures
        in_hand(final(rows)@, placed(s, part_of(text@, first), cursor, width)),
        *final(before) == placed(s, part_of(text@, first), cursor, width).before,
{
    let component = if first {
        DisplayStringComponent::new(
            text,
            Color::new(Mode::Normal(Base::White), Mode::Normal(Base::Reset)),
            Style::of(1),
        )
    } else {
        DisplayStringComponent::new(
            text,
            Color::new(Mode::Normal(Base::Blue), Mode::Light(Base::Reset)),
            Style::of(0),
        )
    };
    assert(component@ == part_of(text@, first));
    let ghost next = placed(s, part_of(text@, first), cursor, width);
    let ghost shown = crate::readline::display::rows_view(rows@);
    let mut row = match rows.pop() {
        Some(row) => row,
        None => {
            return ;
        },
    };
    let ghost others = rows@;
    assert(crate::readline::display::rows_view(others) =~= shown.drop_last());
    assert(row@ == shown.last());
    let ghost whole = row@;
    let mut column = match row.columns.pop() {
        Some(column) => column,
        None => {
            return ;
        },
    };
    let ghost parts = column.left@.parts;
    assert(whole.columns[0] == column@);
    let total = column.left.width();
    let sofar = capped_sum(*before, total);
    let here = cursor > sofar && capped_sum(sofar, component.width()) >= cursor;
    if capped_sum(total, component.width()) >= width {
        row.columns.push(column);
        assert(row@.columns =~= whole.columns);
        rows.push(row);
        assert(crate::readline::display::rows_view(rows@) =~= shown);
        let mut components: Vec<DisplayStringComponent> = Vec::new();
        components.push(component);
        let left = DisplayString {
            components,
            cursor: if here {
                Some(cursor - sofar)
            } else {
                None
            },
        };
        assert(left@.parts =~= seq![part_of(text@, first)]);
        assert(left.components@.drop_last() =~= Seq::<DisplayStringComponent>::empty());
        assert(crate::readline::display::total_width(left.components@) == component.str_width) by {
            assert(crate::readline::display::total_width(left.components@.drop_last()) == 0);
        }
        rows.push(lone_row(left));
        *before = sofar;
        assert(crate::readline::display::rows_view(rows@) =~= next.rows);
    } else {
        let ghost old_components = column.left.components@;
        column.left.components.push(component);
        assert(column.left.components@.drop_last() =~= old_components);
        if here {
            column.left.cursor = Some(capped_sum(cursor - sofar, total));
        }
        assert(column.left@.parts =~= parts.push(part_of(text@, first)));
        assert(column.center@.parts =~= Seq::<PartView>::empty());
        assert(column.right@.parts =~= Seq::<PartView>::empty());
        row.columns.push(column);
        assert(row@.columns =~= next.rows.last().columns);
        rows.push(row);
        assert(crate::readline::display::rows_view(rows@) =~= next.rows);
    }
}

/// Lays a prompt and the words of a line out into rows for a terminal
/// that is `width` cells wide, with the cursor `cursor` cells into them,
/// see [`wrapped`].
pub fn wrap_words(prompt: &DisplayString, words: &[String], cursor: usize, width: usize) -> (rows: Vec<Row>)
    requires
        width > 0,
    ensures
        crate::readline::display::rows_view(rows@) == wrapped(
            prompt@,
            crate::readline::display::total_width(prompt.components@),
            crate::text::views(words@),
            words@.len() as int,
            cursor,
            width,
        ).rows,
{
    let mut rows: Vec<Row> = Vec::new();
    let mut first_text = prompt.duplicate();
    let prompt_width = prompt.width();
    if prompt_width >= cursor {
        first_text.cursor = Some(cursor);
    }
    assert(first_text@.parts == prompt@.parts);
    rows.push(lone_row(first_text));
    let ghost texts = crate::text::views(words@);
    let ghost pw = crate::readline::display::total_width(prompt.components@);
    assert(crate::readline::display::rows_view(rows@) =~= started(prompt@, pw, cursor).rows);
    let mut before: usize = 0;
    let mut k: usize = 0;
    while k < words.len()
        invariant
            k <= words@.len(),
            width > 0,
            texts == crate::text::views(words@),
            in_hand(rows@, wrapped(prompt@, pw, texts, k as int, cursor, width)),
            before == wrapped(prompt@, pw, texts, k as int, cursor, width).before,
        decreases words@.len() - k,
    {
        let cut = sub_strings(words[k].as_str(), width);
        let ghost start = wrapped(prompt@, pw, texts, k as int, cursor, width);
        let ghost cuts = crate::text::views(cut@);
        assert(cuts == pieces(texts[k as int], width as int));
        let mut j: usize = 0;
        while j < cut.len()
            invariant
                j <= cut@.len(),
                cuts == crate::text::views(cut@),
                in_hand(rows@, placed_all(start, cuts, j as int, k == 0, cursor, width)),
                before == placed_all(start, cuts, j as int, k == 0, cursor, width).before,
            decreases cut@.len() - j,
        {
            place(
                &mut rows,
                &mut before,
                cut[j].as_str(),
                k == 0,
                cursor,
                width,
                Ghost(placed_all(start, cuts, j as int, k == 0, cursor, width)),
            );
            j += 1;
        }
        k += 1;
    }
    rows
}

impl<E: Engine> LineEditor<E> {
    /// The cell of the cursor, counted from the start of the prompt: the
    /// width of the prompt and the number of grapheme clusters before
    /// the cursor.
    pub open spec fn cursor_cell(&self) -> usize {
        let line = self.editor.ed.line();
        let upto = if self.editor.ed.cursor <= line.len() {
            self.editor.ed.cursor as int
        } else {
            line.len() as int
        };
        crate::readline::display::capped(
            (crate::readline::line_buffer::grapheme_sizes(line.take(upto)).len()
                + crate::readline::display::total_width(self.prompt.components@)) as int,
        ) as usize
    }

    /// The rows that show the prompt and the line on a terminal of
    /// `width` cells: the line is cut at its word boundaries, and the
    /// words are placed as [`wrapped`] says.
    pub open spec fn rows_shown(&self, width: usize) -> Seq<RowView> {
        let words = word_bounds(self.editor.ed.line());
        wrapped(
            self.prompt@,
            crate::readline::display::total_width(self.prompt.components@),
            words,
            words.len() as int,
            self.cursor_cell(),
            width,
        ).rows
    }
}

impl<E: Engine> Render for LineEditor<E> {
    open spec fn ready(&self) -> bool {
        self.wf()
    }

    /// The rows that show the prompt and the line, see
    /// [`LineEditor::rows_shown`].
    fn render(&mut self, width: usize) -> (rows: Vec<Row>)
        ensures
            *final(self) == *old(self),
            crate::readline::display::rows_view(rows@) == old(self).rows_shown(width),
    {
        let buffer = self.buffer();
        let cursor = self.cursor();
        let upto = if cursor <= buffer.len() {
            cursor
        } else {
            buffer.len()
        };
        let line = crate::text::string_of(buffer);
        let before = crate::text::string_of(vstd::slice::slice_subrange(buffer, 0, upto));
        assert(before@ =~= self.editor.ed.line().take(upto as int));
        let clusters = crate::readline::line_buffer::graphemes(before.as_str());
        let cell = capped_sum(clusters.len(), self.prompt.width());
        let words = split_word_bounds(line.as_str());
        wrap_words(&self.prompt, words.as_slice(), cell, width)
    }
}

/// The stretches between the word boundaries of a text, in order, as
/// `unicode_segmentation::UnicodeSegmentation::split_word_bounds` cuts
/// it.
pub uninterp spec fn word_bounds(s: Seq<char>) -> Seq<Seq<char>>;

/// Calls `unicode_segmentation::UnicodeSegmentation::split_word_bounds`
/// and copies each stretch it yields.
#[verifier::external_body]
fn split_word_bounds(s: &str) -> (r: Vec<String>)
    ensures
        crate::text::views(r@) == word_bounds(s@),
{
    unicode_segmentation::UnicodeSegmentation::split_word_bounds(s).map(|w| w.to_owned()).collect()
}

/// A text cut into stretches of `width` characters; the last may be
/// shorter.
pub open spec fn pieces(text: Seq<char>, width: int) -> Seq<Seq<char>>
    decreases text.len(),
{
    if width <= 0 || text.len() == 0 {
        Seq::empty()
    } else if text.len() <= width {
        seq![text]
    } else {
        seq![text.take(width)] + pieces(text.skip(width), width)
    }
}

/// Cutting what is left of a text goes on from the stretches cut so far.
pub proof fn lemma_pieces_step(text: Seq<char>, width: int, from: int)
    requires
        0 < width,
        0 <= from < text.len(),
    ensures
        pieces(text.skip(from), width) == seq![
            text.subrange(from, if from + width <= text.len() { from + width } else { text.len() as int }),
        ] + pieces(text.skip(if from + width <= text.len() { from + width } else { text.len() as int }), width),
{
    let rest = text.skip(from);
    if rest.len() <= width {
        assert(rest =~= text.subrange(from, text.len() as int));
        assert(text.skip(text.len() as int) =~= Seq::<char>::empty());
        assert(pieces(rest, width) =~= seq![rest] + pieces(Seq::<char>::empty(), width));
    } else {
        assert(rest.take(width) =~= text.subrange(from, from + width));
        assert(rest.skip(width) =~= text.skip(from + width));
    }
}

/// Cuts a text into stretches of `width` characters, see [`pieces`].
pub fn sub_strings(text: &str, width: usize) -> (r: Vec<String>)
    requires
        width > 0,
    ensures
        crate::text::views(r@) == pieces(text@, width as int),
{
    let chars = crate::text::chars_of(text);
    let n = chars.len();
    let mut r: Vec<String> = Vec::new();
    let mut pos: usize = 0;
    assert(chars@.skip(0) =~= chars@);
    assert(crate::text::views(r@) + pieces(chars@.skip(0), width as int) =~= pieces(text@, width as int));
    while pos < n
        invariant
            pos <= n,
            n == chars@.len(),
            chars@ == text@,
            width > 0,
            crate::text::views(r@) + pieces(chars@.skip(pos as int), width as int) == pieces(text@, width as int),
        decreases n - pos,
    {
        let end = if width <= n - pos {
            pos + width
        } else {
            n
        };
        proof {
            lemma_pieces_step(chars@, width as int, pos as int);
        }
        let part = crate::text::string_of(vstd::slice::slice_subrange(chars.as_slice(), pos, end));
        let ghost before = r@;
        r.push(part);
        assert(crate::text::views(r@) =~= crate::text::views(before).push(chars@.subrange(pos as int, end as int)));
        assert(crate::text::views(r@) + pieces(chars@.skip(end as int), width as int) =~= crate::text::views(
            before,
        ) + pieces(chars@.skip(pos as int), width as int));
        pos = end;
    }
    assert(chars@.skip(n as int) =~= Seq::<char>::empty());
    assert(crate::text::views(r@) =~= pieces(text@, width as int));
    r
}

} // verus!
