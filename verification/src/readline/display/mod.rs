//! What the editor shows: rows of columns of styled text.

use vstd::prelude::*;
use crate::readline::display::color::{Base, Mode};

pub mod color;

verus! {

/// The columns a text takes on a terminal, as
/// `unicode_width::UnicodeWidthStr::width` counts them.
pub uninterp spec fn text_width(s: Seq<char>) -> usize;

/// The columns a text takes on a terminal in an East Asian context, as
/// `unicode_width::UnicodeWidthStr::width_cjk` counts them.
pub uninterp spec fn text_width_cjk(s: Seq<char>) -> usize;

/// Calls `unicode_width::UnicodeWidthStr::width`, which gives the
/// displayed width of a string in columns.
#[verifier::external_body]
fn width_of(s: &str) -> (w: usize)
    ensures
        w == text_width(s@),
{
    unicode_width::UnicodeWidthStr::width(s)
}

/// Calls `unicode_width::UnicodeWidthStr::width_cjk`, which gives the
/// displayed width of a string in columns where ambiguous characters
/// count as wide.
#[verifier::external_body]
fn width_cjk_of(s: &str) -> (w: usize)
    ensures
        w == text_width_cjk(s@),
{
    unicode_width::UnicodeWidthStr::width_cjk(s)
}

/// The length of a text in bytes, as a machine word.
pub open spec fn byte_len(s: Seq<char>) -> usize {
    vstd::utf8::encode_utf8(s).len() as usize
}

/// A foreground and a background colour.
#[derive(Clone, Copy, Debug, PartialEq, Eq, Structural)]
pub struct Color {
    pub foreground: Mode,
    pub background: Mode,
}

impl Color {
    /// The colour pair.
    pub fn new(fg: Mode, bg: Mode) -> (c: Color)
        ensures
            c.foreground == fg,
            c.background == bg,
    {
        Color { foreground: fg, background: bg }
    }

    /// The colours a terminal starts with.
    pub fn plain() -> (c: Color)
        ensures
            c == (Color { foreground: Mode::Normal(Base::Reset), background: Mode::Normal(Base::Reset) }),
    {
        Color { foreground: Mode::Normal(Base::Reset), background: Mode::Normal(Base::Reset) }
    }
}

/// What starts a control sequence of a terminal: the escape character
/// and an opening bracket.
pub open spec fn lead() -> Seq<char> {
    seq!['\x1b', '[']
}

/// The control sequence that sets the colour of the text, or of what is
/// behind it where `back` holds.
pub open spec fn mode_code(m: Mode, back: bool) -> Seq<char> {
    match crate::readline::display::color::mode_number(m) {
        Some(n) => lead() + seq![if back { '4' } else { '3' }, '8', ';', '5', ';']
            + crate::text::decimal_nat(n) + seq!['m'],
        None => lead() + seq![if back { '4' } else { '3' }, '9', 'm'],
    }
}

/// The control sequences that set both colours: first that of the text.
pub open spec fn color_code(c: Color) -> Seq<char> {
    mode_code(c.foreground, false) + mode_code(c.background, true)
}

/// The control sequences that set a style: the one that takes every
/// setting back where there is none, else one for each setting, in the
/// order bold, italic, underlined.
pub open spec fn style_code(s: Style) -> Seq<char> {
    if s.bits == 0 {
        lead() + seq!['m']
    } else {
        (if s.bits & 1 != 0 { lead() + seq!['1', 'm'] } else { Seq::<char>::empty() })
            + (if s.bits & 2 != 0 { lead() + seq!['3', 'm'] } else { Seq::<char>::empty() })
            + (if s.bits & 4 != 0 { lead() + seq!['4', 'm'] } else { Seq::<char>::empty() })
    }
}

/// Writes the control sequence of one colour after `out`.
fn push_mode(out: &mut String, m: Mode, back: bool)
    ensures
        final(out)@ == old(out)@ + mode_code(m, back),
{
    proof {
        reveal_strlit("\x1b[48;5;");
        reveal_strlit("\x1b[38;5;");
        reveal_strlit("\x1b[49m");
        reveal_strlit("\x1b[39m");
        reveal_strlit("m");
    }
    match m.number() {
        Some(n) => {
            if back {
                out.append("\x1b[48;5;");
            } else {
                out.append("\x1b[38;5;");
            }
            let digits = crate::text::decimal_u64(n as u64);
            out.append(digits.as_str());
            out.append("m");
            assert(out@ =~= old(out)@ + mode_code(m, back));
        },
        None => {
            if back {
                out.append("\x1b[49m");
            } else {
                out.append("\x1b[39m");
            }
            assert(out@ =~= old(out)@ + mode_code(m, back));
        },
    }
}

impl Color {
    /// Writes the control sequences of the colours after `out`.
    pub fn write_to(&self, out: &mut String)
        ensures
            final(out)@ == old(out)@ + color_code(*self),
    {
        push_mode(out, self.foreground, false);
        push_mode(out, self.background, true);
        assert(out@ =~= old(out)@ + color_code(*self));
    }

    /// The control sequences of the colours.
    pub fn code(&self) -> (r: String)
        ensures
            r@ == color_code(*self),
    {
        let mut r = String::new();
        self.write_to(&mut r);
        assert(r@ =~= color_code(*self));
        r
    }
}

/// How text is set: a set of `BOLD`, `ITALIC` and `UNDERLINE`.
#[derive(Clone, Copy, Debug, PartialEq, Eq, Structural)]
pub struct Style {
    pub bits: u8,
}

/// No setting.
pub const NORMAL: u8 = 0;

/// Bold.
pub const BOLD: u8 = 1;

/// Italic.
pub const ITALIC: u8 = 2;

/// Underlined.
pub const UNDERLINE: u8 = 4;

impl Style {
    /// The style with the given settings, see [`BOLD`], [`ITALIC`] and
    /// [`UNDERLINE`].
    pub fn of(bits: u8) -> (r: Style)
        ensures
            r.bits == bits,
    {
        Style { bits }
    }

    /// Whether every setting of `other` is among these.
    pub fn contains(&self, other: Style) -> (r: bool)
        ensures
            r == (self.bits & other.bits == other.bits),
    {
        self.bits & other.bits == other.bits
    }

    /// These settings and those of `other`.
    pub fn with(&self, other: Style) -> (r: Style)
        ensures
            r.bits == self.bits | other.bits,
    {
        Style { bits: self.bits | other.bits }
    }

    /// Writes the control sequences of the style after `out`.
    pub fn write_to(&self, out: &mut String)
        ensures
            final(out)@ == old(out)@ + style_code(*self),
    {
        proof {
            reveal_strlit("\x1b[m");
            reveal_strlit("\x1b[1m");
            reveal_strlit("\x1b[3m");
            reveal_strlit("\x1b[4m");
        }
        if self.bits == 0 {
            out.append("\x1b[m");
            assert(out@ =~= old(out)@ + style_code(*self));
        } else {
            if self.bits & 1 != 0 {
                out.append("\x1b[1m");
            }
            if self.bits & 2 != 0 {
                out.append("\x1b[3m");
            }
            if self.bits & 4 != 0 {
                out.append("\x1b[4m");
            }
            assert(out@ =~= old(out)@ + style_code(*self));
        }
    }

    /// The control sequences of the style.
    pub fn code(&self) -> (r: String)
        ensures
            r@ == style_code(*self),
    {
        let mut r = String::new();
        self.write_to(&mut r);
        assert(r@ =~= style_code(*self));
        r
    }
}

/// A stretch of text in one colour and style, with its widths.
#[derive(Clone, Debug)]
pub struct DisplayStringComponent {
    pub text: String,
    pub color: Color,
    pub style: Style,
    pub str_width: usize,
    pub str_width_cjk: usize,
}

impl DisplayStringComponent {
    /// The widths on record are those of the text.
    pub open spec fn wf(&self) -> bool {
        self.str_width == text_width(self.text@) && self.str_width_cjk == text_width_cjk(self.text@)
    }

    /// A stretch of text in the given colour and style.
    pub fn new(text: &str, color: Color, style: Style) -> (c: DisplayStringComponent)
        ensures
            c.wf(),
            c.text@ == text@,
            c.color == color,
            c.style == style,
    {
        let width = width_of(text);
        let width_cjk = width_cjk_of(text);
        DisplayStringComponent {
            text: text.to_owned(),
            color,
            style,
            str_width: width,
            str_width_cjk: width_cjk,
        }
    }

    /// A stretch of plain text.
    pub fn from_text(text: &str) -> (c: DisplayStringComponent)
        ensures
            c.wf(),
            c.text@ == text@,
            c.color == (Color { foreground: Mode::Normal(Base::Reset), background: Mode::Normal(Base::Reset) }),
            c.style == (Style { bits: 0 }),
    {
        DisplayStringComponent::new(text, Color::plain(), Style::of(NORMAL))
    }

    /// The length of the text in bytes.
    pub fn len(&self) -> (n: usize)
        ensures
            n == byte_len(self.text@),
    {
        self.text.as_str().len()
    }

    /// The columns the text takes.
    pub fn width(&self) -> (w: usize)
        ensures
            w == self.str_width,
    {
        self.str_width
    }

    /// The columns the text takes in an East Asian context.
    pub fn width_cjk(&self) -> (w: usize)
        ensures
            w == self.str_width_cjk,
    {
        self.str_width_cjk
    }

    /// A copy.
    pub fn duplicate(&self) -> (c: DisplayStringComponent)
        ensures
            c@ == self@,
            c.text@ == self.text@,
            c.color == self.color,
            c.style == self.style,
            c.str_width == self.str_width,
            c.str_width_cjk == self.str_width_cjk,
    {
        DisplayStringComponent {
            text: self.text.clone(),
            color: self.color,
            style: self.style,
            str_width: self.str_width,
            str_width_cjk: self.str_width_cjk,
        }
    }
}

/// Stretches of text one after the other, and the column of the cursor
/// where the cursor is in them.
#[derive(Clone, Debug)]
pub struct DisplayString {
    pub components: Vec<DisplayStringComponent>,
    pub cursor: Option<usize>,
}

/// The sum of the widths on record, cut at what a machine word holds.
pub open spec fn total_width(components: Seq<DisplayStringComponent>) -> nat
    decreases components.len(),
{
    if components.len() == 0 {
        0
    } else {
        capped((total_width(components.drop_last()) + components.last().str_width) as int)
    }
}

/// The sum of the lengths in bytes, cut at what a machine word holds.
pub open spec fn total_len(components: Seq<DisplayStringComponent>) -> nat
    decreases components.len(),
{
    if components.len() == 0 {
        0
    } else {
        capped((total_len(components.drop_last()) + byte_len(components.last().text@)) as int)
    }
}

/// A number, or the greatest a machine word holds where the number is
/// greater.
pub open spec fn capped(n: int) -> nat {
    if n < 0 {
        0
    } else if n <= usize::MAX {
        n as nat
    } else {
        usize::MAX as nat
    }
}

/// The sum of two numbers, or the greatest a machine word holds where the
/// sum is greater.
pub fn capped_sum(a: usize, b: usize) -> (r: usize)
    ensures
        r == capped(a + b),
{
    if b > usize::MAX - a {
        usize::MAX
    } else {
        a + b
    }
}

impl DisplayString {
    /// No text, no cursor.
    pub fn new() -> (s: DisplayString)
        ensures
            s.components@.len() == 0,
            s.cursor is None,
    {
        DisplayString { components: Vec::new(), cursor: None }
    }

    /// One stretch of plain text, no cursor.
    pub fn from_text(text: &str) -> (s: DisplayString)
        ensures
            s.components@.len() == 1,
            s.components@[0].text@ == text@,
            s.components@[0].wf(),
            s.cursor is None,
    {
        let mut components: Vec<DisplayStringComponent> = Vec::new();
        components.push(DisplayStringComponent::from_text(text));
        DisplayString { components, cursor: None }
    }

    /// The length of the text in bytes.
    pub fn len(&self) -> (n: usize)
        ensures
            n == total_len(self.components@),
    {
        let mut n: usize = 0;
        let mut i: usize = 0;
        assert(self.components@.take(0) =~= Seq::<DisplayStringComponent>::empty());
        while i < self.components.len()
            invariant
                i <= self.components@.len(),
                n == total_len(self.components@.take(i as int)),
            decreases self.components@.len() - i,
        {
            assert(self.components@.take(i + 1).drop_last() =~= self.components@.take(i as int));
            assert(self.components@.take(i + 1).last() == self.components@[i as int]);
            n = capped_sum(n, self.components[i].len());
            i += 1;
        }
        assert(self.components@.take(self.components@.len() as int) =~= self.components@);
        n
    }

    /// The columns the text takes.
    pub fn width(&self) -> (w: usize)
        ensures
            w == total_width(self.components@),
    {
        let mut w: usize = 0;
        let mut i: usize = 0;
        assert(self.components@.take(0) =~= Seq::<DisplayStringComponent>::empty());
        while i < self.components.len()
            invariant
                i <= self.components@.len(),
                w == total_width(self.components@.take(i as int)),
            decreases self.components@.len() - i,
        {
            assert(self.components@.take(i + 1).drop_last() =~= self.components@.take(i as int));
            assert(self.components@.take(i + 1).last() == self.components@[i as int]);
            w = capped_sum(w, self.components[i].width());
            i += 1;
        }
        assert(self.components@.take(self.components@.len() as int) =~= self.components@);
        w
    }

    /// The text without colours and styles.
    pub fn to_text(&self) -> (r: String)
        ensures
            r@ == plain_text(self.components@),
    {
        let mut r = String::new();
        let mut i: usize = 0;
        assert(self.components@.take(0) =~= Seq::<DisplayStringComponent>::empty());
        while i < self.components.len()
            invariant
                i <= self.components@.len(),
                r@ == plain_text(self.components@.take(i as int)),
            decreases self.components@.len() - i,
        {
            assert(self.components@.take(i + 1).drop_last() =~= self.components@.take(i as int));
            assert(self.components@.take(i + 1).last() == self.components@[i as int]);
            r.append(self.components[i].text.as_str());
            i += 1;
        }
        assert(self.components@.take(self.components@.len() as int) =~= self.components@);
        r
    }

    /// A copy.
    pub fn duplicate(&self) -> (s: DisplayString)
        ensures
            s@ == self@,
            s.cursor == self.cursor,
            s.components@.len() == self.components@.len(),
            total_width(s.components@) == total_width(self.components@),
            plain_text(s.components@) == plain_text(self.components@),
    {
        let mut components: Vec<DisplayStringComponent> = Vec::new();
        let mut i: usize = 0;
        assert(self.components@.take(0) =~= Seq::<DisplayStringComponent>::empty());
        while i < self.components.len()
            invariant
                i <= self.components@.len(),
                components@.len() == i,
                forall|k: int| 0 <= k < i ==> (#[trigger] components@[k])@ == self.components@[k]@,
                total_width(components@) == total_width(self.components@.take(i as int)),
                plain_text(components@) == plain_text(self.components@.take(i as int)),
            decreases self.components@.len() - i,
        {
            assert(self.components@.take(i + 1).drop_last() =~= self.components@.take(i as int));
            assert(self.components@.take(i + 1).last() == self.components@[i as int]);
            let ghost before = components@;
            components.push(self.components[i].duplicate());
            assert(components@.drop_last() =~= before);
            i += 1;
        }
        assert(self.components@.take(self.components@.len() as int) =~= self.components@);
        let s = DisplayString { components, cursor: self.cursor };
        assert(s@.parts =~= self@.parts);
        s
    }
}

/// The texts of the stretches, one after the other.
pub open spec fn plain_text(components: Seq<DisplayStringComponent>) -> Seq<char>
    decreases components.len(),
{
    if components.len() == 0 {
        Seq::empty()
    } else {
        plain_text(components.drop_last()) + components.last().text@
    }
}

/// A column: text at its left, in its middle and at its right.
#[derive(Clone, Debug)]
pub struct Column {
    pub left: DisplayString,
    pub center: DisplayString,
    pub right: DisplayString,
}

impl Column {
    /// The columns of a terminal the three texts take together.
    pub open spec fn spec_width(&self) -> nat {
        capped(
            (capped((total_width(self.left.components@) + total_width(self.center.components@)) as int)
                + total_width(self.right.components@)) as int,
        )
    }

    /// The columns of a terminal the three texts take together.
    pub fn width(&self) -> (w: usize)
        ensures
            w == self.spec_width(),
    {
        capped_sum(capped_sum(self.left.width(), self.center.width()), self.right.width())
    }
}

/// A row of columns.
#[derive(Clone, Debug)]
pub struct Row {
    pub columns: Vec<Column>,
}

/// The sum of the widths of the columns, cut at what a machine word holds.
pub open spec fn row_width(columns: Seq<Column>) -> nat
    decreases columns.len(),
{
    if columns.len() == 0 {
        0
    } else {
        capped((row_width(columns.drop_last()) + columns.last().spec_width()) as int)
    }
}

impl Row {
    /// The columns of a terminal the row takes.
    pub fn width(&self) -> (w: usize)
        ensures
            w == row_width(self.columns@),
    {
        let mut w: usize = 0;
        let mut i: usize = 0;
        assert(self.columns@.take(0) =~= Seq::<Column>::empty());
        while i < self.columns.len()
            invariant
                i <= self.columns@.len(),
                w == row_width(self.columns@.take(i as int)),
            decreases self.columns@.len() - i,
        {
            assert(self.columns@.take(i + 1).drop_last() =~= self.columns@.take(i as int));
            assert(self.columns@.take(i + 1).last() == self.columns@[i as int]);
            w = capped_sum(w, self.columns[i].width());
            i += 1;
        }
        assert(self.columns@.take(self.columns@.len() as int) =~= self.columns@);
        w
    }
}

/// A stretch of text as a value: its characters, colours, style and
/// widths.
pub struct PartView {
    pub text: Seq<char>,
    pub color: Color,
    pub style: Style,
    pub width: usize,
    pub width_cjk: usize,
}

/// A text as a value: its stretches and the column of the cursor.
pub struct TextView {
    pub parts: Seq<PartView>,
    pub cursor: Option<usize>,
}

/// A column as a value.
pub struct ColumnView {
    pub left: TextView,
    pub center: TextView,
    pub right: TextView,
}

/// A row as a value.
pub struct RowView {
    pub columns: Seq<ColumnView>,
}

impl View for DisplayStringComponent {
    type V = PartView;

    open spec fn view(&self) -> PartView {
        PartView {
            text: self.text@,
            color: self.color,
            style: self.style,
            width: self.str_width,
            width_cjk: self.str_width_cjk,
        }
    }
}

impl View for DisplayString {
    type V = TextView;

    open spec fn view(&self) -> TextView {
        TextView { parts: self.components@.map_values(|c: DisplayStringComponent| c@), cursor: self.cursor }
    }
}

impl View for Column {
    type V = ColumnView;

    open spec fn view(&self) -> ColumnView {
        ColumnView { left: self.left@, center: self.center@, right: self.right@ }
    }
}

impl View for Row {
    type V = RowView;

    open spec fn view(&self) -> RowView {
        RowView { columns: self.columns@.map_values(|c: Column| c@) }
    }
}

/// Rows as values.
pub open spec fn rows_view(rows: Seq<Row>) -> Seq<RowView> {
    rows.map_values(|r: Row| r@)
}

/// Something that can be shown.
pub trait Render {
    /// What must hold of it to be shown.
    open spec fn ready(&self) -> bool {
        true
    }

    /// The rows to show on a terminal that is `width` columns wide.
    fn render(&mut self, width: usize) -> (rows: Vec<Row>)
        requires
            old(self).ready(),
            width > 0,
    ;
}

} // verus!
