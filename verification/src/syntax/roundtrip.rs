//! Reading back what was printed: the proof that the lexer, given the
//! text the printer writes for tokens, returns those tokens.

use vstd::prelude::*;
use crate::syntax::lexer::{Scan, ScanOutcome};
use crate::syntax::lexer;
use crate::syntax::printer;
use crate::syntax::lexer::{LexError, TokenOutcome};
use crate::syntax::ast::{ArgumentView, ExprView};
use crate::syntax::parser;
use crate::syntax::tokens::{ComponentView, TokenView};
use crate::text;

verus! {

/// A character that goes on a literal: it does not end the string and
/// starts neither an escape nor a variable.
pub open spec fn plain(c: char, quoted: bool) -> bool {
    !lexer::is_stop(c, quoted) && c != '\\' && c != '$'
}

/// A component as the lexer makes them: a literal is not empty and plain
/// after its first character; the name of a variable is not empty and
/// holds no `}` after its first character.
pub open spec fn tidy_component(c: ComponentView, quoted: bool) -> bool {
    match c {
        ComponentView::Literal(t) => t.len() > 0 && forall|j: int|
            1 <= j < t.len() ==> plain(#[trigger] t[j], quoted),
        ComponentView::EnvVar(n) => n.len() > 0 && forall|j: int|
            1 <= j < n.len() ==> (#[trigger] n[j]) != '}',
    }
}

/// The components of a string as the lexer makes them: at least one, each
/// tidy.
pub open spec fn tidy(c: Seq<ComponentView>, quoted: bool) -> bool {
    &&& c.len() > 0
    &&& forall|k: int| 0 <= k < c.len() ==> tidy_component(#[trigger] c[k], quoted)
}

/// The length of what the first `k` components are written as.
pub open spec fn offset(c: Seq<ComponentView>, k: int) -> int {
    printer::printed_components(c.take(k)).len() as int
}

/// Whether the component at `k` follows a variable.
pub open spec fn follows_var(c: Seq<ComponentView>, k: int) -> bool {
    k >= 1 && c[k - 1] is EnvVar
}

/// What the first `k` components are written as begins what all are
/// written as.
pub proof fn lemma_components_prefix(c: Seq<ComponentView>, k: int)
    requires
        0 <= k <= c.len(),
    ensures
        0 <= offset(c, k) <= printer::printed_components(c).len(),
        printer::printed_components(c).subrange(0, offset(c, k)) == printer::printed_components(
            c.take(k),
        ),
        k < c.len() ==> printer::printed_components(c.take(k + 1)) == printer::printed_components(
            c.take(k),
        ) + printer::printed_component(c[k]),
        k < c.len() ==> offset(c, k + 1) == offset(c, k) + printer::printed_component(c[k]).len(),
    decreases c.len() - k,
{
    let whole = printer::printed_components(c);
    if k < c.len() {
        let more = c.take(k + 1);
        assert(more.drop_last() =~= c.take(k));
        assert(more.last() == c[k]);
        assert(more.len() >= 2 ==> more[more.len() - 2] == c[k - 1]);
        lemma_components_prefix(c, k + 1);
        let longer = printer::printed_components(more);
        let shorter = printer::printed_components(c.take(k));
        assert(longer == shorter + printer::printed_component(c[k]));
        assert(whole.subrange(0, shorter.len() as int) =~= whole.subrange(0, longer.len() as int).subrange(
            0,
            shorter.len() as int,
        ));
        assert(longer.subrange(0, shorter.len() as int) =~= shorter);
    } else {
        assert(c.take(k) =~= c);
        assert(whole.subrange(0, whole.len() as int) =~= whole);
    }
}

/// In the base state the scanner walks over plain characters.
pub proof fn lemma_walk_plain(
    w: Seq<char>,
    start: int,
    i: int,
    j: int,
    base: int,
    var: int,
    quoted: bool,
    acc: Seq<ComponentView>,
)
    requires
        0 <= start < i <= j <= w.len(),
        forall|x: int| i <= x < j ==> plain(#[trigger] w[x], quoted),
    ensures
        lexer::scan(w, start, i, Scan::Base, base, var, quoted, acc) == lexer::scan(
            w,
            start,
            j,
            Scan::Base,
            base,
            var,
            quoted,
            acc,
        ),
    decreases j - i,
{
    if i < j {
        assert(plain(w[i], quoted));
        lemma_walk_plain(w, start, i + 1, j, base, var, quoted, acc);
    }
}

/// Inside a variable the scanner walks over characters other than `}`.
pub proof fn lemma_walk_name(
    w: Seq<char>,
    start: int,
    i: int,
    j: int,
    base: int,
    var: int,
    quoted: bool,
    acc: Seq<ComponentView>,
)
    requires
        0 <= i <= j <= w.len(),
        forall|x: int| i <= x < j ==> (#[trigger] w[x]) != '}',
    ensures
        lexer::scan(w, start, i, Scan::InVar, base, var, quoted, acc) == lexer::scan(
            w,
            start,
            j,
            Scan::InVar,
            base,
            var,
            quoted,
            acc,
        ),
    decreases j - i,
{
    if i < j {
        assert(w[i] != '}');
        lemma_walk_name(w, start, i + 1, j, base, var, quoted, acc);
    }
}

/// Where the scanner stands after the first `k` components of a printed
/// string that begins at `a0`: after a variable in the state that follows
/// a `}`, with the components so far; otherwise in the base state, the
/// last literal still in progress from `base` on.
pub open spec fn stands(
    w: Seq<char>,
    a0: int,
    c: Seq<ComponentView>,
    k: int,
    state: Scan,
    base: int,
    acc: Seq<ComponentView>,
) -> bool {
    if k == 0 {
        state is Base && base == a0 && acc == Seq::<ComponentView>::empty()
    } else {
        match c[k - 1] {
            ComponentView::EnvVar(_) => state is VarClose && acc == c.take(k),
            ComponentView::Literal(t) => {
                &&& state is Base
                &&& base == a0 + offset(c, k) - t.len()
                &&& a0 <= base
                &&& acc == c.take(k - 1)
                &&& w.subrange(base, a0 + offset(c, k)) == t
            },
        }
    }
}

/// The text `w` holds, from `a0` on, what the components are written as,
/// and ends there or goes on with a character that ends the string.
pub open spec fn holds_string(w: Seq<char>, a0: int, c: Seq<ComponentView>, quoted: bool) -> bool {
    let size = printer::printed_components(c).len() as int;
    &&& 0 <= a0
    &&& a0 + size <= w.len()
    &&& w.subrange(a0, a0 + size) == printer::printed_components(c)
    &&& (a0 + size == w.len() || lexer::is_stop(w[a0 + size], quoted))
}

proof fn lemma_piece(w: Seq<char>, a0: int, c: Seq<ComponentView>, quoted: bool, k: int)
    requires
        holds_string(w, a0, c, quoted),
        0 <= k < c.len(),
    ensures
        a0 + offset(c, k + 1) <= w.len(),
        0 <= offset(c, k),
        w.subrange(a0 + offset(c, k), a0 + offset(c, k + 1)) == printer::printed_component(c[k]),
{
    lemma_components_prefix(c, k);
    lemma_components_prefix(c, k + 1);
    let whole = printer::printed_components(c);
    let piece = printer::printed_component(c[k]);
    let from = offset(c, k);
    let to = offset(c, k + 1);
    assert(whole.subrange(0, to) == printer::printed_components(c.take(k)) + piece);
    assert forall|x: int| 0 <= x < piece.len() implies w[a0 + from + x] == piece[x] by {
        assert(w.subrange(a0, a0 + whole.len())[from + x] == whole[from + x]);
        assert(whole.subrange(0, to)[from + x] == whole[from + x]);
    }
    assert(w.subrange(a0 + from, a0 + to) =~= piece);
}

/// The scanner, standing after the first `k` components of a printed
/// string, goes on to return all components and the position after the
/// string.
#[verifier::rlimit(80)]
#[verifier::spinoff_prover]
pub proof fn lemma_scan_rest(
    w: Seq<char>,
    a0: int,
    c: Seq<ComponentView>,
    quoted: bool,
    k: int,
    state: Scan,
    base: int,
    var: int,
    acc: Seq<ComponentView>,
)
    requires
        tidy(c, quoted),
        holds_string(w, a0, c, quoted),
        0 <= k <= c.len(),
        stands(w, a0, c, k, state, base, acc),
    ensures
        lexer::scan(w, a0, a0 + offset(c, k), state, base, var, quoted, acc) == ScanOutcome::Done(
            c,
            a0 + printer::printed_components(c).len(),
        ),
    decreases c.len() - k,
{
    let size = printer::printed_components(c).len() as int;
    let pos = a0 + offset(c, k);
    lemma_components_prefix(c, k);
    if k == c.len() {
        assert(c.take(k) =~= c);
        assert(pos == a0 + size);
        match c[k - 1] {
            ComponentView::EnvVar(_) => {
                assert(acc == c);
            },
            ComponentView::Literal(t) => {
                assert(c.take(k - 1).push(ComponentView::Literal(t)) =~= c);
                assert(base < pos);
                assert(lexer::flushed(w, base, pos, acc) == c);
            },
        }
    } else {
        let comp = c[k];
        let piece = printer::printed_component(comp);
        let next = a0 + offset(c, k + 1);
        lemma_piece(w, a0, c, quoted, k);
        assert(next == pos + piece.len());
        assert forall|x: int| 0 <= x < piece.len() implies w[pos + x] == piece[x] by {
            assert(w.subrange(pos, next)[x] == w[pos + x]);
        }
        assert(tidy_component(comp, quoted));
        // what has been gathered once the literal in progress is closed,
        // and where the scanner takes the literal in progress to begin
        let gathered = if follows_var(c, k) {
            acc
        } else {
            lexer::flushed(w, base, pos, acc)
        };
        let from = if follows_var(c, k) {
            pos
        } else {
            base
        };
        if !follows_var(c, k) {
            if k == 0 {
                assert(gathered =~= c.take(k));
            } else {
                match c[k - 1] {
                    ComponentView::Literal(t) => {
                        assert(t.len() > 0) by {
                            assert(tidy_component(c[k - 1], quoted));
                        }
                        assert(c.take(k - 1).push(ComponentView::Literal(t)) =~= c.take(k));
                        assert(gathered =~= c.take(k));
                    },
                    ComponentView::EnvVar(_) => {},
                }
            }
        } else {
            assert(state is VarClose);
            assert(gathered == c.take(k));
        }
        match comp {
            ComponentView::Literal(t) => {
                assert(piece == seq!['\\'] + t);
                assert(w[pos] == '\\') by {
                    assert(w[pos + 0] == piece[0]);
                }
                assert(w[pos] != '~');
                assert(!lexer::is_stop('\\', quoted));
                assert(lexer::scan(w, a0, pos, state, base, var, quoted, acc) == lexer::scan(
                    w,
                    a0,
                    pos + 1,
                    Scan::Escaped,
                    from,
                    var,
                    quoted,
                    gathered,
                ));
                assert(lexer::scan(w, a0, pos + 1, Scan::Escaped, from, var, quoted, gathered)
                    == lexer::scan(w, a0, pos + 2, Scan::Base, pos + 1, var, quoted, gathered));
                assert forall|x: int| pos + 2 <= x < next implies plain(#[trigger] w[x], quoted) by {
                    assert(w[pos + (x - pos)] == piece[x - pos]);
                    assert(piece[x - pos] == t[x - pos - 1]);
                }
                lemma_walk_plain(w, a0, pos + 2, next, pos + 1, var, quoted, gathered);
                assert(w.subrange(pos + 1, next) =~= t) by {
                    assert forall|x: int| 0 <= x < t.len() implies w[pos + 1 + x] == t[x] by {
                        assert(w[pos + (x + 1)] == piece[x + 1]);
                    }
                }
                lemma_scan_rest(w, a0, c, quoted, k + 1, Scan::Base, pos + 1, var, gathered);
            },
            ComponentView::EnvVar(n) => {
                assert(piece == seq!['$', '{'] + n + seq!['}']);
                let close = pos + 2 + n.len();
                assert(w[pos] == '$') by {
                    assert(w[pos + 0] == piece[0]);
                }
                assert(w[pos + 1] == '{') by {
                    assert(w[pos + 1] == piece[1]);
                }
                assert(w[close] == '}') by {
                    assert(w[pos + (2 + n.len())] == piece[(2 + n.len()) as int]);
                }
                assert(!lexer::is_stop('$', quoted));
                assert(lexer::scan(w, a0, pos, state, base, var, quoted, acc) == lexer::scan(
                    w,
                    a0,
                    pos + 1,
                    Scan::ExpectVarOpen,
                    from,
                    var,
                    quoted,
                    gathered,
                ));
                assert(lexer::scan(w, a0, pos + 1, Scan::ExpectVarOpen, from, var, quoted, gathered)
                    == lexer::scan(w, a0, pos + 2, Scan::VarOpen, from, var, quoted, gathered));
                assert(lexer::scan(w, a0, pos + 2, Scan::VarOpen, from, var, quoted, gathered)
                    == lexer::scan(w, a0, pos + 3, Scan::InVar, from, pos + 2, quoted, gathered));
                assert forall|x: int| pos + 3 <= x < close implies (#[trigger] w[x]) != '}' by {
                    assert(w[pos + (x - pos)] == piece[x - pos]);
                    assert(piece[x - pos] == n[x - pos - 2]);
                }
                lemma_walk_name(w, a0, pos + 3, close, from, pos + 2, quoted, gathered);
                assert(w.subrange(pos + 2, close) =~= n) by {
                    assert forall|x: int| 0 <= x < n.len() implies w[pos + 2 + x] == n[x] by {
                        assert(w[pos + (x + 2)] == piece[x + 2]);
                    }
                }
                let after = gathered.push(ComponentView::EnvVar(n));
                assert(lexer::scan(w, a0, close, Scan::InVar, from, pos + 2, quoted, gathered)
                    == lexer::scan(w, a0, close + 1, Scan::VarClose, from, pos + 2, quoted, after));
                assert(after =~= c.take(k + 1));
                assert(close + 1 == next);
                lemma_scan_rest(w, a0, c, quoted, k + 1, Scan::VarClose, from, pos + 2, after);
            },
        }
    }
}

/// The scanner reads a printed string back: from where the string begins
/// it returns the components and the position after the string.
pub proof fn lemma_string_back(w: Seq<char>, a0: int, c: Seq<ComponentView>, quoted: bool)
    requires
        tidy(c, quoted),
        holds_string(w, a0, c, quoted),
    ensures
        lexer::string_at(w, a0, quoted) == ScanOutcome::Done(
            c,
            a0 + printer::printed_components(c).len(),
        ),
{
    assert(c.take(0) =~= Seq::<ComponentView>::empty());
    assert(offset(c, 0) == 0);
    lemma_scan_rest(w, a0, c, quoted, 0, Scan::Base, a0, a0, Seq::empty());
}


/// A digit's character writes that digit.
proof fn lemma_digit_char(d: int)
    requires
        0 <= d < 10,
    ensures
        text::digit_value(text::digit_char(d)) == Some(d),
{
}

/// A number written in decimal is a run of digits that writes the
/// number.
pub proof fn lemma_decimal_digits(n: nat)
    ensures
        text::decimal_nat(n).len() >= 1,
        forall|i: int| 0 <= i < text::decimal_nat(n).len() ==> text::digit_value(
            #[trigger] text::decimal_nat(n)[i],
        ) is Some,
        text::digits_number(text::decimal_nat(n)) == n,
    decreases n,
{
    let d = text::decimal_nat(n);
    if n < 10 {
        lemma_digit_char(n as int);
        assert(d.drop_last() =~= Seq::<char>::empty());
        assert(text::digits_number(d.drop_last()) == 0);
    } else {
        lemma_decimal_digits(n / 10);
        lemma_digit_char((n % 10) as int);
        let head = text::decimal_nat(n / 10);
        assert(d.drop_last() =~= head);
        assert(d.last() == text::digit_char((n % 10) as int));
        assert forall|i: int| 0 <= i < d.len() implies text::digit_value(#[trigger] d[i]) is Some by {
            if i < head.len() {
                assert(d[i] == head[i]);
            }
        }
    }
}

/// A descriptor written in decimal reads back as the descriptor.
pub proof fn lemma_decimal_back(fd: i32)
    requires
        fd >= 0,
    ensures
        text::parsed_decimal(text::decimal_int(fd as int)) == Some(fd),
        text::decimal_int(fd as int).len() >= 1,
        forall|i: int| 0 <= i < text::decimal_int(fd as int).len() ==> text::digit_value(
            #[trigger] text::decimal_int(fd as int)[i],
        ) is Some,
{
    lemma_decimal_digits(fd as nat);
    let d = text::decimal_nat(fd as nat);
    assert(text::digit_value(d[0]) is Some);
    assert(d[0] != '-' && d[0] != '+');
    assert(text::all_digits(d));
}

/// The text `w` holds `piece` from `p` on.
pub open spec fn sits(w: Seq<char>, p: int, piece: Seq<char>) -> bool {
    0 <= p && p + piece.len() <= w.len() && w.subrange(p, p + piece.len()) == piece
}

/// The text ends at `e` or goes on with a blank.
pub open spec fn ends_token(w: Seq<char>, e: int) -> bool {
    e == w.len() || (0 <= e < w.len() && w[e] == ' ')
}

proof fn lemma_sits_index(w: Seq<char>, p: int, piece: Seq<char>, x: int)
    requires
        sits(w, p, piece),
        0 <= x < piece.len(),
    ensures
        w[p + x] == piece[x],
{
    assert(w.subrange(p, p + piece.len())[x] == w[p + x]);
}

proof fn lemma_sits_part(w: Seq<char>, p: int, a: Seq<char>, b: Seq<char>)
    requires
        sits(w, p, a + b),
    ensures
        sits(w, p, a),
        sits(w, p + a.len(), b),
{
    let whole = a + b;
    assert forall|x: int| 0 <= x < a.len() implies w[p + x] == a[x] by {
        lemma_sits_index(w, p, whole, x);
    }
    assert forall|x: int| 0 <= x < b.len() implies w[p + a.len() + x] == b[x] by {
        lemma_sits_index(w, p, whole, a.len() + x);
    }
    assert(w.subrange(p, p + a.len()) =~= a);
    assert(w.subrange(p + a.len(), p + a.len() + b.len()) =~= b);
}

/// A run of digits that something other than a digit follows is read as
/// a whole.
proof fn lemma_digit_run(w: Seq<char>, i: int, j: int)
    requires
        0 <= i <= j <= w.len(),
        forall|x: int| i <= x < j ==> text::digit_value(#[trigger] w[x]) is Some,
        j == w.len() || text::digit_value(w[j]) is None,
    ensures
        lexer::digit_run(w, i) == j,
    decreases j - i,
{
    if i < j {
        assert(text::digit_value(w[i]) is Some);
        lemma_digit_run(w, i + 1, j);
    }
}

/// A descriptor written in decimal, with something other than a digit
/// after it, is read as that descriptor.
proof fn lemma_number_back(w: Seq<char>, p: int, fd: i32)
    requires
        fd >= 0,
        sits(w, p, text::decimal_int(fd as int)),
        p + text::decimal_int(fd as int).len() == w.len() || text::digit_value(
            w[p + text::decimal_int(fd as int).len()],
        ) is None,
    ensures
        lexer::number_at(w, p) == Some((fd, p + text::decimal_int(fd as int).len())),
{
    let d = text::decimal_int(fd as int);
    lemma_decimal_back(fd);
    assert forall|x: int| p <= x < p + d.len() implies text::digit_value(#[trigger] w[x]) is Some by {
        lemma_sits_index(w, p, d, x - p);
    }
    lemma_digit_run(w, p, p + d.len());
}

/// Where no digit stands no number is read.
proof fn lemma_no_number(w: Seq<char>, p: int)
    requires
        0 <= p < w.len(),
        text::digit_value(w[p]) is None,
    ensures
        lexer::number_at(w, p) is None,
{
}

/// A character that starts no operator: `\`, `$` or `"`.
pub open spec fn starts_string(c: char) -> bool {
    c == '\\' || c == '$' || c == '"'
}

proof fn lemma_no_operator(w: Seq<char>, p: int)
    requires
        0 <= p < w.len(),
        starts_string(w[p]),
    ensures
        lexer::operator_at(w, p) is None,
{
    lemma_no_number(w, p);
}

/// A token as the lexer makes them: the components of a string are tidy,
/// bare or in quotes; a descriptor is not negative.
pub open spec fn tidy_token(t: TokenView, last: bool) -> bool {
    match t {
        TokenView::StringLiteral(c) => tidy(c, false) || tidy(c, true),
        TokenView::Redirect(fd) => fd >= 0,
        TokenView::Append(fd) => fd >= 0,
        TokenView::Input(fd) => fd >= 0,
        TokenView::RedirectFD(a, b) => a >= 0 && b >= 0,
        _ => true,
    }
}

/// Tokens as the lexer makes them, see [`tidy_token`].
pub open spec fn tidy_tokens(t: Seq<TokenView>) -> bool {
    forall|i: int| 0 <= i < t.len() ==> tidy_token(#[trigger] t[i], i == t.len() - 1)
}

/// Tidy components of a bare string are plain for a bare string.
proof fn lemma_tidy_bare(c: Seq<ComponentView>)
    requires
        tidy(c, false),
    ensures
        printer::bare_plain(c),
{
    assert forall|k: int, j: int|
        0 <= k < c.len() && c[k] is Literal && 1 <= j < c[k]->Literal_0.len() implies !lexer::is_stop(
        #[trigger] c[k]->Literal_0[j],
        false,
    ) by {
        assert(tidy_component(c[k], false));
        assert(plain(c[k]->Literal_0[j], false));
    }
}

/// Components that are tidy in quotes and plain for a bare string are
/// tidy for a bare string.
proof fn lemma_tidy_either(c: Seq<ComponentView>)
    requires
        tidy(c, true),
        printer::bare_plain(c),
    ensures
        tidy(c, false),
{
    assert forall|k: int| 0 <= k < c.len() implies tidy_component(#[trigger] c[k], false) by {
        assert(tidy_component(c[k], true));
        match c[k] {
            ComponentView::Literal(t) => {
                assert forall|j: int| 1 <= j < t.len() implies plain(#[trigger] t[j], false) by {
                    assert(plain(t[j], true));
                    assert(!lexer::is_stop(c[k]->Literal_0[j], false));
                }
            },
            ComponentView::EnvVar(_) => {},
        }
    }
}

/// What tidy components are written as begins with `\` or `$`.
proof fn lemma_first_char(c: Seq<ComponentView>, quoted: bool)
    requires
        tidy(c, quoted),
    ensures
        printer::printed_components(c).len() >= 1,
        printer::printed_components(c)[0] == '\\' || printer::printed_components(c)[0] == '$',
{
    lemma_components_prefix(c, 0);
    lemma_components_prefix(c, 1);
    assert(c.take(0) =~= Seq::<ComponentView>::empty());
    let first = printer::printed_component(c[0]);
    let whole = printer::printed_components(c);
    assert(printer::printed_components(c.take(1)) =~= first);
    assert(tidy_component(c[0], quoted));
    assert(whole.subrange(0, first.len() as int)[0] == whole[0]);
}

/// A printed token that ends the text or that a blank follows is read
/// back: the lexer returns the token and the position after it.
#[verifier::rlimit(80)]
#[verifier::spinoff_prover]
pub proof fn lemma_token_back(w: Seq<char>, p: int, t: TokenView, last: bool)
    requires
        tidy_token(t, last),
        sits(w, p, printer::printed_token(t)),
        ends_token(w, p + printer::printed_token(t).len()),
        last ==> p + printer::printed_token(t).len() == w.len(),
    ensures
        lexer::token_at(w, p) == TokenOutcome::Token(t, p + printer::printed_token(t).len()),
        printer::printed_token(t).len() >= 1,
        !lexer::is_blank(w[p]),
{
    let piece = printer::printed_token(t);
    let e = p + piece.len();
    match t {
        TokenView::StringLiteral(c) => {
            let body = printer::printed_components(c);
            if printer::bare_plain(c) {
                if !tidy(c, false) {
                    lemma_tidy_either(c);
                }
                lemma_first_char(c, false);
                lemma_sits_index(w, p, piece, 0);
                lemma_no_operator(w, p);
                assert(lexer::quoted_at(w, p) is None);
                assert(w[p] != '"');
                assert(holds_string(w, p, c, false)) by {
                    if e != w.len() {
                        assert(lexer::is_stop(w[e], false));
                    }
                }
                lemma_string_back(w, p, c, false);
            } else {
                if tidy(c, false) {
                    lemma_tidy_bare(c);
                }
                assert(tidy(c, true));
                lemma_first_char(c, true);
                assert(piece == seq!['"'] + body + seq!['"']);
                lemma_sits_index(w, p, piece, 0);
                lemma_sits_index(w, p, piece, piece.len() - 1);
                assert(w[p] == '"');
                assert(w[e - 1] == '"');
                lemma_no_operator(w, p);
                assert(sits(w, p + 1, body)) by {
                    assert(piece =~= seq!['"'] + (body + seq!['"']));
                    lemma_sits_part(w, p, seq!['"'], body + seq!['"']);
                    lemma_sits_part(w, p + 1, body, seq!['"']);
                }
                assert(holds_string(w, p + 1, c, true));
                lemma_string_back(w, p + 1, c, true);
            }
        },
        TokenView::Pipe => {
            lemma_sits_index(w, p, piece, 0);
        },
        TokenView::Redirect(fd) => {
            let d = text::decimal_int(fd as int);
            lemma_decimal_back(fd);
            lemma_sits_part(w, p, d, seq!['>']);
            lemma_sits_index(w, p + d.len(), seq!['>'], 0);
            lemma_sits_index(w, p, d, 0);
            lemma_number_back(w, p, fd);
        },
        TokenView::Append(fd) => {
            let d = text::decimal_int(fd as int);
            lemma_decimal_back(fd);
            lemma_sits_part(w, p, d, seq!['>', '>']);
            lemma_sits_index(w, p + d.len(), seq!['>', '>'], 0);
            lemma_sits_index(w, p + d.len(), seq!['>', '>'], 1);
            lemma_sits_index(w, p, d, 0);
            lemma_number_back(w, p, fd);
        },
        TokenView::Input(fd) => {
            let d = text::decimal_int(fd as int);
            lemma_decimal_back(fd);
            lemma_sits_part(w, p, d, seq!['<']);
            lemma_sits_index(w, p + d.len(), seq!['<'], 0);
            lemma_sits_index(w, p, d, 0);
            lemma_number_back(w, p, fd);
        },
        TokenView::RedirectFD(a, b) => {
            let da = text::decimal_int(a as int);
            let db = text::decimal_int(b as int);
            lemma_decimal_back(a);
            lemma_decimal_back(b);
            assert(piece =~= da + (seq!['>', '&'] + db));
            lemma_sits_part(w, p, da, seq!['>', '&'] + db);
            lemma_sits_part(w, p + da.len(), seq!['>', '&'], db);
            lemma_sits_index(w, p + da.len(), seq!['>', '&'], 0);
            lemma_sits_index(w, p + da.len(), seq!['>', '&'], 1);
            lemma_sits_index(w, p, da, 0);
            lemma_number_back(w, p, a);
            lemma_number_back(w, p + da.len() + 2, b);
        },
        TokenView::RedirectAll => {
            lemma_sits_index(w, p, piece, 0);
            lemma_sits_index(w, p, piece, 1);
            lemma_no_number(w, p);
        },
        TokenView::AppendAll => {
            lemma_sits_index(w, p, piece, 0);
            lemma_sits_index(w, p, piece, 1);
            lemma_sits_index(w, p, piece, 2);
            lemma_no_number(w, p);
        },
        TokenView::Background => {
            lemma_sits_index(w, p, piece, 0);
            lemma_no_number(w, p);
        },
        TokenView::Subshell => {
            lemma_sits_index(w, p, piece, 0);
            lemma_no_number(w, p);
        },
    }
}

/// Where the `i`th token begins in what the tokens are written as.
pub open spec fn token_start(t: Seq<TokenView>, i: int) -> int {
    if i == 0 {
        0
    } else {
        (printer::printed(t.take(i)).len() + 1) as int
    }
}

/// What the first `i` tokens are written as begins what all are written
/// as, and the `i`th token follows after a blank.
proof fn lemma_printed_prefix(t: Seq<TokenView>, i: int)
    requires
        0 <= i <= t.len(),
    ensures
        printer::printed(t.take(i)).len() <= printer::printed(t).len(),
        printer::printed(t).subrange(0, printer::printed(t.take(i)).len() as int) == printer::printed(
            t.take(i),
        ),
        i < t.len() ==> printer::printed(t.take(i + 1)) == if i == 0 {
            printer::printed_token(t[0])
        } else {
            printer::printed(t.take(i)) + seq![' '] + printer::printed_token(t[i])
        },
    decreases t.len() - i,
{
    let whole = printer::printed(t);
    if i < t.len() {
        let more = t.take(i + 1);
        assert(more.drop_last() =~= t.take(i));
        assert(more.last() == t[i]);
        assert(more[0] == t[0]);
        lemma_printed_prefix(t, i + 1);
        let longer = printer::printed(more);
        let shorter = printer::printed(t.take(i));
        if i == 0 {
            assert(t.take(0) =~= Seq::<TokenView>::empty());
            assert(shorter.len() == 0);
            assert(whole.subrange(0, 0) =~= shorter);
        } else {
            assert(longer == shorter + seq![' '] + printer::printed_token(t[i]));
            assert(whole.subrange(0, shorter.len() as int) =~= whole.subrange(0, longer.len() as int).subrange(
                0,
                shorter.len() as int,
            ));
            assert(longer.subrange(0, shorter.len() as int) =~= shorter);
        }
    } else {
        assert(t.take(i) =~= t);
        assert(whole.subrange(0, whole.len() as int) =~= whole);
    }
}

/// The `i`th token stands where it begins, and the text ends after it or
/// goes on with a blank.
proof fn lemma_token_sits(t: Seq<TokenView>, i: int)
    requires
        0 <= i < t.len(),
    ensures
        sits(printer::printed(t), token_start(t, i), printer::printed_token(t[i])),
        token_start(t, i) + printer::printed_token(t[i]).len() == printer::printed(t.take(i + 1)).len(),
        ends_token(printer::printed(t), token_start(t, i) + printer::printed_token(t[i]).len()),
        i == t.len() - 1 ==> token_start(t, i) + printer::printed_token(t[i]).len() == printer::printed(
            t,
        ).len(),
        i > 0 ==> printer::printed(t)[token_start(t, i) - 1] == ' ',
{
    let w = printer::printed(t);
    let piece = printer::printed_token(t[i]);
    let p = token_start(t, i);
    lemma_printed_prefix(t, i);
    lemma_printed_prefix(t, i + 1);
    let upto = printer::printed(t.take(i + 1));
    assert(w.subrange(0, upto.len() as int) == upto);
    assert forall|x: int| 0 <= x < upto.len() implies w[x] == upto[x] by {
        assert(w.subrange(0, upto.len() as int)[x] == w[x]);
    }
    assert(w.subrange(p, p + piece.len()) =~= piece);
    if i + 1 < t.len() {
        lemma_printed_prefix(t, i + 2);
        let beyond = printer::printed(t.take(i + 2));
        assert(beyond == upto + seq![' '] + printer::printed_token(t[i + 1]));
        assert(w.subrange(0, beyond.len() as int)[upto.len() as int] == w[upto.len() as int]);
        assert(beyond[upto.len() as int] == ' ');
    } else {
        assert(t.take(i + 1) =~= t);
    }
}

/// Reading what the tokens are written as, from where the `i`th token
/// begins or from the blank before it, gives the tokens from the `i`th
/// on.
proof fn lemma_tokens_back(t: Seq<TokenView>, i: int)
    requires
        tidy_tokens(t),
        0 <= i <= t.len(),
    ensures
        lexer::tokens_from(printer::printed(t), printer::printed(t.take(i)).len() as int) == Ok::<
            Seq<TokenView>,
            LexError,
        >(t.skip(i)),
    decreases t.len() - i,
{
    let w = printer::printed(t);
    let q = printer::printed(t.take(i)).len() as int;
    lemma_printed_prefix(t, i);
    if i == t.len() {
        assert(t.take(i) =~= t);
        assert(t.skip(i) =~= Seq::<TokenView>::empty());
        assert(lexer::skip_blanks(w, q) == q);
    } else {
        let p = token_start(t, i);
        let piece = printer::printed_token(t[i]);
        let e = p + piece.len();
        lemma_token_sits(t, i);
        assert(tidy_token(t[i], i == t.len() - 1));
        lemma_token_back(w, p, t[i], i == t.len() - 1);
        if i == 0 {
            assert(t.take(0) =~= Seq::<TokenView>::empty());
            assert(q == 0);
            assert(lexer::skip_blanks(w, q) == p);
        } else {
            assert(w[q] == ' ');
            assert(lexer::skip_blanks(w, q + 1) == q + 1);
            assert(lexer::skip_blanks(w, q) == p);
        }
        lemma_tokens_back(t, i + 1);
        assert(t.skip(i) =~= seq![t[i]] + t.skip(i + 1));
    }
}

/// Printing then lexing: for tokens as the lexer makes them, the lexer
/// reads what the printer writes for them back as the same tokens.
pub proof fn law_lex_printed(t: Seq<TokenView>)
    requires
        tidy_tokens(t),
    ensures
        lexer::spec_lex(printer::printed(t)) == Ok::<Seq<TokenView>, LexError>(t),
{
    lemma_tokens_back(t, 0);
    assert(t.take(0) =~= Seq::<TokenView>::empty());
    assert(t.skip(0) =~= t);
}


/// Components gathered so far are tidy.
pub open spec fn tidy_so_far(acc: Seq<ComponentView>, quoted: bool) -> bool {
    forall|k: int| 0 <= k < acc.len() ==> tidy_component(#[trigger] acc[k], quoted)
}

/// What holds while a string is scanned.
pub open spec fn scan_ok(
    w: Seq<char>,
    start: int,
    i: int,
    state: Scan,
    base: int,
    var: int,
    quoted: bool,
    acc: Seq<ComponentView>,
) -> bool {
    &&& 0 <= start <= i <= w.len()
    &&& tidy_so_far(acc, quoted)
    &&& match state {
        Scan::Base => {
            &&& start <= base <= i
            &&& (i == start ==> acc.len() == 0)
            &&& (i > start ==> base < i)
            &&& forall|x: int| base < x < i ==> plain(#[trigger] w[x], quoted)
        },
        Scan::Escaped => true,
        Scan::ExpectVarOpen => true,
        Scan::VarOpen => true,
        Scan::InVar => {
            &&& 0 <= var < i
            &&& forall|x: int| var < x < i ==> (#[trigger] w[x]) != '}'
        },
        Scan::VarClose => acc.len() > 0 && acc.last() is EnvVar,
        Scan::Home => acc.len() > 0 && acc.last() is EnvVar,
    }
}

/// Gathering one more tidy component keeps the components tidy.
proof fn lemma_push_tidy(acc: Seq<ComponentView>, c: ComponentView, quoted: bool)
    requires
        tidy_so_far(acc, quoted),
        tidy_component(c, quoted),
    ensures
        tidy_so_far(acc.push(c), quoted),
{
    let more = acc.push(c);
    assert forall|k: int| 0 <= k < more.len() implies tidy_component(#[trigger] more[k], quoted) by {
        if k < acc.len() {
            assert(more[k] == acc[k]);
        }
    }
}

/// Closing the literal in progress keeps the components tidy.
proof fn lemma_flush_tidy(w: Seq<char>, start: int, i: int, base: int, quoted: bool, acc: Seq<ComponentView>)
    requires
        0 <= start <= i <= w.len(),
        tidy_so_far(acc, quoted),
        start <= base <= i,
        i == start ==> acc.len() == 0,
        i > start ==> base < i,
        forall|x: int| base < x < i ==> plain(#[trigger] w[x], quoted),
    ensures
        tidy_so_far(lexer::flushed(w, base, i, acc), quoted),
        i > start ==> lexer::flushed(w, base, i, acc).len() > 0,
{
    if base < i {
        let t = w.subrange(base, i);
        assert forall|j: int| 1 <= j < t.len() implies plain(#[trigger] t[j], quoted) by {
            assert(t[j] == w[base + j]);
        }
        lemma_push_tidy(acc, ComponentView::Literal(t), quoted);
    }
}

/// What holds of a string the scanner returns: its components are tidy
/// and it is not empty.
pub open spec fn scanned_ok(w: Seq<char>, start: int, quoted: bool, r: ScanOutcome) -> bool {
    r matches ScanOutcome::Done(c, end) ==> tidy(c, quoted) && start <= end <= w.len()
}

/// The scanner returns tidy components.
#[verifier::rlimit(80)]
#[verifier::spinoff_prover]
pub proof fn lemma_scan_tidy(
    w: Seq<char>,
    start: int,
    i: int,
    state: Scan,
    base: int,
    var: int,
    quoted: bool,
    acc: Seq<ComponentView>,
)
    requires
        scan_ok(w, start, i, state, base, var, quoted, acc),
    ensures
        scanned_ok(w, start, quoted, lexer::scan(w, start, i, state, base, var, quoted, acc)),
    decreases w.len() - i,
{
    if i >= w.len() {
        match state {
            Scan::Base => {
                lemma_flush_tidy(w, start, i, base, quoted, acc);
            },
            _ => {},
        }
    } else {
        let c = w[i];
        match state {
            Scan::Base => {
                if lexer::is_stop(c, quoted) {
                    lemma_flush_tidy(w, start, i, base, quoted, acc);
                } else if c == '\\' {
                    lemma_flush_tidy(w, start, i, base, quoted, acc);
                    lemma_scan_tidy(
                        w,
                        start,
                        i + 1,
                        Scan::Escaped,
                        base,
                        var,
                        quoted,
                        lexer::flushed(w, base, i, acc),
                    );
                } else if c == '$' {
                    lemma_flush_tidy(w, start, i, base, quoted, acc);
                    lemma_scan_tidy(
                        w,
                        start,
                        i + 1,
                        Scan::ExpectVarOpen,
                        base,
                        var,
                        quoted,
                        lexer::flushed(w, base, i, acc),
                    );
                } else if c == '~' && i == start {
                    let home = ComponentView::EnvVar(lexer::home_name());
                    assert(tidy_component(home, quoted));
                    lemma_push_tidy(acc, home, quoted);
                    lemma_scan_tidy(w, start, i + 1, Scan::Home, base, var, quoted, acc.push(home));
                } else {
                    assert forall|x: int| base < x < i + 1 implies plain(#[trigger] w[x], quoted) by {
                        if x == i {
                            assert(plain(c, quoted));
                        }
                    }
                    lemma_scan_tidy(w, start, i + 1, Scan::Base, base, var, quoted, acc);
                }
            },
            Scan::Home | Scan::VarClose => {
                if lexer::is_stop(c, quoted) {
                } else if c == '\\' {
                    lemma_scan_tidy(w, start, i + 1, Scan::Escaped, i, var, quoted, acc);
                } else if c == '$' {
                    lemma_scan_tidy(w, start, i + 1, Scan::ExpectVarOpen, i, var, quoted, acc);
                } else {
                    lemma_scan_tidy(w, start, i + 1, Scan::Base, i, var, quoted, acc);
                }
            },
            Scan::Escaped => {
                lemma_scan_tidy(w, start, i + 1, Scan::Base, i, var, quoted, acc);
            },
            Scan::ExpectVarOpen => {
                if c == '{' {
                    lemma_scan_tidy(w, start, i + 1, Scan::VarOpen, base, var, quoted, acc);
                }
            },
            Scan::VarOpen => {
                lemma_scan_tidy(w, start, i + 1, Scan::InVar, base, i, quoted, acc);
            },
            Scan::InVar => {
                if c == '}' {
                    let n = w.subrange(var, i);
                    assert forall|j: int| 1 <= j < n.len() implies (#[trigger] n[j]) != '}' by {
                        assert(n[j] == w[var + j]);
                    }
                    let name = ComponentView::EnvVar(n);
                    lemma_push_tidy(acc, name, quoted);
                    lemma_scan_tidy(w, start, i + 1, Scan::VarClose, base, var, quoted, acc.push(name));
                } else {
                    lemma_scan_tidy(w, start, i + 1, Scan::InVar, base, var, quoted, acc);
                }
            },
        }
    }
}

/// A number the lexer reads is not negative, and ends after where it
/// begins.
proof fn lemma_number_read(w: Seq<char>, i: int)
    ensures
        lexer::number_at(w, i) matches Some((n, end)) ==> n >= 0 && i < end <= w.len(),
{
    let end = lexer::digit_run(w, i);
    if 0 <= i < end <= w.len() {
        let d = w.subrange(i, end);
        assert(text::digit_value(w[i]) is Some);
        assert(d[0] == w[i]);
        assert(d[0] != '-' && d[0] != '+');
    }
}

/// A token the lexer reads is tidy when taken as the last, and ends the
/// text where it is a string that ends in a variable.
proof fn lemma_token_read(w: Seq<char>, p: int)
    requires
        0 <= p < w.len(),
    ensures
        lexer::token_at(w, p) matches TokenOutcome::Token(t, end) ==> tidy_token(t, end == w.len()),
{
    lemma_number_read(w, p);
    match lexer::operator_at(w, p) {
        Some((t, end)) => {
            if lexer::at(w, p) != Some('|') {
                let k = match lexer::number_at(w, p) {
                    Some((n, e)) => e,
                    None => p,
                };
                lemma_number_read(w, k + 2);
            }
        },
        None => {
            match lexer::quoted_at(w, p) {
                Some((t, end)) => {
                    lemma_scan_tidy(w, p + 1, p + 1, Scan::Base, p + 1, p + 1, true, Seq::empty());
                },
                None => {
                    lemma_scan_tidy(w, p, p, Scan::Base, p, p, false, Seq::empty());
                },
            }
        },
    }
}

/// A blank is skipped to a position that lies further on.
proof fn lemma_skip_blanks(w: Seq<char>, i: int)
    requires
        0 <= i,
    ensures
        i <= lexer::skip_blanks(w, i),
        i >= w.len() ==> lexer::skip_blanks(w, i) == i,
    decreases w.len() - i,
{
    if i < w.len() && lexer::is_blank(w[i]) {
        lemma_skip_blanks(w, i + 1);
    }
}

/// The tokens the lexer returns are tidy.
pub proof fn law_lexed_tidy(w: Seq<char>, i: int)
    requires
        0 <= i,
    ensures
        lexer::tokens_from(w, i) matches Ok(t) ==> tidy_tokens(t),
    decreases w.len() - i,
{
    lemma_skip_blanks(w, i);
    let j = lexer::skip_blanks(w, i);
    if j < w.len() {
        lemma_token_read(w, j);
        match lexer::token_at(w, j) {
            TokenOutcome::Token(token, end) => {
                if j < end <= w.len() {
                    law_lexed_tidy(w, end);
                    match lexer::tokens_from(w, end) {
                        Ok(rest) => {
                            let all = seq![token] + rest;
                            if end == w.len() {
                                lemma_skip_blanks(w, end);
                                assert(rest.len() == 0);
                            }
                            assert forall|k: int| 0 <= k < all.len() implies tidy_token(
                                #[trigger] all[k],
                                k == all.len() - 1,
                            ) by {
                                if k == 0 {
                                    if rest.len() > 0 {
                                        assert(end != w.len());
                                        match token {
                                            TokenView::StringLiteral(c) => {},
                                            _ => {},
                                        }
                                    }
                                } else {
                                    assert(all[k] == rest[k - 1]);
                                    assert(tidy_token(rest[k - 1], k - 1 == rest.len() - 1));
                                }
                            }
                        },
                        Err(_) => {},
                    }
                }
            },
            _ => {},
        }
    }
}


/// Every token is tidy when taken as the last.
pub open spec fn each_tidy(t: Seq<TokenView>) -> bool {
    forall|i: int| 0 <= i < t.len() ==> tidy_token(#[trigger] t[i], true)
}

proof fn lemma_each_tidy_concat(a: Seq<TokenView>, b: Seq<TokenView>)
    requires
        each_tidy(a),
        each_tidy(b),
    ensures
        each_tidy(a + b),
{
    let all = a + b;
    assert forall|i: int| 0 <= i < all.len() implies tidy_token(#[trigger] all[i], true) by {
        if i < a.len() {
            assert(all[i] == a[i]);
        } else {
            assert(all[i] == b[i - a.len()]);
        }
    }
}

proof fn lemma_each_tidy_part(t: Seq<TokenView>, a: int, b: int)
    requires
        each_tidy(t),
        0 <= a <= b <= t.len(),
    ensures
        each_tidy(t.subrange(a, b)),
{
    assert forall|i: int| 0 <= i < t.subrange(a, b).len() implies tidy_token(
        #[trigger] t.subrange(a, b)[i],
        true,
    ) by {
        assert(t.subrange(a, b)[i] == t[a + i]);
    }
}

/// The tokens of arguments one after the other are the tokens of the
/// first followed by the tokens of the rest.
proof fn lemma_unparse_concat(a: Seq<ArgumentView>, b: Seq<ArgumentView>)
    ensures
        printer::unparse_arguments(a + b) == printer::unparse_arguments(a) + printer::unparse_arguments(b),
    decreases b.len(),
{
    if b.len() == 0 {
        assert(a + b =~= a);
        assert(printer::unparse_arguments(a) + Seq::<TokenView>::empty() =~= printer::unparse_arguments(a));
    } else {
        lemma_unparse_concat(a, b.drop_last());
        assert((a + b).drop_last() =~= a + b.drop_last());
        assert((a + b).last() == b.last());
        assert(printer::unparse_arguments(a) + printer::unparse_arguments(b.drop_last())
            + printer::unparse_argument(b.last()) =~= printer::unparse_arguments(a) + (
        printer::unparse_arguments(b.drop_last()) + printer::unparse_argument(b.last())));
    }
}

proof fn lemma_unparse_one(a: ArgumentView)
    ensures
        printer::unparse_arguments(seq![a]) == printer::unparse_argument(a),
{
    let one = seq![a];
    assert(one.drop_last() =~= Seq::<ArgumentView>::empty());
    assert(printer::unparse_arguments(one.drop_last()) =~= Seq::<TokenView>::empty());
    assert(Seq::<TokenView>::empty() + printer::unparse_argument(a) =~= printer::unparse_argument(a));
}

proof fn lemma_unparse_two(a: ArgumentView, b: ArgumentView)
    ensures
        printer::unparse_arguments(seq![a, b]) == printer::unparse_argument(a) + printer::unparse_argument(
            b,
        ),
{
    lemma_unparse_one(a);
    lemma_unparse_one(b);
    lemma_unparse_concat(seq![a], seq![b]);
    assert(seq![a] + seq![b] =~= seq![a, b]);
}

/// The tokens of the arguments the parser reads from tidy tokens are
/// tidy.
proof fn lemma_arguments_tidy(t: Seq<TokenView>, i: int)
    requires
        0 <= i,
        each_tidy(t),
    ensures
        parser::parse_arguments(t, i) matches Ok(args) ==> each_tidy(printer::unparse_arguments(args)),
    decreases t.len(), 0nat, t.len() - i,
{
    if i < t.len() {
        assert(tidy_token(t[i], true));
        match parser::parse_arguments(t, i) {
            Err(_) => {},
            Ok(args) => {
                match t[i] {
                    TokenView::StringLiteral(c) => {
                        lemma_arguments_tidy(t, i + 1);
                        let first = seq![ArgumentView::Literal(c)];
                        let more = parser::parse_arguments(t, i + 1)->Ok_0;
                        lemma_unparse_one(first[0]);
                        lemma_unparse_concat(first, more);
                        lemma_each_tidy_concat(
                            printer::unparse_arguments(first),
                            printer::unparse_arguments(more),
                        );
                    },
                    TokenView::RedirectFD(a, b) => {
                        lemma_arguments_tidy(t, i + 1);
                        let first = seq![ArgumentView::RedirectFD(a, b)];
                        let more = parser::parse_arguments(t, i + 1)->Ok_0;
                        lemma_unparse_one(first[0]);
                        lemma_unparse_concat(first, more);
                        lemma_each_tidy_concat(
                            printer::unparse_arguments(first),
                            printer::unparse_arguments(more),
                        );
                    },
                    TokenView::Background => {
                        lemma_arguments_tidy(t, i + 1);
                        let first = seq![ArgumentView::Background];
                        let more = parser::parse_arguments(t, i + 1)->Ok_0;
                        lemma_unparse_one(first[0]);
                        lemma_unparse_concat(first, more);
                        lemma_each_tidy_concat(
                            printer::unparse_arguments(first),
                            printer::unparse_arguments(more),
                        );
                    },
                    TokenView::Pipe => {},
                    TokenView::Subshell => {
                        let j = parser::backtick_from(t, i + 1)->0;
                        let body = t.subrange(i + 1, j);
                        lemma_each_tidy_part(t, i + 1, j);
                        lemma_unparse_tidy(body);
                        let inner = parser::spec_parse(body)->Ok_0;
                        lemma_arguments_tidy(t, j + 1);
                        let first = seq![ArgumentView::Subshell(Box::new(inner))];
                        let more = parser::parse_arguments(t, j + 1)->Ok_0;
                        lemma_unparse_one(first[0]);
                        lemma_unparse_concat(first, more);
                        let tick = seq![TokenView::Subshell];
                        lemma_each_tidy_concat(tick, printer::unparse(inner));
                        lemma_each_tidy_concat(tick + printer::unparse(inner), tick);
                        lemma_each_tidy_concat(
                            printer::unparse_arguments(first),
                            printer::unparse_arguments(more),
                        );
                    },
                    operator => {
                        lemma_arguments_tidy(t, i + 2);
                        assert(tidy_token(t[i + 1], true));
                        let path = t[i + 1]->StringLiteral_0;
                        let more = parser::parse_arguments(t, i + 2)->Ok_0;
                        let first = match operator {
                            TokenView::Redirect(fd) => seq![ArgumentView::Redirect(fd, path)],
                            TokenView::Append(fd) => seq![ArgumentView::Append(fd, path)],
                            TokenView::Input(fd) => seq![ArgumentView::Input(fd, path)],
                            TokenView::RedirectAll => seq![
                                ArgumentView::Redirect(1, path),
                                ArgumentView::Redirect(2, path),
                            ],
                            _ => seq![ArgumentView::Append(1, path), ArgumentView::Append(2, path)],
                        };
                        if first.len() == 1 {
                            lemma_unparse_one(first[0]);
                            assert(first =~= seq![first[0]]);
                        } else {
                            lemma_unparse_two(first[0], first[1]);
                            assert(first =~= seq![first[0], first[1]]);
                            lemma_each_tidy_concat(
                                printer::unparse_argument(first[0]),
                                printer::unparse_argument(first[1]),
                            );
                        }
                        lemma_unparse_concat(first, more);
                        lemma_each_tidy_concat(
                            printer::unparse_arguments(first),
                            printer::unparse_arguments(more),
                        );
                    },
                }
            },
        }
    } else {
        assert(printer::unparse_arguments(Seq::<ArgumentView>::empty()) =~= Seq::<TokenView>::empty());
    }
}

/// The tokens of what the parser returns for tidy tokens are tidy.
proof fn lemma_unparse_tidy(t: Seq<TokenView>)
    requires
        each_tidy(t),
    ensures
        parser::spec_parse(t) matches Ok(e) ==> each_tidy(printer::unparse(e)),
    decreases t.len(), 1nat, 0nat,
{
    match parser::pipe_from(t, 0, false) {
        Some(p) => {
            if 0 <= p < t.len() {
                let head = t.subrange(0, p);
                let tail = t.subrange(p + 1, t.len() as int);
                lemma_each_tidy_part(t, 0, p);
                lemma_each_tidy_part(t, p + 1, t.len() as int);
                lemma_unparse_tidy(head);
                lemma_unparse_tidy(tail);
                match (parser::spec_parse(head), parser::spec_parse(tail)) {
                    (Ok(l), Ok(r)) => {
                        assert(parser::spec_parse(t) == Ok::<ExprView, parser::Error>(
                            ExprView::Pipeline(Box::new(l), Box::new(r)),
                        ));
                        lemma_each_tidy_concat(printer::unparse(l), seq![TokenView::Pipe]);
                        lemma_each_tidy_concat(printer::unparse(l) + seq![TokenView::Pipe], printer::unparse(r));
                    },
                    _ => {
                        assert(parser::spec_parse(t) is Err);
                    },
                }
            }
        },
        None => {
            assert(parser::spec_parse(t) == parser::parse_command(t));
            if t.len() > 0 {
                lemma_arguments_tidy(t, 1);
                assert(tidy_token(t[0], true));
                match parser::parse_command(t) {
                    Ok(e) => {
                        let name = t[0]->StringLiteral_0;
                        let args = parser::parse_arguments(t, 1)->Ok_0;
                        assert(e == ExprView::Command(name, args));
                        lemma_each_tidy_concat(
                            seq![TokenView::StringLiteral(name)],
                            printer::unparse_arguments(args),
                        );
                    },
                    Err(_) => {},
                }
            }
        },
    }
}

/// The round trip through text: whenever a line lexes and parses to an
/// expression, the text the printer writes for the expression lexes to the
/// tokens of the expression and parses to the expression again.
pub proof fn law_reprint(s: Seq<char>)
    ensures
        (lexer::spec_lex(s) matches Ok(t) && parser::spec_parse(t) matches Ok(e)) ==> {
            let e = parser::spec_parse(lexer::spec_lex(s)->Ok_0)->Ok_0;
            let again = printer::printed(printer::unparse(e));
            &&& lexer::spec_lex(again) == Ok::<Seq<TokenView>, LexError>(printer::unparse(e))
            &&& parser::spec_parse(printer::unparse(e)) == Ok::<ExprView, parser::Error>(e)
        },
{
    match lexer::spec_lex(s) {
        Ok(t) => {
            match parser::spec_parse(t) {
                Ok(e) => {
                    let u = printer::unparse(e);
                    {
                        law_lexed_tidy(s, 0);
                        assert(each_tidy(t)) by {
                            assert forall|i: int| 0 <= i < t.len() implies tidy_token(#[trigger] t[i], true) by {
                                assert(tidy_token(t[i], i == t.len() - 1));
                            }
                        }
                        lemma_unparse_tidy(t);
                        assert(tidy_tokens(u)) by {
                            assert forall|i: int| 0 <= i < u.len() implies tidy_token(
                                #[trigger] u[i],
                                i == u.len() - 1,
                            ) by {
                                assert(tidy_token(u[i], true));
                            }
                        }
                        law_lex_printed(u);
                        printer::law_round_trip(t);
                    }
                },
                Err(_) => {},
            }
        },
        Err(_) => {},
    }
}

} // verus!
