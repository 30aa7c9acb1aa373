//! The printer: from an expression back to tokens and to text, and the
//! proof that parsing what was printed gives the expression back.

use vstd::prelude::*;
use crate::syntax::ast::{Argument, ArgumentView, Expr, ExprView};
use crate::syntax::ast;
use crate::syntax::parser::Error;
use crate::syntax::parser;
use crate::syntax::tokens::{ComponentView, StringLiteralComponent, Token, TokenView};
use crate::syntax::tokens;
use crate::text;

verus! {

/// The tokens of an expression.
pub open spec fn unparse(e: ExprView) -> Seq<TokenView>
    decreases e,
{
    match e {
        ExprView::Command(name, args) => seq![TokenView::StringLiteral(name)] + unparse_arguments(args),
        ExprView::Pipeline(l, r) => unparse(*l) + seq![TokenView::Pipe] + unparse(*r),
    }
}

/// The tokens of a sequence of arguments.
pub open spec fn unparse_arguments(args: Seq<ArgumentView>) -> Seq<TokenView>
    decreases args,
{
    if args.len() == 0 {
        Seq::empty()
    } else {
        unparse_arguments(args.drop_last()) + unparse_argument(args.last())
    }
}

/// The tokens of an argument.
pub open spec fn unparse_argument(a: ArgumentView) -> Seq<TokenView>
    decreases a,
{
    match a {
        ArgumentView::Literal(c) => seq![TokenView::StringLiteral(c)],
        ArgumentView::Redirect(fd, p) => seq![TokenView::Redirect(fd), TokenView::StringLiteral(p)],
        ArgumentView::Append(fd, p) => seq![TokenView::Append(fd), TokenView::StringLiteral(p)],
        ArgumentView::Input(fd, p) => seq![TokenView::Input(fd), TokenView::StringLiteral(p)],
        ArgumentView::RedirectFD(a, b) => seq![TokenView::RedirectFD(a, b)],
        ArgumentView::Background => seq![TokenView::Background],
        ArgumentView::Subshell(e) => seq![TokenView::Subshell] + unparse(*e) + seq![TokenView::Subshell],
    }
}

/// No token is a back-tick.
pub open spec fn no_backtick(t: Seq<TokenView>) -> bool {
    forall|i: int| 0 <= i < t.len() ==> !((#[trigger] t[i]) is Subshell)
}

/// No argument is a sub-shell.
pub open spec fn no_subshell(args: Seq<ArgumentView>) -> bool {
    forall|i: int| 0 <= i < args.len() ==> !((#[trigger] args[i]) is Subshell)
}

/// The expression holds no sub-shell.
pub open spec fn flat(e: ExprView) -> bool
    decreases e,
{
    match e {
        ExprView::Command(_, args) => no_subshell(args),
        ExprView::Pipeline(l, r) => flat(*l) && flat(*r),
    }
}

/// The argument can be printed: a sub-shell holds no sub-shell and can
/// itself be printed.
pub open spec fn printable_argument(a: ArgumentView) -> bool
    decreases a,
{
    match a {
        ArgumentView::Subshell(e) => flat(*e) && printable(*e),
        _ => true,
    }
}

/// The expression can be printed: the left side of every pipeline is a
/// command, and no sub-shell holds a sub-shell.
pub open spec fn printable(e: ExprView) -> bool
    decreases e,
{
    match e {
        ExprView::Command(_, args) => forall|i: int|
            0 <= i < args.len() ==> printable_argument(#[trigger] args[i]),
        ExprView::Pipeline(l, r) => *l is Command && printable(*l) && printable(*r),
    }
}

/// Whether the end of the tokens lies between back-ticks, reading from
/// `i` on; `inside` says whether `i` does.
pub open spec fn end_state(t: Seq<TokenView>, i: int, inside: bool) -> bool
    decreases t.len() - i,
{
    if i < 0 || i >= t.len() {
        inside
    } else if t[i] is Subshell {
        end_state(t, i + 1, !inside)
    } else {
        end_state(t, i + 1, inside)
    }
}

/// The tokens hold no `|` outside back-ticks and close every back-tick
/// they open.
pub open spec fn closed(t: Seq<TokenView>) -> bool {
    parser::pipe_from(t, 0, false) is None && !end_state(t, 0, false)
}

/// A position moved to the right.
pub open spec fn shifted(p: Option<int>, by: int) -> Option<int> {
    match p {
        Some(i) => Some(i + by),
        None => None,
    }
}

proof fn lemma_scan_over(a: Seq<TokenView>, b: Seq<TokenView>, i: int, inside: bool)
    requires
        0 <= i <= a.len(),
        parser::pipe_from(a, i, inside) is None,
    ensures
        parser::pipe_from(a + b, i, inside) == shifted(
            parser::pipe_from(b, 0, end_state(a, i, inside)),
            a.len() as int,
        ),
        end_state(a + b, i, inside) == end_state(b, 0, end_state(a, i, inside)),
    decreases a.len() - i,
{
    if i < a.len() {
        assert((a + b)[i] == a[i]);
        match a[i] {
            TokenView::Subshell => {
                lemma_scan_over(a, b, i + 1, !inside);
            },
            _ => {
                lemma_scan_over(a, b, i + 1, inside);
            },
        }
    } else {
        lemma_scan_shift(a, b, 0, inside);
    }
}

proof fn lemma_scan_shift(a: Seq<TokenView>, b: Seq<TokenView>, j: int, inside: bool)
    requires
        0 <= j <= b.len(),
    ensures
        parser::pipe_from(a + b, a.len() + j, inside) == shifted(
            parser::pipe_from(b, j, inside),
            a.len() as int,
        ),
        end_state(a + b, a.len() + j, inside) == end_state(b, j, inside),
    decreases b.len() - j,
{
    if j < b.len() {
        assert((a + b)[a.len() + j] == b[j]);
        match b[j] {
            TokenView::Subshell => {
                lemma_scan_shift(a, b, j + 1, !inside);
            },
            _ => {
                lemma_scan_shift(a, b, j + 1, inside);
            },
        }
    }
}

/// Closed tokens followed by closed tokens are closed.
proof fn lemma_closed_concat(a: Seq<TokenView>, b: Seq<TokenView>)
    requires
        closed(a),
        closed(b),
    ensures
        closed(a + b),
{
    lemma_scan_over(a, b, 0, false);
}

/// Between back-ticks nothing is seen: tokens without a back-tick, put
/// between two, are closed.
proof fn lemma_hidden(x: Seq<TokenView>, i: int)
    requires
        no_backtick(x),
        0 <= i <= x.len(),
    ensures
        parser::pipe_from(x, i, true) is None,
        end_state(x, i, true),
    decreases x.len() - i,
{
    if i < x.len() {
        assert(!(x[i] is Subshell));
        lemma_hidden(x, i + 1);
    }
}

proof fn lemma_closed_subshell(x: Seq<TokenView>)
    requires
        no_backtick(x),
    ensures
        closed(seq![TokenView::Subshell] + x + seq![TokenView::Subshell]),
{
    let open = seq![TokenView::Subshell];
    let t = open + x + open;
    lemma_hidden(x, 0);
    // scanning x from inside, then the closing back-tick
    lemma_scan_over(x, open, 0, true);
    assert(parser::pipe_from(open, 0, true) is None) by {
        assert(parser::pipe_from(open, 1, false) is None);
    }
    assert(!end_state(open, 0, true)) by {
        assert(!end_state(open, 1, false));
    }
    let rest = x + open;
    assert(parser::pipe_from(rest, 0, true) is None);
    assert(!end_state(rest, 0, true));
    lemma_scan_shift(open, rest, 0, true);
    assert(t =~= open + rest);
    assert((open + rest)[0] is Subshell);
    assert(parser::pipe_from(open + rest, 0, false) == parser::pipe_from(open + rest, 1, true));
    assert(end_state(open + rest, 0, false) == end_state(open + rest, 1, true));
}

proof fn lemma_closed_one(token: TokenView)
    requires
        !(token is Subshell),
        !(token is Pipe),
    ensures
        closed(seq![token]),
{
    let t = seq![token];
    assert(parser::pipe_from(t, 1, false) is None);
    assert(!end_state(t, 1, false));
}

proof fn lemma_closed_two(first: TokenView, second: TokenView)
    requires
        !(first is Subshell),
        !(first is Pipe),
        !(second is Subshell),
        !(second is Pipe),
    ensures
        closed(seq![first, second]),
{
    lemma_closed_one(first);
    lemma_closed_one(second);
    lemma_closed_concat(seq![first], seq![second]);
    assert(seq![first] + seq![second] =~= seq![first, second]);
}

/// The tokens of arguments without a sub-shell hold no back-tick.
proof fn lemma_flat_arguments(args: Seq<ArgumentView>)
    requires
        no_subshell(args),
    ensures
        no_backtick(unparse_arguments(args)),
    decreases args.len(),
{
    if args.len() > 0 {
        assert(no_subshell(args.drop_last())) by {
            assert forall|i: int| 0 <= i < args.drop_last().len() implies !((#[trigger] args.drop_last()[i]) is Subshell) by {
                assert(args.drop_last()[i] == args[i]);
            }
        }
        lemma_flat_arguments(args.drop_last());
        assert(!(args.last() is Subshell)) by {
            assert(args[args.len() - 1] == args.last());
        }
        let before = unparse_arguments(args.drop_last());
        let own = unparse_argument(args.last());
        assert(no_backtick(own));
        assert forall|i: int| 0 <= i < (before + own).len() implies !((#[trigger] (before + own)[i]) is Subshell) by {
            if i < before.len() {
                assert((before + own)[i] == before[i]);
            } else {
                assert((before + own)[i] == own[i - before.len()]);
            }
        }
    }
}

/// The tokens of an expression without a sub-shell hold no back-tick.
proof fn lemma_flat(e: ExprView)
    requires
        flat(e),
    ensures
        no_backtick(unparse(e)),
    decreases e,
{
    match e {
        ExprView::Command(name, args) => {
            lemma_flat_arguments(args);
        },
        ExprView::Pipeline(l, r) => {
            lemma_flat(*l);
            lemma_flat(*r);
        },
    }
}

proof fn lemma_closed_argument(a: ArgumentView)
    requires
        printable_argument(a),
    ensures
        closed(unparse_argument(a)),
{
    match a {
        ArgumentView::Literal(c) => {
            lemma_closed_one(TokenView::StringLiteral(c));
        },
        ArgumentView::Redirect(fd, p) => {
            lemma_closed_two(TokenView::Redirect(fd), TokenView::StringLiteral(p));
        },
        ArgumentView::Append(fd, p) => {
            lemma_closed_two(TokenView::Append(fd), TokenView::StringLiteral(p));
        },
        ArgumentView::Input(fd, p) => {
            lemma_closed_two(TokenView::Input(fd), TokenView::StringLiteral(p));
        },
        ArgumentView::RedirectFD(x, y) => {
            lemma_closed_one(TokenView::RedirectFD(x, y));
        },
        ArgumentView::Background => {
            lemma_closed_one(TokenView::Background);
        },
        ArgumentView::Subshell(e) => {
            lemma_flat(*e);
            lemma_closed_subshell(unparse(*e));
        },
    }
}

proof fn lemma_closed_arguments(args: Seq<ArgumentView>)
    requires
        forall|i: int| 0 <= i < args.len() ==> printable_argument(#[trigger] args[i]),
    ensures
        closed(unparse_arguments(args)),
    decreases args.len(),
{
    if args.len() > 0 {
        assert forall|i: int| 0 <= i < args.drop_last().len() implies printable_argument(
            #[trigger] args.drop_last()[i],
        ) by {
            assert(args.drop_last()[i] == args[i]);
        }
        lemma_closed_arguments(args.drop_last());
        assert(printable_argument(args[args.len() - 1]));
        lemma_closed_argument(args.last());
        lemma_closed_concat(unparse_arguments(args.drop_last()), unparse_argument(args.last()));
    } else {
        assert(parser::pipe_from(Seq::<TokenView>::empty(), 0, false) is None);
    }
}

/// The tokens of a command that can be printed are closed.
proof fn lemma_closed_command(e: ExprView)
    requires
        e is Command,
        printable(e),
    ensures
        closed(unparse(e)),
{
    match e {
        ExprView::Command(name, args) => {
            lemma_closed_one(TokenView::StringLiteral(name));
            lemma_closed_arguments(args);
            lemma_closed_concat(seq![TokenView::StringLiteral(name)], unparse_arguments(args));
        },
        _ => {},
    }
}

/// The first back-tick after tokens that hold none is the one that
/// follows them.
proof fn lemma_next_backtick(pre: Seq<TokenView>, x: Seq<TokenView>, post: Seq<TokenView>, k: int)
    requires
        no_backtick(x),
        0 <= k <= x.len(),
        post.len() > 0,
        post[0] is Subshell,
    ensures
        parser::backtick_from(pre + x + post, pre.len() + k) == Some((pre.len() + x.len()) as int),
    decreases x.len() - k,
{
    let t = pre + x + post;
    if k < x.len() {
        assert(t[pre.len() + k] == x[k]);
        assert(!(x[k] is Subshell));
        lemma_next_backtick(pre, x, post, k + 1);
    } else {
        assert(t[(pre.len() + x.len()) as int] == post[0]);
    }
}

/// The tokens of the first `k` arguments begin the tokens of all.
proof fn lemma_arguments_prefix(args: Seq<ArgumentView>, k: int)
    requires
        0 <= k <= args.len(),
    ensures
        unparse_arguments(args.take(k)).len() <= unparse_arguments(args).len(),
        unparse_arguments(args).subrange(0, unparse_arguments(args.take(k)).len() as int)
            == unparse_arguments(args.take(k)),
        k < args.len() ==> unparse_arguments(args.take(k + 1)) == unparse_arguments(args.take(k))
            + unparse_argument(args[k]),
    decreases args.len() - k,
{
    if k < args.len() {
        assert(args.take(k + 1).drop_last() =~= args.take(k));
        assert(args.take(k + 1).last() == args[k]);
        lemma_arguments_prefix(args, k + 1);
        let whole = unparse_arguments(args);
        let more = unparse_arguments(args.take(k + 1));
        let less = unparse_arguments(args.take(k));
        assert(more == less + unparse_argument(args[k]));
        assert(whole.subrange(0, less.len() as int) =~= whole.subrange(0, more.len() as int).subrange(
            0,
            less.len() as int,
        ));
        assert(more.subrange(0, less.len() as int) =~= less);
    } else {
        assert(args.take(k) =~= args);
        assert(unparse_arguments(args).subrange(0, unparse_arguments(args).len() as int)
            =~= unparse_arguments(args));
    }
}

/// Parsing what was printed gives the expression back: for every
/// expression that can be printed, the parser accepts its tokens and
/// returns the expression.
pub proof fn law_parse_unparse(e: ExprView)
    requires
        printable(e),
    ensures
        parser::spec_parse(unparse(e)) == Ok::<ExprView, Error>(e),
    decreases e, 1nat, 0nat,
{
    let t = unparse(e);
    match e {
        ExprView::Command(name, args) => {
            lemma_closed_command(e);
            lemma_arguments_back(name, args, 0);
            assert(args.take(0) =~= Seq::<ArgumentView>::empty());
            assert(unparse_arguments(args.take(0)).len() == 0);
            assert(args.skip(0) =~= args);
            assert(t.len() > 0);
            assert(t[0] == TokenView::StringLiteral(name));
            assert(parser::parse_arguments(t, 1) == Ok::<Seq<ArgumentView>, Error>(args));
            assert(parser::pipe_from(t, 0, false) is None);
            assert(parser::parse_command(t) == Ok::<ExprView, Error>(e));
        },
        ExprView::Pipeline(l, r) => {
            let left = unparse(*l);
            let right = unparse(*r);
            let tail = seq![TokenView::Pipe] + right;
            lemma_closed_command(*l);
            assert(t =~= left + tail);
            lemma_scan_over(left, tail, 0, false);
            assert(parser::pipe_from(tail, 0, false) == Some(0int));
            assert(parser::pipe_from(t, 0, false) == Some(left.len() as int));
            assert(t.subrange(0, left.len() as int) =~= left);
            assert(t.subrange((left.len() + 1) as int, t.len() as int) =~= right);
            law_parse_unparse(*l);
            law_parse_unparse(*r);
        },
    }
}

/// Reading the printed arguments from the `k`th on gives the arguments
/// from the `k`th on.
#[verifier::rlimit(80)]
#[verifier::spinoff_prover]
proof fn lemma_arguments_back(name: Seq<ComponentView>, args: Seq<ArgumentView>, k: int)
    requires
        0 <= k <= args.len(),
        forall|i: int| 0 <= i < args.len() ==> printable_argument(#[trigger] args[i]),
    ensures
        parser::parse_arguments(
            unparse(ExprView::Command(name, args)),
            (1 + unparse_arguments(args.take(k)).len()) as int,
        ) == Ok::<Seq<ArgumentView>, Error>(args.skip(k)),
    decreases ExprView::Command(name, args), 0nat, args.len() - k,
{
    let t = unparse(ExprView::Command(name, args));
    let head = seq![TokenView::StringLiteral(name)];
    let all = unparse_arguments(args);
    let done = unparse_arguments(args.take(k));
    let at: int = (1 + done.len()) as int;
    lemma_arguments_prefix(args, k);
    if k == args.len() {
        assert(args.take(k) =~= args);
        assert(args.skip(k) =~= Seq::<ArgumentView>::empty());
    } else {
        let a = args[k];
        let own = unparse_argument(a);
        let next = unparse_arguments(args.take(k + 1));
        lemma_arguments_prefix(args, k + 1);
        assert(next == done + own);
        assert(all.subrange(0, next.len() as int) == next);
        assert forall|j: int| 0 <= j < own.len() implies t[at + j] == own[j] by {
            assert(all.subrange(0, next.len() as int)[at - 1 + j] == all[at - 1 + j]);
            assert(next[at - 1 + j] == own[j]);
        }
        lemma_arguments_back(name, args, k + 1);
        assert(args.skip(k) =~= seq![a] + args.skip(k + 1));
        assert(printable_argument(args[k]));
        match a {
            ArgumentView::Literal(c) => {
                assert(t[at] == own[0]);
            },
            ArgumentView::Redirect(fd, p) => {
                assert(t[at] == own[0]);
                assert(t[at + 1] == own[1]);
            },
            ArgumentView::Append(fd, p) => {
                assert(t[at] == own[0]);
                assert(t[at + 1] == own[1]);
            },
            ArgumentView::Input(fd, p) => {
                assert(t[at] == own[0]);
                assert(t[at + 1] == own[1]);
            },
            ArgumentView::RedirectFD(x, y) => {
                assert(t[at] == own[0]);
            },
            ArgumentView::Background => {
                assert(t[at] == own[0]);
            },
            ArgumentView::Subshell(inner) => {
                let body = unparse(*inner);
                let size: int = body.len() as int;
                assert(t[at] == own[0]);
                lemma_flat(*inner);
                let pre = t.subrange(0, at + 1);
                let post = t.subrange(at + 1 + size, t.len() as int);
                assert(own.len() == body.len() + 2);
                assert(t[at + 1 + size] == own[size + 1]);
                assert(post[0] is Subshell);
                assert(t =~= pre + body + post) by {
                    assert forall|j: int| 0 <= j < size implies t[at + 1 + j] == body[j] by {
                        assert(t[at + (1 + j)] == own[1 + j]);
                    }
                }
                lemma_next_backtick(pre, body, post, 0);
                assert(t.subrange(at + 1, at + 1 + size) =~= body);
                law_parse_unparse(*inner);
            },
        }
    }
}


/// Before the first `|` outside back-ticks there is none.
proof fn lemma_before_pipe(t: Seq<TokenView>, i: int, inside: bool, p: int)
    requires
        0 <= i <= p < t.len(),
        parser::pipe_from(t, i, inside) == Some(p),
    ensures
        parser::pipe_from(t.subrange(0, p), i, inside) is None,
    decreases p - i,
{
    let head = t.subrange(0, p);
    if i < p {
        assert(head[i] == t[i]);
        match t[i] {
            TokenView::Subshell => {
                lemma_before_pipe(t, i + 1, !inside, p);
            },
            TokenView::Pipe => {
                lemma_before_pipe(t, i + 1, inside, p);
            },
            _ => {
                lemma_before_pipe(t, i + 1, inside, p);
            },
        }
    }
}

/// Where a `|` is found there is one.
proof fn lemma_pipe_found(t: Seq<TokenView>, i: int, inside: bool)
    requires
        0 <= i,
    ensures
        parser::pipe_from(t, i, inside) matches Some(p) ==> i <= p < t.len(),
    decreases t.len() - i,
{
    if i < t.len() {
        match t[i] {
            TokenView::Subshell => {
                lemma_pipe_found(t, i + 1, !inside);
            },
            _ => {
                lemma_pipe_found(t, i + 1, inside);
            },
        }
    }
}

/// Where a back-tick is found there is one, and none before it.
proof fn lemma_backtick_found(t: Seq<TokenView>, i: int)
    requires
        0 <= i,
    ensures
        parser::backtick_from(t, i) matches Some(j) ==> i <= j < t.len() && t[j] is Subshell
            && forall|k: int| i <= k < j ==> !((#[trigger] t[k]) is Subshell),
    decreases t.len() - i,
{
    if i < t.len() && !(t[i] is Subshell) {
        lemma_backtick_found(t, i + 1);
    }
}

/// A part of tokens without a back-tick holds none.
proof fn lemma_part_no_backtick(t: Seq<TokenView>, a: int, b: int)
    requires
        0 <= a <= b <= t.len(),
        forall|k: int| a <= k < b ==> !((#[trigger] t[k]) is Subshell),
    ensures
        no_backtick(t.subrange(a, b)),
{
    assert forall|i: int| 0 <= i < t.subrange(a, b).len() implies !((#[trigger] t.subrange(a, b)[i]) is Subshell) by {
        assert(t.subrange(a, b)[i] == t[a + i]);
    }
}

/// What holds of arguments: each can be printed, and none is a sub-shell
/// where `plain` holds.
pub open spec fn arguments_fit(args: Seq<ArgumentView>, plain: bool) -> bool {
    &&& forall|k: int| 0 <= k < args.len() ==> printable_argument(#[trigger] args[k])
    &&& plain ==> no_subshell(args)
}

proof fn lemma_fit_concat(first: Seq<ArgumentView>, more: Seq<ArgumentView>, plain: bool)
    requires
        arguments_fit(first, plain),
        arguments_fit(more, plain),
    ensures
        arguments_fit(first + more, plain),
{
    let all = first + more;
    assert forall|k: int| 0 <= k < all.len() implies printable_argument(#[trigger] all[k]) by {
        if k < first.len() {
            assert(all[k] == first[k]);
        } else {
            assert(all[k] == more[k - first.len()]);
        }
    }
    if plain {
        assert forall|k: int| 0 <= k < all.len() implies !((#[trigger] all[k]) is Subshell) by {
            if k < first.len() {
                assert(all[k] == first[k]);
            } else {
                assert(all[k] == more[k - first.len()]);
            }
        }
    }
}

/// The arguments the parser reads can be printed, and hold no sub-shell
/// where the tokens hold no back-tick.
proof fn lemma_arguments_read(t: Seq<TokenView>, i: int)
    requires
        0 <= i,
    ensures
        parser::parse_arguments(t, i) matches Ok(args) ==> arguments_fit(args, no_backtick(t)),
    decreases t.len(), 0nat, t.len() - i,
{
    let plain = no_backtick(t);
    if i < t.len() {
        match parser::parse_arguments(t, i) {
            Err(_) => {},
            Ok(args) => {
                match t[i] {
                    TokenView::StringLiteral(c) => {
                        lemma_arguments_read(t, i + 1);
                        lemma_fit_concat(
                            seq![ArgumentView::Literal(c)],
                            parser::parse_arguments(t, i + 1)->Ok_0,
                            plain,
                        );
                    },
                    TokenView::RedirectFD(a, b) => {
                        lemma_arguments_read(t, i + 1);
                        lemma_fit_concat(
                            seq![ArgumentView::RedirectFD(a, b)],
                            parser::parse_arguments(t, i + 1)->Ok_0,
                            plain,
                        );
                    },
                    TokenView::Background => {
                        lemma_arguments_read(t, i + 1);
                        lemma_fit_concat(
                            seq![ArgumentView::Background],
                            parser::parse_arguments(t, i + 1)->Ok_0,
                            plain,
                        );
                    },
                    TokenView::Pipe => {},
                    TokenView::Subshell => {
                        assert(!plain);
                        lemma_backtick_found(t, i + 1);
                        let j = parser::backtick_from(t, i + 1)->0;
                        let body = t.subrange(i + 1, j);
                        lemma_part_no_backtick(t, i + 1, j);
                        law_parse_printable(body);
                        lemma_flat_read(body);
                        let inner = parser::spec_parse(body)->Ok_0;
                        lemma_arguments_read(t, j + 1);
                        lemma_fit_concat(
                            seq![ArgumentView::Subshell(Box::new(inner))],
                            parser::parse_arguments(t, j + 1)->Ok_0,
                            plain,
                        );
                    },
                    operator => {
                        lemma_arguments_read(t, i + 2);
                        let path = t[i + 1]->StringLiteral_0;
                        let first = match operator {
                            TokenView::Redirect(fd) => seq![ArgumentView::Redirect(fd, path)],
                            TokenView::Append(fd) => seq![ArgumentView::Append(fd, path)],
                            TokenView::Input(fd) => seq![ArgumentView::Input(fd, path)],
                            TokenView::RedirectAll => seq![
                                ArgumentView::Redirect(1, path),
                                ArgumentView::Redirect(2, path),
                            ],
                            _ => seq![ArgumentView::Append(1, path), ArgumentView::Append(2, path)],
                        };
                        lemma_fit_concat(first, parser::parse_arguments(t, i + 2)->Ok_0, plain);
                    },
                }
            },
        }
    }
}

/// Tokens without a back-tick parse to an expression without a
/// sub-shell.
proof fn lemma_flat_read(t: Seq<TokenView>)
    requires
        no_backtick(t),
    ensures
        parser::spec_parse(t) matches Ok(e) ==> flat(e),
    decreases t.len(), 1nat, 0nat,
{
    lemma_pipe_found(t, 0, false);
    match parser::pipe_from(t, 0, false) {
        Some(p) => {
            let head = t.subrange(0, p);
            let tail = t.subrange(p + 1, t.len() as int);
            lemma_part_no_backtick(t, 0, p);
            lemma_part_no_backtick(t, p + 1, t.len() as int);
            lemma_flat_read(head);
            lemma_flat_read(tail);
            match (parser::spec_parse(head), parser::spec_parse(tail)) {
                (Ok(l), Ok(r)) => {
                    assert(parser::spec_parse(t) == Ok::<ExprView, Error>(
                        ExprView::Pipeline(Box::new(l), Box::new(r)),
                    ));
                },
                _ => {
                    assert(parser::spec_parse(t) is Err);
                },
            }
        },
        None => {
            assert(parser::spec_parse(t) == parser::parse_command(t));
            if t.len() > 0 {
                lemma_arguments_read(t, 1);
            }
        },
    }
}

/// What the parser returns can be printed.
pub proof fn law_parse_printable(t: Seq<TokenView>)
    ensures
        parser::spec_parse(t) matches Ok(e) ==> printable(e),
    decreases t.len(), 1nat, 1nat,
{
    lemma_pipe_found(t, 0, false);
    match parser::pipe_from(t, 0, false) {
        Some(p) => {
            let head = t.subrange(0, p);
            let tail = t.subrange(p + 1, t.len() as int);
            lemma_before_pipe(t, 0, false, p);
            law_parse_printable(head);
            law_parse_printable(tail);
            assert(parser::spec_parse(head) == parser::parse_command(head));
            match (parser::spec_parse(head), parser::spec_parse(tail)) {
                (Ok(l), Ok(r)) => {
                    assert(l is Command);
                    assert(parser::spec_parse(t) == Ok::<ExprView, Error>(
                        ExprView::Pipeline(Box::new(l), Box::new(r)),
                    ));
                },
                _ => {
                    assert(parser::spec_parse(t) is Err);
                },
            }
        },
        None => {
            assert(parser::spec_parse(t) == parser::parse_command(t));
            if t.len() > 0 {
                lemma_arguments_read(t, 1);
            }
        },
    }
}

/// The round trip: whenever tokens parse to an expression, the tokens of
/// that expression parse to the same expression.
pub proof fn law_round_trip(t: Seq<TokenView>)
    ensures
        parser::spec_parse(t) matches Ok(e) ==> parser::spec_parse(unparse(e)) == Ok::<ExprView, Error>(
            e,
        ),
{
    law_parse_printable(t);
    match parser::spec_parse(t) {
        Ok(e) => {
            law_parse_unparse(e);
        },
        Err(_) => {},
    }
}


/// The tokens of an expression, see [`unparse`].
#[verifier::loop_isolation(false)]
pub fn unparse_expr(e: &Expr) -> (r: Vec<Token>)
    ensures
        tokens::tokens_view(r@) == unparse(e@),
    decreases e,
{
    match e {
        Expr::Command(name, arguments) => {
            let ghost args = ast::arguments_view(arguments@);
            assert(e@ == ExprView::Command(tokens::components_view(name@), args)) by {
                assert(e@->Command_1 =~= args);
            }
            let mut r: Vec<Token> = Vec::new();
            r.push(Token::StringLiteral(tokens::clone_components(name.as_slice())));
            let ghost head = tokens::tokens_view(r@);
            assert(head =~= seq![TokenView::StringLiteral(tokens::components_view(name@))]);
            let mut i: usize = 0;
            assert(args.take(0) =~= Seq::<ArgumentView>::empty());
            assert(tokens::tokens_view(r@) =~= head + unparse_arguments(args.take(0)));
            while i < arguments.len()
                invariant
                    i <= arguments@.len(),
                    *e == Expr::Command(*name, *arguments),
                    args == ast::arguments_view(arguments@),
                    tokens::tokens_view(r@) == head + unparse_arguments(args.take(i as int)),
                decreases arguments@.len() - i,
            {
                let ghost before = tokens::tokens_view(r@);
                assert(args.take(i + 1).drop_last() =~= args.take(i as int));
                assert(args.take(i + 1).last() == arguments@[i as int]@);
                match &arguments[i] {
                    Argument::Literal(c) => {
                        r.push(Token::StringLiteral(tokens::clone_components(c.as_slice())));
                    },
                    Argument::Redirect(fd, p) => {
                        r.push(Token::Redirect(*fd));
                        r.push(Token::StringLiteral(tokens::clone_components(p.as_slice())));
                    },
                    Argument::Append(fd, p) => {
                        r.push(Token::Append(*fd));
                        r.push(Token::StringLiteral(tokens::clone_components(p.as_slice())));
                    },
                    Argument::Input(fd, p) => {
                        r.push(Token::Input(*fd));
                        r.push(Token::StringLiteral(tokens::clone_components(p.as_slice())));
                    },
                    Argument::RedirectFD(a, b) => {
                        r.push(Token::RedirectFD(*a, *b));
                    },
                    Argument::Background => {
                        r.push(Token::Background);
                    },
                    Argument::Subshell(inner) => {
                        r.push(Token::Subshell);
                        proof {
                            vstd::std_specs::vec::axiom_vec_index_decreases(*arguments, i as int);
                        }
                        let mut body = unparse_expr(inner);
                        let ghost bv = tokens::tokens_view(body@);
                        let ghost opened = tokens::tokens_view(r@);
                        r.append(&mut body);
                        assert(tokens::tokens_view(r@) =~= opened + bv);
                        r.push(Token::Subshell);
                    },
                }
                assert(tokens::tokens_view(r@) =~= before + unparse_argument(arguments@[i as int]@));
                assert(head + unparse_arguments(args.take(i as int)) + unparse_argument(arguments@[i as int]@)
                    =~= head + (unparse_arguments(args.take(i as int)) + unparse_argument(
                    arguments@[i as int]@,
                )));
                i += 1;
            }
            assert(args.take(arguments@.len() as int) =~= args);
            r
        },
        Expr::Pipeline(l, right) => {
            let mut r = unparse_expr(l);
            let ghost lv = tokens::tokens_view(r@);
            r.push(Token::Pipe);
            let mut tail = unparse_expr(right);
            let ghost rv = tokens::tokens_view(tail@);
            let ghost mid = tokens::tokens_view(r@);
            r.append(&mut tail);
            assert(tokens::tokens_view(r@) =~= mid + rv);
            assert(mid =~= lv + seq![TokenView::Pipe]);
            r
        },
    }
}

/// How a component is written: a variable as `${NAME}`, a literal with
/// `\` before it.
pub open spec fn printed_component(c: ComponentView) -> Seq<char> {
    match c {
        ComponentView::Literal(t) => seq!['\\'] + t,
        ComponentView::EnvVar(n) => seq!['$', '{'] + n + seq!['}'],
    }
}

/// How the components of a string are written, one after the other.
pub open spec fn printed_components(c: Seq<ComponentView>) -> Seq<char>
    decreases c.len(),
{
    if c.len() == 0 {
        Seq::empty()
    } else {
        printed_components(c.drop_last()) + printed_component(c.last())
    }
}

/// No literal holds, after its first character, a character that would
/// end a bare string.
pub open spec fn bare_plain(c: Seq<ComponentView>) -> bool {
    forall|k: int, j: int|
        0 <= k < c.len() && c[k] is Literal && 1 <= j < c[k]->Literal_0.len() ==> !crate::syntax::lexer::is_stop(
            #[trigger] c[k]->Literal_0[j],
            false,
        )
}

/// How a token is written: a string bare where it can be, in double
/// quotes otherwise; an operator with its descriptors in decimal.
pub open spec fn printed_token(t: TokenView) -> Seq<char> {
    match t {
        TokenView::StringLiteral(c) => if bare_plain(c) {
            printed_components(c)
        } else {
            seq!['"'] + printed_components(c) + seq!['"']
        },
        TokenView::Pipe => seq!['|'],
        TokenView::Redirect(fd) => text::decimal_int(fd as int) + seq!['>'],
        TokenView::RedirectFD(a, b) => text::decimal_int(a as int) + seq!['>', '&'] + text::decimal_int(
            b as int,
        ),
        TokenView::Append(fd) => text::decimal_int(fd as int) + seq!['>', '>'],
        TokenView::RedirectAll => seq!['&', '>'],
        TokenView::AppendAll => seq!['&', '>', '>'],
        TokenView::Background => seq!['&'],
        TokenView::Input(fd) => text::decimal_int(fd as int) + seq!['<'],
        TokenView::Subshell => seq!['`'],
    }
}

/// How tokens are written: one after the other with a blank between
/// neighbours.
pub open spec fn printed(t: Seq<TokenView>) -> Seq<char>
    decreases t.len(),
{
    if t.len() == 0 {
        Seq::empty()
    } else if t.len() == 1 {
        printed_token(t[0])
    } else {
        printed(t.drop_last()) + seq![' '] + printed_token(t.last())
    }
}

fn is_bare_plain(c: &[StringLiteralComponent]) -> (r: bool)
    ensures
        r == bare_plain(tokens::components_view(c@)),
{
    let ghost cv = tokens::components_view(c@);
    let mut k: usize = 0;
    while k < c.len()
        invariant
            k <= c@.len(),
            cv == tokens::components_view(c@),
            forall|a: int, j: int|
                0 <= a < k && cv[a] is Literal && 1 <= j < cv[a]->Literal_0.len()
                    ==> !crate::syntax::lexer::is_stop(#[trigger] cv[a]->Literal_0[j], false),
        decreases c@.len() - k,
    {
        assert(cv[k as int] == c@[k as int]@);
        match &c[k] {
            StringLiteralComponent::Literal(t) => {
                let chars = text::chars_of(t.as_str());
                let mut j: usize = 1;
                while j < chars.len()
                    invariant
                        1 <= j,
                        chars@ == t@,
                        cv == tokens::components_view(c@),
                        cv[k as int] == ComponentView::Literal(t@),
                        k < cv.len(),
                        forall|b: int|
                            1 <= b < j && b < chars@.len() ==> !crate::syntax::lexer::is_stop(
                                #[trigger] chars@[b],
                                false,
                            ),
                    decreases chars@.len() - j,
                {
                    let ch = chars[j];
                    if ch == ' ' || ch == '\t' || ch == '\r' || ch == '\n' || ch == '>' || ch == '<' || ch
                        == '|' || ch == '&' || ch == '`' || (ch != '\\' && ch != '$' && text::is_whitespace(
                        ch,
                    )) {
                        assert(crate::syntax::lexer::is_stop(cv[k as int]->Literal_0[j as int], false));
                        return false;
                    }
                    j += 1;
                }
            },
            StringLiteralComponent::EnvVar(_) => {},
        }
        k += 1;
    }
    true
}

fn print_components(c: &[StringLiteralComponent], out: &mut String)
    ensures
        final(out)@ == old(out)@ + printed_components(tokens::components_view(c@)),
{
    let ghost cv = tokens::components_view(c@);
    let ghost start = out@;
    let mut k: usize = 0;
    assert(cv.take(0) =~= Seq::<ComponentView>::empty());
    assert(start + printed_components(cv.take(0)) =~= start);
    while k < c.len()
        invariant
            k <= c@.len(),
            cv == tokens::components_view(c@),
            out@ == start + printed_components(cv.take(k as int)),
        decreases c@.len() - k,
    {
        let ghost before = out@;
        let ghost now = cv.take(k + 1);
        assert(now.drop_last() =~= cv.take(k as int));
        assert(now.last() == c@[k as int]@);
        assert(cv[k as int] == c@[k as int]@);
        match &c[k] {
            StringLiteralComponent::Literal(t) => {
                text::push_char(out, '\\');
                out.append(t.as_str());
            },
            StringLiteralComponent::EnvVar(n) => {
                text::push_char(out, '$');
                text::push_char(out, '{');
                out.append(n.as_str());
                text::push_char(out, '}');
            },
        }
        assert(out@ =~= before + printed_component(now.last()));
        assert(start + printed_components(cv.take(k as int)) + printed_component(now.last()) =~= start
            + printed_components(now));
        k += 1;
    }
    assert(cv.take(c@.len() as int) =~= cv);
}

fn print_token(t: &Token, out: &mut String)
    ensures
        final(out)@ == old(out)@ + printed_token(t@),
{
    let ghost start = out@;
    match t {
        Token::StringLiteral(c) => {
            if is_bare_plain(c.as_slice()) {
                print_components(c.as_slice(), out);
            } else {
                text::push_char(out, '"');
                print_components(c.as_slice(), out);
                text::push_char(out, '"');
                assert(out@ =~= start + (seq!['"'] + printed_components(tokens::components_view(c@))
                    + seq!['"']));
            }
        },
        Token::Pipe => {
            text::push_char(out, '|');
            assert(out@ =~= start + seq!['|']);
        },
        Token::Redirect(fd) => {
            let n = text::decimal(*fd);
            out.append(n.as_str());
            text::push_char(out, '>');
            assert(out@ =~= start + (text::decimal_int(*fd as int) + seq!['>']));
        },
        Token::RedirectFD(a, b) => {
            let n = text::decimal(*a);
            out.append(n.as_str());
            text::push_char(out, '>');
            text::push_char(out, '&');
            let m = text::decimal(*b);
            out.append(m.as_str());
            assert(out@ =~= start + (text::decimal_int(*a as int) + seq!['>', '&'] + text::decimal_int(
                *b as int,
            )));
        },
        Token::Append(fd) => {
            let n = text::decimal(*fd);
            out.append(n.as_str());
            text::push_char(out, '>');
            text::push_char(out, '>');
            assert(out@ =~= start + (text::decimal_int(*fd as int) + seq!['>', '>']));
        },
        Token::RedirectAll => {
            text::push_char(out, '&');
            text::push_char(out, '>');
            assert(out@ =~= start + seq!['&', '>']);
        },
        Token::AppendAll => {
            text::push_char(out, '&');
            text::push_char(out, '>');
            text::push_char(out, '>');
            assert(out@ =~= start + seq!['&', '>', '>']);
        },
        Token::Background => {
            text::push_char(out, '&');
            assert(out@ =~= start + seq!['&']);
        },
        Token::Input(fd) => {
            let n = text::decimal(*fd);
            out.append(n.as_str());
            text::push_char(out, '<');
            assert(out@ =~= start + (text::decimal_int(*fd as int) + seq!['<']));
        },
        Token::Subshell => {
            text::push_char(out, '`');
            assert(out@ =~= start + seq!['`']);
        },
    }
}

/// Writes tokens as text, see [`printed`].
pub fn print_tokens(t: &[Token]) -> (r: String)
    ensures
        r@ == printed(tokens::tokens_view(t@)),
{
    let ghost tv = tokens::tokens_view(t@);
    let mut out = String::new();
    let mut i: usize = 0;
    assert(tv.take(0) =~= Seq::<TokenView>::empty());
    while i < t.len()
        invariant
            i <= t@.len(),
            tv == tokens::tokens_view(t@),
            out@ == printed(tv.take(i as int)),
        decreases t@.len() - i,
    {
        assert(tv.take(i + 1).drop_last() =~= tv.take(i as int));
        assert(tv.take(i + 1).last() == t@[i as int]@);
        if i > 0 {
            text::push_char(&mut out, ' ');
        } else {
            assert(tv.take(1)[0] == t@[0]@);
        }
        print_token(&t[i], &mut out);
        assert(out@ =~= printed(tv.take(i + 1)));
        i += 1;
    }
    assert(tv.take(t@.len() as int) =~= tv);
    out
}

/// Writes an expression as a command line: the text of its tokens.
pub fn print(e: &Expr) -> (r: String)
    ensures
        r@ == printed(unparse(e@)),
{
    let t = unparse_expr(e);
    print_tokens(t.as_slice())
}

} // verus!
