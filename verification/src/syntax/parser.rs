//! The parser: from tokens to an expression tree.
//!
//! The first `|` outside back-ticks splits the tokens in two, and each
//! half is parsed in the same way. Tokens without such a `|` are one
//! command: a name, and what follows it. A back-tick opens a sub-shell,
//! which the next back-tick closes.

use vstd::prelude::*;
use vstd::slice::slice_subrange;
use crate::syntax::ast::{Argument, ArgumentView, Expr, ExprView};
use crate::syntax::ast;
use crate::syntax::tokens::{Token, TokenView};
use crate::syntax::tokens;

verus! {

/// Why tokens are no expression.
#[derive(Debug, PartialEq)]
pub enum Error {
    /// One side of a `|` is no expression, or a `|` stands where none
    /// can.
    PipeConstruction,
    /// A back-tick is not closed.
    SubshellMatch,
    /// What stands between two back-ticks is no expression, for the
    /// reason inside.
    Subshell(Box<Error>),
    /// A redirection is not followed by a string.
    ExpectedPath,
    /// The tokens do not begin with a string.
    ExpectedCommandName,
}

/// The position of the first `|` from `i` on that is outside back-ticks;
/// `inside` says whether `i` is between back-ticks.
pub open spec fn pipe_from(t: Seq<TokenView>, i: int, inside: bool) -> Option<int>
    decreases t.len() - i,
{
    if i < 0 || i >= t.len() {
        None
    } else {
        match t[i] {
            TokenView::Subshell => pipe_from(t, i + 1, !inside),
            TokenView::Pipe => if inside {
                pipe_from(t, i + 1, inside)
            } else {
                Some(i)
            },
            _ => pipe_from(t, i + 1, inside),
        }
    }
}

/// The position of the first back-tick from `i` on.
pub open spec fn backtick_from(t: Seq<TokenView>, i: int) -> Option<int>
    decreases t.len() - i,
{
    if i < 0 || i >= t.len() {
        None
    } else if t[i] is Subshell {
        Some(i)
    } else {
        backtick_from(t, i + 1)
    }
}

/// `first` before what `rest` holds, or the error `rest` holds.
pub open spec fn preceded(first: Seq<ArgumentView>, rest: Result<Seq<ArgumentView>, Error>) -> Result<
    Seq<ArgumentView>,
    Error,
> {
    match rest {
        Ok(more) => Ok(first + more),
        Err(e) => Err(e),
    }
}

/// The expression the tokens stand for.
pub open spec fn spec_parse(t: Seq<TokenView>) -> Result<ExprView, Error>
    decreases t.len(), 2nat, 0nat,
{
    match pipe_from(t, 0, false) {
        Some(p) => if 0 <= p < t.len() {
            match (spec_parse(t.subrange(0, p)), spec_parse(t.subrange(p + 1, t.len() as int))) {
                (Ok(l), Ok(r)) => Ok(ExprView::Pipeline(Box::new(l), Box::new(r))),
                _ => Err(Error::PipeConstruction),
            }
        } else {
            Err(Error::PipeConstruction)
        },
        None => parse_command(t),
    }
}

/// The command the tokens stand for: what follows the first token is read
/// first, and an error there counts before a missing name.
pub open spec fn parse_command(t: Seq<TokenView>) -> Result<ExprView, Error>
    decreases t.len(), 1nat, 0nat,
{
    if t.len() == 0 {
        Err(Error::ExpectedCommandName)
    } else {
        match parse_arguments(t, 1) {
            Err(e) => Err(e),
            Ok(arguments) => match t[0] {
                TokenView::StringLiteral(name) => Ok(ExprView::Command(name, arguments)),
                _ => Err(Error::ExpectedCommandName),
            },
        }
    }
}

/// The arguments the tokens from `i` on stand for.
pub open spec fn parse_arguments(t: Seq<TokenView>, i: int) -> Result<Seq<ArgumentView>, Error>
    decreases t.len(), 0nat, t.len() - i,
{
    if i < 0 || i >= t.len() {
        Ok(Seq::empty())
    } else {
        match t[i] {
            TokenView::StringLiteral(c) => preceded(seq![ArgumentView::Literal(c)], parse_arguments(t, i + 1)),
            TokenView::RedirectFD(a, b) => preceded(
                seq![ArgumentView::RedirectFD(a, b)],
                parse_arguments(t, i + 1),
            ),
            TokenView::Background => preceded(seq![ArgumentView::Background], parse_arguments(t, i + 1)),
            TokenView::Pipe => Err(Error::PipeConstruction),
            TokenView::Subshell => match backtick_from(t, i + 1) {
                None => Err(Error::SubshellMatch),
                Some(j) => if i < j < t.len() {
                    match spec_parse(t.subrange(i + 1, j)) {
                        Err(e) => Err(Error::Subshell(Box::new(e))),
                        Ok(inner) => preceded(
                            seq![ArgumentView::Subshell(Box::new(inner))],
                            parse_arguments(t, j + 1),
                        ),
                    }
                } else {
                    Err(Error::SubshellMatch)
                },
            },
            operator => if i + 1 < t.len() && t[i + 1] is StringLiteral {
                let path = t[i + 1]->StringLiteral_0;
                let first = match operator {
                    TokenView::Redirect(fd) => seq![ArgumentView::Redirect(fd, path)],
                    TokenView::Append(fd) => seq![ArgumentView::Append(fd, path)],
                    TokenView::Input(fd) => seq![ArgumentView::Input(fd, path)],
                    TokenView::RedirectAll => seq![
                        ArgumentView::Redirect(1, path),
                        ArgumentView::Redirect(2, path),
                    ],
                    _ => seq![ArgumentView::Append(1, path), ArgumentView::Append(2, path)],
                };
                preceded(first, parse_arguments(t, i + 2))
            } else {
                Err(Error::ExpectedPath)
            },
        }
    }
}

/// What a result of the parser stands for.
pub open spec fn parsed_view(r: Result<Expr, Error>) -> Result<ExprView, Error> {
    match r {
        Ok(e) => Ok(e@),
        Err(e) => Err(e),
    }
}

fn find_pipe(t: &[Token]) -> (r: Option<usize>)
    ensures
        match r {
            Some(p) => pipe_from(tokens::tokens_view(t@), 0, false) == Some(p as int) && p < t@.len(),
            None => pipe_from(tokens::tokens_view(t@), 0, false) is None,
        },
{
    let ghost tv = tokens::tokens_view(t@);
    let mut inside = false;
    let mut i: usize = 0;
    while i < t.len()
        invariant
            i <= t@.len(),
            tv == tokens::tokens_view(t@),
            pipe_from(tv, 0, false) == pipe_from(tv, i as int, inside),
        decreases t@.len() - i,
    {
        assert(tv[i as int] == t@[i as int]@);
        match &t[i] {
            Token::Subshell => {
                inside = !inside;
            },
            Token::Pipe => {
                if !inside {
                    return Some(i);
                }
            },
            _ => {},
        }
        i += 1;
    }
    None
}

fn find_backtick(t: &[Token], from: usize) -> (r: Option<usize>)
    requires
        from <= t@.len(),
    ensures
        match r {
            Some(j) => backtick_from(tokens::tokens_view(t@), from as int) == Some(j as int) && from
                <= j < t@.len(),
            None => backtick_from(tokens::tokens_view(t@), from as int) is None,
        },
{
    let ghost tv = tokens::tokens_view(t@);
    let mut i: usize = from;
    while i < t.len()
        invariant
            from <= i <= t@.len(),
            tv == tokens::tokens_view(t@),
            backtick_from(tv, from as int) == backtick_from(tv, i as int),
        decreases t@.len() - i,
    {
        assert(tv[i as int] == t@[i as int]@);
        match &t[i] {
            Token::Subshell => {
                return Some(i);
            },
            _ => {},
        }
        i += 1;
    }
    None
}

/// The tokens of a part are the part of the tokens.
proof fn lemma_subrange_view(t: Seq<Token>, a: int, b: int)
    requires
        0 <= a <= b <= t.len(),
    ensures
        tokens::tokens_view(t.subrange(a, b)) == tokens::tokens_view(t).subrange(a, b),
{
    assert(tokens::tokens_view(t.subrange(a, b)) =~= tokens::tokens_view(t).subrange(a, b));
}

/// Parses tokens that hold no `|` outside back-ticks.
fn parse_one(t: &[Token]) -> (r: Result<Expr, Error>)
    ensures
        parsed_view(r) == parse_command(tokens::tokens_view(t@)),
    decreases t@.len(), 1nat,
{
    let ghost tv = tokens::tokens_view(t@);
    let n = t.len();
    if n == 0 {
        return Err(Error::ExpectedCommandName);
    }
    let mut arguments: Vec<Argument> = Vec::new();
    let mut i: usize = 1;
    assert(ast::arguments_view(arguments@) =~= Seq::<ArgumentView>::empty());
    assert(preceded(Seq::empty(), parse_arguments(tv, 1)) == parse_arguments(tv, 1)) by {
        match parse_arguments(tv, 1) {
            Ok(more) => {
                assert(Seq::<ArgumentView>::empty() + more =~= more);
            },
            Err(_) => {},
        }
    }
    while i < n
        invariant
            1 <= i <= n + 1,
            n == t@.len(),
            tv == tokens::tokens_view(t@),
            parse_arguments(tv, 1) == preceded(ast::arguments_view(arguments@), parse_arguments(tv, i as int)),
        decreases n + 1 - i,
    {
        let ghost before = ast::arguments_view(arguments@);
        let ghost mut added: Seq<ArgumentView> = Seq::empty();
        assert(tv[i as int] == t@[i as int]@);
        let mut step: usize = 1;
        match &t[i] {
            Token::StringLiteral(c) => {
                let copy = tokens::clone_components(c.as_slice());
                arguments.push(Argument::Literal(copy));
                proof {
 added = seq![
                    ArgumentView::Literal(tokens::components_view(c@)),
                ];
 assert(ast::arguments_view(arguments@) =~= before + added);
 }
            },
            Token::RedirectFD(a, b) => {
                arguments.push(Argument::RedirectFD(*a, *b));
                proof {
 added = seq![ArgumentView::RedirectFD(*a, *b)];
 assert(ast::arguments_view(arguments@) =~= before + added);
 }
            },
            Token::Background => {
                arguments.push(Argument::Background);
                proof {
 added = seq![ArgumentView::Background];
 assert(ast::arguments_view(arguments@) =~= before + added);
 }
            },
            Token::Pipe => {
                return Err(Error::PipeConstruction);
            },
            Token::Subshell => {
                match find_backtick(t, i + 1) {
                    None => {
                        return Err(Error::SubshellMatch);
                    },
                    Some(j) => {
                        proof {
                            lemma_subrange_view(t@, i + 1, j as int);
                        }
                        match parse(slice_subrange(t, i + 1, j)) {
                            Err(e) => {
                                return Err(Error::Subshell(Box::new(e)));
                            },
                            Ok(inner) => {
                                let ghost iv = inner@;
                                arguments.push(Argument::Subshell(Box::new(inner)));
                                proof {
 added = seq![
                                    ArgumentView::Subshell(Box::new(iv)),
                                ];
 assert(ast::arguments_view(arguments@) =~= before + added);
 }
                                step = j + 1 - i;
                            },
                        }
                    },
                }
            },
            operator => {
                if i + 1 < n {
                    assert(tv[i + 1] == t@[i + 1]@);
                    match &t[i + 1] {
                        Token::StringLiteral(path) => {
                            let ghost pv = tokens::components_view(path@);
                            match operator {
                                Token::Redirect(fd) => {
                                    let copy = tokens::clone_components(path.as_slice());
                                    arguments.push(Argument::Redirect(*fd, copy));
                                    proof {
 added = seq![
                                        ArgumentView::Redirect(*fd, pv),
                                    ];
 assert(ast::arguments_view(arguments@) =~= before + added);
 }
                                },
                                Token::Append(fd) => {
                                    let copy = tokens::clone_components(path.as_slice());
                                    arguments.push(Argument::Append(*fd, copy));
                                    proof {
 added = seq![
                                        ArgumentView::Append(*fd, pv),
                                    ];
 assert(ast::arguments_view(arguments@) =~= before + added);
 }
                                },
                                Token::Input(fd) => {
                                    let copy = tokens::clone_components(path.as_slice());
                                    arguments.push(Argument::Input(*fd, copy));
                                    proof {
 added = seq![
                                        ArgumentView::Input(*fd, pv),
                                    ];
 assert(ast::arguments_view(arguments@) =~= before + added);
 }
                                },
                                Token::RedirectAll => {
                                    let one = tokens::clone_components(path.as_slice());
                                    let two = tokens::clone_components(path.as_slice());
                                    arguments.push(Argument::Redirect(1, one));
                                    arguments.push(Argument::Redirect(2, two));
                                    proof {
 added = seq![
                                        ArgumentView::Redirect(1, pv),
                                        ArgumentView::Redirect(2, pv),
                                    ];
 assert(ast::arguments_view(arguments@) =~= before + added);
 }
                                },
                                _ => {
                                    let one = tokens::clone_components(path.as_slice());
                                    let two = tokens::clone_components(path.as_slice());
                                    arguments.push(Argument::Append(1, one));
                                    arguments.push(Argument::Append(2, two));
                                    proof {
 added = seq![
                                        ArgumentView::Append(1, pv),
                                        ArgumentView::Append(2, pv),
                                    ];
 assert(ast::arguments_view(arguments@) =~= before + added);
 }
                                },
                            }
                            step = 2;
                        },
                        _ => {
                            return Err(Error::ExpectedPath);
                        },
                    }
                } else {
                    return Err(Error::ExpectedPath);
                }
            },
        }
        proof {
            let now = ast::arguments_view(arguments@);
            assert(now == before + added);
            assert(parse_arguments(tv, i as int) == preceded(added, parse_arguments(tv, i + step)));
            match parse_arguments(tv, i + step) {
                Ok(more) => {
                    assert(before + (added + more) =~= now + more);
                },
                Err(_) => {},
            }
        }
        i = i + step;
    }
    match &t[0] {
        Token::StringLiteral(name) => {
            let copy = tokens::clone_components(name.as_slice());
            assert(tv[0] == t@[0]@);
            assert(ast::arguments_view(arguments@) + Seq::<ArgumentView>::empty() =~= ast::arguments_view(
                arguments@,
            ));
            let e = Expr::Command(copy, arguments);
            assert(e@ == ExprView::Command(tokens::components_view(name@), ast::arguments_view(arguments@))) by {
                assert(e@->Command_1 =~= ast::arguments_view(arguments@));
            }
            Ok(e)
        },
        _ => {
            assert(tv[0] == t@[0]@);
            Err(Error::ExpectedCommandName)
        },
    }
}

/// Parses tokens into an expression.
pub fn parse(t: &[Token]) -> (r: Result<Expr, Error>)
    ensures
        parsed_view(r) == spec_parse(tokens::tokens_view(t@)),
    decreases t@.len(), 2nat,
{
    let n = t.len();
    match find_pipe(t) {
        Some(p) => {
            proof {
                lemma_subrange_view(t@, 0, p as int);
                lemma_subrange_view(t@, p + 1, t@.len() as int);
            }
            let left = parse(slice_subrange(t, 0, p));
            let right = parse(slice_subrange(t, p + 1, n));
            match left {
                Ok(l) => match right {
                    Ok(r) => Ok(Expr::Pipeline(Box::new(l), Box::new(r))),
                    Err(_) => Err(Error::PipeConstruction),
                },
                Err(_) => Err(Error::PipeConstruction),
            }
        },
        None => parse_one(t),
    }
}

} // verus!
