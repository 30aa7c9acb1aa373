//! The expression tree the parser builds.

use vstd::prelude::*;
use crate::syntax::tokens::{ComponentView, StringLiteralComponent};
use crate::syntax::tokens;

verus! {

/// A parsed command line.
#[derive(Debug, PartialEq)]
pub enum Expr {
    /// A command: its name and what follows it.
    Command(Vec<StringLiteralComponent>, Vec<Argument>),
    /// Two expressions joined by `|`: the output of the left is the input
    /// of the right.
    Pipeline(Box<Expr>, Box<Expr>),
}

/// What can follow a command's name.
#[derive(Debug, PartialEq)]
pub enum Argument {
    /// The descriptor is written to the file, which is made anew.
    Redirect(i32, Vec<StringLiteralComponent>),
    /// The first descriptor becomes a copy of the second.
    RedirectFD(i32, i32),
    /// The descriptor is written to the end of the file.
    Append(i32, Vec<StringLiteralComponent>),
    /// The descriptor is read from the file.
    Input(i32, Vec<StringLiteralComponent>),
    /// The command runs in the background.
    Background,
    /// The output of another expression, as one word.
    Subshell(Box<Expr>),
    /// A word.
    Literal(Vec<StringLiteralComponent>),
}

/// The mathematical value of an [`Expr`].
pub enum ExprView {
    Command(Seq<ComponentView>, Seq<ArgumentView>),
    Pipeline(Box<ExprView>, Box<ExprView>),
}

/// The mathematical value of an [`Argument`].
pub enum ArgumentView {
    Redirect(i32, Seq<ComponentView>),
    RedirectFD(i32, i32),
    Append(i32, Seq<ComponentView>),
    Input(i32, Seq<ComponentView>),
    Background,
    Subshell(Box<ExprView>),
    Literal(Seq<ComponentView>),
}

/// The value of an expression.
pub open spec fn expr_view(e: Expr) -> ExprView
    decreases e,
{
    match e {
        Expr::Command(name, args) => ExprView::Command(
            tokens::components_view(name@),
            Seq::new(
                args@.len(),
                |i: int|
                    if 0 <= i < args@.len() {
                        argument_view(args@[i])
                    } else {
                        ArgumentView::Background
                    },
            ),
        ),
        Expr::Pipeline(l, r) => ExprView::Pipeline(Box::new(expr_view(*l)), Box::new(expr_view(*r))),
    }
}

/// The value of an argument.
pub open spec fn argument_view(a: Argument) -> ArgumentView
    decreases a,
{
    match a {
        Argument::Redirect(fd, p) => ArgumentView::Redirect(fd, tokens::components_view(p@)),
        Argument::RedirectFD(a, b) => ArgumentView::RedirectFD(a, b),
        Argument::Append(fd, p) => ArgumentView::Append(fd, tokens::components_view(p@)),
        Argument::Input(fd, p) => ArgumentView::Input(fd, tokens::components_view(p@)),
        Argument::Background => ArgumentView::Background,
        Argument::Subshell(e) => ArgumentView::Subshell(Box::new(expr_view(*e))),
        Argument::Literal(p) => ArgumentView::Literal(tokens::components_view(p@)),
    }
}

/// The values of a sequence of arguments.
pub open spec fn arguments_view(s: Seq<Argument>) -> Seq<ArgumentView> {
    Seq::new(s.len(), |i: int| argument_view(s[i]))
}

impl View for Expr {
    type V = ExprView;

    open spec fn view(&self) -> ExprView {
        expr_view(*self)
    }
}

impl View for Argument {
    type V = ArgumentView;

    open spec fn view(&self) -> ArgumentView {
        argument_view(*self)
    }
}

} // verus!
