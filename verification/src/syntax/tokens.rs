//! Tokens: what the lexer cuts a line into.

use vstd::prelude::*;

verus! {

/// One piece of a string literal. Variables are kept by name: they are
/// looked up when a job is built, not when the line is read.
#[derive(Debug, Clone, PartialEq)]
pub enum StringLiteralComponent {
    /// Text taken as it stands.
    Literal(String),
    /// The value of the environment variable with this name.
    EnvVar(String),
}

/// The mathematical value of a [`StringLiteralComponent`].
pub enum ComponentView {
    Literal(Seq<char>),
    EnvVar(Seq<char>),
}

impl View for StringLiteralComponent {
    type V = ComponentView;

    open spec fn view(&self) -> ComponentView {
        match self {
            StringLiteralComponent::Literal(s) => ComponentView::Literal(s@),
            StringLiteralComponent::EnvVar(s) => ComponentView::EnvVar(s@),
        }
    }
}

/// The values of a sequence of components.
pub open spec fn components_view(s: Seq<StringLiteralComponent>) -> Seq<ComponentView> {
    Seq::new(s.len(), |i: int| s[i]@)
}

/// One token of a command line.
#[derive(Debug, Clone, PartialEq)]
pub enum Token {
    /// A word, bare or quoted.
    StringLiteral(Vec<StringLiteralComponent>),
    /// `|`
    Pipe,
    /// `N>`: the descriptor written to a file that is made anew.
    Redirect(i32),
    /// `N>&M`: the first descriptor becomes a copy of the second.
    RedirectFD(i32, i32),
    /// `N>>`: the descriptor written to the end of a file.
    Append(i32),
    /// `&>`: standard output and standard error to a file made anew.
    RedirectAll,
    /// `&>>`: standard output and standard error to the end of a file.
    AppendAll,
    /// `&`
    Background,
    /// `N<`: the descriptor read from a file.
    Input(i32),
    /// A back-tick.
    Subshell,
}

/// The mathematical value of a [`Token`].
pub enum TokenView {
    StringLiteral(Seq<ComponentView>),
    Pipe,
    Redirect(i32),
    RedirectFD(i32, i32),
    Append(i32),
    RedirectAll,
    AppendAll,
    Background,
    Input(i32),
    Subshell,
}

impl View for Token {
    type V = TokenView;

    open spec fn view(&self) -> TokenView {
        match self {
            Token::StringLiteral(c) => TokenView::StringLiteral(components_view(c@)),
            Token::Pipe => TokenView::Pipe,
            Token::Redirect(fd) => TokenView::Redirect(*fd),
            Token::RedirectFD(a, b) => TokenView::RedirectFD(*a, *b),
            Token::Append(fd) => TokenView::Append(*fd),
            Token::RedirectAll => TokenView::RedirectAll,
            Token::AppendAll => TokenView::AppendAll,
            Token::Background => TokenView::Background,
            Token::Input(fd) => TokenView::Input(*fd),
            Token::Subshell => TokenView::Subshell,
        }
    }
}

/// The values of a sequence of tokens.
pub open spec fn tokens_view(s: Seq<Token>) -> Seq<TokenView> {
    Seq::new(s.len(), |i: int| s[i]@)
}

/// A copy of a component.
pub fn clone_component(c: &StringLiteralComponent) -> (r: StringLiteralComponent)
    ensures
        r@ == c@,
{
    match c {
        StringLiteralComponent::Literal(s) => StringLiteralComponent::Literal(s.clone()),
        StringLiteralComponent::EnvVar(s) => StringLiteralComponent::EnvVar(s.clone()),
    }
}

/// A copy of each component, in order.
pub fn clone_components(c: &[StringLiteralComponent]) -> (r: Vec<StringLiteralComponent>)
    ensures
        components_view(r@) == components_view(c@),
{
    let mut r: Vec<StringLiteralComponent> = Vec::new();
    let mut i: usize = 0;
    while i < c.len()
        invariant
            i <= c.len(),
            r@.len() == i,
            forall|j: int| 0 <= j < i ==> r@[j]@ == c@[j]@,
        decreases c.len() - i,
    {
        r.push(clone_component(&c[i]));
        i += 1;
    }
    assert(components_view(r@) =~= components_view(c@));
    r
}

} // verus!
