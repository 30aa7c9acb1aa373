use jobshell::syntax::ast::{Argument, Expr};
use jobshell::syntax::lexer::{lex, Hint, LexError};
use jobshell::syntax::parser::{parse, Error};
use jobshell::syntax::tokens::{StringLiteralComponent, Token};

fn lit(s: &str) -> StringLiteralComponent {
    StringLiteralComponent::Literal(s.to_string())
}

fn var(s: &str) -> StringLiteralComponent {
    StringLiteralComponent::EnvVar(s.to_string())
}

fn word(s: &str) -> Token {
    Token::StringLiteral(vec![lit(s)])
}

#[test]
fn lex_simple_command() {
    assert_eq!(lex("echo hello world"), Ok(vec![word("echo"), word("hello"), word("world")]));
}

#[test]
fn lex_empty_line_has_no_tokens() {
    assert_eq!(lex(""), Ok(vec![]));
    assert_eq!(lex("  \t "), Ok(vec![]));
}

#[test]
fn lex_pipe_and_background() {
    assert_eq!(
        lex("ls | wc -l &"),
        Ok(vec![word("ls"), Token::Pipe, word("wc"), word("-l"), Token::Background])
    );
}

#[test]
fn lex_redirections() {
    assert_eq!(lex("a > f"), Ok(vec![word("a"), Token::Redirect(1), word("f")]));
    assert_eq!(lex("a 2> f"), Ok(vec![word("a"), Token::Redirect(2), word("f")]));
    assert_eq!(lex("a >> f"), Ok(vec![word("a"), Token::Append(1), word("f")]));
    assert_eq!(lex("a 2>> f"), Ok(vec![word("a"), Token::Append(2), word("f")]));
    assert_eq!(lex("a < f"), Ok(vec![word("a"), Token::Input(1), word("f")]));
    assert_eq!(lex("a 0< f"), Ok(vec![word("a"), Token::Input(0), word("f")]));
    assert_eq!(lex("a 2>&1"), Ok(vec![word("a"), Token::RedirectFD(2, 1)]));
    assert_eq!(lex("a >&2"), Ok(vec![word("a"), Token::RedirectFD(1, 2)]));
    assert_eq!(lex("a &> f"), Ok(vec![word("a"), Token::RedirectAll, word("f")]));
    assert_eq!(lex("a &>> f"), Ok(vec![word("a"), Token::AppendAll, word("f")]));
}

#[test]
fn lex_longest_operator_wins() {
    assert_eq!(lex("&>>"), Ok(vec![Token::AppendAll]));
    assert_eq!(lex("&>"), Ok(vec![Token::RedirectAll]));
    assert_eq!(lex("&"), Ok(vec![Token::Background]));
    assert_eq!(lex(">>"), Ok(vec![Token::Append(1)]));
    assert_eq!(lex(">"), Ok(vec![Token::Redirect(1)]));
}

#[test]
fn lex_redirect_to_descriptor_needs_a_number() {
    assert_eq!(lex("a >&x"), Ok(vec![word("a"), Token::Redirect(1), Token::Background, word("x")]));
}

#[test]
fn lex_number_too_large_is_a_word() {
    assert_eq!(
        lex("99999999999> f"),
        Ok(vec![word("99999999999"), Token::Redirect(1), word("f")])
    );
}

#[test]
fn lex_quoted_string_keeps_blanks() {
    assert_eq!(lex("echo \"a b|c\""), Ok(vec![word("echo"), word("a b|c")]));
}

#[test]
fn lex_escape_starts_a_new_literal() {
    assert_eq!(
        lex("a\\ b"),
        Ok(vec![Token::StringLiteral(vec![lit("a"), lit(" b")])])
    );
}

#[test]
fn lex_variable() {
    assert_eq!(
        lex("echo x${NAME}"),
        Ok(vec![word("echo"), Token::StringLiteral(vec![lit("x"), var("NAME")])])
    );
}

#[test]
fn lex_home_only_at_the_start() {
    assert_eq!(
        lex("~/bin"),
        Ok(vec![Token::StringLiteral(vec![var("HOME"), lit("/bin")])])
    );
    assert_eq!(lex("a~b"), Ok(vec![word("a~b")]));
}

#[test]
fn lex_backtick() {
    assert_eq!(
        lex("echo `ls`"),
        Ok(vec![word("echo"), Token::Subshell, word("ls"), Token::Subshell])
    );
}

#[test]
fn lex_incomplete_input() {
    assert_eq!(lex("echo a\\"), Err(LexError::Incomplete(Hint::Escape)));
    assert_eq!(lex("echo $"), Err(LexError::Incomplete(Hint::VariableBrace)));
    assert_eq!(lex("echo ${"), Err(LexError::Incomplete(Hint::VariableName)));
    assert_eq!(lex("echo ${A"), Err(LexError::Incomplete(Hint::VariableName)));
}

#[test]
fn lex_invalid_input() {
    assert_eq!(lex("echo $x"), Err(LexError::Invalid(5)));
    assert_eq!(lex("a \u{a0}b"), Err(LexError::Invalid(2)));
}

#[test]
fn lex_empty_quotes_are_an_error() {
    assert_eq!(lex("\"\""), Err(LexError::Invalid(0)));
    assert_eq!(lex("echo \"\""), Err(LexError::Invalid(5)));
    assert_eq!(lex("echo \"\" x"), Err(LexError::Invalid(5)));
}

#[test]
fn lex_open_quotes_are_incomplete() {
    assert_eq!(lex("echo \"abc"), Err(LexError::Incomplete(Hint::Quote)));
    assert_eq!(lex("echo \"abc\\"), Err(LexError::Incomplete(Hint::Escape)));
    assert_eq!(lex("echo \"${A"), Err(LexError::Incomplete(Hint::VariableName)));
    assert_eq!(lex("echo \"${A}"), Err(LexError::Incomplete(Hint::Quote)));
}

#[test]
fn lex_a_variable_ends_where_a_string_ends() {
    assert_eq!(
        lex("echo ${A} b"),
        Ok(vec![word("echo"), Token::StringLiteral(vec![var("A")]), word("b")])
    );
    assert_eq!(
        lex("echo \"${A}\" b"),
        Ok(vec![word("echo"), Token::StringLiteral(vec![var("A")]), word("b")])
    );
    assert_eq!(lex("${A}|b"), Ok(vec![Token::StringLiteral(vec![var("A")]), Token::Pipe, word("b")]));
    assert_eq!(lex("~ b"), Ok(vec![Token::StringLiteral(vec![var("HOME")]), word("b")]));
    assert_eq!(lex("${A}${B}"), Ok(vec![Token::StringLiteral(vec![var("A"), var("B")])]));
    assert_eq!(lex("${A}\\ b"), Ok(vec![Token::StringLiteral(vec![var("A"), lit(" b")])]));
    assert_eq!(lex("~${B}x"), Ok(vec![Token::StringLiteral(vec![var("HOME"), var("B"), lit("x")])]));
    assert_eq!(lex("${A}$"), Err(LexError::Incomplete(Hint::VariableBrace)));
}

#[test]
fn parse_command_with_arguments() {
    let tokens = lex("echo hello world").unwrap();
    assert_eq!(
        parse(&tokens),
        Ok(Expr::Command(
            vec![lit("echo")],
            vec![Argument::Literal(vec![lit("hello")]), Argument::Literal(vec![lit("world")])]
        ))
    );
}

#[test]
fn parse_pipeline_is_right_leaning() {
    let tokens = lex("a | b | c").unwrap();
    let a = Expr::Command(vec![lit("a")], vec![]);
    let b = Expr::Command(vec![lit("b")], vec![]);
    let c = Expr::Command(vec![lit("c")], vec![]);
    assert_eq!(
        parse(&tokens),
        Ok(Expr::Pipeline(Box::new(a), Box::new(Expr::Pipeline(Box::new(b), Box::new(c)))))
    );
}

#[test]
fn parse_redirect_all_gives_two_arguments() {
    let tokens = lex("a &> f").unwrap();
    assert_eq!(
        parse(&tokens),
        Ok(Expr::Command(
            vec![lit("a")],
            vec![Argument::Redirect(1, vec![lit("f")]), Argument::Redirect(2, vec![lit("f")])]
        ))
    );
    let tokens = lex("a &>> f").unwrap();
    assert_eq!(
        parse(&tokens),
        Ok(Expr::Command(
            vec![lit("a")],
            vec![Argument::Append(1, vec![lit("f")]), Argument::Append(2, vec![lit("f")])]
        ))
    );
}

#[test]
fn parse_subshell() {
    let tokens = lex("echo `echo nested` tail").unwrap();
    let inner = Expr::Command(vec![lit("echo")], vec![Argument::Literal(vec![lit("nested")])]);
    assert_eq!(
        parse(&tokens),
        Ok(Expr::Command(
            vec![lit("echo")],
            vec![Argument::Subshell(Box::new(inner)), Argument::Literal(vec![lit("tail")])]
        ))
    );
}

#[test]
fn parse_pipe_inside_backticks_does_not_split() {
    let tokens = lex("echo `a | b`").unwrap();
    let a = Expr::Command(vec![lit("a")], vec![]);
    let b = Expr::Command(vec![lit("b")], vec![]);
    assert_eq!(
        parse(&tokens),
        Ok(Expr::Command(
            vec![lit("echo")],
            vec![Argument::Subshell(Box::new(Expr::Pipeline(Box::new(a), Box::new(b))))]
        ))
    );
}

#[test]
fn parse_errors() {
    assert_eq!(parse(&[]), Err(Error::ExpectedCommandName));
    assert_eq!(parse(&lex("> f").unwrap()), Err(Error::ExpectedCommandName));
    assert_eq!(parse(&lex("a >").unwrap()), Err(Error::ExpectedPath));
    assert_eq!(parse(&lex("a > &").unwrap()), Err(Error::ExpectedPath));
    assert_eq!(parse(&lex("a |").unwrap()), Err(Error::PipeConstruction));
    assert_eq!(parse(&lex("| a").unwrap()), Err(Error::PipeConstruction));
    assert_eq!(parse(&lex("a `b").unwrap()), Err(Error::SubshellMatch));
    assert_eq!(
        parse(&lex("a ` `").unwrap()),
        Err(Error::Subshell(Box::new(Error::ExpectedCommandName)))
    );
}

#[test]
fn parse_background_and_descriptor_copy() {
    let tokens = lex("sleep 30 2>&1 &").unwrap();
    assert_eq!(
        parse(&tokens),
        Ok(Expr::Command(
            vec![lit("sleep")],
            vec![
                Argument::Literal(vec![lit("30")]),
                Argument::RedirectFD(2, 1),
                Argument::Background
            ]
        ))
    );
}
