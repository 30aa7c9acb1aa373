use jobshell::syntax::lexer::lex;
use jobshell::syntax::parser::parse;
use jobshell::syntax::printer::{print, print_tokens, unparse_expr};

fn reprinted(line: &str) -> String {
    let expr = parse(&lex(line).unwrap()).unwrap();
    print(&expr)
}

fn round_trips(line: &str) {
    let tokens = lex(line).unwrap();
    let expr = parse(&tokens).unwrap();
    let again = print(&expr);
    let tokens_again = lex(&again).unwrap();
    assert_eq!(tokens_again, unparse_expr(&expr), "tokens of {:?} printed as {:?}", line, again);
    assert_eq!(parse(&tokens_again), Ok(expr), "{:?} printed as {:?}", line, again);
}

#[test]
fn printing_escapes_the_start_of_every_literal() {
    assert_eq!(reprinted("echo hello world"), "\\echo \\hello \\world");
    assert_eq!(reprinted("echo \"a b\""), "\\echo \"\\a b\"");
    assert_eq!(reprinted("echo x${Y}z"), "\\echo \\x${Y}\\z");
    assert_eq!(reprinted("echo ${Y} z"), "\\echo ${Y} \\z");
    assert_eq!(reprinted("ls ~"), "\\ls ${HOME}");
}

#[test]
fn printing_writes_operators_with_their_descriptors() {
    assert_eq!(reprinted("a > f"), "\\a 1> \\f");
    assert_eq!(reprinted("a 2>> f"), "\\a 2>> \\f");
    assert_eq!(reprinted("a < f"), "\\a 1< \\f");
    assert_eq!(reprinted("a 2>&1 &"), "\\a 2>&1 &");
    assert_eq!(reprinted("a &> f"), "\\a 1> \\f 2> \\f");
    assert_eq!(reprinted("a | b `c`"), "\\a | \\b ` \\c `");
}

#[test]
fn print_tokens_puts_one_blank_between_tokens() {
    assert_eq!(print_tokens(&lex("a|b").unwrap()), "\\a | \\b");
    assert_eq!(print_tokens(&[]), "");
}

#[test]
fn unparse_gives_the_tokens_back() {
    for line in ["echo hello world", "a | b | c", "a 2> f < g >> h 3>&4 &", "echo `ls -l | wc` x"] {
        let tokens = lex(line).unwrap();
        let expr = parse(&tokens).unwrap();
        assert_eq!(unparse_expr(&expr), tokens, "{}", line);
    }
}

#[test]
fn reprinted_lines_parse_to_the_same_expression() {
    for line in [
        "echo hello world",
        "ls | wc -l",
        "sleep 30 &",
        "cat nonexistent > /tmp/out",
        "echo `echo nested`",
        "echo \"a b\" \"c|d\" e\\ f",
        "echo a\"b",
        "echo x${Y}z ${HOME}/bin ~/bin",
        "a 2> f < g >> h 3>&4 &",
        "a &> f",
        "a &>> f",
        "echo \\$x \\~ \\\\ \\\"",
        "echo \"${A} b\"  c",
        "a | b `c d | e` f | g",
        "echo ${}}",
        "echo ${A}",
        "echo ${A} b ${C}${D} | x",
        "ls &> ${OUT} x",
        "ls ~",
        "echo \"tab\there\"",
    ] {
        round_trips(line);
    }
}

#[test]
fn redirecting_both_outputs_to_a_variable_reprints() {
    let line = "ls &> ${OUT}";
    let expr = parse(&lex(line).unwrap()).unwrap();
    let again = print(&expr);
    assert_eq!(again, "\\ls 1> ${OUT} 2> ${OUT}");
    assert!(parse(&lex(&again).unwrap()) == Ok(expr));
}
