//! The lexer: from a line of text to tokens.
//!
//! Tokens are separated by blanks. At each place an operator is tried
//! first, then a string in double quotes where a `"` stands, else a bare
//! string. Inside a string `\` takes the next character as it stands,
//! `${NAME}` names an environment variable, and `~` at the very start
//! stands for `${HOME}`. After a variable the string goes on as between
//! literals: it ends where a string ends, and `\` and `$` mean what
//! they mean elsewhere. A string in double quotes holds at least one
//! character and has to be closed.

use vstd::prelude::*;
use crate::syntax::tokens::{ComponentView, StringLiteralComponent, Token, TokenView};
use crate::syntax::tokens;
use crate::text;

verus! {

/// What the input was in the middle of when it ended.
#[derive(Debug, Clone, Copy, PartialEq, Eq, Structural)]
pub enum Hint {
    /// A `\` with no character after it.
    Escape,
    /// A `$` with no `{` after it.
    VariableBrace,
    /// A `${` with no `}` after it.
    VariableName,
    /// A `"` with no `"` to close it.
    Quote,
}

/// Why a line could not be cut into tokens.
#[derive(Debug, Clone, Copy, PartialEq, Eq, Structural)]
pub enum LexError {
    /// The line ends in the middle of a string.
    Incomplete(Hint),
    /// No token starts at this position, counted in characters.
    Invalid(usize),
}

/// Where the string scanner is.
pub enum Scan {
    Base,
    Escaped,
    ExpectVarOpen,
    VarOpen,
    InVar,
    VarClose,
    Home,
}

/// How scanning a string ended.
pub enum ScanOutcome {
    /// The components of the string, and the position after it.
    Done(Seq<ComponentView>, int),
    /// The text is no string.
    Broken,
    /// The input ended in the middle of the string.
    Unfinished(Hint),
}

/// How looking for a token ended.
pub enum TokenOutcome {
    /// The token, and the position after it.
    Token(TokenView, int),
    /// No token starts here.
    Broken,
    /// The input ended in the middle of a string.
    Unfinished(Hint),
}

/// The character at a position, `None` outside the text.
pub open spec fn at(s: Seq<char>, i: int) -> Option<char> {
    if 0 <= i < s.len() {
        Some(s[i])
    } else {
        None
    }
}

/// Whether a character separates tokens.
pub open spec fn is_blank(c: char) -> bool {
    c == ' ' || c == '\t' || c == '\r' || c == '\n'
}

/// Whether a character ends a string: the closing quote inside quotes;
/// whitespace and the operator characters outside. The two characters
/// that start an escape or a variable never end a string.
pub open spec fn is_stop(c: char, quoted: bool) -> bool {
    if quoted {
        c == '"'
    } else {
        is_blank(c) || c == '>' || c == '<' || c == '|' || c == '&' || c == '`' || (c != '\\' && c
            != '$' && text::char_is_whitespace(c))
    }
}

/// The first position from `i` on that holds no blank.
pub open spec fn skip_blanks(s: Seq<char>, i: int) -> int
    decreases s.len() - i,
{
    if 0 <= i < s.len() && is_blank(s[i]) {
        skip_blanks(s, i + 1)
    } else {
        i
    }
}

/// The first position from `i` on that holds no digit.
pub open spec fn digit_run(s: Seq<char>, i: int) -> int
    decreases s.len() - i,
{
    if 0 <= i < s.len() && text::digit_value(s[i]) is Some {
        digit_run(s, i + 1)
    } else {
        i
    }
}

/// The number written at `i`, and the position after it: a run of digits
/// whose value fits 32 bits.
pub open spec fn number_at(s: Seq<char>, i: int) -> Option<(i32, int)> {
    let end = digit_run(s, i);
    if 0 <= i < end <= s.len() {
        match text::parsed_decimal(s.subrange(i, end)) {
            Some(n) => Some((n, end)),
            None => None,
        }
    } else {
        None
    }
}

/// The operator that starts at `i`, and the position after it. A number
/// before `>`, `>>`, `>&` or `<` names the descriptor, which is 1 without
/// one; of the operators that start alike the longest wins.
pub open spec fn operator_at(s: Seq<char>, i: int) -> Option<(TokenView, int)> {
    if at(s, i) == Some('|') {
        Some((TokenView::Pipe, i + 1))
    } else {
        let (fd, k) = match number_at(s, i) {
            Some((n, end)) => (n, end),
            None => (1i32, i),
        };
        if at(s, k) == Some('>') && at(s, k + 1) == Some('>') {
            Some((TokenView::Append(fd), k + 2))
        } else if at(s, k) == Some('>') && at(s, k + 1) == Some('&') && number_at(s, k + 2) is Some {
            match number_at(s, k + 2) {
                Some((target, end)) => Some((TokenView::RedirectFD(fd, target), end)),
                None => None,
            }
        } else if at(s, k) == Some('>') {
            Some((TokenView::Redirect(fd), k + 1))
        } else if at(s, k) == Some('<') {
            Some((TokenView::Input(fd), k + 1))
        } else if at(s, i) == Some('&') && at(s, i + 1) == Some('>') && at(s, i + 2) == Some('>') {
            Some((TokenView::AppendAll, i + 3))
        } else if at(s, i) == Some('&') && at(s, i + 1) == Some('>') {
            Some((TokenView::RedirectAll, i + 2))
        } else if at(s, i) == Some('&') {
            Some((TokenView::Background, i + 1))
        } else if at(s, i) == Some('`') {
            Some((TokenView::Subshell, i + 1))
        } else {
            None
        }
    }
}

/// The components with the literal from `base` up to `i` added, where
/// that is not empty.
pub open spec fn flushed(s: Seq<char>, base: int, i: int, acc: Seq<ComponentView>) -> Seq<
    ComponentView,
> {
    if 0 <= base < i <= s.len() {
        acc.push(ComponentView::Literal(s.subrange(base, i)))
    } else {
        acc
    }
}

/// How a string that started at `start` and was scanned up to `end` in
/// the given state comes out.
pub open spec fn finished(
    s: Seq<char>,
    start: int,
    end: int,
    state: Scan,
    base: int,
    acc: Seq<ComponentView>,
) -> ScanOutcome {
    match state {
        Scan::Base => if end > start {
            ScanOutcome::Done(flushed(s, base, end, acc), end)
        } else {
            ScanOutcome::Broken
        },
        Scan::VarClose => ScanOutcome::Done(acc, end),
        Scan::Home => ScanOutcome::Done(acc, end),
        Scan::Escaped => ScanOutcome::Unfinished(Hint::Escape),
        Scan::ExpectVarOpen => ScanOutcome::Unfinished(Hint::VariableBrace),
        Scan::VarOpen => ScanOutcome::Unfinished(Hint::VariableName),
        Scan::InVar => ScanOutcome::Unfinished(Hint::VariableName),
    }
}

/// The text `HOME`.
pub open spec fn home_name() -> Seq<char> {
    seq!['H', 'O', 'M', 'E']
}

/// Scans a string that started at `start` on from `i`: `state` is where
/// the scanner is, `base` where the literal in progress began, `var` where
/// the variable name in progress began, `acc` the components so far.
/// After a variable the scanner goes on as between literals: a character
/// that ends a string ends it, `\` escapes, `$` starts a variable, and
/// any other character starts a literal.
pub open spec fn scan(
    s: Seq<char>,
    start: int,
    i: int,
    state: Scan,
    base: int,
    var: int,
    quoted: bool,
    acc: Seq<ComponentView>,
) -> ScanOutcome
    decreases s.len() - i,
{
    if i < 0 || i >= s.len() {
        finished(s, start, s.len() as int, state, base, acc)
    } else {
        let c = s[i];
        match state {
            Scan::Base => if is_stop(c, quoted) {
                finished(s, start, i, state, base, acc)
            } else if c == '\\' {
                scan(s, start, i + 1, Scan::Escaped, base, var, quoted, flushed(s, base, i, acc))
            } else if c == '$' {
                scan(s, start, i + 1, Scan::ExpectVarOpen, base, var, quoted, flushed(s, base, i, acc))
            } else if c == '~' && i == start {
                scan(
                    s,
                    start,
                    i + 1,
                    Scan::Home,
                    base,
                    var,
                    quoted,
                    acc.push(ComponentView::EnvVar(home_name())),
                )
            } else {
                scan(s, start, i + 1, Scan::Base, base, var, quoted, acc)
            },
            Scan::Home => if is_stop(c, quoted) {
                finished(s, start, i, state, base, acc)
            } else if c == '\\' {
                scan(s, start, i + 1, Scan::Escaped, i, var, quoted, acc)
            } else if c == '$' {
                scan(s, start, i + 1, Scan::ExpectVarOpen, i, var, quoted, acc)
            } else {
                scan(s, start, i + 1, Scan::Base, i, var, quoted, acc)
            },
            Scan::Escaped => scan(s, start, i + 1, Scan::Base, i, var, quoted, acc),
            Scan::VarClose => if is_stop(c, quoted) {
                finished(s, start, i, state, base, acc)
            } else if c == '\\' {
                scan(s, start, i + 1, Scan::Escaped, i, var, quoted, acc)
            } else if c == '$' {
                scan(s, start, i + 1, Scan::ExpectVarOpen, i, var, quoted, acc)
            } else {
                scan(s, start, i + 1, Scan::Base, i, var, quoted, acc)
            },
            Scan::ExpectVarOpen => if c == '{' {
                scan(s, start, i + 1, Scan::VarOpen, base, var, quoted, acc)
            } else {
                ScanOutcome::Broken
            },
            Scan::VarOpen => scan(s, start, i + 1, Scan::InVar, base, i, quoted, acc),
            Scan::InVar => if c == '}' && 0 <= var <= i {
                scan(
                    s,
                    start,
                    i + 1,
                    Scan::VarClose,
                    base,
                    var,
                    quoted,
                    acc.push(ComponentView::EnvVar(s.subrange(var, i))),
                )
            } else {
                scan(s, start, i + 1, Scan::InVar, base, var, quoted, acc)
            },
        }
    }
}

/// The string that starts at `start`, up to the first character that ends
/// it.
pub open spec fn string_at(s: Seq<char>, start: int, quoted: bool) -> ScanOutcome {
    scan(s, start, start, Scan::Base, start, start, quoted, Seq::empty())
}

/// The string in double quotes that starts at `i`, and the position after
/// its closing quote.
pub open spec fn quoted_at(s: Seq<char>, i: int) -> Option<(TokenView, int)> {
    if at(s, i) == Some('"') {
        match string_at(s, i + 1, true) {
            ScanOutcome::Done(components, end) => if at(s, end) == Some('"') {
                Some((TokenView::StringLiteral(components), end + 1))
            } else {
                None
            },
            _ => None,
        }
    } else {
        None
    }
}

/// Why no string in double quotes starts at a `"`: what the body is in
/// the middle of, a missing closing quote, or an empty body.
pub open spec fn quote_failure(s: Seq<char>, i: int) -> TokenOutcome {
    match string_at(s, i + 1, true) {
        ScanOutcome::Unfinished(hint) => TokenOutcome::Unfinished(hint),
        ScanOutcome::Done(_, _) => TokenOutcome::Unfinished(Hint::Quote),
        ScanOutcome::Broken => TokenOutcome::Broken,
    }
}

/// The token that starts at `i`: an operator, else a string in quotes
/// where a `"` stands, else a bare string.
pub open spec fn token_at(s: Seq<char>, i: int) -> TokenOutcome {
    match operator_at(s, i) {
        Some((token, end)) => TokenOutcome::Token(token, end),
        None => match quoted_at(s, i) {
            Some((token, end)) => TokenOutcome::Token(token, end),
            None => if at(s, i) == Some('"') {
                quote_failure(s, i)
            } else {
                match string_at(s, i, false) {
                    ScanOutcome::Done(components, end) => TokenOutcome::Token(
                        TokenView::StringLiteral(components),
                        end,
                    ),
                    ScanOutcome::Broken => TokenOutcome::Broken,
                    ScanOutcome::Unfinished(hint) => TokenOutcome::Unfinished(hint),
                }
            },
        },
    }
}

/// The tokens of the text from `i` on.
pub open spec fn tokens_from(s: Seq<char>, i: int) -> Result<Seq<TokenView>, LexError>
    decreases s.len() - i,
{
    let j = skip_blanks(s, i);
    if j < i || j < 0 || j >= s.len() {
        Ok(Seq::empty())
    } else {
        match token_at(s, j) {
            TokenOutcome::Token(token, end) => if j < end <= s.len() {
                match tokens_from(s, end) {
                    Ok(rest) => Ok(seq![token] + rest),
                    Err(e) => Err(e),
                }
            } else {
                Err(LexError::Invalid(j as usize))
            },
            TokenOutcome::Broken => Err(LexError::Invalid(j as usize)),
            TokenOutcome::Unfinished(hint) => Err(LexError::Incomplete(hint)),
        }
    }
}

/// The tokens of a line.
pub open spec fn spec_lex(s: Seq<char>) -> Result<Seq<TokenView>, LexError> {
    tokens_from(s, 0)
}

fn skip_blanks_exec(v: &[char], i: usize) -> (j: usize)
    requires
        i <= v@.len(),
    ensures
        j == skip_blanks(v@, i as int),
        i <= j <= v@.len(),
{
    let mut j = i;
    while j < v.len() && (v[j] == ' ' || v[j] == '\t' || v[j] == '\r' || v[j] == '\n')
        invariant
            i <= j <= v@.len(),
            skip_blanks(v@, i as int) == skip_blanks(v@, j as int),
        decreases v@.len() - j,
    {
        j += 1;
    }
    j
}

fn digit_run_exec(v: &[char], i: usize) -> (j: usize)
    requires
        i <= v@.len(),
    ensures
        j == digit_run(v@, i as int),
        i <= j <= v@.len(),
{
    let mut j = i;
    while j < v.len() && text::digit_of(v[j]).is_some()
        invariant
            i <= j <= v@.len(),
            digit_run(v@, i as int) == digit_run(v@, j as int),
        decreases v@.len() - j,
    {
        j += 1;
    }
    j
}

fn number_at_exec(v: &[char], i: usize) -> (r: Option<(i32, usize)>)
    requires
        i <= v@.len(),
    ensures
        match r {
            Some((n, end)) => number_at(v@, i as int) == Some((n, end as int)) && i < end <= v@.len(),
            None => number_at(v@, i as int) is None,
        },
{
    let end = digit_run_exec(v, i);
    if end > i {
        let digits = text::string_of(vstd::slice::slice_subrange(v, i, end));
        match text::parse_decimal(digits.as_str()) {
            Some(n) => Some((n, end)),
            None => None,
        }
    } else {
        None
    }
}

fn is_at(v: &[char], i: usize, c: char) -> (r: bool)
    ensures
        r == (at(v@, i as int) == Some(c)),
{
    i < v.len() && v[i] == c
}

fn operator_at_exec(v: &[char], i: usize) -> (r: Option<(Token, usize)>)
    requires
        i < v@.len(),
    ensures
        match r {
            Some((token, end)) => operator_at(v@, i as int) == Some((token@, end as int)) && i < end
                <= v@.len(),
            None => operator_at(v@, i as int) is None,
        },
{
    let n = v.len();
    if is_at(v, i, '|') {
        return Some((Token::Pipe, i + 1));
    }
    let (fd, k) = match number_at_exec(v, i) {
        Some((n, end)) => (n, end),
        None => (1i32, i),
    };
    if is_at(v, k, '>') && k + 1 < n && v[k + 1] == '>' {
        return Some((Token::Append(fd), k + 2));
    }
    if is_at(v, k, '>') && k + 1 < n && v[k + 1] == '&' {
        match number_at_exec(v, k + 2) {
            Some((target, end)) => {
                return Some((Token::RedirectFD(fd, target), end));
            },
            None => {},
        }
    }
    if is_at(v, k, '>') {
        return Some((Token::Redirect(fd), k + 1));
    }
    if is_at(v, k, '<') {
        return Some((Token::Input(fd), k + 1));
    }
    if is_at(v, i, '&') {
        if i + 1 < n && v[i + 1] == '>' {
            if i + 2 < n && v[i + 2] == '>' {
                return Some((Token::AppendAll, i + 3));
            }
            return Some((Token::RedirectAll, i + 2));
        }
        return Some((Token::Background, i + 1));
    }
    if is_at(v, i, '`') {
        return Some((Token::Subshell, i + 1));
    }
    None
}

/// How scanning a string ended, in the lexer itself.
enum Scanned {
    Done(Vec<StringLiteralComponent>, usize),
    Broken,
    Unfinished(Hint),
}

impl Scanned {
    spec fn outcome(self) -> ScanOutcome {
        match self {
            Scanned::Done(c, end) => ScanOutcome::Done(tokens::components_view(c@), end as int),
            Scanned::Broken => ScanOutcome::Broken,
            Scanned::Unfinished(h) => ScanOutcome::Unfinished(h),
        }
    }
}

fn is_stop_exec(c: char, quoted: bool) -> (r: bool)
    ensures
        r == is_stop(c, quoted),
{
    if quoted {
        c == '"'
    } else {
        c == ' ' || c == '\t' || c == '\r' || c == '\n' || c == '>' || c == '<' || c == '|' || c == '&'
            || c == '`' || (c != '\\' && c != '$' && text::is_whitespace(c))
    }
}

fn flush(v: &[char], base: usize, i: usize, acc: &mut Vec<StringLiteralComponent>)
    requires
        i <= v@.len(),
    ensures
        tokens::components_view(final(acc)@) == flushed(
            v@,
            base as int,
            i as int,
            tokens::components_view(old(acc)@),
        ),
{
    let ghost before = tokens::components_view(acc@);
    if base < i {
        let piece = text::string_of(vstd::slice::slice_subrange(v, base, i));
        acc.push(StringLiteralComponent::Literal(piece));
        assert(tokens::components_view(acc@) =~= before.push(
            ComponentView::Literal(v@.subrange(base as int, i as int)),
        ));
    }
}

/// The machine's states, as the scanner keeps them.
#[derive(Clone, Copy)]
enum State {
    Base,
    Escaped,
    ExpectVarOpen,
    VarOpen,
    InVar,
    VarClose,
    Home,
}

impl State {
    spec fn scan(self) -> Scan {
        match self {
            State::Base => Scan::Base,
            State::Escaped => Scan::Escaped,
            State::ExpectVarOpen => Scan::ExpectVarOpen,
            State::VarOpen => Scan::VarOpen,
            State::InVar => Scan::InVar,
            State::VarClose => Scan::VarClose,
            State::Home => Scan::Home,
        }
    }
}

fn finish(
    v: &[char],
    start: usize,
    end: usize,
    state: State,
    base: usize,
    acc: Vec<StringLiteralComponent>,
) -> (r: Scanned)
    requires
        end <= v@.len(),
    ensures
        r.outcome() == finished(
            v@,
            start as int,
            end as int,
            state.scan(),
            base as int,
            tokens::components_view(acc@),
        ),
{
    let mut acc = acc;
    match state {
        State::Base => {
            if end > start {
                flush(v, base, end, &mut acc);
                Scanned::Done(acc, end)
            } else {
                Scanned::Broken
            }
        },
        State::VarClose => Scanned::Done(acc, end),
        State::Home => Scanned::Done(acc, end),
        State::Escaped => Scanned::Unfinished(Hint::Escape),
        State::ExpectVarOpen => Scanned::Unfinished(Hint::VariableBrace),
        State::VarOpen => Scanned::Unfinished(Hint::VariableName),
        State::InVar => Scanned::Unfinished(Hint::VariableName),
    }
}

fn match_string(v: &[char], start: usize, quoted: bool) -> (r: Scanned)
    requires
        start <= v@.len(),
    ensures
        r.outcome() == string_at(v@, start as int, quoted),
        r matches Scanned::Done(_, end) ==> start <= end <= v@.len(),
{
    let mut acc: Vec<StringLiteralComponent> = Vec::new();
    let mut state = State::Base;
    let mut base = start;
    let mut var = start;
    let mut i = start;
    assert(tokens::components_view(acc@) =~= Seq::<ComponentView>::empty());
    while i < v.len()
        invariant
            start <= i <= v@.len(),
            string_at(v@, start as int, quoted) == scan(
                v@,
                start as int,
                i as int,
                state.scan(),
                base as int,
                var as int,
                quoted,
                tokens::components_view(acc@),
            ),
            state is InVar ==> var <= i,
        decreases v@.len() - i,
    {
        let c = v[i];
        match state {
            State::Base => {
                if is_stop_exec(c, quoted) {
                    return finish(v, start, i, state, base, acc);
                } else if c == '\\' {
                    flush(v, base, i, &mut acc);
                    state = State::Escaped;
                } else if c == '$' {
                    flush(v, base, i, &mut acc);
                    state = State::ExpectVarOpen;
                } else if c == '~' && i == start {
                    let ghost before = tokens::components_view(acc@);
                    acc.push(StringLiteralComponent::EnvVar("HOME".to_owned()));
                    proof {
                        reveal_strlit("HOME");
                        assert("HOME"@ =~= home_name());
                        assert(tokens::components_view(acc@) =~= before.push(
                            ComponentView::EnvVar(home_name()),
                        ));
                    }
                    state = State::Home;
                }
            },
            State::Home | State::VarClose => {
                if is_stop_exec(c, quoted) {
                    return finish(v, start, i, state, base, acc);
                }
                base = i;
                if c == '\\' {
                    state = State::Escaped;
                } else if c == '$' {
                    state = State::ExpectVarOpen;
                } else {
                    state = State::Base;
                }
            },
            State::Escaped => {
                base = i;
                state = State::Base;
            },
            State::ExpectVarOpen => {
                if c == '{' {
                    state = State::VarOpen;
                } else {
                    return Scanned::Broken;
                }
            },
            State::VarOpen => {
                var = i;
                state = State::InVar;
            },
            State::InVar => {
                if c == '}' {
                    let ghost before = tokens::components_view(acc@);
                    let name = text::string_of(vstd::slice::slice_subrange(v, var, i));
                    acc.push(StringLiteralComponent::EnvVar(name));
                    assert(tokens::components_view(acc@) =~= before.push(
                        ComponentView::EnvVar(v@.subrange(var as int, i as int)),
                    ));
                    state = State::VarClose;
                }
            },
        }
        i += 1;
    }
    finish(v, start, v.len(), state, base, acc)
}

/// How looking for a token ended, in the lexer itself.
enum Lexed {
    Token(Token, usize),
    Broken,
    Unfinished(Hint),
}

impl Lexed {
    spec fn outcome(self) -> TokenOutcome {
        match self {
            Lexed::Token(t, end) => TokenOutcome::Token(t@, end as int),
            Lexed::Broken => TokenOutcome::Broken,
            Lexed::Unfinished(h) => TokenOutcome::Unfinished(h),
        }
    }
}

fn quoted_string(v: &[char], i: usize) -> (r: Lexed)
    requires
        i < v@.len(),
        v@[i as int] == '"',
    ensures
        match r {
            Lexed::Token(token, end) => quoted_at(v@, i as int) == Some((token@, end as int)) && i < end
                <= v@.len(),
            _ => quoted_at(v@, i as int) is None && r.outcome() == quote_failure(v@, i as int),
        },
{
    let size = v.len();
    match match_string(v, i + 1, true) {
        Scanned::Done(components, end) => {
            if end < size && v[end] == '"' {
                Lexed::Token(Token::StringLiteral(components), end + 1)
            } else {
                Lexed::Unfinished(Hint::Quote)
            }
        },
        Scanned::Broken => Lexed::Broken,
        Scanned::Unfinished(hint) => Lexed::Unfinished(hint),
    }
}

fn lex_one(v: &[char], i: usize) -> (r: Lexed)
    requires
        i < v@.len(),
    ensures
        r.outcome() == token_at(v@, i as int),
        r matches Lexed::Token(_, end) ==> i <= end <= v@.len(),
{
    match operator_at_exec(v, i) {
        Some((token, end)) => {
            return Lexed::Token(token, end);
        },
        None => {},
    }
    if v[i] == '"' {
        return quoted_string(v, i);
    }
    match match_string(v, i, false) {
        Scanned::Done(components, end) => Lexed::Token(Token::StringLiteral(components), end),
        Scanned::Broken => Lexed::Broken,
        Scanned::Unfinished(hint) => Lexed::Unfinished(hint),
    }
}

/// What holds of the tokens so far and the tokens to come: together they
/// are the tokens of the whole.
spec fn extended(
    whole: Result<Seq<TokenView>, LexError>,
    sofar: Seq<TokenView>,
    rest: Result<Seq<TokenView>, LexError>,
) -> bool {
    match rest {
        Ok(more) => whole == Ok::<Seq<TokenView>, LexError>(sofar + more),
        Err(e) => whole == Err::<Seq<TokenView>, LexError>(e),
    }
}

/// What a result of the lexer stands for.
pub open spec fn lexed_view(r: Result<Vec<Token>, LexError>) -> Result<Seq<TokenView>, LexError> {
    match r {
        Ok(t) => Ok(tokens::tokens_view(t@)),
        Err(e) => Err(e),
    }
}

/// Cuts a line into tokens.
pub fn lex(s: &str) -> (r: Result<Vec<Token>, LexError>)
    ensures
        lexed_view(r) == spec_lex(s@),
{
    let chars = text::chars_of(s);
    let v = chars.as_slice();
    let mut out: Vec<Token> = Vec::new();
    let mut i: usize = 0;
    assert(tokens::tokens_view(out@) + tokens_from(v@, 0)->Ok_0 =~= tokens_from(v@, 0)->Ok_0);
    while i < v.len()
        invariant
            i <= v@.len(),
            v@ == s@,
            extended(spec_lex(s@), tokens::tokens_view(out@), tokens_from(v@, i as int)),
        decreases v@.len() - i,
    {
        let j = skip_blanks_exec(v, i);
        if j >= v.len() {
            assert(tokens::tokens_view(out@) + Seq::<TokenView>::empty() =~= tokens::tokens_view(out@));
            return Ok(out);
        }
        match lex_one(v, j) {
            Lexed::Token(token, end) => {
                if end > j && end <= v.len() {
                    let ghost before = tokens::tokens_view(out@);
                    let ghost t = token@;
                    out.push(token);
                    proof {
                        assert(tokens::tokens_view(out@) =~= before.push(t));
                        match tokens_from(v@, end as int) {
                            Ok(more) => {
                                assert(before + (seq![t] + more) =~= before.push(t) + more);
                            },
                            Err(_) => {},
                        }
                    }
                    i = end;
                } else {
                    return Err(LexError::Invalid(j));
                }
            },
            Lexed::Broken => {
                return Err(LexError::Invalid(j));
            },
            Lexed::Unfinished(hint) => {
                return Err(LexError::Incomplete(hint));
            },
        }
    }
    assert(tokens::tokens_view(out@) + Seq::<TokenView>::empty() =~= tokens::tokens_view(out@));
    Ok(out)
}

} // verus!
