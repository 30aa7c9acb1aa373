//! Completing file names.

use vstd::prelude::*;
use crate::text;

verus! {

/// What a directory entry is.
#[derive(Clone, Copy, Debug, PartialEq, Eq, Structural)]
pub enum EntryKind {
    Directory,
    File,
    Unknown,
}

/// Completes file names; the characters in `break_chars` are escaped in
/// what it proposes.
pub struct PathCompletion {
    pub break_chars: Vec<char>,
}

/// The character that escapes.
pub const ESCAPE_CHAR: char = '\\';

/// Whether a character is escaped in a proposed file name unless told
/// otherwise.
pub open spec fn is_default_break(c: char) -> bool {
    c == ' ' || c == '\t' || c == '\n' || c == '"' || c == '\\' || c == '\'' || c == '`' || c == '@'
        || c == '$' || c == '>' || c == '<' || c == '=' || c == ';' || c == '|' || c == '&' || c
        == '{' || c == '(' || c == '\0'
}

impl PathCompletion {
    /// An engine that escapes blanks, quotes and the characters that mean
    /// something to the shell.
    pub fn new() -> (r: PathCompletion)
        ensures
            forall|c: char| r.break_chars@.contains(c) <==> is_default_break(c),
    {
        let mut b: Vec<char> = Vec::new();
        b.push(' ');
        b.push('\t');
        b.push('\n');
        b.push('"');
        b.push('\\');
        b.push('\'');
        b.push('`');
        b.push('@');
        b.push('$');
        b.push('>');
        b.push('<');
        b.push('=');
        b.push(';');
        b.push('|');
        b.push('&');
        b.push('{');
        b.push('(');
        b.push('\0');
        proof {
            assert(b@ =~= seq![
                ' ',
                '\t',
                '\n',
                '"',
                '\\',
                '\'',
                '`',
                '@',
                '$',
                '>',
                '<',
                '=',
                ';',
                '|',
                '&',
                '{',
                '(',
                '\0',
            ]);
            assert forall|c: char| is_default_break(c) implies b@.contains(c) by {
                if c == ' ' {
                    assert(b@[0] == c);
                } else if c == '\t' {
                    assert(b@[1] == c);
                } else if c == '\n' {
                    assert(b@[2] == c);
                } else if c == '"' {
                    assert(b@[3] == c);
                } else if c == '\\' {
                    assert(b@[4] == c);
                } else if c == '\'' {
                    assert(b@[5] == c);
                } else if c == '`' {
                    assert(b@[6] == c);
                } else if c == '@' {
                    assert(b@[7] == c);
                } else if c == '$' {
                    assert(b@[8] == c);
                } else if c == '>' {
                    assert(b@[9] == c);
                } else if c == '<' {
                    assert(b@[10] == c);
                } else if c == '=' {
                    assert(b@[11] == c);
                } else if c == ';' {
                    assert(b@[12] == c);
                } else if c == '|' {
                    assert(b@[13] == c);
                } else if c == '&' {
                    assert(b@[14] == c);
                } else if c == '{' {
                    assert(b@[15] == c);
                } else if c == '(' {
                    assert(b@[16] == c);
                } else {
                    assert(b@[17] == c);
                }
            }
        }
        PathCompletion { break_chars: b }
    }
}

/// The text without its escape characters: an escape character is dropped
/// and the character after it is kept as it stands.
pub open spec fn unescaped(s: Seq<char>, esc: char) -> Seq<char>
    decreases s.len(),
{
    if s.len() == 0 {
        Seq::empty()
    } else if s[0] == esc {
        if s.len() >= 2 {
            seq![s[1]] + unescaped(s.skip(2), esc)
        } else {
            Seq::empty()
        }
    } else {
        seq![s[0]] + unescaped(s.drop_first(), esc)
    }
}

/// The text with `esc` before every character of `break_chars`.
pub open spec fn escaped(s: Seq<char>, esc: char, break_chars: Seq<char>) -> Seq<char>
    decreases s.len(),
{
    if s.len() == 0 {
        Seq::empty()
    } else if break_chars.contains(s.last()) {
        escaped(s.drop_last(), esc, break_chars).push(esc).push(s.last())
    } else {
        escaped(s.drop_last(), esc, break_chars).push(s.last())
    }
}

/// Removes the escape characters from a text; without an escape character
/// the text comes back as it is.
pub fn unescape(input: &str, esc_char: Option<char>) -> (r: String)
    ensures
        r@ == match esc_char {
            Some(esc) => unescaped(input@, esc),
            None => input@,
        },
{
    match esc_char {
        None => input.to_owned(),
        Some(esc) => {
            let v = text::chars_of(input);
            let mut r = String::new();
            let mut i: usize = 0;
            assert(v@.skip(0) =~= v@);
            assert(r@ + unescaped(v@, esc) =~= unescaped(v@, esc));
            while i < v.len()
                invariant
                    i <= v@.len(),
                    v@ == input@,
                    unescaped(input@, esc) == r@ + unescaped(v@.skip(i as int), esc),
                decreases v@.len() - i,
            {
                let ghost rest = v@.skip(i as int);
                assert(rest[0] == v@[i as int]);
                if v[i] == esc {
                    if i + 1 < v.len() {
                        assert(rest[1] == v@[i + 1]);
                        assert(rest.skip(2) =~= v@.skip(i + 2));
                        let ghost before = r@;
                        text::push_char(&mut r, v[i + 1]);
                        assert(before + (seq![v@[i + 1]] + unescaped(v@.skip(i + 2), esc)) =~= r@
                            + unescaped(v@.skip(i + 2), esc));
                        i += 2;
                    } else {
                        assert(v@.skip(i + 1) =~= Seq::<char>::empty());
                        assert(r@ + Seq::<char>::empty() =~= r@);
                        i += 1;
                    }
                } else {
                    assert(rest.drop_first() =~= v@.skip(i + 1));
                    let ghost before = r@;
                    text::push_char(&mut r, v[i]);
                    assert(before + (seq![v@[i as int]] + unescaped(v@.skip(i + 1), esc)) =~= r@
                        + unescaped(v@.skip(i + 1), esc));
                    i += 1;
                }
            }
            assert(r@ + Seq::<char>::empty() =~= r@);
            r
        },
    }
}

fn is_break(c: char, break_chars: &[char]) -> (r: bool)
    ensures
        r == break_chars@.contains(c),
{
    let mut i: usize = 0;
    while i < break_chars.len()
        invariant
            i <= break_chars@.len(),
            forall|j: int| 0 <= j < i ==> break_chars@[j] != c,
        decreases break_chars@.len() - i,
    {
        if break_chars[i] == c {
            return true;
        }
        i += 1;
    }
    false
}

/// Puts the escape character before every character of `break_chars`;
/// without an escape character the text comes back as it is.
pub fn escape(input: String, esc_char: Option<char>, break_chars: &[char]) -> (r: String)
    ensures
        r@ == match esc_char {
            Some(esc) => escaped(input@, esc, break_chars@),
            None => input@,
        },
{
    match esc_char {
        None => input,
        Some(esc) => {
            let v = text::chars_of(input.as_str());
            let mut r = String::new();
            let mut i: usize = 0;
            assert(v@.take(0) =~= Seq::<char>::empty());
            while i < v.len()
                invariant
                    i <= v@.len(),
                    v@ == input@,
                    r@ == escaped(v@.take(i as int), esc, break_chars@),
                decreases v@.len() - i,
            {
                assert(v@.take(i + 1).drop_last() =~= v@.take(i as int));
                assert(v@.take(i + 1).last() == v@[i as int]);
                if is_break(v[i], break_chars) {
                    text::push_char(&mut r, esc);
                }
                text::push_char(&mut r, v[i]);
                i += 1;
            }
            assert(v@.take(v@.len() as int) =~= v@);
            r
        },
    }
}

/// Where the name of the file begins in a path: after the last `/`, or
/// at the start where there is none.
pub open spec fn name_start(path: Seq<char>) -> int
    decreases path.len(),
{
    if path.len() == 0 {
        0
    } else if path.last() == '/' {
        path.len() as int
    } else {
        name_start(path.drop_last())
    }
}

/// The directory of a path: what stands before the name of the file, the
/// last `/` included.
pub open spec fn dir_part(path: Seq<char>) -> Seq<char> {
    path.take(name_start(path))
}

/// The name of the file in a path.
pub open spec fn file_part(path: Seq<char>) -> Seq<char> {
    path.skip(name_start(path))
}

/// The name of the file begins within the path.
pub proof fn lemma_name_start(path: Seq<char>)
    ensures
        0 <= name_start(path) <= path.len(),
    decreases path.len(),
{
    if path.len() > 0 && path.last() != '/' {
        lemma_name_start(path.drop_last());
    }
}

/// Cuts a path into its directory and the name of the file, see
/// [`dir_part`] and [`file_part`].
pub fn split_path(path: &str) -> (r: (String, String))
    ensures
        r.0@ == dir_part(path@),
        r.1@ == file_part(path@),
{
    let v = text::chars_of(path);
    let n = v.len();
    let mut cut: usize = n;
    assert(v@.take(n as int) =~= v@);
    while cut > 0 && v[cut - 1] != '/'
        invariant
            cut <= n,
            n == v@.len(),
            name_start(v@) == name_start(v@.take(cut as int)),
        decreases cut,
    {
        assert(v@.take(cut as int).drop_last() =~= v@.take(cut - 1));
        cut -= 1;
    }
    assert(name_start(v@) == cut) by {
        if cut > 0 {
            assert(v@.take(cut as int).last() == '/');
        }
    }
    let dir = text::string_of(vstd::slice::slice_subrange(v.as_slice(), 0, cut));
    let file = text::string_of(vstd::slice::slice_subrange(v.as_slice(), cut, n));
    assert(dir@ =~= dir_part(path@));
    assert(file@ =~= file_part(path@));
    (dir, file)
}

/// What a proposal says of an entry.
pub open spec fn description(kind: EntryKind) -> Seq<char> {
    match kind {
        EntryKind::Directory => seq!['D', 'i', 'r', 'e', 'c', 't', 'o', 'r', 'y'],
        EntryKind::File => seq!['F', 'i', 'l', 'e'],
        EntryKind::Unknown => seq!['U', 'n', 'k', 'n', 'o', 'w', 'n'],
    }
}

/// The path proposed for an entry: the directory as it was typed and the
/// name of the entry, with a `/` after a directory, and escaped.
pub open spec fn proposed_path(
    dir: Seq<char>,
    name: Seq<char>,
    kind: EntryKind,
    esc_char: Option<char>,
    break_chars: Seq<char>,
) -> Seq<char> {
    let whole = if kind == EntryKind::Directory {
        (dir + name).push('/')
    } else {
        dir + name
    };
    match esc_char {
        Some(esc) => escaped(whole, esc, break_chars),
        None => whole,
    }
}

/// The entries of a directory as values: the name and the kind of each.
pub open spec fn entries_view(entries: Seq<(String, EntryKind)>) -> Seq<(Seq<char>, EntryKind)> {
    entries.map_values(|e: (String, EntryKind)| (e.0@, e.1))
}

/// Proposals as values: the path and the description of each.
pub open spec fn proposals_view(proposals: Seq<(String, String)>) -> Seq<(Seq<char>, Seq<char>)> {
    proposals.map_values(|p: (String, String)| (p.0@, p.1@))
}

/// The proposals for the first `k` entries of a directory: one for each
/// entry whose name begins with the name typed, in the order of the
/// entries.
pub open spec fn proposals(
    dir: Seq<char>,
    file: Seq<char>,
    entries: Seq<(Seq<char>, EntryKind)>,
    k: int,
    esc_char: Option<char>,
    break_chars: Seq<char>,
) -> Seq<(Seq<char>, Seq<char>)>
    decreases k,
{
    if k <= 0 || k > entries.len() {
        Seq::empty()
    } else {
        let before = proposals(dir, file, entries, k - 1, esc_char, break_chars);
        let entry = entries[k - 1];
        if crate::text::occurs_at(entry.0, file, 0) {
            before.push((proposed_path(dir, entry.0, entry.1, esc_char, break_chars), description(entry.1)))
        } else {
            before
        }
    }
}

/// What is said of an entry.
fn describe(kind: EntryKind) -> (r: String)
    ensures
        r@ == description(kind),
{
    proof {
        reveal_strlit("Directory");
        reveal_strlit("File");
        reveal_strlit("Unknown");
    }
    let r = match kind {
        EntryKind::Directory => "Directory".to_owned(),
        EntryKind::File => "File".to_owned(),
        EntryKind::Unknown => "Unknown".to_owned(),
    };
    assert(r@ =~= description(kind));
    r
}

/// The proposals for a path among the entries of its directory, see
/// [`proposals`]. The entries are those of the directory that
/// [`dir_part`] names, each with its kind.
pub fn filename_complete(
    path: &str,
    entries: &[(String, EntryKind)],
    esc_char: Option<char>,
    break_chars: &[char],
) -> (r: Vec<(String, String)>)
    ensures
        proposals_view(r@) == proposals(
            dir_part(path@),
            file_part(path@),
            entries_view(entries@),
            entries@.len() as int,
            esc_char,
            break_chars@,
        ),
{
    let (dir_name, file_name) = split_path(path);
    let wanted = text::chars_of(file_name.as_str());
    let mut r: Vec<(String, String)> = Vec::new();
    let ghost listed = entries_view(entries@);
    let mut i: usize = 0;
    assert(proposals_view(r@) =~= proposals(dir_name@, file_name@, listed, 0, esc_char, break_chars@));
    while i < entries.len()
        invariant
            i <= entries@.len(),
            listed == entries_view(entries@),
            wanted@ == file_name@,
            proposals_view(r@) == proposals(dir_name@, file_name@, listed, i as int, esc_char, break_chars@),
        decreases entries@.len() - i,
    {
        let name = text::chars_of(entries[i].0.as_str());
        let kind = entries[i].1;
        assert(listed[i as int] == (entries@[i as int].0@, kind));
        if text::begins_with(name.as_slice(), wanted.as_slice()) {
            let mut whole = dir_name.clone();
            whole.append(entries[i].0.as_str());
            if kind == EntryKind::Directory {
                text::push_char(&mut whole, '/');
            }
            let ghost plain = whole@;
            let path = escape(whole, esc_char, break_chars);
            assert(path@ == proposed_path(dir_name@, name@, kind, esc_char, break_chars@)) by {
                assert(plain =~= if kind == EntryKind::Directory {
                    (dir_name@ + name@).push('/')
                } else {
                    dir_name@ + name@
                });
            }
            let ghost before = r@;
            r.push((path, describe(kind)));
            assert(proposals_view(r@) =~= proposals_view(before).push((path@, description(kind))));
        }
        i += 1;
    }
    r
}

impl PathCompletion {
    /// The directory whose entries decide what is proposed for a word:
    /// that of the word without its escape characters, as it was typed.
    pub fn directory_of(&self, start: &str) -> (r: String)
        ensures
            r@ == dir_part(unescaped(start@, ESCAPE_CHAR)),
    {
        let path = unescape(start, Some(ESCAPE_CHAR));
        split_path(path.as_str()).0
    }

    /// The proposals for a word among the entries of its directory, see
    /// [`proposals`]; `None` where there is none.
    pub fn propose(&self, start: &str, entries: &[(String, EntryKind)]) -> (r: Option<Vec<(String, String)>>)
        ensures
            ({
                let path = unescaped(start@, ESCAPE_CHAR);
                let all = proposals(
                    dir_part(path),
                    file_part(path),
                    entries_view(entries@),
                    entries@.len() as int,
                    Some(ESCAPE_CHAR),
                    self.break_chars@,
                );
                match r {
                    Some(found) => proposals_view(found@) == all && all.len() > 0,
                    None => all.len() == 0,
                }
            }),
    {
        let path = unescape(start, Some(ESCAPE_CHAR));
        let matches = filename_complete(path.as_str(), entries, Some(ESCAPE_CHAR), self.break_chars.as_slice());
        if matches.len() == 0 {
            None
        } else {
            Some(matches)
        }
    }

    /// The category of the proposals.
    pub fn category(&self) -> (r: String)
        ensures
            r@ == seq!['F', 'i', 'l', 'e', 's'],
    {
        proof {
            reveal_strlit("Files");
        }
        let r = "Files".to_owned();
        assert(r@ =~= seq!['F', 'i', 'l', 'e', 's']);
        r
    }
}

} // verus!
