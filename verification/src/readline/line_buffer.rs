//! A line of text with a cursor. Positions are counted in bytes of the
//! text's UTF-8 form and lie between characters; the cursor moves by
//! grapheme clusters.

use vstd::prelude::*;
use vstd::string::*;
use crate::readline::keymap::{At, CharSearch, Movement, Word};
use crate::text;

verus! {

/// The greatest length of a line that is read.
pub const MAX_LINE: usize = 4096;

/// What to do to the letters of a word.
#[derive(Clone, Copy, Debug, PartialEq, Eq, Structural)]
pub enum WordAction {
    CAPITALIZE,
    LOWERCASE,
    UPPERCASE,
}

/// The number of bytes a character takes in UTF-8.
pub open spec fn utf8_width(c: char) -> nat {
    if (c as u32) < 0x80 {
        1
    } else if (c as u32) < 0x800 {
        2
    } else if (c as u32) < 0x10000 {
        3
    } else {
        4
    }
}

/// The number of bytes a text takes in UTF-8.
pub open spec fn byte_len(s: Seq<char>) -> nat
    decreases s.len(),
{
    if s.len() == 0 {
        0
    } else {
        byte_len(s.drop_last()) + utf8_width(s.last())
    }
}

/// The number of bytes a character takes in UTF-8.
pub fn utf8_len(c: char) -> (n: usize)
    ensures
        n == utf8_width(c),
        1 <= n <= 4,
{
    let code = c as u32;
    if code < 0x80 {
        1
    } else if code < 0x800 {
        2
    } else if code < 0x10000 {
        3
    } else {
        4
    }
}

/// The bytes of two texts one after the other are the bytes of both.
pub proof fn lemma_byte_len_concat(a: Seq<char>, b: Seq<char>)
    ensures
        byte_len(a + b) == byte_len(a) + byte_len(b),
    decreases b.len(),
{
    if b.len() == 0 {
        assert(a + b =~= a);
    } else {
        lemma_byte_len_concat(a, b.drop_last());
        assert((a + b).drop_last() =~= a + b.drop_last());
        assert((a + b).last() == b.last());
    }
}

/// A part of a text takes no more bytes than the text, and at least one
/// byte for each character.
pub proof fn lemma_byte_len_part(s: Seq<char>, i: int, j: int)
    requires
        0 <= i <= j <= s.len(),
    ensures
        byte_len(s.subrange(i, j)) <= byte_len(s),
        byte_len(s.subrange(i, j)) >= j - i,
        byte_len(s) == byte_len(s.subrange(0, i)) + byte_len(s.subrange(i, j)) + byte_len(
            s.subrange(j, s.len() as int),
        ),
{
    lemma_byte_len_concat(s.subrange(0, i), s.subrange(i, j));
    lemma_byte_len_concat(s.subrange(0, i) + s.subrange(i, j), s.subrange(j, s.len() as int));
    assert(s.subrange(0, i) + s.subrange(i, j) + s.subrange(j, s.len() as int) =~= s);
    lemma_byte_len_least(s.subrange(i, j));
}

/// A text takes at least one byte for each character.
pub proof fn lemma_byte_len_least(s: Seq<char>)
    ensures
        byte_len(s) >= s.len(),
    decreases s.len(),
{
    if s.len() > 0 {
        lemma_byte_len_least(s.drop_last());
    }
}

/// Exchanging two parts of a text keeps the number of its bytes.
pub proof fn lemma_exchanged_len(s: Seq<char>, a1: int, b1: int, a2: int, b2: int)
    requires
        0 <= a1 <= b1 <= a2 <= b2 <= s.len(),
    ensures
        byte_len(LineBuffer::exchanged(s, a1, b1, a2, b2)) == byte_len(s),
{
    let head = s.take(a1);
    let first = s.subrange(a1, b1);
    let between = s.subrange(b1, a2);
    let second = s.subrange(a2, b2);
    let tail = s.skip(b2);
    lemma_byte_len_concat(head, second);
    lemma_byte_len_concat(head + second, between);
    lemma_byte_len_concat(head + second + between, first);
    lemma_byte_len_concat(head + second + between + first, tail);
    lemma_byte_len_concat(head, first);
    lemma_byte_len_concat(head + first, between);
    lemma_byte_len_concat(head + first + between, second);
    lemma_byte_len_concat(head + first + between + second, tail);
    assert(head + first + between + second + tail =~= s);
}

/// The grapheme clusters of a text, as
/// `unicode_segmentation::UnicodeSegmentation::graphemes` cuts the text
/// with extended clusters.
pub uninterp spec fn grapheme_clusters(s: Seq<char>) -> Seq<Seq<char>>;

/// The clusters written one after the other.
pub open spec fn clusters_joined(clusters: Seq<Seq<char>>) -> Seq<char>
    decreases clusters.len(),
{
    if clusters.len() == 0 {
        Seq::empty()
    } else {
        clusters_joined(clusters.drop_last()) + clusters.last()
    }
}

/// The grapheme clusters of a text, each by the number of its
/// characters.
pub open spec fn grapheme_sizes(s: Seq<char>) -> Seq<usize> {
    Seq::new(grapheme_clusters(s).len(), |i: int| grapheme_clusters(s)[i].len() as usize)
}

/// The sum of the numbers.
pub open spec fn total(sizes: Seq<usize>) -> nat
    decreases sizes.len(),
{
    if sizes.len() == 0 {
        0
    } else {
        total(sizes.drop_last()) + sizes.last() as nat
    }
}

/// Calls `unicode_segmentation::UnicodeSegmentation::graphemes` with
/// extended clusters and copies each cluster. The clusters follow one
/// another and make up the text: none is empty, and written one after
/// the other they are the text.
#[verifier::external_body]
fn clusters_of(s: &str) -> (r: Vec<String>)
    ensures
        text::views(r@) == grapheme_clusters(s@),
        forall|i: int| 0 <= i < r@.len() ==> (#[trigger] r@[i])@.len() >= 1,
        clusters_joined(text::views(r@)) == s@,
{
    unicode_segmentation::UnicodeSegmentation::graphemes(s, true).map(|g| g.to_owned()).collect()
}

/// The grapheme clusters of a text, each by the number of its
/// characters: none is empty, and together they hold as many characters
/// as the text.
pub(crate) fn graphemes(s: &str) -> (r: Vec<usize>)
    ensures
        r@ == grapheme_sizes(s@),
        forall|i: int| 0 <= i < r@.len() ==> (#[trigger] r@[i]) >= 1,
        total(r@) == s@.len(),
{
    let clusters = clusters_of(s);
    let ghost texts = text::views(clusters@);
    let mut r: Vec<usize> = Vec::new();
    let mut i: usize = 0;
    assert(texts.take(0) =~= Seq::<Seq<char>>::empty());
    while i < clusters.len()
        invariant
            i <= clusters@.len(),
            texts == text::views(clusters@),
            r@.len() == i,
            forall|j: int| 0 <= j < i ==> (#[trigger] r@[j]) == texts[j].len(),
            forall|j: int| 0 <= j < clusters@.len() ==> (#[trigger] clusters@[j])@.len() >= 1,
            total(r@) == clusters_joined(texts.take(i as int)).len(),
        decreases clusters@.len() - i,
    {
        let size = clusters[i].as_str().unicode_len();
        let ghost before = r@;
        r.push(size);
        proof {
            assert(texts[i as int] == clusters@[i as int]@);
            assert(r@.drop_last() =~= before);
            assert(texts.take(i + 1).drop_last() =~= texts.take(i as int));
            assert(texts.take(i + 1).last() == texts[i as int]);
        }
        i += 1;
    }
    proof {
        assert(texts.take(clusters@.len() as int) =~= texts);
        assert(r@ =~= grapheme_sizes(s@));
        assert forall|j: int| 0 <= j < r@.len() implies (#[trigger] r@[j]) >= 1 by {
            assert(texts[j] == clusters@[j]@);
        }
    }
    r
}

/// The upper-case form of a text, as `str::to_uppercase` gives it.
pub uninterp spec fn upper_case(s: Seq<char>) -> Seq<char>;

/// The lower-case form of a text, as `str::to_lowercase` gives it.
pub uninterp spec fn lower_case(s: Seq<char>) -> Seq<char>;

/// Calls `str::to_uppercase`, which returns the upper-case form of the
/// text.
#[verifier::external_body]
fn to_uppercase(s: &str) -> (r: String)
    ensures
        r@ == upper_case(s@),
{
    s.to_uppercase()
}

/// Calls `str::to_lowercase`, which returns the lower-case form of the
/// text.
#[verifier::external_body]
fn to_lowercase(s: &str) -> (r: String)
    ensures
        r@ == lower_case(s@),
{
    s.to_lowercase()
}

proof fn lemma_total_take(sizes: Seq<usize>, k: int)
    requires
        0 <= k <= sizes.len(),
    ensures
        total(sizes.take(k)) <= total(sizes),
        k < sizes.len() ==> total(sizes.take(k + 1)) == total(sizes.take(k)) + sizes[k],
    decreases sizes.len() - k,
{
    if k < sizes.len() {
        assert(sizes.take(k + 1).drop_last() =~= sizes.take(k));
        assert(sizes.take(k + 1).last() == sizes[k]);
        lemma_total_take(sizes, k + 1);
    } else {
        assert(sizes.take(k) =~= sizes);
    }
}

/// Every character is a letter or a digit.
pub open spec fn all_alphanumeric(g: Seq<char>) -> bool {
    forall|i: int| 0 <= i < g.len() ==> text::char_is_alphanumeric(#[trigger] g[i])
}

/// Every character is whitespace.
pub open spec fn all_whitespace(g: Seq<char>) -> bool {
    forall|i: int| 0 <= i < g.len() ==> text::char_is_whitespace(#[trigger] g[i])
}

/// A cluster of letters and digits, or an underscore.
pub open spec fn vi_word_char(g: Seq<char>) -> bool {
    all_alphanumeric(g) || g == seq!['_']
}

/// Whether a cluster belongs to a word.
pub open spec fn word_char(word_def: Word, g: Seq<char>) -> bool {
    match word_def {
        Word::Emacs => all_alphanumeric(g),
        Word::Vi => vi_word_char(g),
        Word::Big => !all_whitespace(g),
    }
}

/// A cluster that is neither whitespace nor part of a word of letters.
pub open spec fn other_char(g: Seq<char>) -> bool {
    !(all_whitespace(g) || vi_word_char(g))
}

/// Whether a word starts at `grapheme`, which `previous` stands before.
pub open spec fn start_of_word(word_def: Word, previous: Seq<char>, grapheme: Seq<char>) -> bool {
    (!word_char(word_def, previous) && word_char(word_def, grapheme)) || (word_def == Word::Vi
        && !other_char(previous) && other_char(grapheme))
}

/// Whether a word ends at `grapheme`, which `next` stands after.
pub open spec fn end_of_word(word_def: Word, grapheme: Seq<char>, next: Seq<char>) -> bool {
    (!word_char(word_def, next) && word_char(word_def, grapheme)) || (word_def == Word::Vi && !other_char(
        next,
    ) && other_char(grapheme))
}

fn are_alphanumeric(g: &[char]) -> (r: bool)
    ensures
        r == all_alphanumeric(g@),
{
    let mut i: usize = 0;
    while i < g.len()
        invariant
            i <= g@.len(),
            forall|j: int| 0 <= j < i ==> text::char_is_alphanumeric(#[trigger] g@[j]),
        decreases g@.len() - i,
    {
        if !text::is_alphanumeric(g[i]) {
            return false;
        }
        i += 1;
    }
    true
}

fn are_whitespace(g: &[char]) -> (r: bool)
    ensures
        r == all_whitespace(g@),
{
    let mut i: usize = 0;
    while i < g.len()
        invariant
            i <= g@.len(),
            forall|j: int| 0 <= j < i ==> text::char_is_whitespace(#[trigger] g@[j]),
        decreases g@.len() - i,
    {
        if !text::is_whitespace(g[i]) {
            return false;
        }
        i += 1;
    }
    true
}

fn vi_word_chars(g: &[char]) -> (r: bool)
    ensures
        r == vi_word_char(g@),
{
    if are_alphanumeric(g) {
        true
    } else {
        let underscore = g.len() == 1 && g[0] == '_';
        assert(underscore == (g@ =~= seq!['_']));
        underscore
    }
}

fn word_chars(word_def: Word, g: &[char]) -> (r: bool)
    ensures
        r == word_char(word_def, g@),
{
    match word_def {
        Word::Emacs => are_alphanumeric(g),
        Word::Vi => vi_word_chars(g),
        Word::Big => !are_whitespace(g),
    }
}

fn other_chars(g: &[char]) -> (r: bool)
    ensures
        r == other_char(g@),
{
    !(are_whitespace(g) || vi_word_chars(g))
}

fn starts_word(word_def: Word, previous: &[char], grapheme: &[char]) -> (r: bool)
    ensures
        r == start_of_word(word_def, previous@, grapheme@),
{
    (!word_chars(word_def, previous) && word_chars(word_def, grapheme)) || (word_def == Word::Vi
        && !other_chars(previous) && other_chars(grapheme))
}

fn ends_word(word_def: Word, grapheme: &[char], next: &[char]) -> (r: bool)
    ensures
        r == end_of_word(word_def, grapheme@, next@),
{
    (!word_chars(word_def, next) && word_chars(word_def, grapheme)) || (word_def == Word::Vi && !other_chars(
        next,
    ) && other_chars(grapheme))
}

/// Whether a cluster belongs to a word.
pub fn is_word_char(word_def: Word, grapheme: &str) -> (r: bool)
    ensures
        r == word_char(word_def, grapheme@),
{
    let g = text::chars_of(grapheme);
    word_chars(word_def, g.as_slice())
}

/// Whether a cluster is made of letters and digits, or is an underscore.
pub fn is_vi_word_char(grapheme: &str) -> (r: bool)
    ensures
        r == vi_word_char(grapheme@),
{
    let g = text::chars_of(grapheme);
    vi_word_chars(g.as_slice())
}

/// Whether a cluster is neither whitespace nor part of a word of
/// letters.
pub fn is_other_char(grapheme: &str) -> (r: bool)
    ensures
        r == other_char(grapheme@),
{
    let g = text::chars_of(grapheme);
    other_chars(g.as_slice())
}

/// Whether a word starts at `grapheme`, which `previous` stands before.
pub fn is_start_of_word(word_def: Word, previous: &str, grapheme: &str) -> (r: bool)
    ensures
        r == start_of_word(word_def, previous@, grapheme@),
{
    let p = text::chars_of(previous);
    let g = text::chars_of(grapheme);
    starts_word(word_def, p.as_slice(), g.as_slice())
}

/// Whether a word ends at `grapheme`, which `next` stands after.
pub fn is_end_of_word(word_def: Word, grapheme: &str, next: &str) -> (r: bool)
    ensures
        r == end_of_word(word_def, grapheme@, next@),
{
    let g = text::chars_of(grapheme);
    let n = text::chars_of(next);
    ends_word(word_def, g.as_slice(), n.as_slice())
}

/// Where the grapheme clusters of the characters from `a` up to `b`
/// begin, counted in characters, and `b` after the last.
pub open spec fn cluster_starts(s: Seq<char>, a: int, b: int) -> Seq<int> {
    let sizes = grapheme_sizes(s.subrange(a, b));
    Seq::new(sizes.len() + 1, |k: int| a + total(sizes.take(k)))
}

/// The `k`th cluster of a text whose clusters begin at `b`.
pub open spec fn cluster(s: Seq<char>, b: Seq<int>, k: int) -> Seq<char> {
    s.subrange(b[k], b[k + 1])
}

/// Looks to the left for the start of a word: `j` is the cluster at
/// hand, `sow` the start found last, `rounds` how many are still to be
/// found. The cluster next to a start that was found is passed over.
pub open spec fn back_scan(
    s: Seq<char>,
    b: Seq<int>,
    word_def: Word,
    j: int,
    sow: int,
    rounds: nat,
) -> int
    decreases j + 2,
{
    if rounds == 0 || j < 1 || j + 1 >= b.len() {
        sow
    } else if start_of_word(word_def, cluster(s, b, j - 1), cluster(s, b, j)) {
        back_scan(s, b, word_def, j - 2, b[j], (rounds - 1) as nat)
    } else {
        back_scan(s, b, word_def, j - 1, sow, rounds)
    }
}

/// Where the `n`th word to the left of character `upto` starts, counted
/// in characters; where there are fewer, the start found last, or the
/// start of the line when none was found; `None` at the start of the
/// line.
pub open spec fn prev_word_index(s: Seq<char>, upto: int, word_def: Word, n: usize) -> Option<int> {
    if upto <= 0 || upto > s.len() {
        None
    } else {
        let b = cluster_starts(s, 0, upto);
        Some(back_scan(s, b, word_def, b.len() - 2, 0, n as nat))
    }
}

/// Whether a move by words stops between the clusters `x` and `y`.
pub open spec fn word_edge(at: At, word_def: Word, x: Seq<char>, y: Seq<char>) -> bool {
    if at == At::Start {
        start_of_word(word_def, x, y)
    } else {
        end_of_word(word_def, x, y)
    }
}

/// Looks to the right for the edge of a word: `k` is the cluster at
/// hand, `wp` the edge found last or 0, `rounds` how many are still to be
/// found. Returns the edge found last and the cluster at hand at the end,
/// or -1 where none is.
pub open spec fn forth_scan(
    s: Seq<char>,
    b: Seq<int>,
    at: At,
    word_def: Word,
    k: int,
    wp: int,
    rounds: nat,
) -> (int, int)
    decreases b.len() - k,
{
    if k < 0 || k + 1 >= b.len() {
        (wp, -1)
    } else if k + 2 >= b.len() {
        (wp, k)
    } else if word_edge(at, word_def, cluster(s, b, k), cluster(s, b, k + 1)) {
        let found = if at == At::Start || word_def == Word::Emacs || at == At::AfterEnd {
            b[k + 1]
        } else {
            b[k]
        };
        if rounds <= 1 {
            (found, k)
        } else {
            forth_scan(s, b, at, word_def, k + 2, found, (rounds - 1) as nat)
        }
    } else {
        forth_scan(s, b, at, word_def, k + 1, wp, rounds)
    }
}

/// Where a move of `n` words to the right from character `from` ends,
/// counted in characters: at the start of a word for [`At::Start`], at
/// the end of one otherwise, on its last cluster for [`At::BeforeEnd`]
/// unless words are those of Emacs.
pub open spec fn next_word_index(s: Seq<char>, from: int, at: At, word_def: Word, n: usize) -> Option<
    int,
> {
    if from < 0 || from >= s.len() {
        None
    } else {
        let b = cluster_starts(s, from, s.len() as int);
        let first: int = if at != At::Start {
            1
        } else {
            0
        };
        let (wp, hand) = if n == 0 {
            (from, if at != At::Start {
                0int
            } else {
                -1int
            })
        } else {
            forth_scan(s, b, at, word_def, first, from, n as nat)
        };
        if wp == from {
            if word_def == Word::Emacs || at == At::AfterEnd {
                Some(s.len() as int)
            } else if hand >= 0 && hand + 1 < b.len() && b[hand] != from {
                Some(b[hand])
            } else {
                None
            }
        } else {
            Some(wp)
        }
    }
}

/// Looks to the left of `i` for the character `c`: the `remaining`th
/// place it stands at, or the last one found where there are fewer.
pub open spec fn back_find(s: Seq<char>, i: int, c: char, remaining: nat, best: Option<int>) -> Option<
    int,
>
    decreases i,
{
    if i <= 0 || i > s.len() || remaining == 0 {
        best
    } else if s[i - 1] == c {
        back_find(s, i - 1, c, (remaining - 1) as nat, Some(i - 1))
    } else {
        back_find(s, i - 1, c, remaining, best)
    }
}

/// Looks from `i` on for the character `c`: the `remaining`th place it
/// stands at, or the last one found where there are fewer.
pub open spec fn forth_find(s: Seq<char>, i: int, c: char, remaining: nat, best: Option<int>) -> Option<
    int,
>
    decreases s.len() - i,
{
    if i < 0 || i >= s.len() || remaining == 0 {
        best
    } else if s[i] == c {
        forth_find(s, i + 1, c, (remaining - 1) as nat, Some(i))
    } else {
        forth_find(s, i + 1, c, remaining, best)
    }
}

/// What a find leaves: a place in the text where the character stands.
pub proof fn lemma_back_find(s: Seq<char>, i: int, c: char, remaining: nat, best: Option<int>)
    requires
        0 <= i <= s.len(),
        best matches Some(k) ==> i <= k < s.len() && s[k] == c,
    ensures
        back_find(s, i, c, remaining, best) matches Some(k) ==> 0 <= k < s.len() && s[k] == c && (k
            < i || best == Some(k)),
    decreases i,
{
    if i > 0 && remaining > 0 {
        if s[i - 1] == c {
            lemma_back_find(s, i - 1, c, (remaining - 1) as nat, Some(i - 1));
        } else {
            lemma_back_find(s, i - 1, c, remaining, best);
        }
    }
}

/// What a find leaves: a place in the text where the character stands.
pub proof fn lemma_forth_find(s: Seq<char>, i: int, c: char, remaining: nat, best: Option<int>)
    requires
        0 <= i <= s.len(),
        best matches Some(k) ==> 0 <= k < i && s[k] == c,
    ensures
        forth_find(s, i, c, remaining, best) matches Some(k) ==> 0 <= k < s.len() && s[k] == c && (i
            <= k || best == Some(k)),
    decreases s.len() - i,
{
    if i < s.len() && remaining > 0 {
        if s[i] == c {
            lemma_forth_find(s, i + 1, c, (remaining - 1) as nat, Some(i));
        } else {
            lemma_forth_find(s, i + 1, c, remaining, best);
        }
    }
}

/// Where a search for a character from the cursor ends, counted in
/// characters: to the left at the `n`th place the character stands
/// before the cursor, or just after it; to the right at the `n`th place
/// it stands after the cluster at the cursor, or just before it.
pub open spec fn char_search_index(s: Seq<char>, cursor: int, cs: CharSearch, n: usize) -> Option<int> {
    match cs {
        CharSearch::Backward(c) => back_find(s, cursor, c, n as nat, None),
        CharSearch::BackwardAfter(c) => match back_find(s, cursor, c, n as nat, None) {
            Some(k) => Some(k + 1),
            None => None,
        },
        CharSearch::Forward(c) => match LineBuffer::forward_index(s, cursor, 1) {
            Some(shift) => forth_find(s, shift, c, n as nat, None),
            None => None,
        },
        CharSearch::ForwardBefore(c) => match LineBuffer::forward_index(s, cursor, 1) {
            Some(shift) => match forth_find(s, shift, c, n as nat, None) {
                Some(k) => Some(k - 1),
                None => None,
            },
            None => None,
        },
    }
}

/// A line and the place of the cursor in it, counted in characters.
pub struct Placed {
    pub text: Seq<char>,
    pub cursor: int,
}

/// Where a part of a text starts and ends, counted in characters.
pub struct Bounds {
    pub start: int,
    pub end: int,
}

/// The number of bytes the characters take, `None` where that exceeds a
/// machine word.
fn bytes_of(chars: &[char]) -> (r: Option<usize>)
    ensures
        match r {
            Some(n) => n == byte_len(chars@),
            None => byte_len(chars@) > usize::MAX,
        },
{
    let mut n: usize = 0;
    let mut i: usize = 0;
    assert(chars@.take(0) =~= Seq::<char>::empty());
    while i < chars.len()
        invariant
            i <= chars@.len(),
            n == byte_len(chars@.take(i as int)),
        decreases chars@.len() - i,
    {
        proof {
            assert(chars@.take(i + 1).drop_last() =~= chars@.take(i as int));
            assert(chars@.take(i + 1).last() == chars@[i as int]);
        }
        let w = utf8_len(chars[i]);
        if w > usize::MAX - n {
            proof {
                lemma_byte_len_part(chars@, 0, i + 1);
                assert(chars@.subrange(0, i + 1) =~= chars@.take(i + 1));
            }
            return None;
        }
        n = n + w;
        i += 1;
    }
    assert(chars@.take(chars@.len() as int) =~= chars@);
    Some(n)
}

/// Adds the characters from `a` up to `b` of `from` to `out`.
fn copy_into(out: &mut Vec<char>, from: &[char], a: usize, b: usize)
    requires
        a <= b <= from@.len(),
    ensures
        final(out)@ == old(out)@ + from@.subrange(a as int, b as int),
{
    let mut i = a;
    assert(from@.subrange(a as int, a as int) =~= Seq::<char>::empty());
    assert(out@ + Seq::<char>::empty() =~= out@);
    while i < b
        invariant
            a <= i <= b <= from@.len(),
            out@ == old(out)@ + from@.subrange(a as int, i as int),
        decreases b - i,
    {
        out.push(from[i]);
        assert(from@.subrange(a as int, i + 1) =~= from@.subrange(a as int, i as int).push(from@[i as int]));
        assert(old(out)@ + from@.subrange(a as int, i as int).push(from@[i as int]) =~= (old(out)@
            + from@.subrange(a as int, i as int)).push(from@[i as int]));
        i += 1;
    }
}

/// A line of text with a cursor.
#[derive(Debug)]
pub struct LineBuffer {
    text: String,
    chars: Vec<char>,
    cursor: usize,
    limit: usize,
}

impl View for LineBuffer {
    type V = Seq<char>;

    /// The text of the line.
    closed spec fn view(&self) -> Seq<char> {
        self.chars@
    }
}

impl LineBuffer {
    /// The number of characters before the cursor.
    pub closed spec fn index(&self) -> nat {
        self.cursor as nat
    }

    /// The greatest length in bytes that typing may bring the line to.
    pub closed spec fn capacity(&self) -> nat {
        self.limit as nat
    }

    /// The line is well formed: the cursor lies in the text, and the
    /// length of the text in bytes fits a machine word.
    pub closed spec fn wf(&self) -> bool {
        &&& self.text@ == self.chars@
        &&& self.cursor <= self.chars@.len()
        &&& byte_len(self.chars@) <= usize::MAX
    }

    /// The position of the cursor in bytes.
    pub open spec fn spec_pos(&self) -> nat {
        byte_len(self@.take(self.index() as int))
    }

    /// Whether `pos`, in bytes, lies between two characters of the text
    /// or at an end of it.
    pub open spec fn is_boundary(s: Seq<char>, pos: nat) -> bool {
        exists|k: int| 0 <= k <= s.len() && byte_len(#[trigger] s.take(k)) == pos
    }

    /// The cursor lies in the text, and the text is no longer in bytes
    /// than a machine word can count.
    pub proof fn lemma_cursor_in_text(&self)
        requires
            self.wf(),
        ensures
            self.index() <= self@.len(),
            byte_len(self@) <= usize::MAX,
            self.spec_pos() <= byte_len(self@),
    {
        lemma_byte_len_part(self@, 0, self.index() as int);
        assert(self@.subrange(0, self.index() as int) =~= self@.take(self.index() as int));
    }

    /// An empty line that typing may bring to `capacity` bytes.
    pub fn with_capacity(capacity: usize) -> (lb: LineBuffer)
        ensures
            lb.wf(),
            lb@ == Seq::<char>::empty(),
            lb.index() == 0,
            lb.capacity() == capacity,
    {
        LineBuffer { text: String::new(), chars: Vec::new(), cursor: 0, limit: capacity }
    }

    /// Brings the text on record in line with the characters.
    fn sync(&mut self)
        requires
            old(self).cursor <= old(self).chars@.len(),
            byte_len(old(self).chars@) <= usize::MAX,
        ensures
            final(self).wf(),
            final(self).chars == old(self).chars,
            final(self).cursor == old(self).cursor,
            final(self).limit == old(self).limit,
    {
        self.text = text::string_of(self.chars.as_slice());
    }

    /// The number of bytes the first `k` characters take.
    fn bytes_upto(&self, k: usize) -> (n: usize)
        requires
            self.wf(),
            k <= self.chars@.len(),
        ensures
            n == byte_len(self@.take(k as int)),
    {
        let mut n: usize = 0;
        let mut i: usize = 0;
        assert(self.chars@.take(0) =~= Seq::<char>::empty());
        while i < k
            invariant
                i <= k <= self.chars@.len(),
                byte_len(self.chars@) <= usize::MAX,
                n == byte_len(self.chars@.take(i as int)),
            decreases k - i,
        {
            proof {
                assert(self.chars@.take(i + 1).drop_last() =~= self.chars@.take(i as int));
                assert(self.chars@.take(i + 1).last() == self.chars@[i as int]);
                lemma_byte_len_part(self.chars@, 0, i + 1);
                assert(self.chars@.subrange(0, i + 1) =~= self.chars@.take(i + 1));
            }
            n = n + utf8_len(self.chars[i]);
            i += 1;
        }
        n
    }

    /// The number of characters before the byte position `pos`, `None`
    /// where `pos` lies inside a character or beyond the text.
    fn index_of(&self, pos: usize) -> (r: Option<usize>)
        requires
            self.wf(),
        ensures
            match r {
                Some(k) => k <= self@.len() && byte_len(self@.take(k as int)) == pos,
                None => !LineBuffer::is_boundary(self@, pos as nat),
            },
    {
        let mut n: usize = 0;
        let mut i: usize = 0;
        assert(self.chars@.take(0) =~= Seq::<char>::empty());
        while i < self.chars.len() && n < pos
            invariant
                i <= self.chars@.len(),
                byte_len(self.chars@) <= usize::MAX,
                n == byte_len(self.chars@.take(i as int)),
                forall|k: int| 0 <= k < i ==> byte_len(#[trigger] self.chars@.take(k)) < pos,
            decreases self.chars@.len() - i,
        {
            proof {
                assert(self.chars@.take(i + 1).drop_last() =~= self.chars@.take(i as int));
                assert(self.chars@.take(i + 1).last() == self.chars@[i as int]);
                lemma_byte_len_part(self.chars@, 0, i + 1);
                assert(self.chars@.subrange(0, i + 1) =~= self.chars@.take(i + 1));
            }
            n = n + utf8_len(self.chars[i]);
            i += 1;
        }
        if n == pos {
            Some(i)
        } else {
            proof {
                assert forall|k: int| 0 <= k <= self@.len() implies byte_len(#[trigger] self@.take(k))
                    != pos by {
                    if k > i {
                        lemma_byte_len_concat(self@.take(i as int), self@.subrange(i as int, k));
                        assert(self@.take(i as int) + self@.subrange(i as int, k) =~= self@.take(k));
                    }
                }
            }
            None
        }
    }

    /// A line with the given text and the cursor at byte position `pos`.
    pub fn init(line: &str, pos: usize) -> (lb: LineBuffer)
        requires
            byte_len(line@) <= usize::MAX,
            LineBuffer::is_boundary(line@, pos as nat),
        ensures
            lb.wf(),
            lb@ == line@,
            lb.spec_pos() == pos,
            lb.capacity() == MAX_LINE,
    {
        let mut lb = LineBuffer::with_capacity(MAX_LINE);
        lb.chars = text::chars_of(line);
        lb.sync();
        lb.set_pos(pos);
        lb
    }

    /// The text.
    pub fn as_str(&self) -> (r: &str)
        requires
            self.wf(),
        ensures
            r@ == self@,
    {
        self.text.as_str()
    }

    /// The text, the line given up.
    pub fn into_string(self) -> (r: String)
        requires
            self.wf(),
        ensures
            r@ == self@,
    {
        self.text
    }

    /// The position of the cursor in bytes.
    pub fn pos(&self) -> (r: usize)
        requires
            self.wf(),
        ensures
            r == self.spec_pos(),
    {
        self.bytes_upto(self.cursor)
    }

    /// Puts the cursor at byte position `pos`.
    pub fn set_pos(&mut self, pos: usize)
        requires
            old(self).wf(),
            LineBuffer::is_boundary(old(self)@, pos as nat),
        ensures
            final(self).wf(),
            final(self)@ == old(self)@,
            final(self).capacity() == old(self).capacity(),
            final(self).spec_pos() == pos,
    {
        match self.index_of(pos) {
            Some(k) => {
                self.cursor = k;
            },
            None => {},
        }
    }

    /// The length of the text in bytes.
    pub fn len(&self) -> (n: usize)
        requires
            self.wf(),
        ensures
            n == byte_len(self@),
    {
        assert(self.chars@.take(self.chars@.len() as int) =~= self.chars@);
        self.bytes_upto(self.chars.len())
    }

    /// Whether the text is empty.
    pub fn is_empty(&self) -> (r: bool)
        requires
            self.wf(),
        ensures
            r == (self@.len() == 0),
    {
        self.chars.len() == 0
    }

    /// The greatest number of characters from the start of `s` that take
    /// no more than `max` bytes.
    pub open spec fn fitting(s: Seq<char>, max: nat) -> int
        decreases s.len(),
    {
        if s.len() == 0 || byte_len(s) <= max {
            s.len() as int
        } else {
            LineBuffer::fitting(s.drop_last(), max)
        }
    }

    /// Puts `buf` in place of the text, cut after the last character that
    /// ends within the capacity, and the cursor at byte position `pos`, or
    /// at the end of the text where `pos` lies beyond it.
    pub fn update(&mut self, buf: &str, pos: usize)
        requires
            old(self).wf(),
            byte_len(buf@) <= usize::MAX,
            LineBuffer::is_boundary(buf@, pos as nat),
        ensures
            final(self).wf(),
            final(self).capacity() == old(self).capacity(),
            final(self)@ == buf@.take(LineBuffer::fitting(buf@, old(self).capacity())),
            final(self).spec_pos() == if pos <= byte_len(final(self)@) {
                pos as nat
            } else {
                byte_len(final(self)@)
            },
    {
        let all = text::chars_of(buf);
        let mut kept = all.len();
        let mut bytes: usize = 0;
        // the bytes of the whole text
        let mut i: usize = 0;
        assert(all@.take(0) =~= Seq::<char>::empty());
        while i < all.len()
            invariant
                i <= all@.len(),
                byte_len(all@) <= usize::MAX,
                bytes == byte_len(all@.take(i as int)),
            decreases all@.len() - i,
        {
            proof {
                assert(all@.take(i + 1).drop_last() =~= all@.take(i as int));
                assert(all@.take(i + 1).last() == all@[i as int]);
                lemma_byte_len_part(all@, 0, i + 1);
                assert(all@.subrange(0, i + 1) =~= all@.take(i + 1));
            }
            bytes = bytes + utf8_len(all[i]);
            i += 1;
        }
        assert(all@.take(all@.len() as int) =~= all@);
        while kept > 0 && bytes > self.limit
            invariant
                kept <= all@.len(),
                bytes == byte_len(all@.take(kept as int)),
                LineBuffer::fitting(all@, self.limit as nat) == LineBuffer::fitting(
                    all@.take(kept as int),
                    self.limit as nat,
                ),
            decreases kept,
        {
            proof {
                assert(all@.take(kept as int).drop_last() =~= all@.take(kept - 1));
                assert(all@.take(kept as int).last() == all@[kept - 1]);
            }
            bytes = bytes - utf8_len(all[kept - 1]);
            kept -= 1;
        }
        let mut chars = all;
        chars.truncate(kept);
        proof {
            assert(chars@ =~= buf@.take(kept as int));
            lemma_byte_len_part(buf@, 0, kept as int);
            assert(buf@.subrange(0, kept as int) =~= buf@.take(kept as int));
        }
        self.chars = chars;
        self.cursor = 0;
        self.sync();
        if pos > bytes {
            self.cursor = self.chars.len();
            assert(self.chars@.take(self.chars@.len() as int) =~= self.chars@);
        } else {
            proof {
                let k = choose|k: int| 0 <= k <= buf@.len() && byte_len(#[trigger] buf@.take(k)) == pos;
                if k > kept {
                    lemma_byte_len_concat(buf@.take(kept as int), buf@.subrange(kept as int, k));
                    assert(buf@.take(kept as int) + buf@.subrange(kept as int, k) =~= buf@.take(k));
                    lemma_byte_len_least(buf@.subrange(kept as int, k));
                } else {
                    assert(self@.take(k) =~= buf@.take(k));
                }
            }
            self.set_pos(pos);
        }
    }

    /// Makes this line a copy of `src`, text and cursor.
    pub fn backup(&mut self, src: &LineBuffer)
        requires
            old(self).wf(),
            src.wf(),
        ensures
            final(self).wf(),
            final(self)@ == src@,
            final(self).index() == src.index(),
            final(self).capacity() == old(self).capacity(),
    {
        self.chars = text::chars_of(src.text.as_str());
        self.cursor = src.cursor;
        self.sync();
    }

    /// The text with `piece` put in before character `k`.
    pub open spec fn with_inserted(s: Seq<char>, k: int, piece: Seq<char>) -> Seq<char> {
        s.take(k) + piece + s.skip(k)
    }

    /// The text without the characters from `a` up to `b`.
    pub open spec fn without(s: Seq<char>, a: int, b: int) -> Seq<char> {
        s.take(a) + s.skip(b)
    }

    /// `piece` written `n` times.
    pub open spec fn repeated(piece: Seq<char>, n: nat) -> Seq<char>
        decreases n,
    {
        if n == 0 {
            Seq::empty()
        } else {
            LineBuffer::repeated(piece, (n - 1) as nat) + piece
        }
    }

    /// Puts characters in before character `k`; the cursor stays where it
    /// is, counted in characters.
    fn put(&mut self, k: usize, piece: &[char])
        requires
            old(self).wf(),
            k <= old(self)@.len(),
            byte_len(old(self)@) + byte_len(piece@) <= usize::MAX,
        ensures
            final(self).wf(),
            final(self)@ == LineBuffer::with_inserted(old(self)@, k as int, piece@),
            final(self).index() == old(self).index(),
            final(self).capacity() == old(self).capacity(),
            byte_len(final(self)@) == byte_len(old(self)@) + byte_len(piece@),
            final(self)@.len() == old(self)@.len() + piece@.len(),
            final(self)@.len() <= usize::MAX,
    {
        let ghost before = self.chars@;
        let mut tail = self.chars.split_off(k);
        let mut i: usize = 0;
        while i < piece.len()
            invariant
                i <= piece@.len(),
                self.chars@ == before.take(k as int) + piece@.take(i as int),
                tail@ == before.skip(k as int),
                self.cursor == old(self).cursor,
                self.limit == old(self).limit,
            decreases piece@.len() - i,
        {
            self.chars.push(piece[i]);
            assert(piece@.take(i + 1) =~= piece@.take(i as int).push(piece@[i as int]));
            i += 1;
        }
        assert(piece@.take(piece@.len() as int) =~= piece@);
        self.chars.append(&mut tail);
        let size = self.chars.len();
        proof {
            lemma_byte_len_concat(before.take(k as int), piece@);
            lemma_byte_len_concat(before.take(k as int) + piece@, before.skip(k as int));
            lemma_byte_len_concat(before.take(k as int), before.skip(k as int));
            assert(before.take(k as int) + before.skip(k as int) =~= before);
        }
        self.sync();
    }

    /// Takes out the characters from `a` up to `b` and returns them; the
    /// cursor stays where it is, counted in characters, unless it lay
    /// beyond the text that is left.
    fn take_out(&mut self, a: usize, b: usize) -> (taken: Vec<char>)
        requires
            old(self).wf(),
            a <= b <= old(self)@.len(),
        ensures
            final(self)@ == LineBuffer::without(old(self)@, a as int, b as int),
            taken@ == old(self)@.subrange(a as int, b as int),
            final(self).capacity() == old(self).capacity(),
            final(self).chars@ == final(self)@,
            final(self).cursor == old(self).cursor,
            byte_len(final(self)@) + byte_len(taken@) == byte_len(old(self)@),
            byte_len(final(self)@) <= usize::MAX,
    {
        let ghost before = self.chars@;
        let mut tail = self.chars.split_off(b);
        let taken = self.chars.split_off(a);
        self.chars.append(&mut tail);
        proof {
            let head = before.take(a as int);
            let tail = before.skip(b as int);
            assert(self.chars@ =~= head + tail);
            assert(taken@ =~= before.subrange(a as int, b as int));
            lemma_byte_len_part(before, a as int, b as int);
            lemma_byte_len_concat(head, tail);
            assert(before.subrange(0, a as int) =~= head);
            assert(before.subrange(b as int, before.len() as int) =~= tail);
            assert(byte_len(before) == byte_len(head) + byte_len(taken@) + byte_len(tail));
            assert(byte_len(self.chars@) == byte_len(head) + byte_len(tail));
        }
        taken
    }

    /// Puts `s` in at byte position `idx`. Returns whether that is the
    /// end of the text. The cursor stays where it is, counted in
    /// characters.
    pub fn insert_str(&mut self, idx: usize, s: &str) -> (at_end: bool)
        requires
            old(self).wf(),
            LineBuffer::is_boundary(old(self)@, idx as nat),
            byte_len(old(self)@) + byte_len(s@) <= usize::MAX,
        ensures
            final(self).wf(),
            final(self).capacity() == old(self).capacity(),
            final(self).index() == old(self).index(),
            at_end == (idx == byte_len(old(self)@)),
            exists|k: int|
                0 <= k <= old(self)@.len() && byte_len(#[trigger] old(self)@.take(k)) == idx
                    && final(self)@ == LineBuffer::with_inserted(old(self)@, k, s@),
    {
        let total_len = self.len();
        let piece = text::chars_of(s);
        match self.index_of(idx) {
            Some(k) => {
                self.put(k, piece.as_slice());
            },
            None => {},
        }
        idx == total_len
    }

    /// Puts `text` in place of the bytes from `range.start` up to
    /// `range.end` and the cursor after it.
    pub fn replace(&mut self, range: core::ops::Range<usize>, text: &str)
        requires
            old(self).wf(),
            range.start <= range.end,
            LineBuffer::is_boundary(old(self)@, range.start as nat),
            LineBuffer::is_boundary(old(self)@, range.end as nat),
            byte_len(old(self)@) + byte_len(text@) <= usize::MAX,
        ensures
            final(self).wf(),
            final(self).capacity() == old(self).capacity(),
            final(self).spec_pos() == range.start + byte_len(text@),
            exists|a: int, b: int|
                0 <= a <= b <= old(self)@.len() && byte_len(#[trigger] old(self)@.take(a))
                    == range.start && byte_len(#[trigger] old(self)@.take(b)) == range.end
                    && final(self)@ == old(self)@.take(a) + text@ + old(self)@.skip(b),
    {
        let piece = text::chars_of(text);
        let from = self.index_of(range.start);
        let to = self.index_of(range.end);
        match (from, to) {
            (Some(a), Some(b)) => {
                proof {
                    if a > b {
                        lemma_byte_len_concat(self@.take(b as int), self@.subrange(b as int, a as int));
                        assert(self@.take(b as int) + self@.subrange(b as int, a as int) =~= self@.take(
                            a as int,
                        ));
                        lemma_byte_len_least(self@.subrange(b as int, a as int));
                    }
                }
                let ghost before = self@;
                let _ = self.take_out(a, b);
                self.cursor = a;
                self.sync();
                self.put(a, piece.as_slice());
                self.cursor = a + piece.len();
                proof {
                    let after = self@;
                    assert(after =~= before.take(a as int) + text@ + before.skip(b as int));
                    assert(after.take(a + piece@.len()) =~= before.take(a as int) + text@);
                    lemma_byte_len_concat(before.take(a as int), text@);
                }
            },
            _ => {},
        }
    }

    /// Puts the character `ch` in at the cursor `n` times and the cursor
    /// after it. Nothing happens where that would bring the text beyond
    /// the capacity: `None` then; otherwise whether the cursor was at the
    /// end of the text.
    pub fn insert(&mut self, ch: char, n: usize) -> (r: Option<bool>)
        requires
            old(self).wf(),
        ensures
            final(self).wf(),
            final(self).capacity() == old(self).capacity(),
            match r {
                None => {
                    &&& byte_len(old(self)@) + utf8_width(ch) * n > old(self).capacity()
                    &&& final(self)@ == old(self)@
                    &&& final(self).index() == old(self).index()
                },
                Some(at_end) => {
                    &&& byte_len(old(self)@) + utf8_width(ch) * n <= old(self).capacity()
                    &&& at_end == (old(self).index() == old(self)@.len())
                    &&& final(self)@ == LineBuffer::with_inserted(
                        old(self)@,
                        old(self).index() as int,
                        LineBuffer::repeated(seq![ch], n as nat),
                    )
                    &&& final(self).index() == old(self).index() + n
                    &&& byte_len(final(self)@) == byte_len(old(self)@) + utf8_width(ch) * n
                },
            },
    {
        let width = utf8_len(ch);
        let size = self.len();
        if n > (usize::MAX - size) / width {
            assert(size + width * n > usize::MAX) by (nonlinear_arith)
                requires
                    n > (usize::MAX - size) / (width as int),
                    width >= 1,
            ;
            return None;
        }
        assert(width * n <= usize::MAX - size) by (nonlinear_arith)
            requires
                n <= (usize::MAX - size) / (width as int),
                width >= 1,
        ;
        let shift = width * n;
        if size + shift > self.limit {
            return None;
        }
        let at_end = self.cursor == self.chars.len();
        let mut piece: Vec<char> = Vec::new();
        let mut i: usize = 0;
        while i < n
            invariant
                i <= n,
                piece@ == LineBuffer::repeated(seq![ch], i as nat),
                piece@.len() == i,
                byte_len(piece@) == width * i,
                width == utf8_width(ch),
            decreases n - i,
        {
            let ghost before = piece@;
            piece.push(ch);
            proof {
                assert(piece@ =~= before + seq![ch]);
                assert(piece@.drop_last() =~= before);
                assert(width * (i + 1) == width * i + width) by (nonlinear_arith);
            }
            i += 1;
        }
        let k = self.cursor;
        self.put(k, piece.as_slice());
        self.cursor = k + n;
        Some(at_end)
    }

    /// Puts `text` in at the cursor `n` times and the cursor after it.
    /// Nothing happens for an empty text or where that would bring the
    /// text beyond the capacity: `None` then; otherwise whether the cursor
    /// was at the end of the text.
    pub fn yank(&mut self, text: &str, n: usize) -> (r: Option<bool>)
        requires
            old(self).wf(),
            byte_len(text@) <= usize::MAX,
        ensures
            final(self).wf(),
            final(self).capacity() == old(self).capacity(),
            match r {
                None => {
                    &&& text@.len() == 0 || byte_len(old(self)@) + byte_len(text@) * n
                        > old(self).capacity()
                    &&& final(self)@ == old(self)@
                    &&& final(self).index() == old(self).index()
                },
                Some(at_end) => {
                    &&& text@.len() > 0
                    &&& byte_len(old(self)@) + byte_len(text@) * n <= old(self).capacity()
                    &&& at_end == (old(self).index() == old(self)@.len())
                    &&& final(self)@ == LineBuffer::with_inserted(
                        old(self)@,
                        old(self).index() as int,
                        LineBuffer::repeated(text@, n as nat),
                    )
                    &&& final(self).index() == old(self).index() + text@.len() * n
                    &&& byte_len(final(self)@) == byte_len(old(self)@) + byte_len(text@) * n
                },
            },
    {
        let one = text::chars_of(text);
        if one.len() == 0 {
            return None;
        }
        let mut width: usize = 0;
        let mut j: usize = 0;
        assert(one@.take(0) =~= Seq::<char>::empty());
        while j < one.len()
            invariant
                j <= one@.len(),
                byte_len(one@) <= usize::MAX,
                width == byte_len(one@.take(j as int)),
            decreases one@.len() - j,
        {
            proof {
                assert(one@.take(j + 1).drop_last() =~= one@.take(j as int));
                assert(one@.take(j + 1).last() == one@[j as int]);
                lemma_byte_len_part(one@, 0, j + 1);
                assert(one@.subrange(0, j + 1) =~= one@.take(j + 1));
            }
            width = width + utf8_len(one[j]);
            j += 1;
        }
        assert(one@.take(one@.len() as int) =~= one@);
        proof {
            lemma_byte_len_least(one@);
        }
        let size = self.len();
        if n > (usize::MAX - size) / width {
            assert(size + width * n > usize::MAX) by (nonlinear_arith)
                requires
                    n > (usize::MAX - size) / (width as int),
                    width >= 1,
            ;
            return None;
        }
        assert(width * n <= usize::MAX - size) by (nonlinear_arith)
            requires
                n <= (usize::MAX - size) / (width as int),
                width >= 1,
        ;
        let shift = width * n;
        if size + shift > self.limit {
            return None;
        }
        let at_end = self.cursor == self.chars.len();
        let mut piece: Vec<char> = Vec::new();
        let mut i: usize = 0;
        while i < n
            invariant
                i <= n,
                piece@ == LineBuffer::repeated(one@, i as nat),
                byte_len(piece@) == width * i,
                piece@.len() == one@.len() * i,
                width == byte_len(one@),
                width * n <= usize::MAX,
            decreases n - i,
        {
            let ghost before = piece@;
            let mut k: usize = 0;
            while k < one.len()
                invariant
                    k <= one@.len(),
                    piece@ == before + one@.take(k as int),
                decreases one@.len() - k,
            {
                piece.push(one[k]);
                assert(one@.take(k + 1) =~= one@.take(k as int).push(one@[k as int]));
                k += 1;
            }
            proof {
                assert(one@.take(one@.len() as int) =~= one@);
                lemma_byte_len_concat(before, one@);
                assert(width * (i + 1) == width * i + width) by (nonlinear_arith);
                assert(one@.len() * (i + 1) == one@.len() * i + one@.len()) by (nonlinear_arith);
            }
            i += 1;
        }
        let k = self.cursor;
        proof {
            lemma_byte_len_least(piece@);
        }
        self.put(k, piece.as_slice());
        self.cursor = k + piece.len();
        Some(at_end)
    }

    /// Takes out the `yank_size` bytes before the cursor, then puts `text`
    /// in at the cursor as [`LineBuffer::yank`] does.
    pub fn yank_pop(&mut self, yank_size: usize, text: &str) -> (r: Option<bool>)
        requires
            old(self).wf(),
            byte_len(text@) <= usize::MAX,
            yank_size <= old(self).spec_pos(),
            LineBuffer::is_boundary(old(self)@, (old(self).spec_pos() - yank_size) as nat),
        ensures
            final(self).wf(),
            final(self).capacity() == old(self).capacity(),
            r is None ==> final(self).spec_pos() == old(self).spec_pos() - yank_size,
            byte_len(final(self)@) == byte_len(old(self)@) - yank_size + if r is Some {
                byte_len(text@)
            } else {
                0
            },
    {
        let here = self.pos();
        match self.index_of(here - yank_size) {
            Some(a) => {
                let b = self.cursor;
                proof {
                    if a > b {
                        lemma_byte_len_concat(self@.take(b as int), self@.subrange(b as int, a as int));
                        assert(self@.take(b as int) + self@.subrange(b as int, a as int) =~= self@.take(
                            a as int,
                        ));
                        lemma_byte_len_least(self@.subrange(b as int, a as int));
                    }
                }
                let ghost before = self@;
                let taken = self.take_out(a, b);
                self.cursor = a;
                self.sync();
                proof {
                    assert(self@.take(a as int) =~= before.take(a as int));
                    lemma_byte_len_concat(before.take(a as int), before.subrange(a as int, b as int));
                    assert(before.take(a as int) + before.subrange(a as int, b as int) =~= before.take(
                        b as int,
                    ));
                }
            },
            None => {},
        }
        self.yank(text, 1)
    }

    /// Puts the cursor at the start of the line. Returns whether it
    /// moved.
    pub fn move_home(&mut self) -> (moved: bool)
        requires
            old(self).wf(),
        ensures
            final(self).wf(),
            final(self)@ == old(self)@,
            final(self).capacity() == old(self).capacity(),
            final(self).index() == 0,
            moved == (old(self).index() > 0),
    {
        if self.cursor > 0 {
            self.cursor = 0;
            true
        } else {
            false
        }
    }

    /// Puts the cursor at the end of the line. Returns whether it moved.
    pub fn move_end(&mut self) -> (moved: bool)
        requires
            old(self).wf(),
        ensures
            final(self).wf(),
            final(self)@ == old(self)@,
            final(self).capacity() == old(self).capacity(),
            final(self).index() == old(self)@.len(),
            moved == (old(self).index() != old(self)@.len()),
    {
        if self.cursor == self.chars.len() {
            false
        } else {
            self.cursor = self.chars.len();
            true
        }
    }

    /// Takes out the text from the cursor to the end of the line and
    /// returns it; `None` where there is none.
    pub fn kill_line(&mut self) -> (r: Option<String>)
        requires
            old(self).wf(),
        ensures
            final(self).wf(),
            final(self).capacity() == old(self).capacity(),
            final(self).index() == old(self).index(),
            final(self)@ == old(self)@.take(old(self).index() as int),
            match r {
                Some(t) => old(self).index() < old(self)@.len() && t@ == old(self)@.skip(
                    old(self).index() as int,
                ),
                None => old(self).index() == old(self)@.len(),
            },
    {
        if self.chars.len() != 0 && self.cursor < self.chars.len() {
            let end = self.chars.len();
            let taken = self.take_out(self.cursor, end);
            self.sync();
            assert(self@ =~= old(self)@.take(old(self).index() as int));
            assert(taken@ =~= old(self)@.skip(old(self).index() as int));
            Some(text::string_of(taken.as_slice()))
        } else {
            assert(self@.take(self.index() as int) =~= self@);
            None
        }
    }

    /// Takes out the text from the start of the line to the cursor and
    /// returns it; `None` where there is none. The cursor goes to the
    /// start.
    pub fn discard_line(&mut self) -> (r: Option<String>)
        requires
            old(self).wf(),
        ensures
            final(self).wf(),
            final(self).capacity() == old(self).capacity(),
            final(self).index() == 0,
            final(self)@ == old(self)@.skip(old(self).index() as int),
            match r {
                Some(t) => old(self).index() > 0 && t@ == old(self)@.take(old(self).index() as int),
                None => old(self).index() == 0,
            },
    {
        if self.cursor > 0 && self.chars.len() != 0 {
            let taken = self.take_out(0, self.cursor);
            self.cursor = 0;
            self.sync();
            assert(self@ =~= old(self)@.skip(old(self).index() as int));
            assert(taken@ =~= old(self)@.take(old(self).index() as int));
            Some(text::string_of(taken.as_slice()))
        } else {
            assert(self@.skip(0) =~= self@);
            None
        }
    }

    /// Where a move of `n` grapheme clusters to the right from character
    /// `from` ends, counted in characters: after the `n`th cluster of the
    /// text from `from` on, or after the last where there are fewer;
    /// `None` at the end of the text or for no cluster.
    pub open spec fn forward_index(s: Seq<char>, from: int, n: usize) -> Option<int> {
        if from < 0 || from >= s.len() || n == 0 {
            None
        } else {
            let sizes = grapheme_sizes(s.skip(from));
            let k = if n < sizes.len() {
                n as int
            } else {
                sizes.len() as int
            };
            Some(from + total(sizes.take(k)))
        }
    }

    /// Where a move of `n` grapheme clusters to the left from character
    /// `from` ends, counted in characters: before the `n`th cluster from
    /// the end of the text up to `from`, or at the start where there are
    /// fewer; `None` at the start of the text or for no cluster.
    pub open spec fn backward_index(s: Seq<char>, from: int, n: usize) -> Option<int> {
        if from <= 0 || from > s.len() || n == 0 {
            None
        } else {
            let sizes = grapheme_sizes(s.take(from));
            let k = if n < sizes.len() {
                n as int
            } else {
                sizes.len() as int
            };
            Some(total(sizes.take(sizes.len() - k)) as int)
        }
    }

    /// The grapheme clusters of the characters from `a` up to `b`, each by
    /// the number of its characters.
    fn clusters(&self, a: usize, b: usize) -> (r: Vec<usize>)
        requires
            self.wf(),
            a <= b <= self@.len(),
        ensures
            r@ == grapheme_sizes(self@.subrange(a as int, b as int)),
            forall|i: int| 0 <= i < r@.len() ==> (#[trigger] r@[i]) >= 1,
            total(r@) == b - a,
    {
        let part = text::string_of(vstd::slice::slice_subrange(self.chars.as_slice(), a, b));
        graphemes(part.as_str())
    }

    /// Where a move of `n` grapheme clusters to the right of the cursor
    /// ends, counted in characters.
    fn next_index(&self, n: usize) -> (r: Option<usize>)
        requires
            self.wf(),
        ensures
            match r {
                Some(k) => LineBuffer::forward_index(self@, self.index() as int, n) == Some(k as int)
                    && self.index() < k <= self@.len(),
                None => LineBuffer::forward_index(self@, self.index() as int, n) is None,
            },
    {
        if self.cursor == self.chars.len() || n == 0 {
            return None;
        }
        let sizes = self.clusters(self.cursor, self.chars.len());
        assert(self@.subrange(self.index() as int, self@.len() as int) =~= self@.skip(self.index() as int));
        let k = if n < sizes.len() {
            n
        } else {
            sizes.len()
        };
        let mut sum: usize = 0;
        let mut i: usize = 0;
        assert(sizes@.take(0) =~= Seq::<usize>::empty());
        while i < k
            invariant
                i <= k <= sizes@.len(),
                sum == total(sizes@.take(i as int)),
                self.chars@.len() <= usize::MAX,
                self.cursor <= self.chars@.len(),
                total(sizes@) == self.chars@.len() - self.cursor,
                forall|x: int| 0 <= x < sizes@.len() ==> (#[trigger] sizes@[x]) >= 1,
                i > 0 ==> sum >= 1,
            decreases k - i,
        {
            proof {
                lemma_total_take(sizes@, i as int);
                lemma_total_take(sizes@, i + 1);
            }
            sum = sum + sizes[i];
            i += 1;
        }
        proof {
            lemma_total_take(sizes@, k as int);
            if sizes@.len() == 0 {
                assert(total(sizes@) == 0);
            }
        }
        Some(self.cursor + sum)
    }

    /// Where a move of `n` grapheme clusters to the left of the cursor
    /// ends, counted in characters.
    fn prev_index(&self, n: usize) -> (r: Option<usize>)
        requires
            self.wf(),
        ensures
            match r {
                Some(k) => LineBuffer::backward_index(self@, self.index() as int, n) == Some(k as int)
                    && k < self.index(),
                None => LineBuffer::backward_index(self@, self.index() as int, n) is None,
            },
    {
        if self.cursor == 0 || n == 0 {
            return None;
        }
        let sizes = self.clusters(0, self.cursor);
        assert(self@.subrange(0, self.index() as int) =~= self@.take(self.index() as int));
        let k = if n < sizes.len() {
            n
        } else {
            sizes.len()
        };
        let keep = sizes.len() - k;
        let mut sum: usize = 0;
        let mut i: usize = 0;
        assert(sizes@.take(0) =~= Seq::<usize>::empty());
        while i < keep
            invariant
                i <= keep <= sizes@.len(),
                sum == total(sizes@.take(i as int)),
                total(sizes@) == self.cursor,
            decreases keep - i,
        {
            proof {
                lemma_total_take(sizes@, i as int);
                lemma_total_take(sizes@, i + 1);
            }
            sum = sum + sizes[i];
            i += 1;
        }
        proof {
            if sizes@.len() == 0 {
                assert(total(sizes@) == 0);
            }
            // the last cluster is not empty, so the move goes somewhere
            lemma_total_take(sizes@, keep as int);
            assert(sizes@[keep as int] >= 1);
            lemma_total_take(sizes@, keep + 1);
        }
        Some(sum)
    }

    /// The grapheme cluster at the cursor, `None` at the end of the
    /// text.
    pub fn grapheme_at_cursor(&self) -> (r: Option<&str>)
        requires
            self.wf(),
        ensures
            match r {
                Some(g) => LineBuffer::forward_index(self@, self.index() as int, 1) matches Some(k)
                    && g@ == self@.subrange(self.index() as int, k),
                None => self.index() == self@.len(),
            },
    {
        match self.next_index(1) {
            Some(k) => Some(self.text.as_str().substring_char(self.cursor, k)),
            None => None,
        }
    }

    /// The byte position after the `n`th grapheme cluster to the right of
    /// the cursor, see [`LineBuffer::forward_index`].
    pub fn next_pos(&self, n: usize) -> (r: Option<usize>)
        requires
            self.wf(),
        ensures
            match LineBuffer::forward_index(self@, self.index() as int, n) {
                Some(k) => r == Some(byte_len(self@.take(k)) as usize),
                None => r is None,
            },
    {
        match self.next_index(n) {
            Some(k) => {
                proof {
                    lemma_byte_len_part(self@, 0, k as int);
                    assert(self@.subrange(0, k as int) =~= self@.take(k as int));
                }
                Some(self.bytes_upto(k))
            },
            None => None,
        }
    }

    /// The byte position before the `n`th grapheme cluster to the left of
    /// the cursor, see [`LineBuffer::backward_index`].
    pub fn prev_pos(&self, n: usize) -> (r: Option<usize>)
        requires
            self.wf(),
        ensures
            match LineBuffer::backward_index(self@, self.index() as int, n) {
                Some(k) => r == Some(byte_len(self@.take(k)) as usize),
                None => r is None,
            },
    {
        match self.prev_index(n) {
            Some(k) => {
                proof {
                    lemma_byte_len_part(self@, 0, k as int);
                    assert(self@.subrange(0, k as int) =~= self@.take(k as int));
                }
                Some(self.bytes_upto(k))
            },
            None => None,
        }
    }

    /// Moves the cursor `n` grapheme clusters to the left. Returns
    /// whether it moved.
    pub fn move_backward(&mut self, n: usize) -> (moved: bool)
        requires
            old(self).wf(),
        ensures
            final(self).wf(),
            final(self)@ == old(self)@,
            final(self).capacity() == old(self).capacity(),
            match LineBuffer::backward_index(old(self)@, old(self).index() as int, n) {
                Some(k) => moved && final(self).index() == k,
                None => !moved && final(self).index() == old(self).index(),
            },
            moved ==> final(self).index() < old(self).index(),
            moved == (old(self).index() > 0 && n > 0),
    {
        match self.prev_index(n) {
            Some(k) => {
                self.cursor = k;
                true
            },
            None => false,
        }
    }

    /// Moves the cursor `n` grapheme clusters to the right. Returns
    /// whether it moved.
    pub fn move_forward(&mut self, n: usize) -> (moved: bool)
        requires
            old(self).wf(),
        ensures
            final(self).wf(),
            final(self)@ == old(self)@,
            final(self).capacity() == old(self).capacity(),
            match LineBuffer::forward_index(old(self)@, old(self).index() as int, n) {
                Some(k) => moved && final(self).index() == k,
                None => !moved && final(self).index() == old(self).index(),
            },
            moved ==> old(self).index() < final(self).index() <= old(self)@.len(),
            moved == (old(self).index() < old(self)@.len() && n > 0),
    {
        match self.next_index(n) {
            Some(k) => {
                self.cursor = k;
                true
            },
            None => false,
        }
    }

    /// Takes out `n` grapheme clusters to the right of the cursor and
    /// returns them; `None` at the end of the text. The cursor stays.
    pub fn delete(&mut self, n: usize) -> (r: Option<String>)
        requires
            old(self).wf(),
        ensures
            final(self).wf(),
            final(self).capacity() == old(self).capacity(),
            final(self).index() == old(self).index(),
            match LineBuffer::forward_index(old(self)@, old(self).index() as int, n) {
                Some(k) => r matches Some(t) && t@ == old(self)@.subrange(old(self).index() as int, k)
                    && final(self)@ == LineBuffer::without(old(self)@, old(self).index() as int, k),
                None => r is None && final(self)@ == old(self)@,
            },
    {
        match self.next_index(n) {
            Some(k) => {
                let taken = self.take_out(self.cursor, k);
                self.sync();
                Some(text::string_of(taken.as_slice()))
            },
            None => None,
        }
    }

    /// Takes out `n` grapheme clusters to the left of the cursor and
    /// returns them; `None` at the start of the text. The cursor goes to
    /// where they began.
    pub fn backspace(&mut self, n: usize) -> (r: Option<String>)
        requires
            old(self).wf(),
        ensures
            final(self).wf(),
            final(self).capacity() == old(self).capacity(),
            match LineBuffer::backward_index(old(self)@, old(self).index() as int, n) {
                Some(k) => r matches Some(t) && t@ == old(self)@.subrange(k, old(self).index() as int)
                    && final(self)@ == LineBuffer::without(old(self)@, k, old(self).index() as int)
                    && final(self).index() == k,
                None => r is None && final(self)@ == old(self)@ && final(self).index()
                    == old(self).index(),
            },
    {
        match self.prev_index(n) {
            Some(k) => {
                let taken = self.take_out(k, self.cursor);
                self.cursor = k;
                self.sync();
                Some(text::string_of(taken.as_slice()))
            },
            None => None,
        }
    }

    /// Where the grapheme clusters of the characters from `a` up to `b`
    /// begin, and `b` after the last.
    fn starts(&self, a: usize, b: usize) -> (r: Vec<usize>)
        requires
            self.wf(),
            a <= b <= self@.len(),
        ensures
            r@.len() == cluster_starts(self@, a as int, b as int).len(),
            r@.len() >= 1,
            forall|k: int| 0 <= k < r@.len() ==> (#[trigger] r@[k]) == cluster_starts(
                self@,
                a as int,
                b as int,
            )[k],
            forall|k: int| 0 <= k < r@.len() ==> a <= (#[trigger] r@[k]) <= b,
            forall|k: int| 0 <= k < r@.len() - 1 ==> (#[trigger] r@[k]) < r@[k + 1],
            r@[0] == a,
            r@[r@.len() - 1] == b,
    {
        let sizes = self.clusters(a, b);
        let mut r: Vec<usize> = Vec::new();
        r.push(a);
        let mut sum: usize = a;
        let mut i: usize = 0;
        assert(sizes@.take(0) =~= Seq::<usize>::empty());
        while i < sizes.len()
            invariant
                i <= sizes@.len(),
                a <= b <= self.chars@.len(),
                sizes@ == grapheme_sizes(self@.subrange(a as int, b as int)),
                total(sizes@) == b - a,
                forall|x: int| 0 <= x < sizes@.len() ==> (#[trigger] sizes@[x]) >= 1,
                sum == a + total(sizes@.take(i as int)),
                r@.len() == i + 1,
                forall|k: int| 0 <= k <= i ==> (#[trigger] r@[k]) == a + total(sizes@.take(k)),
                forall|k: int| 0 <= k <= i ==> a <= (#[trigger] r@[k]) <= b,
                forall|k: int| 0 <= k < i ==> (#[trigger] r@[k]) < r@[k + 1],
            decreases sizes@.len() - i,
        {
            proof {
                lemma_total_take(sizes@, i as int);
                lemma_total_take(sizes@, i + 1);
            }
            sum = sum + sizes[i];
            r.push(sum);
            i += 1;
        }
        proof {
            assert(sizes@.take(sizes@.len() as int) =~= sizes@);
        }
        r
    }

    /// Where the `n`th word to the left of character `upto` starts,
    /// counted in characters.
    fn prev_word(&self, upto: usize, word_def: Word, n: usize) -> (r: Option<usize>)
        requires
            self.wf(),
            upto <= self@.len(),
        ensures
            match r {
                Some(k) => prev_word_index(self@, upto as int, word_def, n) == Some(k as int) && k
                    <= upto,
                None => prev_word_index(self@, upto as int, word_def, n) is None,
            },
    {
        if upto == 0 {
            return None;
        }
        let b = self.starts(0, upto);
        let ghost bs = cluster_starts(self@, 0, upto as int);
        let chars = self.chars.as_slice();
        let mut sow: usize = 0;
        let mut rounds = n;
        // the cluster at hand, plus one: 0 stands for none
        let mut hand: usize = b.len() - 1;
        while rounds > 0 && hand >= 2
            invariant
                hand + 1 <= b@.len(),
                b@.len() == bs.len(),
                chars@ == self@,
                upto <= self@.len(),
                sow <= upto,
                forall|k: int| 0 <= k < b@.len() ==> (#[trigger] b@[k]) == bs[k],
                forall|k: int| 0 <= k < b@.len() ==> 0 <= (#[trigger] b@[k]) <= upto,
                forall|k: int| 0 <= k < b@.len() - 1 ==> (#[trigger] b@[k]) < b@[k + 1],
                back_scan(self@, bs, word_def, bs.len() - 2, 0, n as nat) == back_scan(
                    self@,
                    bs,
                    word_def,
                    hand - 1,
                    sow as int,
                    rounds as nat,
                ),
            decreases hand,
        {
            let j = hand - 1;
            assert(b@[j - 1] < b@[j as int]);
            assert(b@[j as int] < b@[j + 1]);
            let x = vstd::slice::slice_subrange(chars, b[j - 1], b[j]);
            let y = vstd::slice::slice_subrange(chars, b[j], b[j + 1]);
            if starts_word(word_def, x, y) {
                sow = b[j];
                rounds -= 1;
                hand = if hand >= 2 {
                    hand - 2
                } else {
                    0
                };
            } else {
                hand -= 1;
            }
        }
        Some(sow)
    }

    /// The byte position where the `n`th word to the left of byte
    /// position `pos` starts, see [`prev_word_index`].
    pub fn prev_word_pos(&self, pos: usize, word_def: Word, n: usize) -> (r: Option<usize>)
        requires
            self.wf(),
            LineBuffer::is_boundary(self@, pos as nat),
        ensures
            exists|upto: int|
                0 <= upto <= self@.len() && byte_len(#[trigger] self@.take(upto)) == pos
                    && match prev_word_index(self@, upto, word_def, n) {
                    Some(k) => r == Some(byte_len(self@.take(k)) as usize),
                    None => r is None,
                },
    {
        match self.index_of(pos) {
            Some(upto) => match self.prev_word(upto, word_def, n) {
                Some(k) => {
                    proof {
                        lemma_byte_len_part(self@, 0, k as int);
                        assert(self@.subrange(0, k as int) =~= self@.take(k as int));
                    }
                    Some(self.bytes_upto(k))
                },
                None => None,
            },
            None => None,
        }
    }

    /// Moves the cursor to the start of the `n`th word to its left.
    /// Returns whether there was one to move to.
    pub fn move_to_prev_word(&mut self, word_def: Word, n: usize) -> (moved: bool)
        requires
            old(self).wf(),
        ensures
            final(self).wf(),
            final(self)@ == old(self)@,
            final(self).capacity() == old(self).capacity(),
            match prev_word_index(old(self)@, old(self).index() as int, word_def, n) {
                Some(k) => moved && final(self).index() == k,
                None => !moved && final(self).index() == old(self).index(),
            },
    {
        match self.prev_word(self.cursor, word_def, n) {
            Some(k) => {
                self.cursor = k;
                true
            },
            None => false,
        }
    }

    /// Takes out the text from the start of the `n`th word to the left of
    /// the cursor up to the cursor and returns it; the cursor goes to
    /// where it began.
    pub fn delete_prev_word(&mut self, word_def: Word, n: usize) -> (r: Option<String>)
        requires
            old(self).wf(),
        ensures
            final(self).wf(),
            final(self).capacity() == old(self).capacity(),
            match prev_word_index(old(self)@, old(self).index() as int, word_def, n) {
                Some(k) => r matches Some(t) && t@ == old(self)@.subrange(k, old(self).index() as int)
                    && final(self)@ == LineBuffer::without(old(self)@, k, old(self).index() as int)
                    && final(self).index() == k,
                None => r is None && final(self)@ == old(self)@ && final(self).index()
                    == old(self).index(),
            },
    {
        match self.prev_word(self.cursor, word_def, n) {
            Some(k) => {
                let taken = self.take_out(k, self.cursor);
                self.cursor = k;
                self.sync();
                Some(text::string_of(taken.as_slice()))
            },
            None => None,
        }
    }

    /// Where a move of `n` words to the right from character `from`
    /// ends, counted in characters.
    #[verifier::rlimit(100)]
    #[verifier::spinoff_prover]
    fn next_word(&self, from: usize, at: At, word_def: Word, n: usize) -> (r: Option<usize>)
        requires
            self.wf(),
            from <= self@.len(),
        ensures
            match r {
                Some(k) => next_word_index(self@, from as int, at, word_def, n) == Some(k as int)
                    && from <= k <= self@.len(),
                None => next_word_index(self@, from as int, at, word_def, n) is None,
            },
    {
        let size = self.chars.len();
        if from == size {
            return None;
        }
        let b = self.starts(from, size);
        let ghost bs = cluster_starts(self@, from as int, size as int);
        let chars = self.chars.as_slice();
        let mut wp: usize = from;
        let mut hand: Option<usize> = None;
        if n == 0 {
            if at != At::Start {
                hand = Some(0);
            }
        } else {
            let mut k: usize = if at != At::Start {
                1
            } else {
                0
            };
            let mut rounds = n;
            let mut done = false;
            let m = b.len();
            while !done
                invariant
                    b@.len() == bs.len(),
                    b@.len() >= 1,
                    m == b@.len(),
                    chars@ == self@,
                    size == self@.len(),
                    from <= wp <= size,
                    k <= m,
                    rounds >= 1,
                    forall|x: int| 0 <= x < b@.len() ==> (#[trigger] b@[x]) == bs[x],
                    forall|x: int| 0 <= x < b@.len() ==> from <= (#[trigger] b@[x]) <= size,
                    forall|x: int| 0 <= x < b@.len() - 1 ==> (#[trigger] b@[x]) < b@[x + 1],
                    !done ==> forth_scan(
                        self@,
                        bs,
                        at,
                        word_def,
                        if at != At::Start {
                            1
                        } else {
                            0
                        },
                        from as int,
                        n as nat,
                    ) == forth_scan(self@, bs, at, word_def, k as int, wp as int, rounds as nat),
                    done ==> forth_scan(
                        self@,
                        bs,
                        at,
                        word_def,
                        if at != At::Start {
                            1
                        } else {
                            0
                        },
                        from as int,
                        n as nat,
                    ) == (
                        wp as int,
                        match hand {
                            Some(h) => h as int,
                            None => -1,
                        },
                    ),
                    done ==> (hand matches Some(h) ==> h + 1 < b@.len()),
                decreases m + 2 - k, (if done { 0int } else { 1int }),
            {
                if k >= m - 1 {
                    hand = None;
                    done = true;
                } else if m < 2 || k >= m - 2 {
                    hand = Some(k);
                    done = true;
                } else {
                    assert(b@[k as int] < b@[k + 1]);
                    assert(b@[k + 1] < b@[k + 2]);
                    let x = vstd::slice::slice_subrange(chars, b[k], b[k + 1]);
                    let y = vstd::slice::slice_subrange(chars, b[k + 1], b[k + 2]);
                    let edge = if at == At::Start {
                        starts_word(word_def, x, y)
                    } else {
                        ends_word(word_def, x, y)
                    };
                    if edge {
                        wp = if at == At::Start || word_def == Word::Emacs || at == At::AfterEnd {
                            b[k + 1]
                        } else {
                            b[k]
                        };
                        if rounds <= 1 {
                            hand = Some(k);
                            done = true;
                        } else {
                            rounds -= 1;
                            k += 2;
                        }
                    } else {
                        k += 1;
                    }
                }
            }
        }
        if wp == from {
            if word_def == Word::Emacs || at == At::AfterEnd {
                Some(size)
            } else {
                match hand {
                    Some(h) => {
                        if h < b.len() - 1 && b[h] != from {
                            Some(b[h])
                        } else {
                            None
                        }
                    },
                    None => None,
                }
            }
        } else {
            Some(wp)
        }
    }

    /// The byte position where a move of `n` words to the right from
    /// byte position `pos` ends, see [`next_word_index`].
    pub fn next_word_pos(&self, pos: usize, at: At, word_def: Word, n: usize) -> (r: Option<usize>)
        requires
            self.wf(),
            LineBuffer::is_boundary(self@, pos as nat),
        ensures
            exists|from: int|
                0 <= from <= self@.len() && byte_len(#[trigger] self@.take(from)) == pos
                    && match next_word_index(self@, from, at, word_def, n) {
                    Some(k) => r == Some(byte_len(self@.take(k)) as usize),
                    None => r is None,
                },
    {
        match self.index_of(pos) {
            Some(from) => match self.next_word(from, at, word_def, n) {
                Some(k) => {
                    proof {
                        lemma_byte_len_part(self@, 0, k as int);
                        assert(self@.subrange(0, k as int) =~= self@.take(k as int));
                    }
                    Some(self.bytes_upto(k))
                },
                None => None,
            },
            None => None,
        }
    }

    /// Moves the cursor `n` words to the right. Returns whether there
    /// was somewhere to move to.
    pub fn move_to_next_word(&mut self, at: At, word_def: Word, n: usize) -> (moved: bool)
        requires
            old(self).wf(),
        ensures
            final(self).wf(),
            final(self)@ == old(self)@,
            final(self).capacity() == old(self).capacity(),
            match next_word_index(old(self)@, old(self).index() as int, at, word_def, n) {
                Some(k) => moved && final(self).index() == k,
                None => !moved && final(self).index() == old(self).index(),
            },
    {
        match self.next_word(self.cursor, at, word_def, n) {
            Some(k) => {
                self.cursor = k;
                true
            },
            None => false,
        }
    }

    /// Takes out the text from the cursor to where a move of `n` words to
    /// the right ends and returns it. The cursor stays.
    pub fn delete_word(&mut self, at: At, word_def: Word, n: usize) -> (r: Option<String>)
        requires
            old(self).wf(),
        ensures
            final(self).wf(),
            final(self).capacity() == old(self).capacity(),
            final(self).index() == old(self).index(),
            match next_word_index(old(self)@, old(self).index() as int, at, word_def, n) {
                Some(k) => r matches Some(t) && t@ == old(self)@.subrange(old(self).index() as int, k)
                    && final(self)@ == LineBuffer::without(old(self)@, old(self).index() as int, k),
                None => r is None && final(self)@ == old(self)@,
            },
    {
        match self.next_word(self.cursor, at, word_def, n) {
            Some(k) => {
                let taken = self.take_out(self.cursor, k);
                self.sync();
                Some(text::string_of(taken.as_slice()))
            },
            None => None,
        }
    }

    /// Where a search for a character from the cursor ends, counted in
    /// characters.
    fn search_char(&self, cs: CharSearch, n: usize) -> (r: Option<usize>)
        requires
            self.wf(),
        ensures
            match r {
                Some(k) => char_search_index(self@, self.index() as int, cs, n) == Some(k as int) && k
                    <= self@.len(),
                None => char_search_index(self@, self.index() as int, cs, n) is None,
            },
    {
        let size = self.chars.len();
        match cs {
            CharSearch::Backward(c) => self.find_back(c, n),
            CharSearch::BackwardAfter(c) => match self.find_back(c, n) {
                Some(k) => Some(k + 1),
                None => None,
            },
            CharSearch::Forward(c) => match self.next_index(1) {
                Some(shift) => self.find_forth(shift, c, n),
                None => None,
            },
            CharSearch::ForwardBefore(c) => match self.next_index(1) {
                Some(shift) => match self.find_forth(shift, c, n) {
                    Some(k) => {
                        proof {
                            lemma_forth_find(self@, shift as int, c, n as nat, None);
                        }
                        Some(k - 1)
                    },
                    None => None,
                },
                None => None,
            },
        }
    }

    fn find_back(&self, c: char, n: usize) -> (r: Option<usize>)
        requires
            self.wf(),
        ensures
            match r {
                Some(k) => back_find(self@, self.index() as int, c, n as nat, None) == Some(k as int)
                    && k < self@.len(),
                None => back_find(self@, self.index() as int, c, n as nat, None) is None,
            },
    {
        let mut best: Option<usize> = None;
        let mut remaining = n;
        let mut i = self.cursor;
        while i > 0 && remaining > 0
            invariant
                i <= self.cursor <= self.chars@.len(),
                best matches Some(k) ==> k < self.chars@.len(),
                back_find(self@, self.index() as int, c, n as nat, None) == back_find(
                    self@,
                    i as int,
                    c,
                    remaining as nat,
                    match best {
                        Some(k) => Some(k as int),
                        None => None,
                    },
                ),
            decreases i,
        {
            if self.chars[i - 1] == c {
                best = Some(i - 1);
                remaining -= 1;
            }
            i -= 1;
        }
        best
    }

    fn find_forth(&self, from: usize, c: char, n: usize) -> (r: Option<usize>)
        requires
            self.wf(),
            from <= self@.len(),
        ensures
            match r {
                Some(k) => forth_find(self@, from as int, c, n as nat, None) == Some(k as int) && k
                    < self@.len(),
                None => forth_find(self@, from as int, c, n as nat, None) is None,
            },
    {
        let mut best: Option<usize> = None;
        let mut remaining = n;
        let mut i = from;
        while i < self.chars.len() && remaining > 0
            invariant
                from <= i <= self.chars@.len(),
                best matches Some(k) ==> k < self.chars@.len(),
                forth_find(self@, from as int, c, n as nat, None) == forth_find(
                    self@,
                    i as int,
                    c,
                    remaining as nat,
                    match best {
                        Some(k) => Some(k as int),
                        None => None,
                    },
                ),
            decreases self.chars@.len() - i,
        {
            if self.chars[i] == c {
                best = Some(i);
                remaining -= 1;
            }
            i += 1;
        }
        best
    }

    /// The byte position where a search for a character from the cursor
    /// ends, see [`char_search_index`].
    pub fn search_char_pos(&self, cs: &CharSearch, n: usize) -> (r: Option<usize>)
        requires
            self.wf(),
        ensures
            match char_search_index(self@, self.index() as int, *cs, n) {
                Some(k) => r == Some(byte_len(self@.take(k)) as usize),
                None => r is None,
            },
    {
        match self.search_char(*cs, n) {
            Some(k) => {
                proof {
                    lemma_byte_len_part(self@, 0, k as int);
                    assert(self@.subrange(0, k as int) =~= self@.take(k as int));
                }
                Some(self.bytes_upto(k))
            },
            None => None,
        }
    }

    /// Moves the cursor to where a search for a character ends. Returns
    /// whether the character was found.
    pub fn move_to(&mut self, cs: CharSearch, n: usize) -> (moved: bool)
        requires
            old(self).wf(),
        ensures
            final(self).wf(),
            final(self)@ == old(self)@,
            final(self).capacity() == old(self).capacity(),
            match char_search_index(old(self)@, old(self).index() as int, cs, n) {
                Some(k) => moved && final(self).index() == k,
                None => !moved && final(self).index() == old(self).index(),
            },
    {
        match self.search_char(cs, n) {
            Some(k) => {
                self.cursor = k;
                true
            },
            None => false,
        }
    }

    /// The characters a deletion or a copy up to a character takes, from
    /// `a` up to `b`: to the left from where the search ends up to the
    /// cursor; to the right from the cursor up to the character, the
    /// character with it unless the search is to stop before it.
    pub open spec fn char_search_range(s: Seq<char>, cursor: int, cs: CharSearch, n: usize) -> Option<
        (int, int),
    > {
        match cs {
            CharSearch::Backward(_) => match char_search_index(s, cursor, cs, n) {
                Some(k) => Some((k, cursor)),
                None => None,
            },
            CharSearch::BackwardAfter(_) => match char_search_index(s, cursor, cs, n) {
                Some(k) => Some((k, cursor)),
                None => None,
            },
            CharSearch::ForwardBefore(c) => match char_search_index(s, cursor, CharSearch::Forward(c), n) {
                Some(k) => Some((cursor, k)),
                None => None,
            },
            CharSearch::Forward(c) => match char_search_index(s, cursor, cs, n) {
                Some(k) => Some((cursor, k + 1)),
                None => None,
            },
        }
    }

    fn search_range(&self, cs: CharSearch, n: usize) -> (r: Option<(usize, usize)>)
        requires
            self.wf(),
        ensures
            match r {
                Some((a, b)) => LineBuffer::char_search_range(self@, self.index() as int, cs, n) == Some(
                    (a as int, b as int),
                ) && a <= b <= self@.len(),
                None => LineBuffer::char_search_range(self@, self.index() as int, cs, n) is None,
            },
    {
        let size = self.chars.len();
        proof {
            lemma_back_find(self@, self.index() as int, cs.arrow_Backward_0(), n as nat, None);
            lemma_back_find(self@, self.index() as int, cs.arrow_BackwardAfter_0(), n as nat, None);
        }
        match cs {
            CharSearch::Backward(_) => match self.search_char(cs, n) {
                Some(k) => Some((k, self.cursor)),
                None => None,
            },
            CharSearch::BackwardAfter(_) => match self.search_char(cs, n) {
                Some(k) => Some((k, self.cursor)),
                None => None,
            },
            CharSearch::ForwardBefore(c) => match self.next_index(1) {
                Some(shift) => {
                    proof {
                        lemma_forth_find(self@, shift as int, c, n as nat, None);
                    }
                    match self.search_char(CharSearch::Forward(c), n) {
                        Some(k) => Some((self.cursor, k)),
                        None => None,
                    }
                },
                None => None,
            },
            CharSearch::Forward(c) => match self.next_index(1) {
                Some(shift) => {
                    proof {
                        lemma_forth_find(self@, shift as int, c, n as nat, None);
                    }
                    match self.search_char(cs, n) {
                        Some(k) => Some((self.cursor, k + 1)),
                        None => None,
                    }
                },
                None => None,
            },
        }
    }

    /// Takes out the text between the cursor and a character and returns
    /// it, see [`LineBuffer::char_search_range`]. After a search to the
    /// left the cursor goes to where the text began.
    pub fn delete_to(&mut self, cs: CharSearch, n: usize) -> (r: Option<String>)
        requires
            old(self).wf(),
        ensures
            final(self).wf(),
            final(self).capacity() == old(self).capacity(),
            match LineBuffer::char_search_range(old(self)@, old(self).index() as int, cs, n) {
                Some((a, b)) => r matches Some(t) && t@ == old(self)@.subrange(a, b) && final(self)@
                    == LineBuffer::without(old(self)@, a, b) && final(self).index() == a,
                None => r is None && final(self)@ == old(self)@ && final(self).index()
                    == old(self).index(),
            },
    {
        match self.search_range(cs, n) {
            Some((a, b)) => {
                let taken = self.take_out(a, b);
                self.cursor = a;
                self.sync();
                Some(text::string_of(taken.as_slice()))
            },
            None => None,
        }
    }

    /// Where the first grapheme cluster of letters and digits from the
    /// cursor on begins, counted in characters.
    pub open spec fn first_word_cluster(s: Seq<char>, b: Seq<int>, k: int) -> Option<int>
        decreases b.len() - k,
    {
        if k < 0 || k + 1 >= b.len() {
            None
        } else if all_alphanumeric(cluster(s, b, k)) {
            Some(b[k])
        } else {
            LineBuffer::first_word_cluster(s, b, k + 1)
        }
    }

    /// Where the first grapheme cluster of letters and digits at or after
    /// character `cursor` begins, counted in characters; `None` where
    /// there is none.
    pub open spec fn word_start(s: Seq<char>, cursor: int) -> Option<int> {
        if cursor < 0 || cursor >= s.len() {
            None
        } else {
            LineBuffer::first_word_cluster(s, cluster_starts(s, cursor, s.len() as int), 0)
        }
    }

    fn skip_to_word(&self) -> (r: Option<usize>)
        requires
            self.wf(),
        ensures
            r matches Some(k) ==> self.index() <= k < self@.len(),
            self.index() < self@.len() ==> match r {
                Some(k) => LineBuffer::first_word_cluster(
                    self@,
                    cluster_starts(self@, self.index() as int, self@.len() as int),
                    0,
                ) == Some(k as int),
                None => LineBuffer::first_word_cluster(
                    self@,
                    cluster_starts(self@, self.index() as int, self@.len() as int),
                    0,
                ) is None,
            },
            self.index() == self@.len() ==> r is None,
    {
        let size = self.chars.len();
        if self.cursor == size {
            return None;
        }
        let b = self.starts(self.cursor, size);
        let ghost bs = cluster_starts(self@, self.index() as int, size as int);
        let chars = self.chars.as_slice();
        let mut k: usize = 0;
        let mut found: Option<usize> = None;
        let m = b.len();
        while found.is_none() && k < m - 1
            invariant
                b@.len() == bs.len(),
                m == b@.len(),
                m >= 1,
                chars@ == self@,
                size == self@.len(),
                self.cursor < size,
                forall|x: int| 0 <= x < b@.len() ==> (#[trigger] b@[x]) == bs[x],
                forall|x: int| 0 <= x < b@.len() ==> self.cursor <= (#[trigger] b@[x]) <= size,
                forall|x: int| 0 <= x < b@.len() - 1 ==> (#[trigger] b@[x]) < b@[x + 1],
                found matches Some(p) ==> self.cursor <= p < size,
                match found {
                    Some(p) => LineBuffer::first_word_cluster(self@, bs, 0) == Some(p as int),
                    None => LineBuffer::first_word_cluster(self@, bs, 0)
                        == LineBuffer::first_word_cluster(self@, bs, k as int),
                },
            decreases m - k, (if found is None { 1int } else { 0int }),
        {
            assert(b@[k as int] < b@[k + 1]);
            if are_alphanumeric(vstd::slice::slice_subrange(chars, b[k], b[k + 1])) {
                found = Some(b[k]);
            } else {
                k += 1;
            }
        }
        found
    }

    /// The byte position where the first grapheme cluster of letters and
    /// digits from the cursor on begins, `None` where there is none.
    pub fn skip_whitespace(&self) -> (r: Option<usize>)
        requires
            self.wf(),
        ensures
            self.index() == self@.len() ==> r is None,
            r matches Some(p) ==> self.spec_pos() <= p < byte_len(self@),
            match LineBuffer::word_start(self@, self.index() as int) {
                Some(k) => r == Some(byte_len(self@.take(k)) as usize),
                None => r is None,
            },
    {
        match self.skip_to_word() {
            Some(k) => {
                proof {
                    lemma_byte_len_part(self@, self.index() as int, k as int);
                    lemma_byte_len_part(self@, 0, k + 1);
                    lemma_byte_len_part(self@, 0, k as int);
                    assert(self@.subrange(0, k as int) =~= self@.take(k as int));
                    assert(self@.subrange(0, self.index() as int) =~= self@.take(self.index() as int));
                    lemma_byte_len_concat(self@.take(k as int), self@.subrange(k as int, k + 1));
                    assert(self@.take(k as int) + self@.subrange(k as int, k + 1) =~= self@.subrange(0, k + 1));
                    lemma_byte_len_least(self@.subrange(k as int, k + 1));
                }
                Some(self.bytes_upto(k))
            },
            None => None,
        }
    }

    /// The characters a movement passes over, from `a` up to `b`; `None`
    /// where the movement goes nowhere.
    pub open spec fn copy_range(s: Seq<char>, cursor: int, mvt: Movement) -> Option<(int, int)> {
        if s.len() == 0 {
            None
        } else {
            match mvt {
                Movement::WholeLine => Some((0, s.len() as int)),
                Movement::BeginningOfLine => if cursor == 0 {
                    None
                } else {
                    Some((0, cursor))
                },
                Movement::ViFirstPrint => if cursor == 0 {
                    None
                } else {
                    match next_word_index(s, 0, At::Start, Word::Big, 1) {
                        Some(p) => if p <= cursor {
                            Some((p, cursor))
                        } else {
                            None
                        },
                        None => None,
                    }
                },
                Movement::EndOfLine => if cursor == s.len() {
                    None
                } else {
                    Some((cursor, s.len() as int))
                },
                Movement::BackwardWord(n, word_def) => match prev_word_index(s, cursor, word_def, n) {
                    Some(p) => Some((p, cursor)),
                    None => None,
                },
                Movement::ForwardWord(n, at, word_def) => match next_word_index(s, cursor, at, word_def, n) {
                    Some(p) => Some((cursor, p)),
                    None => None,
                },
                Movement::ViCharSearch(n, cs) => LineBuffer::char_search_range(s, cursor, cs, n),
                Movement::BackwardChar(n) => match LineBuffer::backward_index(s, cursor, n) {
                    Some(p) => Some((p, cursor)),
                    None => None,
                },
                Movement::ForwardChar(n) => match LineBuffer::forward_index(s, cursor, n) {
                    Some(p) => Some((cursor, p)),
                    None => None,
                },
            }
        }
    }

    /// The text a movement passes over, see [`LineBuffer::copy_range`].
    pub fn copy(&self, mvt: Movement) -> (r: Option<String>)
        requires
            self.wf(),
        ensures
            match LineBuffer::copy_range(self@, self.index() as int, mvt) {
                Some((a, b)) => r matches Some(t) && 0 <= a <= b <= self@.len() && t@
                    == self@.subrange(a, b),
                None => r is None,
            },
    {
        let size = self.chars.len();
        if size == 0 {
            return None;
        }
        let range: Option<(usize, usize)> = match mvt {
            Movement::WholeLine => Some((0, size)),
            Movement::BeginningOfLine => if self.cursor == 0 {
                None
            } else {
                Some((0, self.cursor))
            },
            Movement::ViFirstPrint => if self.cursor == 0 {
                None
            } else {
                match self.next_word(0, At::Start, Word::Big, 1) {
                    Some(p) => if p <= self.cursor {
                        Some((p, self.cursor))
                    } else {
                        None
                    },
                    None => None,
                }
            },
            Movement::EndOfLine => if self.cursor == size {
                None
            } else {
                Some((self.cursor, size))
            },
            Movement::BackwardWord(n, word_def) => match self.prev_word(self.cursor, word_def, n) {
                Some(p) => Some((p, self.cursor)),
                None => None,
            },
            Movement::ForwardWord(n, at, word_def) => match self.next_word(self.cursor, at, word_def, n) {
                Some(p) => Some((self.cursor, p)),
                None => None,
            },
            Movement::ViCharSearch(n, cs) => self.search_range(cs, n),
            Movement::BackwardChar(n) => match self.prev_index(n) {
                Some(p) => Some((p, self.cursor)),
                None => None,
            },
            Movement::ForwardChar(n) => match self.next_index(n) {
                Some(p) => Some((self.cursor, p)),
                None => None,
            },
        };
        match range {
            Some((a, b)) => Some(
                text::string_of(vstd::slice::slice_subrange(self.chars.as_slice(), a, b)),
            ),
            None => None,
        }
    }

    /// Where one grapheme cluster back from character `i` begins; `i`
    /// where there is none.
    pub open spec fn one_back(s: Seq<char>, i: int) -> int {
        match LineBuffer::backward_index(s, i, 1) {
            Some(k) => k,
            None => i,
        }
    }

    /// Where one grapheme cluster on from character `i` ends; `i` where
    /// there is none.
    pub open spec fn one_forth(s: Seq<char>, i: int) -> int {
        match LineBuffer::forward_index(s, i, 1) {
            Some(k) => k,
            None => i,
        }
    }

    /// The line and the cursor after the cluster at the cursor has
    /// changed places with the cluster before it. At the end of the line
    /// the cursor first goes one cluster back. The cluster at the cursor
    /// is taken out, the cursor goes one cluster back in what is left,
    /// the cluster is put in there, and the cursor goes after it and one
    /// cluster on. A cluster that would bring the line beyond `capacity`
    /// bytes is not put back.
    pub open spec fn transposed(s: Seq<char>, cursor: int, capacity: int) -> Placed {
        let at = if cursor == s.len() {
            LineBuffer::one_back(s, cursor)
        } else {
            cursor
        };
        match LineBuffer::forward_index(s, at, 1) {
            None => Placed { text: s, cursor: at },
            Some(end) => {
                let taken = s.subrange(at, end);
                let rest = LineBuffer::without(s, at, end);
                let to = LineBuffer::one_back(rest, at);
                if taken.len() > 0 && byte_len(rest) + byte_len(taken) <= capacity {
                    let text = LineBuffer::with_inserted(rest, to, taken);
                    Placed { text, cursor: LineBuffer::one_forth(text, to + taken.len()) }
                } else {
                    Placed { text: rest, cursor: LineBuffer::one_forth(rest, to) }
                }
            },
        }
    }

    /// Exchanges the grapheme cluster before the cursor with the one at
    /// the cursor, or the last two clusters where the cursor is at the end
    /// of the line, and puts the cursor after them, see
    /// [`LineBuffer::transposed`]. Nothing happens at the start of the
    /// line or where the line holds fewer than two clusters: `false`
    /// then.
    pub fn transpose_chars(&mut self) -> (done: bool)
        requires
            old(self).wf(),
        ensures
            final(self).wf(),
            final(self).capacity() == old(self).capacity(),
            done == !(old(self).index() == 0 || grapheme_sizes(old(self)@).len() < 2),
            !done ==> final(self)@ == old(self)@ && final(self).index() == old(self).index(),
            done ==> final(self)@ == LineBuffer::transposed(
                old(self)@,
                old(self).index() as int,
                old(self).capacity() as int,
            ).text && final(self).index() == LineBuffer::transposed(
                old(self)@,
                old(self).index() as int,
                old(self).capacity() as int,
            ).cursor,
    {
        if self.cursor == 0 {
            return false;
        }
        let whole = self.clusters(0, self.chars.len());
        assert(self@.subrange(0, self@.len() as int) =~= self@);
        if whole.len() < 2 {
            return false;
        }
        if self.cursor == self.chars.len() {
            let _ = self.move_backward(1);
        }
        match self.delete(1) {
            Some(taken) => {
                let _ = self.move_backward(1);
                proof {
                    lemma_byte_len_part(
                        old(self)@,
                        old(self).index() as int,
                        old(self).index() as int,
                    );
                }
                let ghost gone = taken@;
                let ghost mid = self@;
                let _ = self.yank_text(taken.as_str());
                let _ = self.move_forward(1);
                true
            },
            None => true,
        }
    }

    /// Puts `text` in at the cursor and the cursor after it, unless that
    /// would bring the text beyond the capacity.
    fn yank_text(&mut self, text: &str) -> (r: Option<bool>)
        requires
            old(self).wf(),
        ensures
            final(self).wf(),
            final(self).capacity() == old(self).capacity(),
            r is None ==> final(self)@ == old(self)@ && final(self).index() == old(self).index(),
            r is Some ==> final(self)@ == LineBuffer::with_inserted(
                old(self)@,
                old(self).index() as int,
                text@,
            ) && final(self).index() == old(self).index() + text@.len() && byte_len(final(self)@)
                == byte_len(old(self)@) + byte_len(text@),
            r is Some <==> text@.len() > 0 && byte_len(old(self)@) + byte_len(text@) <= old(
                self,
            ).capacity(),
            r matches Some(at_end) ==> at_end == (old(self).index() == old(self)@.len()),
    {
        let piece = text::chars_of(text);
        match bytes_of(piece.as_slice()) {
            None => None,
            Some(width) => {
                let size = self.len();
                if piece.len() == 0 || width > usize::MAX - size || size + width > self.limit {
                    None
                } else {
                    let at_end = self.cursor == self.chars.len();
                    let k = self.cursor;
                    self.put(k, piece.as_slice());
                    self.cursor = k + piece.len();
                    Some(at_end)
                }
            },
        }
    }

    /// Where a move forward by `n` words from character `i` ends, each word
    /// passed to its end; `i` where there is no such move.
    pub open spec fn forth(s: Seq<char>, i: int, n: usize) -> int {
        match next_word_index(s, i, At::AfterEnd, Word::Emacs, n) {
            Some(k) => k,
            None => i,
        }
    }

    /// Where a move back by `n` words from character `i` ends, each word
    /// passed to its start; `i` where there is no such move.
    pub open spec fn back(s: Seq<char>, i: int, n: usize) -> int {
        match prev_word_index(s, i, Word::Emacs, n) {
            Some(k) => k,
            None => i,
        }
    }

    /// Where the second of the two words to exchange ends: `n` words
    /// forward from the cursor.
    pub open spec fn second_end(s: Seq<char>, cursor: int, n: usize) -> int {
        LineBuffer::forth(s, cursor, n)
    }

    /// Where the second of the two words to exchange starts: one word
    /// back from its end.
    pub open spec fn second_start(s: Seq<char>, cursor: int, n: usize) -> int {
        LineBuffer::back(s, LineBuffer::second_end(s, cursor, n), 1)
    }

    /// Where the first of the two words to exchange starts: `n` words back
    /// from the start of the second.
    pub open spec fn first_start(s: Seq<char>, cursor: int, n: usize) -> int {
        LineBuffer::back(s, LineBuffer::second_start(s, cursor, n), n)
    }

    /// Where the first of the two words to exchange ends: one word forward
    /// from its start.
    pub open spec fn first_end(s: Seq<char>, cursor: int, n: usize) -> int {
        LineBuffer::forth(s, LineBuffer::first_start(s, cursor, n), 1)
    }

    /// The text with the words from `a1` up to `b1` and from `a2` up to
    /// `b2` exchanged.
    pub open spec fn exchanged(s: Seq<char>, a1: int, b1: int, a2: int, b2: int) -> Seq<char> {
        s.take(a1) + s.subrange(a2, b2) + s.subrange(b1, a2) + s.subrange(a1, b1) + s.skip(b2)
    }

    /// Exchanges the word the cursor is in or after with the `n`th word
    /// before it and puts the cursor after both. Where there are no two
    /// such words nothing is exchanged: `false` then, and the cursor stays
    /// where looking for them left it.
    pub fn transpose_words(&mut self, n: usize) -> (done: bool)
        requires
            old(self).wf(),
        ensures
            final(self).wf(),
            final(self).capacity() == old(self).capacity(),
            !done ==> final(self)@ == old(self)@,
            done ==> exists|a1: int, b1: int, a2: int, b2: int|
                0 <= a1 <= b1 <= a2 <= b2 <= old(self)@.len() && a1 < a2 && #[trigger] LineBuffer::exchanged(
                    old(self)@,
                    a1,
                    b1,
                    a2,
                    b2,
                ) == final(self)@ && final(self).index() == b2,
            ({
                let s = old(self)@;
                let b2 = LineBuffer::second_end(s, old(self).index() as int, n);
                let a2 = LineBuffer::second_start(s, old(self).index() as int, n);
                let a1 = LineBuffer::first_start(s, old(self).index() as int, n);
                let b1 = LineBuffer::first_end(s, old(self).index() as int, n);
                &&& done == (a1 <= b1 <= a2 <= b2 && a1 < a2)
                &&& done ==> final(self)@ == LineBuffer::exchanged(s, a1, b1, a2, b2) && final(self).index()
                    == b2
                &&& !done ==> final(self).index() == b1
            }),
    {
        let word_def = Word::Emacs;
        let _ = self.move_to_next_word(At::AfterEnd, word_def, n);
        let w2_end = self.cursor;
        let _ = self.move_to_prev_word(word_def, 1);
        let w2_beg = self.cursor;
        let _ = self.move_to_prev_word(word_def, n);
        let w1_beg = self.cursor;
        let _ = self.move_to_next_word(At::AfterEnd, word_def, 1);
        let w1_end = self.cursor;
        if w1_beg == w2_beg || w2_beg < w1_end || w2_end < w2_beg || w1_end < w1_beg || w2_end
            > self.chars.len() {
            return false;
        }
        let ghost before = self@;
        let size = self.chars.len();
        let mut out: Vec<char> = Vec::new();
        let chars = self.chars.as_slice();
        copy_into(&mut out, chars, 0, w1_beg);
        copy_into(&mut out, chars, w2_beg, w2_end);
        copy_into(&mut out, chars, w1_end, w2_beg);
        copy_into(&mut out, chars, w1_beg, w1_end);
        copy_into(&mut out, chars, w2_end, size);
        proof {
            assert(before.subrange(0, w1_beg as int) =~= before.take(w1_beg as int));
            assert(before.subrange(w2_end as int, size as int) =~= before.skip(w2_end as int));
            assert(out@ =~= LineBuffer::exchanged(
                before,
                w1_beg as int,
                w1_end as int,
                w2_beg as int,
                w2_end as int,
            ));
            lemma_exchanged_len(before, w1_beg as int, w1_end as int, w2_beg as int, w2_end as int);
        }
        self.chars = out;
        self.cursor = w2_end;
        self.sync();
        true
    }

    /// The next word from character `cursor` on: it starts with the first
    /// grapheme cluster of letters and digits and ends where a move
    /// forward by one word from there ends. `None` where there is no such
    /// cluster or the word is empty.
    pub open spec fn next_word_bounds(s: Seq<char>, cursor: int) -> Option<Bounds> {
        match LineBuffer::word_start(s, cursor) {
            None => None,
            Some(start) => match next_word_index(s, start, At::AfterEnd, Word::Emacs, 1) {
                None => None,
                Some(end) => if start == end {
                    None
                } else {
                    Some(Bounds { start, end })
                },
            },
        }
    }

    /// The word with its letters changed: all to upper case, all to lower
    /// case, or the first grapheme cluster to upper case and the rest to
    /// lower case.
    pub open spec fn edited(word: Seq<char>, a: WordAction) -> Seq<char> {
        match a {
            WordAction::UPPERCASE => upper_case(word),
            WordAction::LOWERCASE => lower_case(word),
            WordAction::CAPITALIZE => {
                let sizes = grapheme_sizes(word);
                let first = if sizes.len() > 0 {
                    sizes[0] as int
                } else {
                    0
                };
                upper_case(word.take(first)) + lower_case(word.skip(first))
            },
        }
    }

    /// Changes the letters of the next word: the text from the first
    /// grapheme cluster of letters and digits at or after the cursor up to
    /// the end of the word. The cursor goes after the word. Nothing
    /// happens where there is no such word, or where the text would no
    /// longer fit a machine word: `false` then.
    pub fn edit_word(&mut self, a: WordAction) -> (done: bool)
        requires
            old(self).wf(),
        ensures
            final(self).wf(),
            final(self).capacity() == old(self).capacity(),
            !done ==> final(self)@ == old(self)@ && final(self).index() == old(self).index(),
            done ==> exists|start: int, end: int|
                old(self).index() <= start < end <= old(self)@.len() && final(self)@ == old(self)@.take(
                    start,
                ) + #[trigger] LineBuffer::edited(old(self)@.subrange(start, end), a) + old(self)@.skip(
                    end,
                ) && final(self).index() == start + LineBuffer::edited(
                    old(self)@.subrange(start, end),
                    a,
                ).len(),
            match LineBuffer::next_word_bounds(old(self)@, old(self).index() as int) {
                None => !done,
                Some(bounds) => {
                    let word = LineBuffer::edited(old(self)@.subrange(bounds.start, bounds.end), a);
                    &&& done == (byte_len(old(self)@) + byte_len(word) <= usize::MAX)
                    &&& done ==> final(self)@ == old(self)@.take(bounds.start) + word + old(self)@.skip(
                        bounds.end,
                    ) && final(self).index() == bounds.start + word.len()
                },
            },
    {
        let start = match self.skip_to_word() {
            Some(k) => k,
            None => {
                return false;
            },
        };
        let end = match self.next_word(start, At::AfterEnd, Word::Emacs, 1) {
            Some(k) => k,
            None => {
                return false;
            },
        };
        if start == end {
            return false;
        }
        let word = text::string_of(vstd::slice::slice_subrange(self.chars.as_slice(), start, end));
        let changed: String = match a {
            WordAction::CAPITALIZE => {
                let sizes = graphemes(word.as_str());
                let first = if sizes.len() > 0 {
                    sizes[0]
                } else {
                    0
                };
                proof {
                    if sizes@.len() > 0 {
                        lemma_total_take(sizes@, 0);
                        lemma_total_take(sizes@, 1);
                        assert(sizes@.take(0) =~= Seq::<usize>::empty());
                    }
                }
                let head = word.as_str().substring_char(0, first);
                let tail = word.as_str().substring_char(first, end - start);
                let mut cap = to_uppercase(head);
                let low = to_lowercase(tail);
                cap.append(low.as_str());
                proof {
                    assert(word@.subrange(0, first as int) =~= word@.take(first as int));
                    assert(word@.subrange(first as int, end - start) =~= word@.skip(first as int));
                }
                cap
            },
            WordAction::LOWERCASE => to_lowercase(word.as_str()),
            WordAction::UPPERCASE => to_uppercase(word.as_str()),
        };
        let piece = text::chars_of(changed.as_str());
        assert(word@ == self@.subrange(start as int, end as int));
        assert(piece@ == LineBuffer::edited(self@.subrange(start as int, end as int), a));
        let width = match bytes_of(piece.as_slice()) {
            Some(w) => w,
            None => {
                return false;
            },
        };
        let size = self.len();
        if width > usize::MAX - size {
            return false;
        }
        let ghost before = self@;
        let keep = self.cursor;
        let _ = self.take_out(start, end);
        self.cursor = start;
        self.sync();
        self.put(start, piece.as_slice());
        self.cursor = start + piece.len();
        proof {
            assert(self@ =~= before.take(start as int) + piece@ + before.skip(end as int));
            let changed_word = LineBuffer::edited(before.subrange(start as int, end as int), a);
            assert(self@ == before.take(start as int) + changed_word + before.skip(end as int));
            assert(self.index() == start + changed_word.len());
        }
        true
    }
}

} // verus!
