//! Characters and strings: the handful of primitives the rest of the crate
//! is built on.

use vstd::prelude::*;
use vstd::string::*;
use vstd::slice::slice_subrange;

verus! {

/// The text of each string of a sequence.
pub open spec fn views(parts: Seq<String>) -> Seq<Seq<char>> {
    Seq::new(parts.len(), |i: int| parts[i]@)
}

/// The parts written one after another with `sep` between neighbours.
pub open spec fn joined(parts: Seq<Seq<char>>, sep: Seq<char>) -> Seq<char>
    decreases parts.len(),
{
    if parts.len() == 0 {
        Seq::empty()
    } else if parts.len() == 1 {
        parts[0]
    } else {
        joined(parts.drop_last(), sep) + sep + parts.last()
    }
}

/// Whether a character has the Unicode property `White_Space`: the
/// controls from tab to carriage return, the space, the next-line
/// control, the no-break space, the Ogham space mark, the spaces from en
/// quad to hair space, the line and the paragraph separator, the narrow
/// no-break space, the medium mathematical space and the ideographic
/// space.
pub open spec fn char_is_whitespace(c: char) -> bool {
    let n = c as u32;
    (0x09 <= n <= 0x0D) || n == 0x20 || n == 0x85 || n == 0xA0 || n == 0x1680 || (0x2000 <= n <= 0x200A) || n
        == 0x2028 || n == 0x2029 || n == 0x202F || n == 0x205F || n == 0x3000
}

/// Whether `char::is_alphanumeric` holds of a character: the Unicode
/// categories of letters and numbers.
pub uninterp spec fn char_is_alphanumeric(c: char) -> bool;

/// Whether a character has the Unicode property `White_Space`.
pub fn is_whitespace(c: char) -> (r: bool)
    ensures
        r == char_is_whitespace(c),
{
    let n = c as u32;
    (0x09 <= n && n <= 0x0D) || n == 0x20 || n == 0x85 || n == 0xA0 || n == 0x1680 || (0x2000 <= n && n
        <= 0x200A) || n == 0x2028 || n == 0x2029 || n == 0x202F || n == 0x205F || n == 0x3000
}

/// Calls `char::is_alphanumeric`, which tells whether the character is a
/// letter or a number in Unicode's sense.
#[verifier::external_body]
pub(crate) fn is_alphanumeric(c: char) -> (r: bool)
    ensures
        r == char_is_alphanumeric(c),
{
    c.is_alphanumeric()
}

/// Calls `String::push`, which appends one character to the string.
#[verifier::external_body]
pub(crate) fn push_char(s: &mut String, c: char)
    ensures
        final(s)@ == old(s)@.push(c),
{
    s.push(c)
}

/// The characters of a string, in order.
pub fn chars_of(s: &str) -> (v: Vec<char>)
    ensures
        v@ == s@,
{
    let n = s.unicode_len();
    let mut v: Vec<char> = Vec::new();
    let mut i: usize = 0;
    while i < n
        invariant
            i <= n,
            n == s@.len(),
            v@ == s@.subrange(0, i as int),
        decreases n - i,
    {
        let c = s.get_char(i);
        v.push(c);
        assert(s@.subrange(0, i + 1) =~= s@.subrange(0, i as int).push(c));
        i += 1;
    }
    assert(s@.subrange(0, n as int) =~= s@);
    v
}

/// The string made of the given characters, in order.
pub fn string_of(v: &[char]) -> (s: String)
    ensures
        s@ == v@,
{
    let mut s = String::new();
    let mut i: usize = 0;
    while i < v.len()
        invariant
            i <= v.len(),
            s@ == v@.subrange(0, i as int),
        decreases v.len() - i,
    {
        push_char(&mut s, v[i]);
        assert(v@.subrange(0, i + 1) =~= v@.subrange(0, i as int).push(v@[i as int]));
        i += 1;
    }
    assert(v@.subrange(0, v.len() as int) =~= v@);
    s
}

/// Whether two strings hold the same text.
pub fn same_text(a: &str, b: &str) -> (r: bool)
    ensures
        r == (a@ == b@),
{
    let x = a.to_owned();
    let y = b.to_owned();
    x == y
}

/// Whether a character occurs in a string.
pub fn has_char(s: &str, c: char) -> (r: bool)
    ensures
        r == s@.contains(c),
{
    let v = chars_of(s);
    let mut i: usize = 0;
    while i < v.len()
        invariant
            i <= v.len(),
            v@ == s@,
            forall|j: int| 0 <= j < i ==> v@[j] != c,
        decreases v.len() - i,
    {
        if v[i] == c {
            return true;
        }
        i += 1;
    }
    false
}

/// The strings written one after another with `sep` between neighbours.
pub fn join(parts: &[String], sep: &str) -> (r: String)
    ensures
        r@ == joined(views(parts@), sep@),
{
    let mut r = String::new();
    let mut i: usize = 0;
    while i < parts.len()
        invariant
            i <= parts.len(),
            r@ == joined(views(parts@).subrange(0, i as int), sep@),
        decreases parts.len() - i,
    {
        let ghost before = views(parts@).subrange(0, i as int);
        let ghost after = views(parts@).subrange(0, i + 1);
        assert(after.drop_last() =~= before);
        assert(after.last() == parts@[i as int]@);
        if i > 0 {
            r.append(sep);
        }
        r.append(parts[i].as_str());
        assert(r@ =~= joined(after, sep@));
        i += 1;
    }
    assert(views(parts@).subrange(0, parts.len() as int) =~= views(parts@));
    r
}

/// A copy of each string, in order.
pub fn clone_strings(parts: &[String]) -> (r: Vec<String>)
    ensures
        r@ == parts@,
{
    let mut r: Vec<String> = Vec::new();
    let mut i: usize = 0;
    while i < parts.len()
        invariant
            i <= parts.len(),
            r@ == parts@.subrange(0, i as int),
        decreases parts.len() - i,
    {
        r.push(parts[i].clone());
        assert(parts@.subrange(0, i + 1) =~= parts@.subrange(0, i as int).push(parts@[i as int]));
        i += 1;
    }
    assert(parts@.subrange(0, parts.len() as int) =~= parts@);
    r
}


/// Calls `String::from_utf8`, which accepts the bytes exactly when they
/// are valid UTF-8 and then returns the string they encode.
#[verifier::external_body]
pub(crate) fn string_from_utf8(bytes: Vec<u8>) -> (r: Option<String>)
    ensures
        r is Some <==> vstd::utf8::valid_utf8(bytes@),
        r matches Some(s) ==> vstd::utf8::encode_utf8(s@) == bytes@,
{
    String::from_utf8(bytes).ok()
}

/// `out` with the words of `s` added, single spaces between them; `gap`
/// says that a space is owed before the next word.
pub open spec fn collapse_into(out: Seq<char>, gap: bool, s: Seq<char>) -> Seq<char>
    decreases s.len(),
{
    if s.len() == 0 {
        out
    } else if char_is_whitespace(s[0]) {
        collapse_into(out, out.len() > 0, s.drop_first())
    } else if gap {
        collapse_into(out.push(' ').push(s[0]), false, s.drop_first())
    } else {
        collapse_into(out.push(s[0]), false, s.drop_first())
    }
}

/// The words of `s`, the maximal runs of characters that are not
/// whitespace, with one space between neighbours.
pub open spec fn collapsed(s: Seq<char>) -> Seq<char> {
    collapse_into(Seq::empty(), false, s)
}

/// Splits a text on whitespace and joins the words with single spaces.
pub fn collapse_whitespace(s: &str) -> (r: String)
    ensures
        r@ == collapsed(s@),
{
    let v = chars_of(s);
    let mut r = String::new();
    let mut gap = false;
    let mut i: usize = 0;
    assert(v@.skip(0) =~= v@);
    while i < v.len()
        invariant
            i <= v.len(),
            v@ == s@,
            collapsed(s@) == collapse_into(r@, gap, v@.skip(i as int)),
        decreases v.len() - i,
    {
        let c = v[i];
        assert(v@.skip(i as int).drop_first() =~= v@.skip(i + 1));
        assert(v@.skip(i as int)[0] == c);
        if is_whitespace(c) {
            gap = r.as_str().unicode_len() > 0;
        } else {
            if gap {
                push_char(&mut r, ' ');
            }
            push_char(&mut r, c);
            gap = false;
        }
        i += 1;
    }
    r
}

/// The pieces of `s` between occurrences of `sep`; one piece more than
/// there are occurrences.
pub open spec fn split_on(s: Seq<char>, sep: char) -> Seq<Seq<char>>
    decreases s.len(),
{
    if s.len() == 0 {
        seq![Seq::<char>::empty()]
    } else if s.last() == sep {
        split_on(s.drop_last(), sep).push(Seq::empty())
    } else {
        let parts = split_on(s.drop_last(), sep);
        parts.drop_last().push(parts.last().push(s.last()))
    }
}

/// A piece always comes out of a split.
pub proof fn lemma_split_nonempty(s: Seq<char>, sep: char)
    ensures
        split_on(s, sep).len() >= 1,
    decreases s.len(),
{
    if s.len() > 0 {
        lemma_split_nonempty(s.drop_last(), sep);
    }
}

/// Splits a text at every occurrence of `sep`.
pub fn split(s: &str, sep: char) -> (r: Vec<String>)
    ensures
        views(r@) == split_on(s@, sep),
{
    let v = chars_of(s);
    let mut r: Vec<String> = Vec::new();
    let mut piece = String::new();
    let mut i: usize = 0;
    assert(v@.take(0) =~= Seq::<char>::empty());
    assert(views(r@).push(piece@) =~= split_on(v@.take(0), sep));
    while i < v.len()
        invariant
            i <= v.len(),
            v@ == s@,
            views(r@).push(piece@) == split_on(v@.take(i as int), sep),
        decreases v.len() - i,
    {
        let c = v[i];
        let ghost before = v@.take(i as int);
        let ghost now = v@.take(i + 1);
        assert(now.drop_last() =~= before);
        assert(now.last() == c);
        let ghost parts = views(r@).push(piece@);
        assert(parts.drop_last() =~= views(r@));
        if c == sep {
            r.push(piece);
            piece = String::new();
            assert(views(r@).push(piece@) =~= parts.push(Seq::empty()));
        } else {
            push_char(&mut piece, c);
            assert(views(r@).push(piece@) =~= parts.drop_last().push(parts.last().push(c)));
        }
        i += 1;
    }
    assert(v@.take(v.len() as int) =~= v@);
    let ghost parts = views(r@).push(piece@);
    r.push(piece);
    assert(views(r@) =~= parts);
    r
}


/// The character that writes a digit.
pub open spec fn digit_char(d: int) -> char {
    if d == 0 {
        '0'
    } else if d == 1 {
        '1'
    } else if d == 2 {
        '2'
    } else if d == 3 {
        '3'
    } else if d == 4 {
        '4'
    } else if d == 5 {
        '5'
    } else if d == 6 {
        '6'
    } else if d == 7 {
        '7'
    } else if d == 8 {
        '8'
    } else {
        '9'
    }
}

/// The digit a character writes, `None` for any other character.
pub open spec fn digit_value(c: char) -> Option<int> {
    if c == '0' {
        Some(0)
    } else if c == '1' {
        Some(1)
    } else if c == '2' {
        Some(2)
    } else if c == '3' {
        Some(3)
    } else if c == '4' {
        Some(4)
    } else if c == '5' {
        Some(5)
    } else if c == '6' {
        Some(6)
    } else if c == '7' {
        Some(7)
    } else if c == '8' {
        Some(8)
    } else if c == '9' {
        Some(9)
    } else {
        None
    }
}

/// The digit a character writes, `None` for any other character.
pub fn digit_of(c: char) -> (r: Option<u8>)
    ensures
        match r {
            Some(d) => digit_value(c) == Some(d as int) && d < 10,
            None => digit_value(c) is None,
        },
{
    match c {
        '0' => Some(0),
        '1' => Some(1),
        '2' => Some(2),
        '3' => Some(3),
        '4' => Some(4),
        '5' => Some(5),
        '6' => Some(6),
        '7' => Some(7),
        '8' => Some(8),
        '9' => Some(9),
        _ => None,
    }
}

/// The character that writes a digit.
pub fn char_of_digit(d: u8) -> (c: char)
    requires
        d < 10,
    ensures
        c == digit_char(d as int),
        digit_value(c) == Some(d as int),
{
    match d {
        0 => '0',
        1 => '1',
        2 => '2',
        3 => '3',
        4 => '4',
        5 => '5',
        6 => '6',
        7 => '7',
        8 => '8',
        _ => '9',
    }
}

/// A natural number in decimal, without leading zeros.
pub open spec fn decimal_nat(n: nat) -> Seq<char>
    decreases n,
{
    if n < 10 {
        seq![digit_char(n as int)]
    } else {
        decimal_nat(n / 10).push(digit_char((n % 10) as int))
    }
}

/// An integer in decimal, with `-` before a negative one.
pub open spec fn decimal_int(n: int) -> Seq<char> {
    if n < 0 {
        seq!['-'] + decimal_nat((-n) as nat)
    } else {
        decimal_nat(n as nat)
    }
}

/// Writes a natural number in decimal.
pub fn decimal_u64(n: u64) -> (r: String)
    ensures
        r@ == decimal_nat(n as nat),
    decreases n,
{
    if n < 10 {
        let mut r = String::new();
        push_char(&mut r, char_of_digit(n as u8));
        assert(r@ =~= seq![digit_char(n as int)]);
        r
    } else {
        let mut r = decimal_u64(n / 10);
        push_char(&mut r, char_of_digit((n % 10) as u8));
        r
    }
}

/// Writes an integer in decimal.
pub fn decimal(n: i32) -> (r: String)
    ensures
        r@ == decimal_int(n as int),
{
    if n < 0 {
        let magnitude: u64 = (-(n as i64)) as u64;
        let mut r = String::new();
        push_char(&mut r, '-');
        let digits = decimal_u64(magnitude);
        r.append(digits.as_str());
        assert(r@ =~= seq!['-'] + decimal_nat((-n) as nat));
        r
    } else {
        decimal_u64(n as u64)
    }
}

/// Every character is a digit, and there is at least one.
pub open spec fn all_digits(s: Seq<char>) -> bool {
    s.len() > 0 && forall|i: int| 0 <= i < s.len() ==> digit_value(#[trigger] s[i]) is Some
}

/// The number a run of digits writes.
pub open spec fn digits_number(s: Seq<char>) -> nat
    decreases s.len(),
{
    if s.len() == 0 {
        0
    } else {
        match digit_value(s.last()) {
            Some(d) => (digits_number(s.drop_last()) * 10 + d) as nat,
            None => digits_number(s.drop_last()) * 10,
        }
    }
}

/// The number a text writes in decimal, with an optional sign before the
/// digits, where it fits 32 bits; `None` for any other text.
pub open spec fn parsed_decimal(s: Seq<char>) -> Option<i32> {
    let signed = s.len() > 0 && (s[0] == '-' || s[0] == '+');
    let body = if signed {
        s.drop_first()
    } else {
        s
    };
    let value = if signed && s[0] == '-' {
        -(digits_number(body) as int)
    } else {
        digits_number(body) as int
    };
    if all_digits(body) && i32::MIN <= value <= i32::MAX {
        Some(value as i32)
    } else {
        None
    }
}

/// Reads a run of digits. `None` where a character is no digit or there is
/// none; otherwise the number, or 2^31 + 1 for any number above 2^31.
fn read_digits(v: &[char]) -> (r: Option<u64>)
    ensures
        r is Some <==> all_digits(v@),
        r matches Some(n) ==> if digits_number(v@) <= 0x8000_0000 {
            n == digits_number(v@)
        } else {
            n == 0x8000_0001
        },
{
    if v.len() == 0 {
        return None;
    }
    let mut acc: u64 = 0;
    let mut i: usize = 0;
    assert(v@.take(0) =~= Seq::<char>::empty());
    while i < v.len()
        invariant
            i <= v.len(),
            forall|j: int| 0 <= j < i ==> digit_value(#[trigger] v@[j]) is Some,
            acc <= 0x8000_0001,
            if digits_number(v@.take(i as int)) <= 0x8000_0000 {
                acc == digits_number(v@.take(i as int))
            } else {
                acc == 0x8000_0001
            },
        decreases v.len() - i,
    {
        assert(v@.take(i + 1).drop_last() =~= v@.take(i as int));
        assert(v@.take(i + 1).last() == v@[i as int]);
        match digit_of(v[i]) {
            None => {
                return None;
            },
            Some(d) => {
                let next = acc * 10 + d as u64;
                acc = if next > 0x8000_0000 {
                    0x8000_0001
                } else {
                    next
                };
            },
        }
        i += 1;
    }
    assert(v@.take(v.len() as int) =~= v@);
    Some(acc)
}

/// Reads a 32-bit integer written in decimal, with an optional sign, as
/// `str::parse::<i32>` does.
pub fn parse_decimal(s: &str) -> (r: Option<i32>)
    ensures
        r == parsed_decimal(s@),
{
    let v = chars_of(s);
    let signed = v.len() > 0 && (v[0] == '-' || v[0] == '+');
    let negative = signed && v[0] == '-';
    let body = if signed {
        slice_subrange(v.as_slice(), 1, v.len())
    } else {
        v.as_slice()
    };
    proof {
        if signed {
            assert(body@ =~= s@.drop_first());
        }
    }
    match read_digits(body) {
        None => None,
        Some(n) => {
            if negative {
                if n <= 0x8000_0000 {
                    Some((-(n as i64)) as i32)
                } else {
                    None
                }
            } else {
                if n <= 0x7fff_ffff {
                    Some(n as i32)
                } else {
                    None
                }
            }
        },
    }
}


/// Whether `needle` stands in `hay` at position `i`.
pub open spec fn occurs_at(hay: Seq<char>, needle: Seq<char>, i: int) -> bool {
    0 <= i && i + needle.len() <= hay.len() && hay.subrange(i, i + needle.len()) == needle
}

/// Whether `needle` stands somewhere in `hay`.
pub open spec fn occurs_in(hay: Seq<char>, needle: Seq<char>) -> bool {
    exists|i: int| occurs_at(hay, needle, i)
}

/// Whether `needle` stands in `hay` at position `i`.
pub fn stands_at(hay: &[char], needle: &[char], i: usize) -> (r: bool)
    ensures
        r == occurs_at(hay@, needle@, i as int),
{
    let size = hay.len();
    let width = needle.len();
    if width > size || i > size - width {
        return false;
    }
    let mut k: usize = 0;
    while k < width
        invariant
            k <= width,
            width == needle@.len(),
            size == hay@.len(),
            i + width <= size,
            forall|j: int| 0 <= j < k ==> hay@[i + j] == needle@[j],
        decreases width - k,
    {
        if hay[i + k] != needle[k] {
            assert(hay@.subrange(i as int, i + needle@.len())[k as int] != needle@[k as int]);
            return false;
        }
        k += 1;
    }
    assert(hay@.subrange(i as int, i + needle@.len()) =~= needle@);
    true
}

/// Whether `hay` begins with `needle`.
pub fn begins_with(hay: &[char], needle: &[char]) -> (r: bool)
    ensures
        r == occurs_at(hay@, needle@, 0),
{
    stands_at(hay, needle, 0)
}

/// Whether `needle` stands somewhere in `hay`.
pub fn contains_text(hay: &[char], needle: &[char]) -> (r: bool)
    ensures
        r == occurs_in(hay@, needle@),
{
    let size = hay.len();
    let mut i: usize = 0;
    while i < size
        invariant
            i <= size,
            size == hay@.len(),
            forall|j: int| 0 <= j < i ==> !occurs_at(hay@, needle@, j),
        decreases size - i,
    {
        if stands_at(hay, needle, i) {
            return true;
        }
        i += 1;
    }
    if stands_at(hay, needle, size) {
        return true;
    }
    assert forall|j: int| !occurs_at(hay@, needle@, j) by {}
    false
}

} // verus!
