//! A line of text that remembers how it was edited.

use vstd::prelude::*;
use crate::text;

verus! {

/// One edit of a buffer: text that was put in, or text that was taken
/// out, from position `start` on.
#[derive(Debug)]
pub enum Action {
    Insert { start: usize, text: Vec<char> },
    Remove { start: usize, text: Vec<char> },
}

/// `data` with `text` put in at `start`; `data` itself where `start` lies
/// outside.
pub open spec fn inserted(data: Seq<char>, start: int, text: Seq<char>) -> Seq<char> {
    if 0 <= start <= data.len() {
        data.subrange(0, start) + text + data.subrange(start, data.len() as int)
    } else {
        data
    }
}

/// `data` without the characters from `start` up to `end`; `data` itself
/// where the range lies outside.
pub open spec fn removed(data: Seq<char>, start: int, end: int) -> Seq<char> {
    if 0 <= start <= end <= data.len() {
        data.subrange(0, start) + data.subrange(end, data.len() as int)
    } else {
        data
    }
}

impl Action {
    /// The text after the edit.
    pub open spec fn applied(self, data: Seq<char>) -> Seq<char> {
        match self {
            Action::Insert { start, text } => inserted(data, start as int, text@),
            Action::Remove { start, text } => removed(data, start as int, start + text@.len()),
        }
    }

    /// The text before the edit.
    pub open spec fn reverted(self, data: Seq<char>) -> Seq<char> {
        match self {
            Action::Insert { start, text } => removed(data, start as int, start + text@.len()),
            Action::Remove { start, text } => inserted(data, start as int, text@),
        }
    }
}

/// A line of text with the edits that led to it and the edits that were
/// undone.
#[derive(Debug)]
pub struct Buffer {
    pub data: Vec<char>,
    pub actions: Vec<Action>,
    pub undone_actions: Vec<Action>,
}

/// The start of the last run of characters other than a space, `None`
/// where there is none; `end` is where that run ends.
pub open spec fn last_word_start(data: Seq<char>, end: int) -> int
    decreases end,
{
    if end <= 0 || end > data.len() || data[end - 1] == ' ' {
        end
    } else {
        last_word_start(data, end - 1)
    }
}

/// The end of the last run of characters other than a space: the length
/// without the spaces at the end.
pub open spec fn last_word_end(data: Seq<char>, end: int) -> int
    decreases end,
{
    if end <= 0 || end > data.len() || data[end - 1] != ' ' {
        end
    } else {
        last_word_end(data, end - 1)
    }
}

/// The last word of a line: the last run of characters other than a
/// space, `None` where the line holds nothing but spaces.
pub open spec fn last_word(data: Seq<char>) -> Option<Seq<char>> {
    let end = last_word_end(data, data.len() as int);
    let start = last_word_start(data, end);
    if 0 <= start < end <= data.len() {
        Some(data.subrange(start, end))
    } else {
        None
    }
}

fn insert_raw(data: &mut Vec<char>, start: usize, text: &[char])
    requires
        start <= old(data)@.len(),
    ensures
        final(data)@ == inserted(old(data)@, start as int, text@),
{
    let mut tail = data.split_off(start);
    let mut i: usize = 0;
    while i < text.len()
        invariant
            i <= text@.len(),
            data@ == old(data)@.subrange(0, start as int) + text@.subrange(0, i as int),
            tail@ == old(data)@.subrange(start as int, old(data)@.len() as int),
        decreases text@.len() - i,
    {
        data.push(text[i]);
        assert(text@.subrange(0, i + 1) =~= text@.subrange(0, i as int).push(text@[i as int]));
        i += 1;
    }
    assert(text@.subrange(0, text@.len() as int) =~= text@);
    data.append(&mut tail);
}

fn remove_raw(data: &mut Vec<char>, start: usize, end: usize) -> (taken: Vec<char>)
    requires
        start <= end <= old(data)@.len(),
    ensures
        final(data)@ == removed(old(data)@, start as int, end as int),
        taken@ == old(data)@.subrange(start as int, end as int),
{
    let mut tail = data.split_off(end);
    let taken = data.split_off(start);
    data.append(&mut tail);
    taken
}

impl Buffer {
    /// An empty line.
    pub fn new() -> (b: Buffer)
        ensures
            b.data@ == Seq::<char>::empty(),
            b.actions@.len() == 0,
            b.undone_actions@.len() == 0,
    {
        Buffer { data: Vec::new(), actions: Vec::new(), undone_actions: Vec::new() }
    }

    /// A line with the given text and no edits on record.
    pub fn from_str(s: &str) -> (b: Buffer)
        ensures
            b.data@ == s@,
            b.actions@.len() == 0,
            b.undone_actions@.len() == 0,
    {
        Buffer { data: text::chars_of(s), actions: Vec::new(), undone_actions: Vec::new() }
    }

    /// A line with the given characters and no edits on record.
    pub fn from_chars(chars: &[char]) -> (b: Buffer)
        ensures
            b.data@ == chars@,
            b.actions@.len() == 0,
            b.undone_actions@.len() == 0,
    {
        let mut data: Vec<char> = Vec::new();
        insert_raw(&mut data, 0, chars);
        assert(data@ =~= chars@);
        Buffer { data, actions: Vec::new(), undone_actions: Vec::new() }
    }

    /// A copy of the text, without the edits on record.
    pub fn duplicate(&self) -> (b: Buffer)
        ensures
            b.data@ == self.data@,
            b.actions@.len() == 0,
            b.undone_actions@.len() == 0,
    {
        Buffer::from_chars(self.data.as_slice())
    }

    /// The number of characters.
    pub fn num_chars(&self) -> (n: usize)
        ensures
            n == self.data@.len(),
    {
        self.data.len()
    }

    /// Whether the line holds no character.
    pub fn is_empty(&self) -> (r: bool)
        ensures
            r == (self.data@.len() == 0),
    {
        self.data.len() == 0
    }

    /// The characters of the line.
    pub fn chars(&self) -> (r: &[char])
        ensures
            r@ == self.data@,
    {
        self.data.as_slice()
    }

    /// The text as a string.
    pub fn to_text(&self) -> (r: String)
        ensures
            r@ == self.data@,
    {
        text::string_of(self.data.as_slice())
    }

    /// Puts text in at `start` and notes the edit; what was undone can no
    /// longer be redone.
    pub fn insert(&mut self, start: usize, text: &[char])
        requires
            start <= old(self).data@.len(),
        ensures
            final(self).data@ == inserted(old(self).data@, start as int, text@),
            final(self).actions@.len() == old(self).actions@.len() + 1,
            final(self).undone_actions@.len() == 0,
    {
        insert_raw(&mut self.data, start, text);
        let mut copy: Vec<char> = Vec::new();
        insert_raw(&mut copy, 0, text);
        self.actions.push(Action::Insert { start, text: copy });
        self.undone_actions.clear();
    }

    /// Takes out the characters from `start` up to `end`, notes the edit,
    /// and returns how many were taken out; what was undone can no longer
    /// be redone.
    pub fn remove(&mut self, start: usize, end: usize) -> (n: usize)
        requires
            start <= end <= old(self).data@.len(),
        ensures
            final(self).data@ == removed(old(self).data@, start as int, end as int),
            n == end - start,
            final(self).actions@.len() == old(self).actions@.len() + 1,
            final(self).undone_actions@.len() == 0,
    {
        let taken = remove_raw(&mut self.data, start, end);
        let n = taken.len();
        self.actions.push(Action::Remove { start, text: taken });
        self.undone_actions.clear();
        n
    }

    /// Takes out every character from `num` on.
    pub fn truncate(&mut self, num: usize)
        requires
            num <= old(self).data@.len(),
        ensures
            final(self).data@ == old(self).data@.subrange(0, num as int),
            final(self).undone_actions@.len() == 0,
    {
        let end = self.data.len();
        let _ = self.remove(num, end);
        assert(self.data@ =~= old(self).data@.subrange(0, num as int));
    }

    /// The characters from `start` up to `end`, as a string.
    pub fn range(&self, start: usize, end: usize) -> (r: String)
        requires
            start <= end <= self.data@.len(),
        ensures
            r@ == self.data@.subrange(start as int, end as int),
    {
        text::string_of(vstd::slice::slice_subrange(self.data.as_slice(), start, end))
    }

    fn revert_action(data: &mut Vec<char>, action: &Action)
        ensures
            final(data)@ == action.reverted(old(data)@),
    {
        match action {
            Action::Insert { start, text } => {
                if *start <= data.len() && text.len() <= data.len() - *start {
                    let _ = remove_raw(data, *start, *start + text.len());
                }
            },
            Action::Remove { start, text } => {
                if *start <= data.len() {
                    insert_raw(data, *start, text.as_slice());
                }
            },
        }
    }

    fn apply_action(data: &mut Vec<char>, action: &Action)
        ensures
            final(data)@ == action.applied(old(data)@),
    {
        match action {
            Action::Insert { start, text } => {
                if *start <= data.len() {
                    insert_raw(data, *start, text.as_slice());
                }
            },
            Action::Remove { start, text } => {
                if *start <= data.len() && text.len() <= data.len() - *start {
                    let _ = remove_raw(data, *start, *start + text.len());
                }
            },
        }
    }

    /// Takes back the last edit on record. `false` where there is none.
    pub fn undo(&mut self) -> (did: bool)
        ensures
            did == (old(self).actions@.len() > 0),
            did ==> final(self).data@ == old(self).actions@.last().reverted(old(self).data@),
            did ==> final(self).actions@ == old(self).actions@.drop_last(),
            did ==> final(self).undone_actions@ == old(self).undone_actions@.push(
                old(self).actions@.last(),
            ),
            !did ==> final(self).data@ == old(self).data@ && final(self).actions@ == old(self).actions@
                && final(self).undone_actions@ == old(self).undone_actions@,
    {
        match self.actions.pop() {
            None => false,
            Some(action) => {
                Buffer::revert_action(&mut self.data, &action);
                self.undone_actions.push(action);
                true
            },
        }
    }

    /// Makes the last edit that was taken back once more. `false` where
    /// there is none.
    pub fn redo(&mut self) -> (did: bool)
        ensures
            did == (old(self).undone_actions@.len() > 0),
            did ==> final(self).data@ == old(self).undone_actions@.last().applied(old(self).data@),
            did ==> final(self).undone_actions@ == old(self).undone_actions@.drop_last(),
            did ==> final(self).actions@ == old(self).actions@.push(old(self).undone_actions@.last()),
            !did ==> final(self).data@ == old(self).data@ && final(self).actions@ == old(self).actions@
                && final(self).undone_actions@ == old(self).undone_actions@,
    {
        match self.undone_actions.pop() {
            None => false,
            Some(action) => {
                Buffer::apply_action(&mut self.data, &action);
                self.actions.push(action);
                true
            },
        }
    }

    /// Takes back every edit on record. `false` where there is none.
    pub fn revert(&mut self) -> (did: bool)
        ensures
            did == (old(self).actions@.len() > 0),
            final(self).actions@.len() == 0,
            !did ==> final(self).data@ == old(self).data@ && final(self).actions@ == old(self).actions@
                && final(self).undone_actions@ == old(self).undone_actions@,
    {
        if self.actions.len() == 0 {
            return false;
        }
        while self.actions.len() > 0
            invariant
                true,
            decreases self.actions@.len(),
        {
            let _ = self.undo();
        }
        true
    }

    /// The last word of the line, see [`last_word`].
    pub fn last_arg(&self) -> (r: Option<Vec<char>>)
        ensures
            match r {
                Some(w) => last_word(self.data@) == Some(w@),
                None => last_word(self.data@) is None,
            },
    {
        let mut end = self.data.len();
        while end > 0 && self.data[end - 1] == ' '
            invariant
                end <= self.data@.len(),
                last_word_end(self.data@, self.data@.len() as int) == last_word_end(self.data@, end as int),
            decreases end,
        {
            end -= 1;
        }
        let mut start = end;
        while start > 0 && self.data[start - 1] != ' '
            invariant
                start <= end <= self.data@.len(),
                last_word_start(self.data@, end as int) == last_word_start(self.data@, start as int),
            decreases start,
        {
            start -= 1;
        }
        if start < end {
            let mut w: Vec<char> = Vec::new();
            insert_raw(&mut w, 0, vstd::slice::slice_subrange(self.data.as_slice(), start, end));
            assert(w@ =~= self.data@.subrange(start as int, end as int));
            Some(w)
        } else {
            None
        }
    }

    /// Whether this line begins with the other and is longer; never so
    /// for an empty other.
    pub fn starts_with(&self, other: &Buffer) -> (r: bool)
        ensures
            r == (other.data@.len() != 0 && self.data@.len() != other.data@.len() && text::occurs_at(
                self.data@,
                other.data@,
                0,
            )),
    {
        if other.data.len() != 0 && self.data.len() != other.data.len() {
            text::begins_with(self.data.as_slice(), other.data.as_slice())
        } else {
            false
        }
    }

    /// Adds what the other line holds beyond the length of this one.
    pub fn insert_from_buffer(&mut self, other: &Buffer)
        requires
            old(self).data@.len() <= other.data@.len(),
        ensures
            final(self).data@ == old(self).data@ + other.data@.subrange(
                old(self).data@.len() as int,
                other.data@.len() as int,
            ),
    {
        let start = self.data.len();
        self.insert(start, vstd::slice::slice_subrange(other.data.as_slice(), start, other.data.len()));
        assert(self.data@ =~= old(self).data@ + other.data@.subrange(
            start as int,
            other.data@.len() as int,
        ));
    }
}

} // verus!
