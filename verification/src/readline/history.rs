//! The lines a user has entered, with a limit on how many are kept.

use vstd::prelude::*;
use std::collections::VecDeque;
use crate::text;

verus! {

/// Which way to search.
#[derive(Clone, Copy, Debug, PartialEq, Eq, Structural)]
pub enum Direction {
    Forward,
    Reverse,
}

/// What to do with a line that repeats the one before.
#[derive(Clone, Copy, Debug, PartialEq, Eq, Structural)]
pub enum HistoryDuplicates {
    AlwaysAdd,
    IgnoreConsecutive,
}

/// How the history behaves.
#[derive(Clone, Copy, Debug)]
pub struct Config {
    pub max_history_size: usize,
    pub history_duplicates: HistoryDuplicates,
    pub history_ignore_space: bool,
}

impl Config {
    /// A hundred lines, a line that repeats the one before is not kept,
    /// a line that begins with a blank is.
    pub fn default_config() -> (c: Config)
        ensures
            c.max_history_size == 100,
            c.history_duplicates == HistoryDuplicates::IgnoreConsecutive,
            !c.history_ignore_space,
    {
        Config {
            max_history_size: 100,
            history_duplicates: HistoryDuplicates::IgnoreConsecutive,
            history_ignore_space: false,
        }
    }

    /// The greatest number of lines kept.
    pub fn max_history_size(&self) -> (r: usize)
        ensures
            r == self.max_history_size,
    {
        self.max_history_size
    }

    /// What to do with a line that repeats the one before.
    pub fn history_duplicates(&self) -> (r: HistoryDuplicates)
        ensures
            r == self.history_duplicates,
    {
        self.history_duplicates
    }

    /// Whether a line that begins with a blank is left out.
    pub fn history_ignore_space(&self) -> (r: bool)
        ensures
            r == self.history_ignore_space,
    {
        self.history_ignore_space
    }
}

/// The lines entered, oldest first, never more than `max_len`.
pub struct History {
    pub entries: VecDeque<String>,
    pub max_len: usize,
    pub ignore_space: bool,
    pub ignore_dups: bool,
}

/// How a search tells whether a line fits.
#[derive(Clone, Copy, Debug, PartialEq, Eq, Structural)]
pub enum Test {
    /// The term stands somewhere in the line.
    Contains,
    /// The line begins with the term.
    StartsWith,
}

/// Whether a line fits a term.
pub open spec fn fits(line: Seq<char>, term: Seq<char>, test: Test) -> bool {
    match test {
        Test::Contains => text::occurs_in(line, term),
        Test::StartsWith => text::occurs_at(line, term, 0),
    }
}

/// The first place from `i` on whose line fits.
pub open spec fn first_fit(entries: Seq<String>, term: Seq<char>, test: Test, i: int) -> Option<int>
    decreases entries.len() - i,
{
    if i < 0 || i >= entries.len() {
        None
    } else if fits(entries[i]@, term, test) {
        Some(i)
    } else {
        first_fit(entries, term, test, i + 1)
    }
}

/// The last place up to `i` whose line fits.
pub open spec fn last_fit(entries: Seq<String>, term: Seq<char>, test: Test, i: int) -> Option<int>
    decreases i + 1,
{
    if i < 0 || i >= entries.len() {
        None
    } else if fits(entries[i]@, term, test) {
        Some(i)
    } else {
        last_fit(entries, term, test, i - 1)
    }
}

/// What a search gives: nothing for an empty term or a start outside the
/// history; otherwise the nearest place from `start` on, in the given
/// direction, whose line fits.
pub open spec fn found(
    entries: Seq<String>,
    term: Seq<char>,
    start: usize,
    dir: Direction,
    test: Test,
) -> Option<int> {
    if term.len() == 0 || start >= entries.len() {
        None
    } else {
        match dir {
            Direction::Forward => first_fit(entries, term, test, start as int),
            Direction::Reverse => last_fit(entries, term, test, start as int),
        }
    }
}

/// Whether a line is left out of a history with these settings and this
/// newest line.
pub open spec fn left_out(
    line: Seq<char>,
    max_len: usize,
    ignore_space: bool,
    ignore_dups: bool,
    newest: Option<Seq<char>>,
) -> bool {
    max_len == 0 || line.len() == 0 || (ignore_space && text::char_is_whitespace(line[0])) || (
    ignore_dups && newest == Some(line))
}

impl History {
    /// The newest line.
    pub open spec fn newest(&self) -> Option<Seq<char>> {
        if self.entries@.len() > 0 {
            Some(self.entries@.last()@)
        } else {
            None
        }
    }

    /// A history with the settings of [`Config::default_config`].
    pub fn new() -> (h: History)
        ensures
            h.entries@.len() == 0,
            h.max_len == 100,
            h.ignore_space,
            !h.ignore_dups,
    {
        History::with_config(Config::default_config())
    }

    /// An empty history with the given settings: lines that begin with a
    /// blank are left out where the configuration leaves repeats out, and
    /// repeats are left out where it leaves out lines that begin with a
    /// blank.
    pub fn with_config(config: Config) -> (h: History)
        ensures
            h.entries@.len() == 0,
            h.max_len == config.max_history_size,
            h.ignore_space == (config.history_duplicates == HistoryDuplicates::IgnoreConsecutive),
            h.ignore_dups == config.history_ignore_space,
    {
        History {
            entries: VecDeque::new(),
            max_len: config.max_history_size(),
            ignore_space: config.history_duplicates() == HistoryDuplicates::IgnoreConsecutive,
            ignore_dups: config.history_ignore_space(),
        }
    }

    /// The line at place `index`, the oldest at 0.
    pub fn get(&self, index: usize) -> (r: Option<&String>)
        ensures
            r == if index < self.entries@.len() {
                Some(&self.entries@[index as int])
            } else {
                None
            },
    {
        if index < self.entries.len() {
            Some(&self.entries[index])
        } else {
            None
        }
    }

    /// The newest line.
    pub fn last(&self) -> (r: Option<&String>)
        ensures
            r == if self.entries@.len() > 0 {
                Some(&self.entries@.last())
            } else {
                None
            },
    {
        let n = self.entries.len();
        if n > 0 {
            Some(&self.entries[n - 1])
        } else {
            None
        }
    }

    /// Adds a line as the newest, unless it is left out, see
    /// [`left_out`]; the oldest line goes where the history is full.
    /// Returns whether the line was added.
    pub fn add(&mut self, line: &str) -> (added: bool)
        requires
            old(self).entries@.len() <= old(self).max_len,
        ensures
            added == !left_out(
                line@,
                old(self).max_len,
                old(self).ignore_space,
                old(self).ignore_dups,
                old(self).newest(),
            ),
            final(self).max_len == old(self).max_len,
            final(self).ignore_space == old(self).ignore_space,
            final(self).ignore_dups == old(self).ignore_dups,
            final(self).entries@.len() <= final(self).max_len,
            !added ==> final(self).entries@ == old(self).entries@,
            added ==> final(self).newest() == Some(line@) && text::views(final(self).entries@.drop_last())
                == text::views(
                if old(self).entries@.len() == old(self).max_len {
                    old(self).entries@.drop_first()
                } else {
                    old(self).entries@
                },
            ),
    {
        if self.max_len == 0 {
            return false;
        }
        let chars = text::chars_of(line);
        if chars.len() == 0 || (self.ignore_space && text::is_whitespace(chars[0])) {
            return false;
        }
        if self.ignore_dups {
            let n = self.entries.len();
            if n > 0 {
                if text::same_text(self.entries[n - 1].as_str(), line) {
                    return false;
                }
            }
        }
        if self.entries.len() == self.max_len {
            let _ = self.entries.pop_front();
        }
        let ghost kept = self.entries@;
        self.entries.push_back(line.to_owned());
        assert(self.entries@.drop_last() =~= kept);
        true
    }

    /// The number of lines.
    pub fn len(&self) -> (n: usize)
        ensures
            n == self.entries@.len(),
    {
        self.entries.len()
    }

    /// Whether there is no line.
    pub fn is_empty(&self) -> (r: bool)
        ensures
            r == (self.entries@.len() == 0),
    {
        self.entries.len() == 0
    }

    /// Sets the greatest number of lines kept; the oldest lines go where
    /// there are more.
    pub fn set_max_len(&mut self, len: usize)
        ensures
            final(self).max_len == len,
            final(self).ignore_space == old(self).ignore_space,
            final(self).ignore_dups == old(self).ignore_dups,
            final(self).entries@ == if old(self).entries@.len() <= len {
                old(self).entries@
            } else {
                old(self).entries@.subrange(old(self).entries@.len() - len, old(self).entries@.len() as int)
            },
    {
        self.max_len = len;
        if len == 0 {
            self.entries.clear();
            assert(self.entries@ =~= old(self).entries@.subrange(
                old(self).entries@.len() as int,
                old(self).entries@.len() as int,
            ));
            return ;
        }
        assert(old(self).entries@.subrange(0, old(self).entries@.len() as int) =~= old(self).entries@);
        while self.entries.len() > len
            invariant
                self.max_len == len,
                self.entries@.len() >= len || self.entries@ == old(self).entries@,
                self.ignore_space == old(self).ignore_space,
                self.ignore_dups == old(self).ignore_dups,
                self.entries@.len() <= old(self).entries@.len(),
                self.entries@ == old(self).entries@.subrange(
                    old(self).entries@.len() - self.entries@.len(),
                    old(self).entries@.len() as int,
                ),
            decreases self.entries@.len(),
        {
            let ghost before = self.entries@;
            let _ = self.entries.pop_front();
            assert(self.entries@ =~= before.drop_first());
            assert(self.entries@ =~= old(self).entries@.subrange(
                old(self).entries@.len() - self.entries@.len(),
                old(self).entries@.len() as int,
            ));
        }
        assert(old(self).entries@.subrange(0, old(self).entries@.len() as int) =~= old(self).entries@);
    }

    /// Forgets every line.
    pub fn clear(&mut self)
        ensures
            final(self).entries@.len() == 0,
            final(self).max_len == old(self).max_len,
            final(self).ignore_space == old(self).ignore_space,
            final(self).ignore_dups == old(self).ignore_dups,
    {
        self.entries.clear()
    }

    /// The nearest place from `start` on, in the given direction, whose
    /// line holds the term.
    pub fn search(&self, term: &str, start: usize, dir: Direction) -> (r: Option<usize>)
        ensures
            match r {
                Some(i) => found(self.entries@, term@, start, dir, Test::Contains) == Some(i as int),
                None => found(self.entries@, term@, start, dir, Test::Contains) is None,
            },
    {
        self.search_match(term, start, dir, Test::Contains)
    }

    /// The nearest place from `start` on, in the given direction, whose
    /// line begins with the term.
    pub fn starts_with(&self, term: &str, start: usize, dir: Direction) -> (r: Option<usize>)
        ensures
            match r {
                Some(i) => found(self.entries@, term@, start, dir, Test::StartsWith) == Some(i as int),
                None => found(self.entries@, term@, start, dir, Test::StartsWith) is None,
            },
    {
        self.search_match(term, start, dir, Test::StartsWith)
    }

    /// The nearest place from `start` on, in the given direction, whose
    /// line fits the term by the given test.
    pub fn search_match(&self, term: &str, start: usize, dir: Direction, test: Test) -> (r: Option<
        usize,
    >)
        ensures
            match r {
                Some(i) => found(self.entries@, term@, start, dir, test) == Some(i as int),
                None => found(self.entries@, term@, start, dir, test) is None,
            },
    {
        let needle = text::chars_of(term);
        let n = self.entries.len();
        if needle.len() == 0 || start >= n {
            return None;
        }
        match dir {
            Direction::Forward => {
                let mut i = start;
                while i < n
                    invariant
                        start <= i <= n,
                        start < n,
                        term@.len() != 0,
                        dir == Direction::Forward,
                        n == self.entries@.len(),
                        needle@ == term@,
                        first_fit(self.entries@, term@, test, start as int) == first_fit(
                            self.entries@,
                            term@,
                            test,
                            i as int,
                        ),
                    decreases n - i,
                {
                    if self.line_fits(i, needle.as_slice(), test) {
                        return Some(i);
                    }
                    i += 1;
                }
                None
            },
            Direction::Reverse => {
                let mut i = start;
                loop
                    invariant
                        i <= start < n,
                        term@.len() != 0,
                        dir == Direction::Reverse,
                        n == self.entries@.len(),
                        needle@ == term@,
                        last_fit(self.entries@, term@, test, start as int) == last_fit(
                            self.entries@,
                            term@,
                            test,
                            i as int,
                        ),
                    decreases i,
                {
                    if self.line_fits(i, needle.as_slice(), test) {
                        return Some(i);
                    }
                    if i == 0 {
                        assert(last_fit(self.entries@, term@, test, -1) is None);
                        return None;
                    }
                    i -= 1;
                }
            },
        }
    }

    fn line_fits(&self, i: usize, needle: &[char], test: Test) -> (r: bool)
        requires
            i < self.entries@.len(),
        ensures
            r == fits(self.entries@[i as int]@, needle@, test),
    {
        let line = text::chars_of(self.entries[i].as_str());
        match test {
            Test::Contains => text::contains_text(line.as_slice(), needle),
            Test::StartsWith => text::begins_with(line.as_slice(), needle),
        }
    }

    /// The lines, oldest first, to walk through.
    pub fn iter(&self) -> (r: Iter<'_>)
        ensures
            r.history == self,
            r.front == 0,
            r.back == self.entries@.len(),
    {
        Iter { history: self, front: 0, back: self.entries.len() }
    }
}

/// A walk through the lines of a history, from either end.
pub struct Iter<'a> {
    pub history: &'a History,
    pub front: usize,
    pub back: usize,
}

impl<'a> Iter<'a> {
    /// The next line from the front, `None` when the walk is over.
    pub fn next(&mut self) -> (r: Option<&'a String>)
        requires
            old(self).back <= old(self).history.entries@.len(),
        ensures
            final(self).history == old(self).history,
            final(self).back == old(self).back,
            if old(self).front < old(self).back {
                final(self).front == old(self).front + 1 && r == Some(
                    &old(self).history.entries@[old(self).front as int],
                )
            } else {
                final(self).front == old(self).front && r is None
            },
    {
        if self.front < self.back {
            let line = &self.history.entries[self.front];
            self.front += 1;
            Some(line)
        } else {
            None
        }
    }

    /// The next line from the back, `None` when the walk is over.
    pub fn next_back(&mut self) -> (r: Option<&'a String>)
        requires
            old(self).back <= old(self).history.entries@.len(),
        ensures
            final(self).history == old(self).history,
            final(self).front == old(self).front,
            if old(self).front < old(self).back {
                final(self).back == old(self).back - 1 && r == Some(
                    &old(self).history.entries@[old(self).back - 1],
                )
            } else {
                final(self).back == old(self).back && r is None
            },
    {
        if self.front < self.back {
            self.back -= 1;
            Some(&self.history.entries[self.back])
        } else {
            None
        }
    }
}

} // verus!
