//! The editor: a cursor over the line being written or a line from the
//! history.

use vstd::prelude::*;
use crate::completion::{Completer, Engine};
use crate::history::History;
use crate::readline::line_editor::liner::buffer::Buffer;
use crate::readline::line_editor::liner::buffer;
use crate::readline::line_editor::liner::history::HistoryManager;
use crate::readline::line_editor::liner::history;
use crate::readline::ReadlineEvent;
use crate::text;

verus! {

/// Where the cursor is with respect to the words of the line.
#[derive(Debug, Clone, Copy, PartialEq, Eq, Structural)]
pub enum CursorPosition {
    /// Inside the word with this index.
    InWord(usize),
    /// At the left edge of the word with this index.
    OnWordLeftEdge(usize),
    /// At the right edge of the word with this index.
    OnWordRightEdge(usize),
    /// In touch with no word: the indices of the nearest words to the
    /// left and to the right, where there are any.
    InSpace(Option<usize>, Option<usize>),
}

/// Where the cursor is with respect to the words from `i` on, given that
/// it lies beyond the start of every word before.
pub open spec fn position_from(cursor: usize, words: Seq<(usize, usize)>, i: int) -> CursorPosition
    decreases words.len() - i,
{
    if i < 0 || i >= words.len() {
        CursorPosition::InSpace(Some((words.len() - 1) as usize), None)
    } else {
        let (start, end) = words[i];
        if start == cursor {
            CursorPosition::OnWordLeftEdge(i as usize)
        } else if end == cursor {
            CursorPosition::OnWordRightEdge(i as usize)
        } else if start < cursor && cursor < end {
            CursorPosition::InWord(i as usize)
        } else if cursor < start {
            CursorPosition::InSpace(Some((i - 1) as usize), Some(i as usize))
        } else {
            position_from(cursor, words, i + 1)
        }
    }
}

/// Where the cursor is with respect to the words.
pub open spec fn position_of(cursor: usize, words: Seq<(usize, usize)>) -> CursorPosition {
    if words.len() == 0 {
        CursorPosition::InSpace(None, None)
    } else if cursor == words[0].0 {
        CursorPosition::OnWordLeftEdge(0)
    } else if cursor < words[0].0 {
        CursorPosition::InSpace(None, Some(0))
    } else {
        position_from(cursor, words, 0)
    }
}

/// The word with this index begins before the cursor or at it.
pub open spec fn starts_by(words: Seq<(usize, usize)>, i: usize, cursor: usize) -> bool {
    i < words.len() && words[i as int].0 <= cursor
}

/// What holds of a position among words: every word it names exists, and
/// the word the cursor is in, at the right edge of, or that lies to its
/// left, begins before the cursor.
pub open spec fn position_fits(p: CursorPosition, cursor: usize, words: Seq<(usize, usize)>) -> bool {
    match p {
        CursorPosition::InWord(i) => starts_by(words, i, cursor),
        CursorPosition::OnWordLeftEdge(i) => i < words.len() && words[i as int].0 == cursor && (i > 0
            ==> starts_by(words, (i - 1) as usize, cursor)),
        CursorPosition::OnWordRightEdge(i) => i < words.len() && words[i as int].1 == cursor,
        CursorPosition::InSpace(left, right) => (left matches Some(l) ==> starts_by(words, l, cursor))
            && (right matches Some(r) ==> r < words.len()),
    }
}

proof fn lemma_position_from(cursor: usize, words: Seq<(usize, usize)>, i: int)
    requires
        0 <= i <= words.len() <= usize::MAX,
        words.len() > 0,
        i > 0 ==> words[i - 1].0 < cursor,
        i == 0 ==> words[0].0 < cursor,
    ensures
        position_fits(position_from(cursor, words, i), cursor, words),
    decreases words.len() - i,
{
    if i < words.len() {
        let (start, end) = words[i];
        if start != cursor && end != cursor && !(start < cursor && cursor < end) && !(cursor < start) {
            lemma_position_from(cursor, words, i + 1);
        }
    }
}

impl CursorPosition {
    /// Where a cursor is with respect to words given by their start and
    /// end, in the order they stand in the line.
    pub fn get(cursor: usize, words: &[(usize, usize)]) -> (r: CursorPosition)
        ensures
            r == position_of(cursor, words@),
            position_fits(r, cursor, words@),
    {
        if words.len() == 0 {
            return CursorPosition::InSpace(None, None);
        } else if cursor == words[0].0 {
            return CursorPosition::OnWordLeftEdge(0);
        } else if cursor < words[0].0 {
            return CursorPosition::InSpace(None, Some(0));
        }
        proof {
            lemma_position_from(cursor, words@, 0);
        }
        let mut i: usize = 0;
        while i < words.len()
            invariant
                i <= words@.len(),
                words@.len() > 0,
                words@[0].0 < cursor,
                i > 0 ==> words@[i - 1].0 < cursor,
                position_of(cursor, words@) == position_from(cursor, words@, i as int),
            decreases words@.len() - i,
        {
            let (start, end) = words[i];
            if start == cursor {
                return CursorPosition::OnWordLeftEdge(i);
            } else if end == cursor {
                return CursorPosition::OnWordRightEdge(i);
            } else if start < cursor && cursor < end {
                return CursorPosition::InWord(i);
            } else if cursor < start {
                return CursorPosition::InSpace(Some(i - 1), Some(i));
            }
            i += 1;
        }
        CursorPosition::InSpace(Some(words.len() - 1), None)
    }
}

/// The words found in the first `n` characters, with where a word in
/// progress began and whether the last character was a backslash.
pub open spec fn words_state(data: Seq<char>, n: int) -> (Seq<(usize, usize)>, Option<usize>, bool)
    decreases n,
{
    if n <= 0 || n > data.len() {
        (Seq::empty(), None, false)
    } else {
        let (found, begun, escaped) = words_state(data, n - 1);
        let c = data[n - 1];
        if c == '\\' {
            (found, begun, true)
        } else {
            match begun {
                Some(start) => if c == ' ' && !escaped {
                    (found.push((start, (n - 1) as usize)), None, false)
                } else {
                    (found, begun, false)
                },
                None => if c != ' ' {
                    (found, Some((n - 1) as usize), false)
                } else {
                    (found, None, false)
                },
            }
        }
    }
}

/// The words of a line, each by its start and its end: a word begins at a
/// character that is no space and no backslash and ends before the next
/// space that no backslash stands before.
pub open spec fn buffer_words(data: Seq<char>) -> Seq<(usize, usize)> {
    let (found, begun, escaped) = words_state(data, data.len() as int);
    match begun {
        Some(start) => found.push((start, data.len() as usize)),
        None => found,
    }
}

/// Every word lies in the text and is not empty.
pub open spec fn words_within(words: Seq<(usize, usize)>, n: int) -> bool {
    forall|i: int| 0 <= i < words.len() ==> (#[trigger] words[i]).0 < words[i].1 <= n
}

/// The words found in a text lie in it and are not empty.
pub proof fn lemma_words_state(data: Seq<char>, n: int)
    requires
        0 <= n <= data.len() <= usize::MAX,
    ensures
        words_within(words_state(data, n).0, n),
        words_state(data, n).1 matches Some(start) ==> start < n,
    decreases n,
{
    if n > 0 {
        lemma_words_state(data, n - 1);
        assert(words_within(words_state(data, n - 1).0, n));
    }
}

/// The words of a line lie in it and are not empty.
pub proof fn lemma_buffer_words(data: Seq<char>)
    requires
        data.len() <= usize::MAX,
    ensures
        words_within(buffer_words(data), data.len() as int),
{
    lemma_words_state(data, data.len() as int);
}

/// The words of a line, see [`buffer_words`].
pub fn get_buffer_words(buf: &Buffer) -> (r: Vec<(usize, usize)>)
    ensures
        r@ == buffer_words(buf.data@),
        words_within(r@, buf.data@.len() as int),
{
    let mut res: Vec<(usize, usize)> = Vec::new();
    let mut word_start: Option<usize> = None;
    let mut just_had_backslash = false;
    let data = buf.chars();
    let mut i: usize = 0;
    while i < data.len()
        invariant
            i <= data@.len(),
            data@ == buf.data@,
            words_state(data@, i as int) == (res@, word_start, just_had_backslash),
        decreases data@.len() - i,
    {
        let c = data[i];
        if c == '\\' {
            just_had_backslash = true;
        } else {
            match word_start {
                Some(start) => {
                    if c == ' ' && !just_had_backslash {
                        res.push((start, i));
                        word_start = None;
                    }
                },
                None => {
                    if c != ' ' {
                        word_start = Some(i);
                    }
                },
            }
            just_had_backslash = false;
        }
        i += 1;
    }
    match word_start {
        Some(start) => {
            res.push((start, data.len()));
        },
        None => {},
    }
    proof {
        lemma_buffer_words(buf.data@);
    }
    res
}

/// The editor. `E` is the kind of engine its completer asks.
pub struct Editor<E> {
    /// The cursor: the number of characters before it.
    pub cursor: usize,
    /// The line being written.
    pub new_buf: Buffer,
    /// Which line of the history is shown; `None` for the line being
    /// written.
    pub cur_history_loc: Option<usize>,
    /// Whether lines of the history are suggested.
    pub show_autosuggestions: bool,
    /// Whether the cursor stays on the last character instead of going
    /// past it.
    pub no_eol: bool,
    /// The lines of earlier commands.
    pub history: HistoryManager,
    /// Proposes completions, where there is one.
    pub completer: Option<Completer<E>>,
}

impl<E: Engine> Editor<E> {
    /// The line the editor shows.
    pub open spec fn current(&self) -> Buffer {
        match self.cur_history_loc {
            Some(i) => self.history.buffers@[i as int],
            None => self.new_buf,
        }
    }

    /// The text of the line the editor shows.
    pub open spec fn line(&self) -> Seq<char> {
        self.current().data@
    }

    /// The line shown exists and the cursor lies in it.
    pub open spec fn wf(&self) -> bool {
        &&& self.cur_history_loc matches Some(i) ==> i < self.history.buffers@.len()
        &&& self.cursor <= self.line().len()
    }

    /// Everything but the text of the line shown and the cursor is as it
    /// was.
    pub open spec fn same_place(&self, before: &Self) -> bool {
        &&& self.cur_history_loc == before.cur_history_loc
        &&& self.show_autosuggestions == before.show_autosuggestions
        &&& self.no_eol == before.no_eol
        &&& self.history.buffers@.len() == before.history.buffers@.len()
        &&& forall|j: int|
            0 <= j < self.history.buffers@.len() && Some(j as usize) != self.cur_history_loc
                ==> self.history.buffers@[j] == before.history.buffers@[j]
        &&& (self.cur_history_loc is Some ==> self.new_buf == before.new_buf)
    }

    /// An editor on an empty line.
    pub fn new(history: Option<&History>, completer: Option<Completer<E>>) -> (ed: Self)
        ensures
            ed.wf(),
            ed.cursor == 0,
            ed.line() == Seq::<char>::empty(),
            ed.cur_history_loc is None,
    {
        Editor::new_with_init_buffer(Buffer::new(), history, completer)
    }

    /// An editor on the given line, the cursor at its end.
    pub fn new_with_init_buffer(
        buffer: Buffer,
        history: Option<&History>,
        completer: Option<Completer<E>>,
    ) -> (ed: Self)
        ensures
            ed.wf(),
            ed.cursor == buffer.data@.len(),
            ed.new_buf == buffer,
            ed.cur_history_loc is None,
            ed.show_autosuggestions,
            !ed.no_eol,
    {
        let cursor = buffer.num_chars();
        Editor {
            cursor,
            new_buf: buffer,
            cur_history_loc: None,
            show_autosuggestions: true,
            no_eol: false,
            history: HistoryManager::new(history),
            completer,
        }
    }

    /// Which line of the history is shown; `None` for the line being
    /// written.
    pub fn current_history_location(&self) -> (r: Option<usize>)
        ensures
            r == self.cur_history_loc,
    {
        self.cur_history_loc
    }

    /// The words of the line shown, and where the cursor is among them.
    pub fn get_words_and_cursor_position(&self) -> (r: (Vec<(usize, usize)>, CursorPosition))
        requires
            self.wf(),
        ensures
            r.0@ == buffer_words(self.line()),
            r.1 == position_of(self.cursor, r.0@),
            position_fits(r.1, self.cursor, r.0@),
            words_within(r.0@, self.line().len() as int),
    {
        let words = get_buffer_words(self.current_buffer());
        let pos = CursorPosition::get(self.cursor, words.as_slice());
        (words, pos)
    }

    /// The cursor: the number of characters before it.
    pub fn cursor(&self) -> (r: usize)
        ensures
            r == self.cursor,
    {
        self.cursor
    }

    /// The line is complete.
    pub fn handle_newline(&mut self) -> (r: ReadlineEvent)
        ensures
            r is Done,
            *final(self) == *old(self),
    {
        ReadlineEvent::Done
    }

    /// Takes back the last edit of the line shown. Where there was one the
    /// cursor goes to the end of the line.
    pub fn undo(&mut self) -> (did: bool)
        requires
            old(self).wf(),
        ensures
            final(self).wf(),
            final(self).same_place(old(self)),
            did == (old(self).current().actions@.len() > 0),
            did ==> final(self).line() == old(self).current().actions@.last().reverted(old(self).line()),
            did ==> final(self).cursor == final(self).line().len(),
            !did ==> final(self).line() == old(self).line() && final(self).cursor == old(self).cursor,
    {
        let did = match self.cur_history_loc {
            Some(i) => self.history.buffers[i].undo(),
            None => self.new_buf.undo(),
        };
        if did {
            let _ = self.move_cursor_to_end_of_line();
        }
        did
    }

    /// Makes the last edit that was taken back once more. Where there was
    /// one the cursor goes to the end of the line.
    pub fn redo(&mut self) -> (did: bool)
        requires
            old(self).wf(),
        ensures
            final(self).wf(),
            final(self).same_place(old(self)),
            did == (old(self).current().undone_actions@.len() > 0),
            did ==> final(self).line() == old(self).current().undone_actions@.last().applied(
                old(self).line(),
            ),
            did ==> final(self).cursor == final(self).line().len(),
            !did ==> final(self).line() == old(self).line() && final(self).cursor == old(self).cursor,
    {
        let did = match self.cur_history_loc {
            Some(i) => self.history.buffers[i].redo(),
            None => self.new_buf.redo(),
        };
        if did {
            let _ = self.move_cursor_to_end_of_line();
        }
        did
    }

    /// Takes back every edit of the line shown. Where there was one the
    /// cursor goes to the end of the line.
    pub fn revert(&mut self) -> (did: bool)
        requires
            old(self).wf(),
        ensures
            final(self).wf(),
            final(self).same_place(old(self)),
            did == (old(self).current().actions@.len() > 0),
            did ==> final(self).cursor == final(self).line().len(),
            !did ==> final(self).line() == old(self).line() && final(self).cursor == old(self).cursor,
    {
        let did = match self.cur_history_loc {
            Some(i) => self.history.buffers[i].revert(),
            None => self.new_buf.revert(),
        };
        if did {
            let _ = self.move_cursor_to_end_of_line();
        } else {
            let _ = self.move_cursor_to(self.cursor);
        }
        did
    }

    /// The word a completion would replace: the word the cursor is in or
    /// at the right edge of; with `ignore_space_before_cursor` also the
    /// nearest word to the left of a cursor that touches none or stands at
    /// the left edge of a word.
    pub fn get_word_before_cursor(&self, ignore_space_before_cursor: bool) -> (r: Option<
        (usize, usize),
    >)
        requires
            self.wf(),
        ensures
            r matches Some((start, end)) ==> start <= self.cursor && start < end <= self.line().len(),
            r == ({
                let words = buffer_words(self.line());
                match position_of(self.cursor, words) {
                    CursorPosition::InWord(i) => Some(words[i as int]),
                    CursorPosition::InSpace(Some(i), _) => if ignore_space_before_cursor {
                        Some(words[i as int])
                    } else {
                        None
                    },
                    CursorPosition::InSpace(None, _) => None,
                    CursorPosition::OnWordLeftEdge(i) => if ignore_space_before_cursor && i > 0 {
                        Some(words[i - 1])
                    } else {
                        None
                    },
                    CursorPosition::OnWordRightEdge(i) => Some(words[i as int]),
                }
            }),
    {
        let (words, pos) = self.get_words_and_cursor_position();
        match pos {
            CursorPosition::InWord(i) => Some(words[i]),
            CursorPosition::InSpace(Some(i), _) => if ignore_space_before_cursor {
                Some(words[i])
            } else {
                None
            },
            CursorPosition::InSpace(None, _) => None,
            CursorPosition::OnWordLeftEdge(i) => if ignore_space_before_cursor && i > 0 {
                Some(words[i - 1])
            } else {
                None
            },
            CursorPosition::OnWordRightEdge(i) => Some(words[i]),
        }
    }

    /// Puts text in at `start` of the line shown.
    fn edit_insert(&mut self, start: usize, text: &[char])
        requires
            old(self).wf(),
            start <= old(self).line().len(),
        ensures
            final(self).same_place(old(self)),
            final(self).cursor == old(self).cursor,
            final(self).line() == buffer::inserted(old(self).line(), start as int, text@),
            final(self).line().len() == old(self).line().len() + text@.len(),
    {
        match self.cur_history_loc {
            Some(i) => {
                self.history.buffers[i].insert(start, text);
            },
            None => {
                self.new_buf.insert(start, text);
            },
        }
    }

    /// Takes the characters from `start` up to `end` out of the line
    /// shown.
    fn edit_remove(&mut self, start: usize, end: usize) -> (n: usize)
        requires
            old(self).wf(),
            start <= end <= old(self).line().len(),
        ensures
            final(self).same_place(old(self)),
            final(self).cursor == old(self).cursor,
            final(self).line() == buffer::removed(old(self).line(), start as int, end as int),
            final(self).line().len() == old(self).line().len() - (end - start),
            n == end - start,
    {
        match self.cur_history_loc {
            Some(i) => self.history.buffers[i].remove(start, end),
            None => self.new_buf.remove(start, end),
        }
    }

    /// Puts the completion in place of the word before the cursor where
    /// exactly one is proposed; asks for the pager where there are more.
    pub fn complete(&mut self) -> (r: ReadlineEvent)
        requires
            old(self).wf(),
        ensures
            final(self).wf(),
            r is Continue || r is StartCompletionPager,
            final(self).cur_history_loc == old(self).cur_history_loc,
            final(self).history.buffers@.len() == old(self).history.buffers@.len(),
            old(self).completer is None ==> r is Continue && final(self).line() == old(self).line()
                && final(self).cursor == old(self).cursor,
    {
        let word = match self.get_word_before_cursor(false) {
            Some((start, end)) => self.current_buffer().range(start, end),
            None => String::new(),
        };
        let line = self.current_buffer().duplicate();
        let completions = match &mut self.completer {
            Some(completer) => completer.completions(word.as_str(), line.chars()),
            None => {
                return ReadlineEvent::Continue;
            },
        };
        let count = completions.len();
        if count == 0 {
            ReadlineEvent::Continue
        } else if count == 1 {
            let _ = self.delete_word_before_cursor(false);
            match completions.pick_one() {
                Some(c) => {
                    let _ = self.insert_str_after_cursor(c.replacement.as_str());
                },
                None => {},
            }
            ReadlineEvent::Continue
        } else {
            ReadlineEvent::StartCompletionPager(completions)
        }
    }

    /// Takes out the word before the cursor, see
    /// [`Editor::get_word_before_cursor`], from its start up to the
    /// cursor, and puts the cursor where the word began.
    pub fn delete_word_before_cursor(&mut self, ignore_space_before_cursor: bool) -> (r: ReadlineEvent)
        requires
            old(self).wf(),
        ensures
            final(self).wf(),
            final(self).same_place(old(self)),
            r is Continue,
            final(self).cursor <= old(self).cursor,
            final(self).line() == buffer::removed(
                old(self).line(),
                final(self).cursor as int,
                old(self).cursor as int,
            ),
    {
        match self.get_word_before_cursor(ignore_space_before_cursor) {
            Some((start, _)) => {
                let moved = self.edit_remove(start, self.cursor);
                self.cursor -= moved;
            },
            None => {
                assert(buffer::removed(self.line(), self.cursor as int, self.cursor as int) =~= self.line());
            },
        }
        ReadlineEvent::Continue
    }

    /// The screen is to be cleared.
    pub fn clear(&mut self) -> (r: ReadlineEvent)
        ensures
            r is ClearScreen,
            *final(self) == *old(self),
    {
        ReadlineEvent::ClearScreen
    }

    /// Shows the line before the one shown, the newest line of the history
    /// from the line being written, with the cursor at its end. Nothing
    /// changes at the oldest line or without history.
    pub fn move_up(&mut self) -> (r: ReadlineEvent)
        requires
            old(self).wf(),
        ensures
            final(self).wf(),
            r is Continue,
            final(self).history == old(self).history,
            final(self).new_buf == old(self).new_buf,
            final(self).cur_history_loc == match old(self).cur_history_loc {
                Some(i) => if i > 0 {
                    Some((i - 1) as usize)
                } else {
                    Some(i)
                },
                None => if old(self).history.buffers@.len() > 0 {
                    Some((old(self).history.buffers@.len() - 1) as usize)
                } else {
                    None
                },
            },
            final(self).cur_history_loc != old(self).cur_history_loc ==> final(self).cursor
                == final(self).line().len(),
            final(self).cur_history_loc == old(self).cur_history_loc ==> final(self).cursor
                == old(self).cursor,
    {
        match self.cur_history_loc {
            Some(i) => {
                if i > 0 {
                    self.cur_history_loc = Some(i - 1);
                } else {
                    return ReadlineEvent::Continue;
                }
            },
            None => {
                if self.history.len() > 0 {
                    self.cur_history_loc = Some(self.history.len() - 1);
                } else {
                    return ReadlineEvent::Continue;
                }
            },
        }
        self.cursor = 0;
        self.move_cursor_to_end_of_line()
    }

    /// Shows the line after the one shown, the line being written after
    /// the newest line of the history, with the cursor at its end. Nothing
    /// changes at the line being written.
    pub fn move_down(&mut self) -> (r: ReadlineEvent)
        requires
            old(self).wf(),
        ensures
            final(self).wf(),
            r is Continue,
            final(self).history == old(self).history,
            final(self).new_buf == old(self).new_buf,
            final(self).cur_history_loc == match old(self).cur_history_loc {
                Some(i) => if i + 1 < old(self).history.buffers@.len() {
                    Some((i + 1) as usize)
                } else {
                    None
                },
                None => None,
            },
            old(self).cur_history_loc is Some ==> final(self).cursor == final(self).line().len(),
            old(self).cur_history_loc is None ==> final(self).cursor == old(self).cursor,
    {
        match self.cur_history_loc {
            Some(i) => {
                if i < self.history.len() - 1 {
                    self.cur_history_loc = Some(i + 1);
                } else {
                    self.cur_history_loc = None;
                }
                self.cursor = 0;
                self.move_cursor_to_end_of_line()
            },
            None => ReadlineEvent::Continue,
        }
    }

    /// Shows the oldest line of the history, with the cursor at its end;
    /// the line being written without history.
    pub fn move_to_start_of_history(&mut self) -> (r: ReadlineEvent)
        requires
            old(self).wf(),
        ensures
            final(self).wf(),
            r is Continue,
            final(self).history == old(self).history,
            final(self).new_buf == old(self).new_buf,
            final(self).cur_history_loc == if old(self).history.buffers@.len() > 0 {
                Some(0usize)
            } else {
                None
            },
            old(self).history.buffers@.len() > 0 ==> final(self).cursor == final(self).line().len(),
    {
        if self.history.len() > 0 {
            self.cur_history_loc = Some(0);
            self.cursor = 0;
            self.move_cursor_to_end_of_line()
        } else {
            self.cur_history_loc = None;
            let _ = self.move_cursor_to(self.cursor);
            ReadlineEvent::Continue
        }
    }

    /// Shows the line being written, with the cursor at its end. Nothing
    /// changes where it is shown already.
    pub fn move_to_end_of_history(&mut self) -> (r: ReadlineEvent)
        requires
            old(self).wf(),
        ensures
            final(self).wf(),
            r is Continue,
            final(self).history == old(self).history,
            final(self).new_buf == old(self).new_buf,
            final(self).cur_history_loc is None,
            old(self).cur_history_loc is Some ==> final(self).cursor == final(self).line().len(),
            old(self).cur_history_loc is None ==> final(self).cursor == old(self).cursor,
    {
        if self.cur_history_loc.is_some() {
            self.cur_history_loc = None;
            self.cursor = 0;
            self.move_cursor_to_end_of_line()
        } else {
            ReadlineEvent::Continue
        }
    }

    /// Puts a string in at the cursor and moves the cursor past it.
    pub fn insert_str_after_cursor(&mut self, s: &str) -> (r: ReadlineEvent)
        requires
            old(self).wf(),
        ensures
            final(self).wf(),
            final(self).same_place(old(self)),
            r is Continue,
            final(self).line() == buffer::inserted(old(self).line(), old(self).cursor as int, s@),
            final(self).cursor == old(self).cursor + s@.len(),
    {
        let chars = text::chars_of(s);
        self.insert_chars_after_cursor(chars.as_slice())
    }

    /// Puts a character in at the cursor and moves the cursor past it.
    pub fn insert_after_cursor(&mut self, c: char) -> (r: ReadlineEvent)
        requires
            old(self).wf(),
        ensures
            final(self).wf(),
            final(self).same_place(old(self)),
            r is Continue,
            final(self).line() == buffer::inserted(old(self).line(), old(self).cursor as int, seq![c]),
            final(self).cursor == old(self).cursor + 1,
    {
        let mut one: Vec<char> = Vec::new();
        one.push(c);
        assert(one@ =~= seq![c]);
        self.insert_chars_after_cursor(one.as_slice())
    }

    /// Puts characters in at the cursor and moves the cursor past them.
    pub fn insert_chars_after_cursor(&mut self, cs: &[char]) -> (r: ReadlineEvent)
        requires
            old(self).wf(),
        ensures
            final(self).wf(),
            final(self).same_place(old(self)),
            r is Continue,
            final(self).line() == buffer::inserted(old(self).line(), old(self).cursor as int, cs@),
            final(self).cursor == old(self).cursor + cs@.len(),
    {
        self.edit_insert(self.cursor, cs);
        let length = self.current_buffer().num_chars();
        self.cursor = self.cursor + cs.len();
        ReadlineEvent::Continue
    }

    /// Takes out the character before the cursor and moves the cursor
    /// back; nothing at the start of the line.
    pub fn delete_before_cursor(&mut self) -> (r: ReadlineEvent)
        requires
            old(self).wf(),
        ensures
            final(self).wf(),
            final(self).same_place(old(self)),
            r is Continue,
            old(self).cursor > 0 ==> final(self).cursor == old(self).cursor - 1 && final(self).line()
                == buffer::removed(old(self).line(), old(self).cursor - 1, old(self).cursor as int),
            old(self).cursor == 0 ==> final(self).cursor == 0 && final(self).line() == old(self).line(),
    {
        if self.cursor > 0 {
            let _ = self.edit_remove(self.cursor - 1, self.cursor);
            self.cursor -= 1;
        }
        ReadlineEvent::Continue
    }

    /// Takes out the character after the cursor; nothing at the end of the
    /// line.
    pub fn delete_after_cursor(&mut self) -> (r: ReadlineEvent)
        requires
            old(self).wf(),
        ensures
            final(self).wf(),
            final(self).same_place(old(self)),
            r is Continue,
            final(self).cursor == old(self).cursor,
            final(self).line() == if old(self).cursor < old(self).line().len() {
                buffer::removed(old(self).line(), old(self).cursor as int, old(self).cursor + 1)
            } else {
                old(self).line()
            },
    {
        if self.cursor < self.current_buffer().num_chars() {
            let _ = self.edit_remove(self.cursor, self.cursor + 1);
        }
        ReadlineEvent::Continue
    }

    /// Takes out everything before the cursor.
    pub fn delete_all_before_cursor(&mut self) -> (r: ReadlineEvent)
        requires
            old(self).wf(),
        ensures
            final(self).wf(),
            final(self).same_place(old(self)),
            r is Continue,
            final(self).cursor == 0,
            final(self).line() == old(self).line().subrange(
                old(self).cursor as int,
                old(self).line().len() as int,
            ),
    {
        let _ = self.edit_remove(0, self.cursor);
        self.cursor = 0;
        assert(self.line() =~= old(self).line().subrange(
            old(self).cursor as int,
            old(self).line().len() as int,
        ));
        ReadlineEvent::Continue
    }

    /// Takes out everything after the cursor.
    pub fn delete_all_after_cursor(&mut self) -> (r: ReadlineEvent)
        requires
            old(self).wf(),
        ensures
            final(self).wf(),
            final(self).same_place(old(self)),
            r is Continue,
            final(self).cursor == old(self).cursor,
            final(self).line() == old(self).line().subrange(0, old(self).cursor as int),
    {
        match self.cur_history_loc {
            Some(i) => {
                self.history.buffers[i].truncate(self.cursor);
            },
            None => {
                self.new_buf.truncate(self.cursor);
            },
        }
        ReadlineEvent::Continue
    }

    /// Takes out what stands between the cursor and a position, and puts
    /// the cursor at the lower of the two.
    pub fn delete_until(&mut self, position: usize) -> (r: ReadlineEvent)
        requires
            old(self).wf(),
            position <= old(self).line().len(),
        ensures
            final(self).wf(),
            final(self).same_place(old(self)),
            r is Continue,
            final(self).cursor == vstd::math::min(old(self).cursor as int, position as int),
            final(self).line() == buffer::removed(
                old(self).line(),
                vstd::math::min(old(self).cursor as int, position as int),
                vstd::math::max(old(self).cursor as int, position as int),
            ),
    {
        let low = if self.cursor < position {
            self.cursor
        } else {
            position
        };
        let high = if self.cursor < position {
            position
        } else {
            self.cursor
        };
        let _ = self.edit_remove(low, high);
        self.cursor = low;
        ReadlineEvent::Continue
    }

    /// Takes out what stands between the cursor and a position, the
    /// character at the higher of the two with it, and puts the cursor at
    /// the lower of the two.
    pub fn delete_until_inclusive(&mut self, position: usize) -> (r: ReadlineEvent)
        requires
            old(self).wf(),
            position < old(self).line().len(),
            old(self).cursor < old(self).line().len(),
        ensures
            final(self).wf(),
            final(self).same_place(old(self)),
            r is Continue,
            final(self).cursor == vstd::math::min(old(self).cursor as int, position as int),
            final(self).line() == buffer::removed(
                old(self).line(),
                vstd::math::min(old(self).cursor as int, position as int),
                vstd::math::max(old(self).cursor as int, position as int) + 1,
            ),
    {
        let length = self.current_buffer().num_chars();
        let low = if self.cursor < position {
            self.cursor
        } else {
            position
        };
        let high = if self.cursor < position {
            position + 1
        } else {
            self.cursor + 1
        };
        let _ = self.edit_remove(low, high);
        self.cursor = low;
        ReadlineEvent::Continue
    }

    /// Moves the cursor left by `count` characters, to the start of the
    /// line at most.
    pub fn move_cursor_left(&mut self, count: usize) -> (r: ReadlineEvent)
        requires
            old(self).wf(),
        ensures
            final(self).wf(),
            r is Continue,
            final(self).line() == old(self).line(),
            final(self).same_place(old(self)),
            final(self).cursor == if count > old(self).cursor {
                0
            } else {
                old(self).cursor - count
            },
    {
        let step = if count > self.cursor {
            self.cursor
        } else {
            count
        };
        self.cursor -= step;
        ReadlineEvent::Continue
    }

    /// Moves the cursor right by `count` characters, to the end of the
    /// line at most.
    pub fn move_cursor_right(&mut self, count: usize) -> (r: ReadlineEvent)
        requires
            old(self).wf(),
        ensures
            final(self).wf(),
            r is Continue,
            final(self).line() == old(self).line(),
            final(self).same_place(old(self)),
            final(self).cursor == if count > old(self).line().len() - old(self).cursor {
                old(self).line().len() as int
            } else {
                old(self).cursor + count
            },
    {
        let room = self.current_buffer().num_chars() - self.cursor;
        let step = if count > room {
            room
        } else {
            count
        };
        self.cursor += step;
        ReadlineEvent::Continue
    }

    /// Moves the cursor to `pos`, to the end of the line at most.
    pub fn move_cursor_to(&mut self, pos: usize) -> (r: ReadlineEvent)
        requires
            old(self).cur_history_loc matches Some(i) ==> i < old(self).history.buffers@.len(),
        ensures
            final(self).wf(),
            r is Continue,
            final(self).line() == old(self).line(),
            final(self).same_place(old(self)),
            final(self).history == old(self).history,
            final(self).new_buf == old(self).new_buf,
            final(self).cursor == if pos > old(self).line().len() {
                old(self).line().len()
            } else {
                pos as nat
            },
    {
        let length = match self.cur_history_loc {
            Some(i) => self.history.buffers[i].num_chars(),
            None => self.new_buf.num_chars(),
        };
        self.cursor = if pos > length {
            length
        } else {
            pos
        };
        ReadlineEvent::Continue
    }

    /// Moves the cursor to the start of the line.
    pub fn move_cursor_to_start_of_line(&mut self) -> (r: ReadlineEvent)
        requires
            old(self).wf(),
        ensures
            final(self).wf(),
            r is Continue,
            final(self).line() == old(self).line(),
            final(self).same_place(old(self)),
            final(self).cursor == 0,
    {
        self.cursor = 0;
        ReadlineEvent::Continue
    }

    /// Moves the cursor to the end of the line.
    pub fn move_cursor_to_end_of_line(&mut self) -> (r: ReadlineEvent)
        requires
            old(self).cur_history_loc matches Some(i) ==> i < old(self).history.buffers@.len(),
        ensures
            final(self).wf(),
            r is Continue,
            final(self).line() == old(self).line(),
            final(self).same_place(old(self)),
            final(self).history == old(self).history,
            final(self).new_buf == old(self).new_buf,
            final(self).cursor == old(self).line().len(),
    {
        let length = match self.cur_history_loc {
            Some(i) => self.history.buffers[i].num_chars(),
            None => self.new_buf.num_chars(),
        };
        self.cursor = length;
        ReadlineEvent::Continue
    }

    /// Whether the cursor is as far right as it goes: past the last
    /// character, or on it where the editor keeps it there.
    pub fn cursor_is_at_end_of_line(&self) -> (r: bool)
        requires
            self.wf(),
            self.no_eol ==> self.line().len() > 0,
        ensures
            r == if self.no_eol {
                self.cursor == self.line().len() - 1
            } else {
                self.cursor == self.line().len()
            },
    {
        let num_chars = self.current_buffer().num_chars();
        if self.no_eol {
            self.cursor == num_chars - 1
        } else {
            self.cursor == num_chars
        }
    }

    /// The line shown: the line being written or a line of the history.
    pub fn current_buffer(&self) -> (b: &Buffer)
        requires
            self.cur_history_loc matches Some(i) ==> i < self.history.buffers@.len(),
        ensures
            *b == self.current(),
    {
        match self.cur_history_loc {
            Some(i) => &self.history.buffers[i],
            None => &self.new_buf,
        }
    }

    /// The line shown, to change it. The cursor is the caller's to keep
    /// inside the line.
    pub fn current_buffer_mut(&mut self) -> (b: &mut Buffer)
        requires
            old(self).cur_history_loc matches Some(i) ==> i < old(self).history.buffers@.len(),
        ensures
            *b == old(self).current(),
            final(self).cur_history_loc == old(self).cur_history_loc,
            final(self).cursor == old(self).cursor,
            final(self).current() == *final(b),
            final(self).history.buffers@.len() == old(self).history.buffers@.len(),
    {
        match self.cur_history_loc {
            Some(i) => &mut self.history.buffers[i],
            None => &mut self.new_buf,
        }
    }

    /// Completes the line shown from the suggestion, where there is one,
    /// and moves the cursor to the end of the line.
    pub fn accept_autosuggestion(&mut self) -> (r: ReadlineEvent)
        requires
            old(self).wf(),
        ensures
            final(self).wf(),
            final(self).same_place(old(self)),
            r is Continue,
            final(self).cursor == final(self).line().len(),
            final(self).line() == match old(self).suggestion() {
                Some(i) => old(self).history.buffers@[i].data@,
                None => old(self).line(),
            },
    {
        let suggested: Option<Buffer> = match self.current_autosuggestion() {
            Some(b) => Some(b.duplicate()),
            None => None,
        };
        proof {
            history::lemma_newest_match(
                self.history.buffers@,
                match self.cur_history_loc {
                    Some(p) => p as int,
                    None => self.history.buffers@.len() as int,
                },
                self.line(),
            );
        }
        match suggested {
            Some(x) => {
                let ghost before = self.line();
                match self.cur_history_loc {
                    Some(i) => {
                        self.history.buffers[i].insert_from_buffer(&x);
                    },
                    None => {
                        self.new_buf.insert_from_buffer(&x);
                    },
                }
                assert(self.line() =~= x.data@) by {
                    assert(text::occurs_at(x.data@, before, 0));
                    assert(x.data@.subrange(0, before.len() as int) == before);
                }
            },
            None => {},
        }
        self.move_cursor_to_end_of_line()
    }

    /// The place in the history of the line that is suggested: the newest
    /// line before the one shown that begins with the line shown and is
    /// longer; none where suggestions are off.
    pub open spec fn suggestion(&self) -> Option<int> {
        if self.show_autosuggestions {
            history::newest_match(
                self.history.buffers@,
                match self.cur_history_loc {
                    Some(p) => p as int,
                    None => self.history.buffers@.len() as int,
                },
                self.line(),
            )
        } else {
            None
        }
    }

    /// The line that is suggested, see [`Editor::suggestion`].
    pub fn current_autosuggestion(&self) -> (r: Option<&Buffer>)
        requires
            self.wf(),
        ensures
            match self.suggestion() {
                Some(i) => 0 <= i < self.history.buffers@.len() && r == Some(&self.history.buffers@[i]),
                None => r is None,
            },
    {
        if self.show_autosuggestions {
            self.history.get_newest_match(self.cur_history_loc, self.current_buffer())
        } else {
            None
        }
    }

    /// Whether a line is suggested.
    pub fn is_currently_showing_autosuggestion(&self) -> (r: bool)
        requires
            self.wf(),
        ensures
            r == self.suggestion() is Some,
    {
        self.current_autosuggestion().is_some()
    }
}

} // verus!
