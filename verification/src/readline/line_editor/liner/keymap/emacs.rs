//! The key bindings of Emacs.

use vstd::prelude::*;
use crate::completion::Engine;
use crate::readline::line_editor::liner::buffer;
use crate::readline::line_editor::liner::editor::{CursorPosition, Editor};
use crate::readline::line_editor::liner::editor;
use crate::readline::line_editor::liner::keymap::KeyMap;
use crate::readline::{Key, ReadlineEvent};

verus! {

/// An editor under the key bindings of Emacs.
pub struct Emacs<E> {
    pub ed: Editor<E>,
    /// The line of the history the last word was last fetched from.
    pub last_arg_fetch_index: Option<usize>,
}

/// Which way to move by a word.
#[derive(PartialEq, Eq, Clone, Copy, Debug, Structural)]
pub enum EmacsMoveDir {
    Left,
    Right,
}

/// The word a move by a word goes to, `None` where there is none: the
/// word the cursor is in; at an edge of a word that word, or its
/// neighbour in the direction of the move where the cursor would not move
/// otherwise; between words the nearest word in the direction of the
/// move.
pub open spec fn target_word(pos: CursorPosition, count: int, direction: EmacsMoveDir) -> Option<
    usize,
> {
    match pos {
        CursorPosition::InWord(i) => Some(i),
        CursorPosition::OnWordLeftEdge(i) => if i > 0 && direction == EmacsMoveDir::Left {
            Some((i - 1) as usize)
        } else {
            Some(i)
        },
        CursorPosition::OnWordRightEdge(i) => if i + 1 < count && direction == EmacsMoveDir::Right {
            Some((i + 1) as usize)
        } else {
            Some(i)
        },
        CursorPosition::InSpace(left, right) => match direction {
            EmacsMoveDir::Left => left,
            EmacsMoveDir::Right => right,
        },
    }
}

/// Moves the cursor by a word: to the start of the target word for a move
/// to the left, to its end for a move to the right, see [`target_word`].
pub fn emacs_move_word<E: Engine>(ed: &mut Editor<E>, direction: EmacsMoveDir) -> (r: ReadlineEvent)
    requires
        old(ed).wf(),
    ensures
        final(ed).wf(),
        r is Continue,
        final(ed).same_place(old(ed)),
        final(ed).line() == old(ed).line(),
        ({
            let words = editor::buffer_words(old(ed).line());
            match target_word(editor::position_of(old(ed).cursor, words), words.len() as int, direction) {
                None => final(ed).cursor == old(ed).cursor,
                Some(i) => i < words.len() && final(ed).cursor == match direction {
                    EmacsMoveDir::Left => words[i as int].0,
                    EmacsMoveDir::Right => words[i as int].1,
                },
            }
        }),
{
    let (words, pos) = ed.get_words_and_cursor_position();
    let word_index = match pos {
        CursorPosition::InWord(i) => Some(i),
        CursorPosition::OnWordLeftEdge(i) => {
            if i > 0 && direction == EmacsMoveDir::Left {
                Some(i - 1)
            } else {
                Some(i)
            }
        },
        CursorPosition::OnWordRightEdge(i) => {
            if i < words.len() - 1 && direction == EmacsMoveDir::Right {
                Some(i + 1)
            } else {
                Some(i)
            }
        },
        CursorPosition::InSpace(left, right) => match direction {
            EmacsMoveDir::Left => left,
            EmacsMoveDir::Right => right,
        },
    };
    match word_index {
        None => {
            let _ = ed.move_cursor_to(ed.cursor);
            ReadlineEvent::Continue
        },
        Some(i) => {
            let (start, end) = words[i];
            let new_cursor_pos = match direction {
                EmacsMoveDir::Left => start,
                EmacsMoveDir::Right => end,
            };
            ed.move_cursor_to(new_cursor_pos)
        },
    }
}

impl<E: Engine> Emacs<E> {
    /// The editor is well formed, and a line the last word was fetched
    /// from exists.
    pub open spec fn wf(&self) -> bool {
        &&& self.ed.wf()
        &&& self.last_arg_fetch_index matches Some(x) ==> x < self.ed.history.buffers@.len()
    }

    /// The bindings over an editor.
    pub fn new(ed: Editor<E>) -> (r: Self)
        requires
            ed.wf(),
        ensures
            r.wf(),
            r.ed == ed,
            r.last_arg_fetch_index is None,
    {
        Emacs { ed, last_arg_fetch_index: None }
    }

    /// A character with Ctrl held: `l` clears the screen, `a` and `e` go
    /// to the start and the end of the line, `b` and `f` move by a
    /// character, `d` deletes the character after the cursor, `p` and `n`
    /// walk the history, `u` and `k` delete to the start and to the end of
    /// the line, `w` deletes the word before the cursor, `x` undoes.
    pub fn handle_ctrl_key(&mut self, c: char) -> (r: ReadlineEvent)
        requires
            old(self).wf(),
        ensures
            final(self).wf(),
            final(self).last_arg_fetch_index == old(self).last_arg_fetch_index,
            if c == 'l' {
                r is ClearScreen
            } else {
                r is Continue
            },
            c == 'a' ==> final(self).ed.cursor == 0 && final(self).ed.line() == old(self).ed.line(),
            c == 'e' ==> final(self).ed.cursor == old(self).ed.line().len() && final(self).ed.line()
                == old(self).ed.line(),
            c == 'k' ==> final(self).ed.line() == old(self).ed.line().subrange(
                0,
                old(self).ed.cursor as int,
            ),
            c == 'u' ==> final(self).ed.cursor == 0 && final(self).ed.line()
                == old(self).ed.line().subrange(
                old(self).ed.cursor as int,
                old(self).ed.line().len() as int,
            ),
    {
        match c {
            'l' => self.ed.clear(),
            'a' => self.ed.move_cursor_to_start_of_line(),
            'e' => self.ed.move_cursor_to_end_of_line(),
            'b' => self.ed.move_cursor_left(1),
            'f' => self.ed.move_cursor_right(1),
            'd' => self.ed.delete_after_cursor(),
            'p' => self.ed.move_up(),
            'n' => self.ed.move_down(),
            'u' => self.ed.delete_all_before_cursor(),
            'k' => self.ed.delete_all_after_cursor(),
            'w' => self.ed.delete_word_before_cursor(true),
            'x' => {
                let _ = self.ed.undo();
                ReadlineEvent::Continue
            },
            _ => ReadlineEvent::Continue,
        }
    }

    /// A character with Alt held: `<` and `>` go to the start and the end
    /// of the history, backspace deletes the word before the cursor, `f`
    /// and `b` move by a word, `r` takes back every edit, `.` fetches the
    /// last word of an earlier line.
    pub fn handle_alt_key(&mut self, c: char) -> (r: ReadlineEvent)
        requires
            old(self).wf(),
        ensures
            final(self).wf(),
            r is Continue,
            c != '.' ==> final(self).last_arg_fetch_index == old(self).last_arg_fetch_index,
    {
        match c {
            '<' => self.ed.move_to_start_of_history(),
            '>' => self.ed.move_to_end_of_history(),
            '\x7F' => self.ed.delete_word_before_cursor(true),
            'f' => emacs_move_word(&mut self.ed, EmacsMoveDir::Right),
            'b' => emacs_move_word(&mut self.ed, EmacsMoveDir::Left),
            'r' => {
                let _ = self.ed.revert();
                ReadlineEvent::Continue
            },
            '.' => self.handle_last_arg_fetch(),
            _ => ReadlineEvent::Continue,
        }
    }

    /// Puts the last word of an earlier line in at the cursor: of the line
    /// shown, or of the newest line, the first time; of the line before
    /// the one last fetched from each time after, the word fetched before
    /// making room for it. Nothing happens without history or once the
    /// oldest line has been fetched from.
    pub fn handle_last_arg_fetch(&mut self) -> (r: ReadlineEvent)
        requires
            old(self).wf(),
        ensures
            final(self).wf(),
            r is Continue,
            final(self).ed.same_place(&old(self).ed),
            old(self).ed.history.buffers@.len() == 0 || old(self).last_arg_fetch_index == Some(0usize)
                ==> final(self).last_arg_fetch_index == old(self).last_arg_fetch_index
                && final(self).ed.line() == old(self).ed.line() && final(self).ed.cursor
                == old(self).ed.cursor,
            old(self).ed.history.buffers@.len() > 0 ==> match old(self).last_arg_fetch_index {
                Some(x) => x > 0 ==> final(self).last_arg_fetch_index == Some((x - 1) as usize),
                None => final(self).last_arg_fetch_index == Some(
                    match old(self).ed.cur_history_loc {
                        Some(i) => i,
                        None => (old(self).ed.history.buffers@.len() - 1) as usize,
                    },
                ),
            },
    {
        if self.ed.history.len() == 0 {
            let _ = self.ed.move_cursor_to(self.ed.cursor);
            return ReadlineEvent::Continue;
        }
        let history_index = match self.last_arg_fetch_index {
            Some(x) => {
                if x == 0 {
                    let _ = self.ed.move_cursor_to(self.ed.cursor);
                    return ReadlineEvent::Continue;
                }
                x - 1
            },
            None => match self.ed.current_history_location() {
                Some(i) => i,
                None => self.ed.history.len() - 1,
            },
        };
        if self.last_arg_fetch_index.is_some() {
            let buffer_len = self.ed.current_buffer().num_chars();
            match self.ed.current_buffer().last_arg() {
                Some(word) => {
                    let _ = self.ed.delete_until(buffer_len - word.len());
                },
                None => {},
            }
        }
        let fetched = self.ed.history.buffers[history_index].last_arg();
        match fetched {
            Some(word) => {
                let _ = self.ed.insert_chars_after_cursor(word.as_slice());
            },
            None => {},
        }
        self.last_arg_fetch_index = Some(history_index);
        ReadlineEvent::Continue
    }
}

impl<E: Engine> Emacs<E> {
    /// What a key does in the bindings' own way. A character is put in at
    /// the cursor; the arrows to the left and to the right, Home and End
    /// move the cursor in the line; backspace and Delete take out the
    /// character before and after the cursor; the arrows up and down walk
    /// the history; a character with Alt or Ctrl held does what
    /// [`Emacs::handle_alt_key`] and [`Emacs::handle_ctrl_key`] say; any
    /// other key leaves the editor as it is. Every key but Alt with `.`
    /// forgets where the last word was last fetched from.
    pub open spec fn core_outcome(before: &Self, after: &Self, key: Key, r: ReadlineEvent) -> bool {
        &&& key != Key::Alt('.') ==> after.last_arg_fetch_index is None
        &&& match key {
            Key::Char(c) => {
                &&& r is Continue
                &&& after.ed.same_place(&before.ed)
                &&& after.ed.line() == buffer::inserted(before.ed.line(), before.ed.cursor as int, seq![c])
                &&& after.ed.cursor == before.ed.cursor + 1
            },
            Key::Left => {
                &&& r is Continue
                &&& after.ed.same_place(&before.ed)
                &&& after.ed.line() == before.ed.line()
                &&& after.ed.cursor == if before.ed.cursor > 0 {
                    before.ed.cursor - 1
                } else {
                    0
                }
            },
            Key::Right => {
                &&& r is Continue
                &&& after.ed.same_place(&before.ed)
                &&& after.ed.line() == before.ed.line()
                &&& after.ed.cursor == if before.ed.cursor < before.ed.line().len() {
                    before.ed.cursor + 1
                } else {
                    before.ed.line().len() as int
                }
            },
            Key::Home => {
                &&& r is Continue
                &&& after.ed.same_place(&before.ed)
                &&& after.ed.line() == before.ed.line()
                &&& after.ed.cursor == 0
            },
            Key::End => {
                &&& r is Continue
                &&& after.ed.same_place(&before.ed)
                &&& after.ed.line() == before.ed.line()
                &&& after.ed.cursor == before.ed.line().len()
            },
            Key::Backspace => {
                &&& r is Continue
                &&& after.ed.same_place(&before.ed)
                &&& if before.ed.cursor > 0 {
                    after.ed.cursor == before.ed.cursor - 1 && after.ed.line() == buffer::removed(
                        before.ed.line(),
                        before.ed.cursor - 1,
                        before.ed.cursor as int,
                    )
                } else {
                    after.ed.cursor == 0 && after.ed.line() == before.ed.line()
                }
            },
            Key::Delete => {
                &&& r is Continue
                &&& after.ed.same_place(&before.ed)
                &&& after.ed.cursor == before.ed.cursor
                &&& after.ed.line() == if before.ed.cursor < before.ed.line().len() {
                    buffer::removed(before.ed.line(), before.ed.cursor as int, before.ed.cursor + 1)
                } else {
                    before.ed.line()
                }
            },
            Key::Up => r is Continue && after.ed.history == before.ed.history,
            Key::Down => r is Continue && after.ed.history == before.ed.history,
            Key::Alt(_) => r is Continue,
            Key::Ctrl(c) => if c == 'l' {
                r is ClearScreen
            } else {
                r is Continue
            },
            _ => r is Continue && after.ed == before.ed,
        }
    }

    /// What a key does. Ctrl with `h` counts as backspace. Ctrl with `c`
    /// gives the line up, Enter completes it, and Ctrl with `d` on an
    /// empty line ends the input, each leaving everything as it is; Tab
    /// completes; a key that accepts the suggestion makes it the line,
    /// with the cursor at its end; any other key does what
    /// [`Emacs::core_outcome`] says.
    pub open spec fn key_outcome(before: &Self, after: &Self, key: Key, r: ReadlineEvent) -> bool {
        let k = if key == Key::Ctrl('h') {
            Key::Backspace
        } else {
            key
        };
        if k == Key::Ctrl('c') {
            r is Interrupted && *after == *before
        } else if k == Key::Char('\n') {
            r is Done && *after == *before
        } else if k == Key::Ctrl('d') && before.ed.line().len() == 0 {
            r is Eof && *after == *before
        } else if k == Key::Char('\t') {
            &&& r is Continue || r is StartCompletionPager
            &&& after.last_arg_fetch_index == before.last_arg_fetch_index
            &&& before.ed.completer is None ==> r is Continue && after.ed.line() == before.ed.line() && after.ed.cursor == before.ed.cursor
        } else if before.accepts_suggestion(k) {
            &&& r is Continue
            &&& after.last_arg_fetch_index == before.last_arg_fetch_index
            &&& after.ed.same_place(&before.ed)
            &&& after.ed.cursor == after.ed.line().len()
            &&& after.ed.line() == before.ed.history.buffers@[before.ed.suggestion()->0].data@
        } else {
            Emacs::core_outcome(before, after, k, r)
        }
    }

    /// Whether a key accepts the line that is suggested: Ctrl with `f`
    /// where a line is suggested, and the arrow to the right where a line
    /// is suggested and the cursor is at the end of the line.
    pub open spec fn accepts_suggestion(&self, key: Key) -> bool {
        &&& self.ed.suggestion() is Some
        &&& (key == Key::Ctrl('f') || (key == Key::Right && !self.ed.no_eol && self.ed.cursor
            == self.ed.line().len()))
    }
}

impl<E: Engine> KeyMap<E> for Emacs<E> {
    /// The bindings are ready when they are well formed.
    open spec fn ready(&self) -> bool {
        self.wf()
    }

    /// Does what [`Emacs::key_outcome`] says.
    fn handle_key(&mut self, key: Key) -> (r: ReadlineEvent)
        ensures
            Emacs::key_outcome(old(self), final(self), key, r),
    {
        let is_empty = self.ed.current_buffer().is_empty();
        let key = match key {
            Key::Ctrl('h') => Key::Backspace,
            other => other,
        };
        match key {
            Key::Ctrl('c') => {
                return ReadlineEvent::Interrupted;
            },
            Key::Ctrl('d') => {
                if is_empty {
                    return ReadlineEvent::Eof;
                }
            },
            Key::Char('\t') => {
                return self.ed.complete();
            },
            Key::Char('\n') => {
                return ReadlineEvent::Done;
            },
            Key::Ctrl('f') => {
                if self.ed.is_currently_showing_autosuggestion() {
                    return self.ed.accept_autosuggestion();
                }
            },
            Key::Right => {
                if self.ed.is_currently_showing_autosuggestion() && !self.ed.no_eol
                    && self.ed.cursor_is_at_end_of_line() {
                    return self.ed.accept_autosuggestion();
                }
            },
            _ => {},
        }
        self.handle_key_core(key)
    }

    /// Does what [`Emacs::core_outcome`] says.
    fn handle_key_core(&mut self, key: Key) -> (r: ReadlineEvent)
        ensures
            Emacs::core_outcome(old(self), final(self), key, r),
    {
        match key {
            Key::Alt('.') => {},
            _ => {
                self.last_arg_fetch_index = None;
            },
        }
        match key {
            Key::Char(c) => self.ed.insert_after_cursor(c),
            Key::Alt(c) => self.handle_alt_key(c),
            Key::Ctrl(c) => self.handle_ctrl_key(c),
            Key::Left => self.ed.move_cursor_left(1),
            Key::Right => self.ed.move_cursor_right(1),
            Key::Up => self.ed.move_up(),
            Key::Down => self.ed.move_down(),
            Key::Home => self.ed.move_cursor_to_start_of_line(),
            Key::End => self.ed.move_cursor_to_end_of_line(),
            Key::Backspace => self.ed.delete_before_cursor(),
            Key::Delete => self.ed.delete_after_cursor(),
            Key::Null => ReadlineEvent::Continue,
            _ => ReadlineEvent::Continue,
        }
    }

    /// The editor the bindings are over.
    fn editor(&self) -> (ed: &Editor<E>)
        ensures
            *ed == self.ed,
    {
        &self.ed
    }
}

} // verus!
