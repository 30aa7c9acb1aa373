//! The lines of earlier commands, as buffers the editor can walk through
//! and edit.

use vstd::prelude::*;
use crate::history::History;
use crate::readline::line_editor::liner::buffer::Buffer;
use crate::text;

verus! {

/// The lines of earlier commands, oldest first.
pub struct HistoryManager {
    pub buffers: Vec<Buffer>,
}

/// The place of the newest buffer before `pos` that begins with `line`
/// and is longer; never one for an empty `line`.
pub open spec fn newest_match(buffers: Seq<Buffer>, pos: int, line: Seq<char>) -> Option<int>
    decreases pos,
{
    if pos <= 0 || pos > buffers.len() {
        None
    } else if line.len() != 0 && buffers[pos - 1].data@.len() != line.len() && text::occurs_at(
        buffers[pos - 1].data@,
        line,
        0,
    ) {
        Some(pos - 1)
    } else {
        newest_match(buffers, pos - 1, line)
    }
}

/// A match lies before the position it was looked for from.
pub proof fn lemma_newest_match(buffers: Seq<Buffer>, pos: int, line: Seq<char>)
    ensures
        newest_match(buffers, pos, line) matches Some(i) ==> 0 <= i < pos && i < buffers.len()
            && line.len() != 0 && buffers[i].data@.len() != line.len() && text::occurs_at(
            buffers[i].data@,
            line,
            0,
        ),
    decreases pos,
{
    if 0 < pos <= buffers.len() {
        lemma_newest_match(buffers, pos - 1, line);
    }
}

impl HistoryManager {
    /// The lines of the commands on record, oldest first; none where
    /// there is no record.
    pub fn new(history_instance: Option<&History>) -> (r: HistoryManager)
        ensures
            match history_instance {
                Some(h) => match h.entries {
                    Some(entries) => r.buffers@.len() == entries@.len() && forall|i: int|
                        0 <= i < entries@.len() ==> (#[trigger] r.buffers@[i]).data@
                            == entries@[i].command@,
                    None => r.buffers@.len() == 0,
                },
                None => r.buffers@.len() == 0,
            },
    {
        let mut buffers: Vec<Buffer> = Vec::new();
        match history_instance {
            Some(h) => {
                match h.entries() {
                    Some(entries) => {
                        let mut i: usize = 0;
                        while i < entries.len()
                            invariant
                                i <= entries@.len(),
                                buffers@.len() == i,
                                forall|k: int|
                                    0 <= k < i ==> (#[trigger] buffers@[k]).data@ == entries@[k].command@,
                            decreases entries@.len() - i,
                        {
                            buffers.push(Buffer::from_str(entries[i].command.as_str()));
                            i += 1;
                        }
                    },
                    None => {},
                }
            },
            None => {},
        }
        HistoryManager { buffers }
    }

    /// The number of lines.
    pub fn len(&self) -> (n: usize)
        ensures
            n == self.buffers@.len(),
    {
        self.buffers.len()
    }

    /// The newest line before `curr_position`, or of all where that is
    /// `None`, that begins with `new_buff` and is longer.
    pub fn get_newest_match(&self, curr_position: Option<usize>, new_buff: &Buffer) -> (r: Option<
        &Buffer,
    >)
        requires
            curr_position matches Some(p) ==> p <= self.buffers@.len(),
        ensures
            match newest_match(
                self.buffers@,
                match curr_position {
                    Some(p) => p as int,
                    None => self.buffers@.len() as int,
                },
                new_buff.data@,
            ) {
                Some(i) => 0 <= i < self.buffers@.len() && r == Some(&self.buffers@[i]),
                None => r is None,
            },
    {
        let start = match curr_position {
            Some(p) => p,
            None => self.buffers.len(),
        };
        let mut pos = start;
        while pos > 0
            invariant
                pos <= start <= self.buffers@.len(),
                start as int == match curr_position {
                    Some(p) => p as int,
                    None => self.buffers@.len() as int,
                },
                newest_match(self.buffers@, start as int, new_buff.data@) == newest_match(
                    self.buffers@,
                    pos as int,
                    new_buff.data@,
                ),
            decreases pos,
        {
            if self.buffers[pos - 1].starts_with(new_buff) {
                return Some(&self.buffers[pos - 1]);
            }
            pos -= 1;
        }
        None
    }
}

} // verus!
