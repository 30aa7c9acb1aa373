//! The commands the shell has accepted, oldest first.

use vstd::prelude::*;

verus! {

/// A command that was accepted, and when: the time in microseconds since
/// the start of 1970.
#[derive(Debug)]
pub struct Entry {
    pub timestamp: i64,
    pub command: String,
}

/// A command that has just been accepted and is not yet on record.
#[derive(Debug)]
pub struct NewHistoryEntry {
    pub timestamp: i64,
    pub command: String,
}

/// The commands on record; `None` where the record could not be read.
#[derive(Debug)]
pub struct History {
    pub entries: Option<Vec<Entry>>,
}

/// The entries stand in the order of their times.
pub open spec fn ascending(entries: Seq<Entry>) -> bool {
    forall|i: int, j: int| 0 <= i < j < entries.len() ==> entries[i].timestamp <= entries[j].timestamp
}

/// The place a new entry of the given time takes: after every entry that
/// is not later.
pub open spec fn place_for(entries: Seq<Entry>, timestamp: i64) -> int
    decreases entries.len(),
{
    if entries.len() == 0 || entries.last().timestamp <= timestamp {
        entries.len() as int
    } else {
        place_for(entries.drop_last(), timestamp)
    }
}

impl History {
    /// A record with the given entries, as they were read.
    pub fn new(entries: Option<Vec<Entry>>) -> (h: History)
        ensures
            h.entries == entries,
    {
        History { entries }
    }

    /// The number of entries; 0 where the record could not be read.
    pub fn len(&self) -> (n: usize)
        ensures
            n == match self.entries {
                Some(e) => e@.len(),
                None => 0,
            },
    {
        match &self.entries {
            Some(s) => s.len(),
            None => 0,
        }
    }

    /// The entries, oldest first.
    pub fn entries(&self) -> (r: &Option<Vec<Entry>>)
        ensures
            *r == self.entries,
    {
        &self.entries
    }

    /// Puts a command on record, after every entry that is not later. A
    /// record that could not be read starts anew with this entry.
    pub fn add_command(&mut self, entry: NewHistoryEntry)
        ensures
            final(self).entries matches Some(now) && match old(self).entries {
                Some(before) => {
                    let place = place_for(before@, entry.timestamp);
                    &&& 0 <= place <= before@.len()
                    &&& now@.len() == before@.len() + 1
                    &&& now@[place].timestamp == entry.timestamp
                    &&& now@[place].command@ == entry.command@
                    &&& forall|i: int| 0 <= i < place ==> now@[i] == before@[i]
                    &&& forall|i: int| place <= i < before@.len() ==> now@[i + 1] == before@[i]
                    &&& (ascending(before@) ==> ascending(now@))
                },
                None => now@.len() == 1 && now@[0].timestamp == entry.timestamp && now@[0].command@
                    == entry.command@,
            },
    {
        let record = Entry { timestamp: entry.timestamp, command: entry.command };
        match &mut self.entries {
            None => {
                let mut fresh: Vec<Entry> = Vec::new();
                fresh.push(record);
                self.entries = Some(fresh);
            },
            Some(list) => {
                let ghost before = list@;
                let mut place = list.len();
                assert(before.take(before.len() as int) =~= before);
                while place > 0 && list[place - 1].timestamp > record.timestamp
                    invariant
                        place <= list@.len(),
                        list@ == before,
                        place_for(before, record.timestamp) == place_for(
                            before.take(place as int),
                            record.timestamp,
                        ),
                        forall|i: int| place <= i < before.len() ==> before[i].timestamp > record.timestamp,
                    decreases place,
                {
                    assert(before.take(place as int).drop_last() =~= before.take(place - 1));
                    place -= 1;
                }
                assert(before.take(before.len() as int) =~= before);
                list.insert(place, record);
                proof {
                    if ascending(before) {
                        assert forall|i: int, j: int| 0 <= i < j < list@.len() implies list@[i].timestamp
                            <= list@[j].timestamp by {
                            if j < place {
                            } else if j == place {
                                if place > 0 {
                                    assert(before[place - 1].timestamp <= record.timestamp);
                                    assert(before[i].timestamp <= before[place - 1].timestamp);
                                }
                            } else if i < place {
                                assert(before[i].timestamp <= before[j - 1].timestamp);
                            } else if i == place {
                                assert(before[j - 1].timestamp > record.timestamp);
                            } else {
                                assert(before[i - 1].timestamp <= before[j - 1].timestamp);
                            }
                        }
                    }
                }
            },
        }
    }
}

} // verus!
