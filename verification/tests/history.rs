use jobshell::history::{Entry, History, NewHistoryEntry};
use jobshell::readline::history::{Config, Direction, History as LineHistory, HistoryDuplicates};

fn entry(timestamp: i64, command: &str) -> NewHistoryEntry {
    NewHistoryEntry { timestamp, command: command.to_string() }
}

#[test]
fn record_keeps_commands_in_the_order_of_their_times() {
    let mut history = History::new(None);
    assert_eq!(history.len(), 0);
    history.add_command(entry(10, "first"));
    history.add_command(entry(30, "third"));
    history.add_command(entry(20, "second"));
    history.add_command(entry(30, "fourth"));
    let commands: Vec<&str> = history.entries().as_ref().unwrap().iter().map(|e| e.command.as_str()).collect();
    assert_eq!(commands, vec!["first", "second", "third", "fourth"]);
    assert_eq!(history.len(), 4);
}

#[test]
fn record_that_was_read_is_kept_as_read() {
    let history = History::new(Some(vec![Entry { timestamp: 5, command: "ls".to_string() }]));
    assert_eq!(history.len(), 1);
    assert_eq!(history.entries().as_ref().unwrap()[0].timestamp, 5);
}

fn line_history(max: usize, duplicates: HistoryDuplicates, ignore_space: bool) -> LineHistory {
    LineHistory::with_config(Config {
        max_history_size: max,
        history_duplicates: duplicates,
        history_ignore_space: ignore_space,
    })
}

#[test]
fn default_history_keeps_a_hundred_lines() {
    let h = LineHistory::new();
    assert_eq!(h.max_len, 100);
    assert!(h.is_empty());
    assert_eq!(h.len(), 0);
    assert!(h.last().is_none());
    assert!(h.get(0).is_none());
}

#[test]
fn add_leaves_out_empty_lines_and_drops_the_oldest_when_full() {
    let mut h = line_history(2, HistoryDuplicates::AlwaysAdd, false);
    assert!(!h.add(""));
    assert!(h.add("one"));
    assert!(h.add("two"));
    assert!(h.add("three"));
    assert_eq!(h.len(), 2);
    assert_eq!(h.get(0).unwrap(), "two");
    assert_eq!(h.last().unwrap(), "three");
    let mut none = line_history(0, HistoryDuplicates::AlwaysAdd, false);
    assert!(!none.add("x"));
}

#[test]
fn add_follows_the_settings_as_they_are_wired() {
    // lines that begin with a blank are left out where repeats are to be ignored
    let mut h = line_history(10, HistoryDuplicates::IgnoreConsecutive, false);
    assert!(!h.add(" secret"));
    assert!(h.add("ls"));
    assert!(h.add("ls"));
    // repeats are left out where lines that begin with a blank are to be ignored
    let mut g = line_history(10, HistoryDuplicates::AlwaysAdd, true);
    assert!(g.add(" secret"));
    assert!(g.add("ls"));
    assert!(!g.add("ls"));
    assert!(g.add("pwd"));
    assert!(g.add("ls"));
    assert_eq!(g.len(), 4);
}

#[test]
fn set_max_len_keeps_the_newest_lines() {
    let mut h = line_history(10, HistoryDuplicates::AlwaysAdd, false);
    for line in ["a", "b", "c", "d"] {
        h.add(line);
    }
    h.set_max_len(2);
    assert_eq!(h.len(), 2);
    assert_eq!(h.get(0).unwrap(), "c");
    h.set_max_len(5);
    assert_eq!(h.len(), 2);
    h.set_max_len(0);
    assert!(h.is_empty());
    h.add("x");
    assert!(h.is_empty());
}

#[test]
fn clear_forgets_every_line() {
    let mut h = line_history(10, HistoryDuplicates::AlwaysAdd, false);
    h.add("a");
    h.clear();
    assert!(h.is_empty());
}

#[test]
fn search_finds_the_nearest_line_in_each_direction() {
    let mut h = line_history(10, HistoryDuplicates::AlwaysAdd, false);
    for line in ["git status", "ls -l", "git commit", "echo git"] {
        h.add(line);
    }
    assert_eq!(h.search("git", 0, Direction::Forward), Some(0));
    assert_eq!(h.search("git", 1, Direction::Forward), Some(2));
    assert_eq!(h.search("git", 3, Direction::Reverse), Some(3));
    assert_eq!(h.search("ls", 3, Direction::Reverse), Some(1));
    assert_eq!(h.search("ls", 0, Direction::Reverse), None);
    assert_eq!(h.search("ls", 2, Direction::Forward), None);
    assert_eq!(h.search("", 0, Direction::Forward), None);
    assert_eq!(h.search("git", 4, Direction::Forward), None);
    assert_eq!(h.starts_with("git", 3, Direction::Reverse), Some(2));
    assert_eq!(h.starts_with("git", 1, Direction::Forward), Some(2));
    assert_eq!(h.starts_with("echo", 0, Direction::Forward), Some(3));
    assert_eq!(h.starts_with("status", 3, Direction::Reverse), None);
}

#[test]
fn iter_walks_from_both_ends() {
    let mut h = line_history(10, HistoryDuplicates::AlwaysAdd, false);
    for line in ["a", "b", "c"] {
        h.add(line);
    }
    let mut it = h.iter();
    assert_eq!(it.next().unwrap(), "a");
    assert_eq!(it.next_back().unwrap(), "c");
    assert_eq!(it.next().unwrap(), "b");
    assert!(it.next().is_none());
    assert!(it.next_back().is_none());
}
