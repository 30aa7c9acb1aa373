use jobshell::completion::engines::path_completion::{
    escape, filename_complete, split_path, unescape, EntryKind, PathCompletion,
};
use jobshell::completion::engines::user_completion::UserCompletion;
use jobshell::completion::fuzzy::{fuzzy_search, longest_common_prefix, longest_common_suffix, rank_candidates};
use jobshell::completion::{add_answer, set_of, Completer, Completion, CompletionSet, Completions, Engine};

fn completion(rank: usize, replacement: &str) -> Completion {
    Completion { rank, replacement: replacement.to_string(), description: format!("about {}", replacement) }
}

struct Fixed {
    category: String,
    list: Option<Vec<(String, String)>>,
}

impl Engine for Fixed {
    fn completions(&mut self, _start: &str, _line: &str) -> Option<Vec<(String, String)>> {
        self.list.clone()
    }

    fn category(&self) -> String {
        self.category.clone()
    }
}

fn fixed(category: &str, list: Option<&[&str]>) -> Fixed {
    Fixed {
        category: category.to_string(),
        list: list.map(|l| l.iter().map(|s| (s.to_string(), String::new())).collect()),
    }
}

#[test]
fn escape_puts_a_backslash_before_break_characters() {
    let engine = PathCompletion::new();
    assert_eq!(
        escape("/User Information".to_string(), Some('\\'), &engine.break_chars),
        "/User\\ Information"
    );
    assert_eq!(escape("a b".to_string(), None, &engine.break_chars), "a b");
    assert_eq!(escape("a|b&c".to_string(), Some('\\'), &engine.break_chars), "a\\|b\\&c");
    assert_eq!(escape("plain".to_string(), Some('\\'), &engine.break_chars), "plain");
    assert_eq!(engine.break_chars.len(), 18);
}

#[test]
fn unescape_drops_the_escape_character() {
    assert_eq!(unescape("/User\\ Information", Some('\\')), "/User Information");
    assert_eq!(unescape("a\\\\b", Some('\\')), "a\\b");
    assert_eq!(unescape("trailing\\", Some('\\')), "trailing");
    assert_eq!(unescape("a\\ b", None), "a\\ b");
}

#[test]
fn common_prefix_and_suffix_are_counted_in_characters() {
    assert_eq!(longest_common_prefix("hello", "help"), 3);
    assert_eq!(longest_common_prefix("", "help"), 0);
    assert_eq!(longest_common_prefix("ñandú", "ñu"), 1);
    assert_eq!(longest_common_suffix("testing", "ring"), 3);
    assert_eq!(longest_common_suffix("abc", "abc"), 3);
    assert_eq!(longest_common_suffix("abc", ""), 0);
}

#[test]
fn fuzzy_search_keeps_what_resembles_the_term_best_first() {
    let set = vec![completion(0, "zzz"), completion(1, "carrot"), completion(2, "car"), completion(3, "cart")];
    let found = fuzzy_search(&set, "car");
    let names: Vec<&str> = found.iter().map(|c| c.replacement.as_str()).collect();
    assert_eq!(names, vec!["car", "cart", "carrot"]);
    let ranks: Vec<usize> = found.iter().map(|c| c.rank).collect();
    assert_eq!(ranks, vec![0, 1, 2]);
    assert_eq!(found[0].description, "about car");
    assert_eq!(rank_candidates(&set, "car"), vec![2, 3, 1]);
}

#[test]
fn fuzzy_search_breaks_ties_by_the_rank_before() {
    let set = vec![completion(0, "ab"), completion(5, "ab"), completion(9, "ab")];
    assert_eq!(rank_candidates(&set, "ab"), vec![0, 1, 2]);
    assert!(fuzzy_search(&set, "xyz").is_empty());
}

#[test]
fn completion_set_shows_the_search_until_cleared() {
    let mut set = CompletionSet::new(vec![completion(0, "alpha"), completion(1, "beta")]);
    assert!(!set.filtered());
    assert_eq!(set.current().len(), 2);
    set.update("bet");
    assert!(set.filtered());
    assert_eq!(set.current().len(), 1);
    assert_eq!(set.current()[0].replacement, "beta");
    set.clear();
    assert!(!set.filtered());
    assert_eq!(set.current().len(), 2);
}

#[test]
fn completer_gathers_sets_by_category() {
    let mut completer = Completer::new(vec![
        fixed("Files", Some(&["a", "b"])),
        fixed("Nothing", None),
        fixed("Users", Some(&["root"])),
        fixed("Files", Some(&["c"])),
    ]);
    let line: Vec<char> = "ls a".chars().collect();
    let all = completer.completions("a", &line);
    assert_eq!(all.start, "a");
    assert_eq!(all.line, "ls a");
    let categories: Vec<&str> = all.sets.iter().map(|s| s.0.as_str()).collect();
    assert_eq!(categories, vec!["Files", "Users"]);
    assert_eq!(all.sets[0].1.original_set.len(), 1);
    assert_eq!(all.sets[0].1.original_set[0].replacement, "c");
    assert_eq!(all.len(), 2);
    assert_eq!(all.pick_one().unwrap().replacement, "c");
}

#[test]
fn completions_without_proposals_pick_none() {
    let empty = Completions { sets: Vec::new(), start: String::new(), line: String::new() };
    assert_eq!(empty.len(), 0);
    assert!(empty.pick_one().is_none());
    let hollow = Completions {
        sets: vec![("Files".to_string(), CompletionSet::new(Vec::new()))],
        start: String::new(),
        line: String::new(),
    };
    assert!(hollow.pick_one().is_none());
}

#[test]
fn user_completion_proposes_under_its_name() {
    let mut engine = UserCompletion::new("name");
    assert_eq!(engine.category(), "name");
    assert_eq!(
        engine.completions("x", "x"),
        Some(vec![("test_file".to_string(), "test description".to_string())])
    );
}

#[test]
fn a_path_is_cut_after_its_last_separator() {
    assert_eq!(split_path("src/ma"), ("src/".to_string(), "ma".to_string()));
    assert_eq!(split_path("ma"), ("".to_string(), "ma".to_string()));
    assert_eq!(split_path("a/b/"), ("a/b/".to_string(), "".to_string()));
    assert_eq!(split_path("/"), ("/".to_string(), "".to_string()));
    assert_eq!(split_path(""), ("".to_string(), "".to_string()));
    assert_eq!(split_path("~/do"), ("~/".to_string(), "do".to_string()));
}

#[test]
fn file_names_that_begin_as_typed_are_proposed() {
    let entries = vec![
        ("main.rs".to_string(), EntryKind::File),
        ("mod dir".to_string(), EntryKind::Directory),
        ("ma ny".to_string(), EntryKind::Directory),
        ("lib.rs".to_string(), EntryKind::File),
        ("make".to_string(), EntryKind::Unknown),
    ];
    assert_eq!(
        filename_complete("src/ma", &entries, Some('\\'), &[' ']),
        vec![
            ("src/main.rs".to_string(), "File".to_string()),
            ("src/ma\\ ny/".to_string(), "Directory".to_string()),
            ("src/make".to_string(), "Unknown".to_string()),
        ]
    );
    assert_eq!(
        filename_complete("mod", &entries, None, &[' ']),
        vec![("mod dir/".to_string(), "Directory".to_string())]
    );
    assert_eq!(filename_complete("src/", &entries, Some('\\'), &[]).len(), 5);
    assert!(filename_complete("src/x", &entries, Some('\\'), &[' ']).is_empty());
    assert!(filename_complete("src/ma", &[], Some('\\'), &[' ']).is_empty());
}

#[test]
fn the_path_engine_proposes_escaped_paths() {
    let engine = PathCompletion::new();
    assert_eq!(engine.category(), "Files");
    assert_eq!(engine.directory_of("my\\ dir/fi"), "my dir/");
    assert_eq!(engine.directory_of("fi"), "");
    let entries = vec![("file one".to_string(), EntryKind::File), ("other".to_string(), EntryKind::File)];
    assert_eq!(
        engine.propose("my\\ dir/fi", &entries),
        Some(vec![("my\\ dir/file\\ one".to_string(), "File".to_string())])
    );
    assert_eq!(engine.propose("my\\ dir/zz", &entries), None);
}

#[test]
fn an_answer_becomes_the_set_of_its_category() {
    let list = vec![("one".to_string(), "first".to_string()), ("two".to_string(), "second".to_string())];
    let set = set_of(&list);
    assert_eq!(set.original_set.len(), 2);
    assert_eq!(set.original_set[0].rank, 0);
    assert_eq!(set.original_set[1].rank, 1);
    assert_eq!(set.original_set[1].replacement, "two");
    assert_eq!(set.original_set[1].description, "second");
    assert!(set.current_set.is_none());
    assert!(set_of(&[]).original_set.is_empty());
    let mut sets = Vec::new();
    add_answer(&mut sets, "Files".to_string(), Some(list.clone()));
    add_answer(&mut sets, "Users".to_string(), None);
    add_answer(&mut sets, "Hosts".to_string(), Some(Vec::new()));
    assert_eq!(sets.len(), 2);
    assert_eq!(sets[0].0, "Files");
    assert_eq!(sets[1].0, "Hosts");
    add_answer(&mut sets, "Files".to_string(), Some(vec![("three".to_string(), "third".to_string())]));
    assert_eq!(sets.len(), 2);
    assert_eq!(sets[0].1.original_set.len(), 1);
    assert_eq!(sets[0].1.original_set[0].replacement, "three");
}
