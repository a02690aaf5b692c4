use mac_dock::desktop_entry::DesktopEntry;
use mac_dock::search::{
    file_verdict, result_label, search_roots, shows_in_grid, sort_names, subsequence_match,
    FileVerdict,
};

fn entry(id: &str, name: &str, comment: &str, exec: &str) -> DesktopEntry {
    DesktopEntry {
        desktop_id: id.to_string(),
        name: name.to_string(),
        name_loc: name.to_string(),
        comment: comment.to_string(),
        comment_loc: comment.to_string(),
        exec_cmd: exec.to_string(),
        ..Default::default()
    }
}

#[test]
fn subsequence_matches_letters_in_order() {
    assert!(subsequence_match("ffx", "Firefox"));
    assert!(subsequence_match("", "anything"));
    assert!(subsequence_match("term", "Terminal"));
    assert!(!subsequence_match("xff", "Firefox"));
    assert!(!subsequence_match("firefoxx", "Firefox"));
}

#[test]
fn grid_filters_by_subsequence_and_description() {
    let e = entry("firefox", "Firefox", "Web Browser", "firefox %u");
    assert!(shows_in_grid(&e, None, "ffx"));
    assert!(shows_in_grid(&e, None, "BROWSER"));
    assert!(shows_in_grid(&e, None, "%u"));
    assert!(!shows_in_grid(&e, None, "mail"));
}

#[test]
fn grid_without_phrase_follows_category() {
    let e = entry("firefox", "Firefox", "", "firefox");
    let ids = vec!["gimp".to_string(), "firefox".to_string()];
    let other = vec!["gimp".to_string()];
    assert!(shows_in_grid(&e, None, ""));
    assert!(shows_in_grid(&e, Some(&ids), ""));
    assert!(!shows_in_grid(&e, Some(&other), ""));
}

#[test]
fn grid_never_shows_hidden_entries() {
    let mut e = entry("hidden", "Hidden", "", "hidden");
    e.no_display = true;
    assert!(!shows_in_grid(&e, None, ""));
    assert!(!shows_in_grid(&e, None, "hid"));
}

#[test]
fn file_verdicts() {
    let exclusions = vec!["node_modules".to_string()];
    assert_eq!(file_verdict("proj/node_modules/x.js", "x", &exclusions), FileVerdict::Excluded);
    assert_eq!(file_verdict("Notes/Report.PDF", "report", &exclusions), FileVerdict::Matched);
    assert_eq!(file_verdict("Notes/todo.txt", "report", &exclusions), FileVerdict::Unmatched);
    assert_eq!(file_verdict("a", "a", &vec![String::new()]), FileVerdict::Excluded);
}

#[test]
fn home_is_not_a_search_root() {
    let dirs = vec![
        ("home".to_string(), "/home/u".to_string()),
        ("documents".to_string(), "/home/u/Documents".to_string()),
        ("music".to_string(), "/home/u/Music".to_string()),
    ];
    assert_eq!(
        search_roots(&dirs),
        vec![
            ("documents".to_string(), "/home/u/Documents".to_string()),
            ("music".to_string(), "/home/u/Music".to_string()),
        ]
    );
}

#[test]
fn result_labels_cut_long_names() {
    assert_eq!(result_label("short.txt", 80), ("short.txt".to_string(), false));
    assert_eq!(result_label("abcdef", 6), ("abcdef".to_string(), false));
    assert_eq!(result_label("abcdefg", 6), ("abcde…".to_string(), true));
    assert_eq!(result_label("abc", 0), ("…".to_string(), true));
}

#[test]
fn file_results_sorted_alphabetically() {
    let names = vec!["b.txt", "A.txt", "a.txt", "b.txt", "Notes/x"]
        .into_iter()
        .map(String::from)
        .collect::<Vec<_>>();
    let sorted = sort_names(names);
    assert_eq!(sorted, vec!["A.txt", "Notes/x", "a.txt", "b.txt", "b.txt"]);
}
