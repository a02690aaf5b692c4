use mac_dock::pinning::{
    is_pinned, move_pinned_item, parse_pinned, pin_item, pinned_file_content, unpin_item,
};

#[test]
fn pin_unpin_roundtrip() {
    let mut pinned = Vec::new();
    assert!(pin_item(&mut pinned, "firefox"));
    assert!(!pin_item(&mut pinned, "firefox")); // already pinned
    assert!(is_pinned(&pinned, "firefox"));
    assert!(unpin_item(&mut pinned, "firefox"));
    assert!(!is_pinned(&pinned, "firefox"));
}

#[test]
fn save_load_text_roundtrip() {
    let pinned = vec!["firefox".to_string(), "alacritty".to_string()];
    let text = pinned_file_content(&pinned);
    assert_eq!(text, "firefox\nalacritty\n");
    assert_eq!(parse_pinned(&text), pinned);
}

#[test]
fn load_skips_blank_lines_and_trims() {
    assert_eq!(parse_pinned("  a \n\n\tb\n   \n"), vec!["a", "b"]);
}

#[test]
fn unpin_removes_every_copy() {
    let mut pinned = vec!["a".to_string(), "b".to_string(), " a ".to_string()];
    assert!(unpin_item(&mut pinned, "a"));
    assert_eq!(pinned, vec!["b"]);
    assert!(!unpin_item(&mut pinned, "zzz"));
}

#[test]
fn pin_then_unpin_restores_list() {
    let mut pinned = vec!["x".to_string(), "y".to_string()];
    assert!(pin_item(&mut pinned, "z"));
    assert!(unpin_item(&mut pinned, "z"));
    assert_eq!(pinned, vec!["x", "y"]);
}

#[test]
fn move_pinned_item_reorders() {
    let mut p: Vec<String> = vec!["a".into(), "b".into(), "c".into()];
    assert!(move_pinned_item(&mut p, 0, 2));
    assert_eq!(p, vec!["b", "c", "a"]);
    assert!(move_pinned_item(&mut p, 2, 0));
    assert_eq!(p, vec!["a", "b", "c"]);
    assert!(move_pinned_item(&mut p, 1, 99));
    assert_eq!(p, vec!["a", "c", "b"]);
    assert!(!move_pinned_item(&mut p, 3, 0));
    assert_eq!(p, vec!["a", "c", "b"]);
}
