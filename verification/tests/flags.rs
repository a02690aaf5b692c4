use mac_dock::flags::normalize_legacy_flags;

const TEST_FLAGS: &[&str] = &["hd", "ico", "opacity", "wm"];

fn args(v: &[&str]) -> Vec<String> {
    v.iter().map(|s| s.to_string()).collect()
}

#[test]
fn converts_single_dash_flag() {
    let result = normalize_legacy_flags(args(&["test", "-hd", "50"]), TEST_FLAGS);
    assert_eq!(result, vec!["test", "--hd", "50"]);
}

#[test]
fn converts_flag_with_equals() {
    let result = normalize_legacy_flags(args(&["test", "-hd=50", "-ico=launcher"]), TEST_FLAGS);
    assert_eq!(result, vec!["test", "--hd=50", "--ico=launcher"]);
}

#[test]
fn preserves_double_dash() {
    let result = normalize_legacy_flags(args(&["test", "--hd", "50"]), TEST_FLAGS);
    assert_eq!(result, vec!["test", "--hd", "50"]);
}

#[test]
fn preserves_unknown_single_dash() {
    let result = normalize_legacy_flags(args(&["test", "-x"]), TEST_FLAGS);
    assert_eq!(result, vec!["test", "-x"]);
}

#[test]
fn preserves_single_char_flags() {
    let result = normalize_legacy_flags(args(&["test", "-d"]), TEST_FLAGS);
    assert_eq!(result, vec!["test", "-d"]);
}

#[test]
fn converts_v_to_version() {
    let result = normalize_legacy_flags(args(&["test", "-v"]), TEST_FLAGS);
    assert_eq!(result, vec!["test", "--version"]);
}

#[test]
fn stops_normalizing_after_double_dash() {
    let result = normalize_legacy_flags(args(&["test", "--", "-v", "-hd"]), TEST_FLAGS);
    assert_eq!(result, vec!["test", "--", "-v", "-hd"]);
}

#[test]
fn normalization_keeps_argument_count() {
    let input = args(&["prog", "-wm", "sway", "-opacity=50", "--", "-ico"]);
    let result = normalize_legacy_flags(input.clone(), TEST_FLAGS);
    assert_eq!(result.len(), input.len());
    assert_eq!(result[5], "-ico");
}
