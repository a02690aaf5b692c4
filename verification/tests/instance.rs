use mac_dock::instance::{
    dump_args_from_cmdline, dump_args_request, hex_bytes, join_args, md5_hash, lock_file_name, parse_pid,
    parse_u32, proc_path, DumpArgsRequest, LockFile,
};

fn strings(v: &[&str]) -> Vec<String> {
    v.iter().map(|s| s.to_string()).collect()
}

#[test]
fn shell_quoting_preserves_spaces() {
    let args = strings(&["cmd", "arg with spaces"]);
    let joined = join_args(&args);
    assert_eq!(joined, "cmd 'arg with spaces'");
}

#[test]
fn shell_quoting_preserves_nested_quotes() {
    let args = vec![
        "nwg-drawer".to_string(),
        "-c".to_string(),
        r#"nwg-dialog -p exit -c "loginctl terminate-user \"\"""#.to_string(),
    ];
    let joined = join_args(&args);
    let split = shell_words::split(&joined).unwrap();
    assert_eq!(split, args);
}

#[test]
fn empty_cmdline_gives_nothing() {
    assert!(dump_args_from_cmdline(b"").is_none());
    // One empty argument is still an argument.
    assert_eq!(dump_args_from_cmdline(b"\0").as_deref(), Some("''"));
}

#[test]
fn cmdline_is_split_at_nul_bytes() {
    assert_eq!(
        dump_args_from_cmdline(b"mac-dock\0-d\0--ico\0my icon\0").as_deref(),
        Some("mac-dock -d --ico 'my icon'")
    );
    assert_eq!(dump_args_from_cmdline(b"a\0\0b").as_deref(), Some("a '' b"));
}

#[test]
fn dump_args_flag() {
    assert!(matches!(dump_args_request(&strings(&["prog", "-d"])), DumpArgsRequest::NotRequested));
    assert!(matches!(dump_args_request(&strings(&["prog", "--dump-args", "42"])), DumpArgsRequest::Pid(42)));
    assert!(matches!(dump_args_request(&strings(&["prog", "--dump-args", "x"])), DumpArgsRequest::Usage));
    assert!(matches!(dump_args_request(&strings(&["prog", "--dump-args"])), DumpArgsRequest::Usage));
}

#[test]
fn numbers_parse_like_std() {
    for s in ["0", "+7", "4294967295", "", "+", "-1", "4294967296", " 1", "12a"] {
        assert_eq!(parse_u32(s), s.parse::<u32>().ok(), "input {:?}", s);
    }
    assert_eq!(parse_pid(" 1234\n"), Some(1234));
}

#[test]
fn lock_names() {
    assert_eq!(hex_bytes(&[0x0a, 0xbc, 0xff]), "0abcff");
    assert_eq!(hex_bytes(&[]), "");
    assert_eq!(md5_hash(""), "d41d8cd98f00b204e9800998ecf8427e");
    assert_eq!(md5_hash("abc"), "900150983cd24fb0d6963f7d28e17f72");
    assert_eq!(lock_file_name("mac-dock", "abc"), "mac-dock-900150983cd24fb0d6963f7d28e17f72.lock");
    assert_eq!(proc_path(77), "/proc/77");
    let l = LockFile { path: "/tmp/x.lock".to_string() };
    assert_eq!(l.path(), "/tmp/x.lock");
}
