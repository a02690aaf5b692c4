use mac_dock::desktop_entry::DesktopEntry;
use mac_dock::drawer::{
    clean_exec, closes_on_launch, command_words, desktop_id_of, exec_cut_ok, map_xdg_user_dirs, open_close_signal,
    parse_user_dir_line, pinned_items, pinned_per_line, power_bar_buttons, search_mode, truncate,
    DesktopFile, DrawerState, SearchMode,
};

#[test]
fn clean_exec_strips_field_codes() {
    assert_eq!(clean_exec("firefox %u"), "firefox");
    assert_eq!(clean_exec("code %F"), "code");
    assert_eq!(clean_exec("gimp"), "gimp");
}

#[test]
fn clean_exec_strips_quotes() {
    assert_eq!(clean_exec(r#""firefox" %u"#), "firefox");
    assert_eq!(clean_exec("'brave' --new-window"), "brave --new-window");
}

#[test]
fn clean_exec_trims_whitespace() {
    assert_eq!(clean_exec("  firefox  "), "firefox");
    assert_eq!(clean_exec(""), "");
}

#[test]
fn truncate_short_string() {
    assert_eq!(truncate("Hi", 20), "Hi");
}

#[test]
fn truncate_long_string() {
    let result = truncate("Very Long Application Name Here", 10);
    assert!(result.ends_with('…'));
    assert!(result.chars().count() <= 10);
}

#[test]
fn truncate_exact_length() {
    assert_eq!(truncate("12345", 5), "12345");
}

#[test]
fn truncate_unicode() {
    let result = truncate("日本語のアプリケーション名前テスト", 5);
    assert!(result.ends_with('…'));
    assert_eq!(result.chars().count(), 5);
}

#[test]
fn user_dirs_file() {
    assert_eq!(
        parse_user_dir_line("XDG_MUSIC_DIR=\"$HOME/Tunes\"", "/home/u").as_deref(),
        Some("/home/u/Tunes")
    );
    assert!(parse_user_dir_line("# comment", "/home/u").is_none());
    let text = "# written by xdg-user-dirs-update\nXDG_DOCUMENTS_DIR=\"$HOME/Docs\"\n  XDG_VIDEOS_DIR=\"/media/v\"\nXDG_DESKTOP_DIR=\"$HOME/Desktop\"\n";
    let dirs = map_xdg_user_dirs("/home/u", Some(text));
    let get = |k: &str| dirs.iter().find(|(n, _)| n == k).map(|(_, p)| p.clone()).unwrap();
    assert_eq!(get("home"), "/home/u");
    assert_eq!(get("documents"), "/home/u/Docs");
    assert_eq!(get("downloads"), "/home/u/Downloads");
    assert_eq!(get("videos"), "/media/v");
    assert_eq!(dirs.len(), 6);
}

#[test]
fn power_bar_skips_empty_commands() {
    let b = power_bar_buttons("swaylock", "", "systemctl reboot", "", "systemctl poweroff");
    assert_eq!(
        b,
        vec![
            ("system-lock-screen", "swaylock".to_string()),
            ("system-reboot", "systemctl reboot".to_string()),
            ("system-shutdown", "systemctl poweroff".to_string()),
        ]
    );
    assert_eq!(command_words(" systemctl  reboot"), Some(vec!["systemctl".to_string(), "reboot".to_string()]));
}

#[test]
fn search_modes() {
    assert!(matches!(search_mode("", true), SearchMode::Normal { rebuild: true }));
    assert!(matches!(search_mode("", false), SearchMode::Normal { rebuild: false }));
    match search_mode(":ls -l", true) {
        SearchMode::Command { status } => assert_eq!(status, "Execute \"ls -l\""),
        _ => panic!(),
    }
    match search_mode(":", true) {
        SearchMode::Command { status } => assert_eq!(status, "Execute a command"),
        _ => panic!(),
    }
    assert!(matches!(search_mode("fire", false), SearchMode::Search));
    assert!(closes_on_launch(false));
    assert_eq!(open_close_signal(true, true), Some(36));
    assert_eq!(open_close_signal(false, true), Some(37));
    assert_eq!(pinned_per_line(10, 6), Some(6));
    assert_eq!(pinned_per_line(3, 6), Some(3));
    assert_eq!(pinned_per_line(0, 6), None);
}

fn file(id: &str, content: Option<&str>) -> DesktopFile {
    DesktopFile { id: id.to_string(), content: content.map(|c| c.to_string()) }
}

#[test]
fn load_entries_first_wins_and_sorts() {
    let mut state = DrawerState::new(vec!["/usr/share/applications".to_string()], Vec::new());
    let files = vec![
        file("zed", Some("[Desktop Entry]\nName=zed\nCategories=Development;\n")),
        file("alpha", Some("[Desktop Entry]\nName=Alpha\nCategories=Game;\nNoDisplay=true\n")),
        file("zed", Some("[Desktop Entry]\nName=Other zed\n")),
        file("broken", None),
        file("broken", Some("[Desktop Entry]\nName=Broken\n")),
        file("beta", Some("[Desktop Entry]\nName=beta\nCategories=Development;\n")),
    ];
    state.load_desktop_entries(&files, "", "");
    let names: Vec<&str> = state.desktop_entries.iter().map(|e| e.name.as_str()).collect();
    assert_eq!(names, vec!["Alpha", "beta", "zed"]);
    assert_eq!(state.id2entry.len(), 3);
    assert_eq!(state.category_list("Development"), vec!["zed", "beta"]);
    assert!(state.category_list("Game").is_empty());
}

fn entry(id: &str, name: &str, icon: &str, exec: &str, terminal: bool) -> DesktopEntry {
    DesktopEntry {
        desktop_id: id.to_string(),
        name: name.to_string(),
        name_loc: String::new(),
        comment: String::new(),
        comment_loc: String::new(),
        icon: icon.to_string(),
        exec_cmd: exec.to_string(),
        category: String::new(),
        terminal,
        no_display: false,
    }
}

#[test]
fn pinned_row_items() {
    let entries = vec![
        entry("htop", "Htop process viewer with a long name", "htop", "htop", true),
        entry("firefox", "Firefox", "", "\"firefox\" %u", false),
    ];
    let pinned = vec!["firefox".to_string(), "gone".to_string(), "htop".to_string()];
    let items = pinned_items(&pinned, &entries, "foot");
    assert_eq!(items.len(), 2);
    assert_eq!(items[0].desktop_id, "firefox");
    assert!(items[0].icon.is_none());
    assert_eq!(items[0].command, "firefox %u");
    assert_eq!(items[1].label, "Htop process viewer…");
    assert_eq!(items[1].command, "foot -e htop");
    assert_eq!(items[1].icon.as_deref(), Some("htop"));
}

#[test]
fn desktop_ids_from_file_names() {
    assert_eq!(desktop_id_of("firefox.desktop").as_deref(), Some("firefox"));
    assert_eq!(desktop_id_of("org.gnome.Nautilus.desktop").as_deref(), Some("org.gnome.Nautilus"));
    assert_eq!(desktop_id_of(".desktop"), None);
    assert_eq!(desktop_id_of("notes.txt"), None);
    assert_eq!(desktop_id_of("x.desktop.bak"), None);
}

#[test]
fn exec_cut_needs_a_one_byte_character_before_the_field_code() {
    assert!(exec_cut_ok("firefox %u"));
    assert!(exec_cut_ok("%u"));
    assert!(exec_cut_ok("gimp"));
    assert!(exec_cut_ok("\"app\"%u"));
    assert!(!exec_cut_ok("caf\u{e9}%u"));
}
