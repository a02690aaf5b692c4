use mac_dock::desktop_entry::{content_lines, parse_desktop_entry, parse_keypair};
use mac_dock::desktop_search::{
    desktop_file_candidates, exec_lines_cut_ok, get_exec, get_exec_checked, get_icon, get_name,
    get_name_checked, name_lines_cut_ok, needle_for_startup_class,
    search_desktop_contents, search_desktop_dirs, uses_fuzzy_search,
};

#[test]
fn parse_basic_entry() {
    let desktop = "[Desktop Entry]\n\
        Name=Firefox\n\
        Comment=Web Browser\n\
        Icon=firefox\n\
        Exec=firefox %u\n\
        Categories=Network;WebBrowser;\n\
        Terminal=false\n";
    let entry = parse_desktop_entry("firefox", desktop, "", "");
    assert_eq!(entry.name, "Firefox");
    assert_eq!(entry.icon, "firefox");
    assert_eq!(entry.exec_cmd, "firefox %u");
    assert!(!entry.terminal);
    assert!(!entry.no_display);
}

#[test]
fn stops_at_non_desktop_entry_section() {
    let desktop = "[Desktop Entry]\n\
        Name=App\n\
        Icon=app\n\
        [Desktop Action New]\n\
        Name=Should Not Parse\n";
    let entry = parse_desktop_entry("app", desktop, "", "");
    assert_eq!(entry.name, "App");
}

#[test]
fn hidden_sets_no_display() {
    let desktop = "[Desktop Entry]\n\
        Name=Hidden\n\
        Hidden=true\n";
    let entry = parse_desktop_entry("hidden", desktop, "", "");
    assert!(entry.no_display);
}

#[test]
fn whitespace_handling() {
    let desktop = "[Desktop Entry]\n\
        Name  =  Spaced App  \n\
        Icon = spaced-icon \n";
    let entry = parse_desktop_entry("spaced", desktop, "", "");
    assert_eq!(entry.name, "Spaced App");
    assert_eq!(entry.icon, "spaced-icon");
}

#[test]
fn localized_names_and_fallbacks() {
    let desktop = "[Desktop Entry]\nName=Files\nName[de]=Dateien\nComment=Browse\nExec=\"nautilus\" '--new'\n";
    let e = parse_desktop_entry("org.gnome.Nautilus", desktop, "de_DE.UTF-8", "");
    assert_eq!(e.name_loc, "Dateien");
    assert_eq!(e.comment_loc, "Browse");
    assert_eq!(e.exec_cmd, "nautilus --new");
    assert_eq!(e.desktop_id, "org.gnome.Nautilus");
    let e = parse_desktop_entry("x", desktop, "fr_FR", "");
    assert_eq!(e.name_loc, "Files");
}

#[test]
fn show_in_rules() {
    let only = "[Desktop Entry]\nName=A\nOnlyShowIn=GNOME;KDE;\n";
    assert!(!parse_desktop_entry("a", only, "", "KDE").no_display);
    assert!(parse_desktop_entry("a", only, "", "Hyprland").no_display);
    assert!(parse_desktop_entry("a", only, "", "").no_display);
    let not = "[Desktop Entry]\nName=A\nNotShowIn=Hyprland;\n";
    assert!(parse_desktop_entry("a", not, "", "Hyprland").no_display);
    assert!(!parse_desktop_entry("a", not, "", "sway").no_display);
}

#[test]
fn keypairs() {
    assert_eq!(
        parse_keypair(" Key = a=b "),
        Some(("Key".to_string(), "a=b".to_string()))
    );
    assert!(parse_keypair("=value").is_none());
    assert!(parse_keypair("no pair").is_none());
}

#[test]
fn lines_like_bufread() {
    assert_eq!(content_lines("a\r\nb\n"), vec!["a", "b"]);
    assert_eq!(content_lines("a\n\nb"), vec!["a", "", "b"]);
    assert!(content_lines("").is_empty());
}

fn listing(v: &[&[&str]]) -> Vec<Vec<String>> {
    v.iter().map(|d| d.iter().map(|s| s.to_string()).collect()).collect()
}

#[test]
fn desktop_search_passes() {
    let dirs = listing(&[&["gimp.desktop", "org.gimp.GIMP.desktop"], &["Firefox.desktop"]]);
    let hit = search_desktop_dirs("GIMP", &dirs).unwrap();
    assert_eq!((hit.pass, hit.dir_index, hit.entry_index), (1, 0, 1));
    let hit = search_desktop_dirs("firefox", &dirs).unwrap();
    assert_eq!((hit.pass, hit.dir_index, hit.entry_index), (2, 1, 0));
    let hit = search_desktop_dirs("gimp 2.10", &dirs).unwrap();
    assert_eq!(hit.pass, 4);
    let hit = search_desktop_dirs("gimp-2.9.9", &dirs).unwrap();
    assert_eq!((hit.pass, hit.dir_index, hit.entry_index), (3, 0, 0));
    let only_gimp = listing(&[&["gimp.desktop"]]);
    let hit = search_desktop_dirs("gimp-2.9.9", &only_gimp).unwrap();
    assert_eq!((hit.pass, hit.dir_index, hit.entry_index), (3, 0, 0));
    assert!(search_desktop_dirs("code", &dirs).is_none());
    assert_eq!(needle_for_startup_class("Code Insiders"), "StartupWMClass=Code");
}

#[test]
fn candidate_paths() {
    let dirs = vec!["/usr/share/applications".to_string()];
    assert_eq!(
        desktop_file_candidates("Foot", &dirs),
        vec![
            "/usr/share/applications/Foot.desktop".to_string(),
            "/usr/share/applications/foot.desktop".to_string()
        ]
    );
    assert!(!uses_fuzzy_search("/opt/app"));
    assert!(uses_fuzzy_search("app"));
}

fn lines(v: &[&str]) -> Option<Vec<String>> {
    Some(v.iter().map(|s| s.to_string()).collect())
}

#[test]
fn icon_exec_and_name_from_lines() {
    let l = lines(&["[Desktop Entry]", "Name=Terminal", "Icon=foot=x", "Exec=foot --server %U"]);
    assert_eq!(get_icon("foot", l.clone()).as_deref(), Some("foot"));
    assert_eq!(get_icon("GIMP-2.10 beta", None).as_deref(), Some("gimp"));
    assert_eq!(get_exec("foot", l.clone()).as_deref(), Some("foot --server"));
    assert_eq!(get_exec("gimp-2", lines(&["Name=x"])).as_deref(), Some("gimp"));
    assert!(get_exec("foot", None).is_none());
    assert_eq!(get_name("foot", l), "Terminal");
    assert_eq!(get_name("foot", None), "foot");
}

#[test]
fn lines_that_cannot_be_cut_are_refused() {
    let short = vec!["EXEC".to_string()];
    let wide = vec!["Exec=caf\u{e9}%u".to_string()];
    let fine = vec!["Exec=cafe %u".to_string()];
    assert!(!exec_lines_cut_ok(&short));
    assert!(!exec_lines_cut_ok(&wide));
    assert!(exec_lines_cut_ok(&fine));
    assert!(exec_lines_cut_ok(&vec!["Name=x".to_string()]));
    assert!(get_exec_checked("x", Some(short)).is_none());
    assert!(get_exec_checked("x", Some(wide)).is_none());
    assert_eq!(get_exec_checked("x", Some(fine)), Some(Some("cafe".to_string())));
    assert_eq!(get_exec_checked("x", None), Some(None));

    let bad_name = vec!["NAME=".to_string(), "Name=Other".to_string()];
    assert!(name_lines_cut_ok(&bad_name));
    assert_eq!(get_name_checked("x", Some(bad_name)), Some(String::new()));
    assert_eq!(get_name_checked("x", Some(vec!["name=Files".to_string()])), Some("Files".to_string()));
    assert_eq!(get_name_checked("x", None), Some("x".to_string()));
}

#[test]
fn desktop_contents_pass_finds_startup_class() {
    let contents = vec![
        vec![None, Some("[Desktop Entry]\nName=Editor\n".to_string())],
        vec![Some("StartupWMClass=Code\n".to_string()), Some("StartupWMClass=Code\n".to_string())],
    ];
    assert_eq!(search_desktop_contents("Code Insiders", &contents), Some((1, 0)));
    assert_eq!(search_desktop_contents("kitty", &contents), None);
}
