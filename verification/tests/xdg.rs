use mac_dock::xdg::{app_dirs, same_path_exec};

#[test]
fn default_application_directories() {
    assert_eq!(
        app_dirs("/home/u", None, None),
        vec![
            "/home/u/.local/share/applications",
            "/usr/local/share/applications",
            "/usr/share/applications",
            "/home/u/.local/share/flatpak/exports/share/applications",
            "/var/lib/flatpak/exports/share/applications",
        ]
    );
}

#[test]
fn data_home_and_data_dirs_are_used_once_each() {
    let dirs = app_dirs("/home/u", Some("/usr/share/"), Some("/usr/share:/opt//share/:/usr/share/"));
    assert_eq!(
        dirs,
        vec![
            "/usr/share/applications",
            "/opt//share/applications",
            "/home/u/.local/share/flatpak/exports/share/applications",
            "/var/lib/flatpak/exports/share/applications",
        ]
    );
}

#[test]
fn no_home_directory() {
    assert_eq!(
        app_dirs("", None, Some("/usr/share")),
        vec![
            "/usr/share/applications",
            ".local/share/flatpak/exports/share/applications",
            "/var/lib/flatpak/exports/share/applications",
        ]
    );
}

#[test]
fn paths_compare_by_components() {
    assert!(same_path_exec("/a/b", "/a//b/"));
    assert!(same_path_exec("/./a", "/a"));
    assert!(same_path_exec("a/./b", "a/b"));
    assert!(!same_path_exec("a", "./a"));
    assert!(!same_path_exec("/a", "a"));
    assert!(!same_path_exec("a/../b", "b"));
    assert!(!same_path_exec("", "."));
}
