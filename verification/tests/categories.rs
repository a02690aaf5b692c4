use mac_dock::categories::{assign_categories, assign_category, default_categories};

#[test]
fn assigns_known_category() {
    assert_eq!(assign_category("Network;WebBrowser;"), "Network");
    assert_eq!(assign_category("Development;IDE;"), "Development");
}

#[test]
fn assigns_other_for_unknown() {
    assert_eq!(assign_category("FooBar;Baz;"), "Other");
    assert_eq!(assign_category(""), "Other");
}

#[test]
fn assigns_secondary_categories() {
    assert_eq!(assign_category("Science;Math;"), "Office");
    assert_eq!(assign_category("Education;"), "Office");
    assert_eq!(assign_category("Settings;DesktopSettings;"), "System");
    assert_eq!(assign_category("Audio;Player;"), "AudioVideo");
    assert_eq!(assign_category("PackageManager;"), "System");
}

#[test]
fn multi_category_assignment() {
    let cats = assign_categories("Development;Network;");
    assert!(cats.contains(&"Development"));
    assert!(cats.contains(&"Network"));
    assert_eq!(cats.len(), 2);
}

#[test]
fn multi_category_dedup() {
    // Audio and AudioVideo both map to AudioVideo — should appear once
    let cats = assign_categories("Audio;AudioVideo;");
    assert_eq!(cats, vec!["AudioVideo"]);
}

#[test]
fn assignment_never_empty_and_unique() {
    for field in ["", ";;;", "Game;Game;Game;", "Utility;Video;Audio;Network;"] {
        let cats = assign_categories(field);
        assert!(!cats.is_empty());
        for (i, a) in cats.iter().enumerate() {
            for b in &cats[i + 1..] {
                assert_ne!(a, b);
            }
        }
    }
}

#[test]
fn default_categories_are_the_main_ones() {
    let cats = default_categories();
    assert!(!cats.is_empty());
    assert!(cats.iter().any(|c| c.name == "Development"));
}
