use mac_dock::compositor::{HyprClient, WmWorkspace};
use mac_dock::notifications::{
    dnd_button_icon, dnd_durations, dnd_menu_choice, dnd_timer_expired, focus_target,
    group_count_label, group_icon_name, is_top_position, parse_actions, popup_offset,
    resolve_timeout, urgency_value, FocusTarget, Notification, NotificationConfig, PopupPosition,
    NotificationHistory, PopupStack, Urgency,
};

fn config_from(args: &[&str]) -> NotificationConfig {
    // The daemon's flags are declared with clap's builder here, as the
    // binary declares them; the library holds the defaults.
    let m = clap::Command::new("mac-notifications")
        .arg(clap::Arg::new("dnd").long("dnd").action(clap::ArgAction::SetTrue))
        .try_get_matches_from(args)
        .unwrap();
    NotificationConfig { dnd: m.get_flag("dnd"), ..NotificationConfig::default() }
}

#[test]
fn defaults() {
    let config = config_from(&["test"]);
    assert_eq!(config.popup_position, PopupPosition::TopRight);
    assert_eq!(config.popup_timeout, 7000);
    assert_eq!(config.max_history, 200);
    assert!(!config.dnd);
}

#[test]
fn dnd_flag() {
    let config = config_from(&["test", "--dnd"]);
    assert!(config.dnd);
}

#[test]
fn urgency_from_u8() {
    assert_eq!(Urgency::from(0), Urgency::Low);
    assert_eq!(Urgency::from(1), Urgency::Normal);
    assert_eq!(Urgency::from(2), Urgency::Critical);
    assert_eq!(Urgency::from(255), Urgency::Normal);
}

#[test]
fn urgency_wire_values_roundtrip() {
    for u in [Urgency::Low, Urgency::Normal, Urgency::Critical] {
        assert_eq!(Urgency::from(urgency_value(u)), u);
    }
}

#[test]
fn parse_actions_pairs() {
    let flat: Vec<String> = vec![
        "reply".into(),
        "Reply".into(),
        "dismiss".into(),
        "Dismiss".into(),
    ];
    let actions = parse_actions(&flat);
    assert_eq!(actions.len(), 2);
    assert_eq!(actions[0], ("reply".into(), "Reply".into()));
}

#[test]
fn parse_actions_odd_length() {
    let flat: Vec<String> = vec!["only-one".into()];
    let actions = parse_actions(&flat);
    assert!(actions.is_empty());
}

fn notification(urgency: Urgency, timeout_ms: i32) -> Notification {
    Notification {
        id: 1,
        app_name: "app".to_string(),
        app_icon: String::new(),
        summary: "s".to_string(),
        body: String::new(),
        actions: Vec::new(),
        urgency,
        timeout_ms,
        timestamp: std::time::SystemTime::UNIX_EPOCH,
        read: false,
        desktop_entry: None,
    }
}

#[test]
fn timeouts() {
    assert_eq!(resolve_timeout(&notification(Urgency::Critical, 5000), 7000), 0);
    assert_eq!(resolve_timeout(&notification(Urgency::Normal, 5000), 7000), 5000);
    assert_eq!(resolve_timeout(&notification(Urgency::Low, 0), 7000), 7000);
    assert_eq!(resolve_timeout(&notification(Urgency::Low, -1), 7000), 7000);
}

#[test]
fn popup_stack_offsets() {
    assert_eq!(popup_offset(0), 12);
    assert_eq!(popup_offset(1), 94);
    assert_eq!(popup_offset(3), 258);
    assert!(is_top_position(PopupPosition::TopLeft));
    assert!(!is_top_position(PopupPosition::BottomRight));
}

#[test]
fn popup_stack_evicts_oldest() {
    let mut s = PopupStack::new();
    for id in 1..=5 {
        s.push(id);
    }
    let gone = s.make_room(5);
    assert_eq!(gone, vec![1]);
    s.push(6);
    assert_eq!(s.ids, vec![2, 3, 4, 5, 6]);
    assert_eq!(s.make_room(3), vec![2, 3, 4]);
    assert_eq!(s.ids, vec![5, 6]);
    assert_eq!(s.make_room(0), vec![5, 6]);
    assert!(s.ids.is_empty());
}

#[test]
fn popup_dismiss_and_restack() {
    let mut s = PopupStack::new();
    s.push(10);
    s.push(11);
    s.push(12);
    assert!(s.dismiss(11));
    assert!(!s.dismiss(99));
    assert_eq!(s.ids, vec![10, 12]);
    assert_eq!(s.offsets(), vec![12, 94]);
}

#[test]
fn dnd_menu() {
    let d = dnd_durations();
    assert_eq!(d.len(), 4);
    assert_eq!(d[3], (480, "Until tomorrow morning"));
    let u = dnd_menu_choice(false, 0);
    assert!(u.dnd && u.expires_in_secs.is_none());
    let u = dnd_menu_choice(true, 60);
    assert!(u.dnd);
    assert_eq!(u.expires_in_secs, Some(3600));
    assert_eq!(dnd_timer_expired(true, true), (false, false));
    assert_eq!(dnd_timer_expired(true, false), (true, false));
    assert_eq!(dnd_button_icon(true), "notifications-disabled-symbolic");
}

#[test]
fn panel_group_labels() {
    assert_eq!(group_count_label(12), "12");
    assert_eq!(group_icon_name("mail", None), "mail");
    assert_eq!(group_icon_name("/usr/x.png", Some("thunderbird".to_string())), "thunderbird");
    assert_eq!(group_icon_name("", Some("/p.png".to_string())), "dialog-information");
    assert_eq!(group_icon_name("", None), "dialog-information");
}

fn client(class: &str, address: &str) -> HyprClient {
    HyprClient {
        address: address.to_string(),
        class: class.to_string(),
        initial_class: class.to_string(),
        title: String::new(),
        pid: 1,
        workspace: WmWorkspace { id: 1, name: "1".to_string() },
        floating: false,
        monitor: 0,
        fullscreen: 0,
    }
}

#[test]
fn focus_matches_by_class() {
    let clients = vec![client("kitty", "0x1"), client("brave-browser", "0x2")];
    match focus_target("Brave", None, &clients) {
        FocusTarget::Focus(a) => assert_eq!(a, "0x2"),
        _ => panic!("expected a focus"),
    }
    match focus_target("Slack", Some("com.slack.Slack"), &clients) {
        FocusTarget::Launch(c) => assert_eq!(c, "com.slack.Slack"),
        _ => panic!("expected a launch"),
    }
    match focus_target("kitty terminal", Some("KITTY"), &clients) {
        FocusTarget::Focus(a) => assert_eq!(a, "0x1"),
        _ => panic!("expected a focus"),
    }
}

fn notif(id: u32, app: &str, icon: &str) -> Notification {
    Notification {
        id,
        app_name: app.to_string(),
        app_icon: icon.to_string(),
        summary: format!("s{}", id),
        body: String::new(),
        actions: Vec::new(),
        urgency: Urgency::Normal,
        timeout_ms: -1,
        timestamp: std::time::SystemTime::UNIX_EPOCH,
        read: false,
        desktop_entry: None,
    }
}

fn history_ids(h: &NotificationHistory) -> Vec<u32> {
    h.items.iter().map(|n| n.id).collect()
}

#[test]
fn history_drops_oldest_beyond_limit() {
    let mut h = NotificationHistory::new();
    h.push(notif(1, "a", ""), 2);
    h.push(notif(2, "b", ""), 2);
    h.push(notif(3, "a", ""), 2);
    assert_eq!(history_ids(&h), vec![2, 3]);
    h.push(notif(4, "c", ""), 0);
    assert!(h.items.is_empty());
}

#[test]
fn history_remove_and_dismiss_app() {
    let mut h = NotificationHistory::new();
    for (id, app) in [(1, "a"), (2, "b"), (3, "a"), (4, "c")] {
        h.push(notif(id, app, ""), 10);
    }
    assert!(h.remove(2));
    assert!(!h.remove(9));
    assert_eq!(history_ids(&h), vec![1, 3, 4]);
    h.dismiss_app("a");
    assert_eq!(history_ids(&h), vec![4]);
}

#[test]
fn panel_groups_by_first_appearance() {
    let mut h = NotificationHistory::new();
    assert!(h.panel_groups(&Vec::new()).is_empty());
    h.push(notif(1, "mail", "/x.png"), 10);
    h.push(notif(2, "chat", "chat-icon"), 10);
    h.push(notif(3, "mail", "mail-icon"), 10);
    let icons = vec![Some("thunderbird".to_string()), None, None];
    let g = h.panel_groups(&icons);
    assert_eq!(g.len(), 2);
    assert_eq!(g[0].app_name, "mail");
    assert_eq!(g[0].icon, "thunderbird");
    assert_eq!(g[0].count_label, "2");
    assert_eq!(g[0].ids, vec![1, 3]);
    assert_eq!(g[1].app_name, "chat");
    assert_eq!(g[1].icon, "chat-icon");
    assert_eq!(g[1].count_label, "1");
    assert_eq!(g[1].ids, vec![2]);
}
