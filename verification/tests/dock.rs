use mac_dock::compositor::{WmClient, WmWorkspace};
use mac_dock::dock::{
    build, eq_ignore_ascii_case_exec, resolve_mode_flags, scale_icon_size,
    signal_for_running_instance, sort_clients_exec, task_instances, DockButton, DockConfig,
    Placement,
};
use mac_dock::dock_actions::{
    app_menu_actions, apply_dock_action, focus_window_requests, indicator_asset, indicator_first,
    indicator_size, instance_label, launcher_command, parse_dock_action, truncate_title,
    window_menu_actions, DockAction,
};

fn client(id: &str, class: &str, ws: i32, ws_name: &str) -> WmClient {
    WmClient {
        id: id.to_string(),
        class: class.to_string(),
        initial_class: String::new(),
        title: format!("{} window", class),
        pid: 1,
        workspace: WmWorkspace { id: ws, name: ws_name.to_string() },
        floating: false,
        monitor_id: 0,
        fullscreen: false,
    }
}

fn strings(v: &[&str]) -> Vec<String> {
    v.iter().map(|s| s.to_string()).collect()
}

#[test]
fn config_lists_and_modes() {
    let mut c = DockConfig::default();
    assert!(!c.is_vertical());
    c.position = "left".to_string();
    assert!(c.is_vertical());
    c.ignore_workspaces = " 3, special:magic ,x".to_string();
    assert_eq!(c.ignored_workspaces(), vec!["3", "special:magic", "x"]);
    c.ignore_classes = "steam  discord".to_string();
    assert_eq!(c.ignored_classes(), vec!["steam", "", "discord"]);
    assert!(DockConfig::default().ignored_classes().is_empty());
    c.autohide = true;
    c.resident = true;
    assert!(c.is_resident_mode());
    resolve_mode_flags(&mut c);
    assert!(!c.autohide && c.resident);
    assert_eq!(signal_for_running_instance(&c), None);
    assert_eq!(signal_for_running_instance(&DockConfig::default()), Some(35));
}

#[test]
fn ascii_case_insensitive_instances() {
    assert!(eq_ignore_ascii_case_exec("Firefox", "firefox"));
    assert!(!eq_ignore_ascii_case_exec("Ä", "ä"));
    let clients = vec![client("1", "Firefox", 1, "1"), client("2", "kitty", 1, "1"), client("3", "firefox", 2, "2")];
    let inst = task_instances(&clients, "FIREFOX");
    assert_eq!(inst.len(), 2);
    assert_eq!(inst[1].id, "3");
}

#[test]
fn clients_sort_by_workspace_then_class_stably() {
    let clients = vec![
        client("a", "zed", 2, "2"),
        client("b", "alpha", 2, "2"),
        client("c", "zed", 1, "1"),
        client("d", "alpha", 2, "2"),
    ];
    let sorted = sort_clients_exec(clients);
    let ids: Vec<&str> = sorted.iter().map(|c| c.id.as_str()).collect();
    assert_eq!(ids, vec!["c", "b", "d", "a"]);
}

#[test]
fn icon_scaling() {
    assert_eq!(scale_icon_size(48, 3), 48);
    assert_eq!(scale_icon_size(48, 6), 48);
    assert_eq!(scale_icon_size(48, 7), 48);
    assert_eq!(scale_icon_size(48, 9), 41);
    assert_eq!(scale_icon_size(48, 0), 48);
}

#[test]
fn dock_plan_orders_buttons() {
    let mut config = DockConfig::default();
    config.ignore_workspaces = "9".to_string();
    config.ignore_classes = "steam".to_string();
    let pinned = strings(&["firefox", "foot", "steam"]);
    let clients = vec![
        client("0x3", "kitty", 2, "2"),
        client("0x1", "firefox", 1, "1"),
        client("0x2", "firefox", 1, "1"),
        client("0x9", "hidden", 9, "9"),
        client("0x4", "mac-drawer", 1, "1"),
    ];
    let plan = build(&config, &pinned, clients, "kitty", false);
    assert_eq!(plan.clients.len(), 4);
    assert_eq!(plan.item_count, 4);
    assert_eq!(plan.img_size_scaled, 48);
    assert_eq!(plan.placement, Placement::Append);
    assert!(plan.drop_target);
    let kinds: Vec<String> = plan
        .buttons
        .iter()
        .map(|b| match b {
            DockButton::Launcher => "launcher".to_string(),
            DockButton::Pinned { app_id, pin_index } => format!("pin:{}:{}", app_id, pin_index),
            DockButton::Task { client, instance_count, active, drag_index } => format!(
                "task:{}:{}:{}:{:?}",
                client.class, instance_count, active, drag_index
            ),
        })
        .collect();
    assert_eq!(
        kinds,
        vec![
            "task:firefox:2:false:Some(0)",
            "pin:foot:1",
            "task:mac-drawer:1:false:None",
            "task:kitty:1:true:None",
            "launcher",
        ]
    );
}

#[test]
fn dock_actions_parse() {
    assert!(matches!(parse_dock_action("close.0xabc"), DockAction::Close(a) if a == "0xabc"));
    assert!(matches!(parse_dock_action("pin.org.gnome.Nautilus"), DockAction::Pin(a) if a == "org"));
    assert!(matches!(
        parse_dock_action("movews.0x1.3"),
        DockAction::MoveToWorkspace(a, w) if a == "0x1" && w == "3"
    ));
    assert!(matches!(parse_dock_action("movews.0x1"), DockAction::Nothing));
    assert!(matches!(parse_dock_action("close"), DockAction::Nothing));
    assert!(matches!(parse_dock_action("bogus.x"), DockAction::Nothing));
}

#[test]
fn dock_actions_apply() {
    let clients = vec![client("0x1", "foot", 1, "1"), client("0x2", "Foot", 2, "2")];
    let mut pinned = strings(&["kitty"]);
    let e = apply_dock_action(DockAction::CloseAll("foot".to_string()), &mut pinned, &clients);
    assert_eq!(
        e.requests,
        vec!["dispatch closewindow address:0x1", "dispatch closewindow address:0x2"]
    );
    let e = apply_dock_action(DockAction::Pin("foot".to_string()), &mut pinned, &clients);
    assert!(e.save_pins && e.rebuild);
    assert_eq!(pinned, vec!["kitty", "foot"]);
    let e = apply_dock_action(DockAction::Pin("foot".to_string()), &mut pinned, &clients);
    assert!(!e.save_pins && e.rebuild);
    let e = apply_dock_action(DockAction::Unpin("kitty".to_string()), &mut pinned, &clients);
    assert!(e.save_pins);
    assert_eq!(pinned, vec!["foot"]);
    let e = apply_dock_action(
        DockAction::MoveToWorkspace("0x1".to_string(), "3".to_string()),
        &mut pinned,
        &clients,
    );
    assert_eq!(e.requests, vec!["dispatch movetoworkspace 3,address:0x1".to_string()]);
    let e = apply_dock_action(DockAction::Launch("foot".to_string()), &mut pinned, &clients);
    assert_eq!(e.launch.as_deref(), Some("foot"));
}

#[test]
fn buttons_and_menus() {
    let a = indicator_asset(2, true);
    assert_eq!(a.name, "task-multiple-vertical.svg");
    assert_eq!(indicator_size(48, &a), (6, 48));
    assert_eq!(indicator_asset(0, false).name, "task-empty.svg");
    assert!(indicator_first("top"));
    assert!(!indicator_first("bottom"));
    assert_eq!(
        focus_window_requests("0x1", "special:magic"),
        vec!["dispatch togglespecialworkspace magic", "dispatch bringactivetotop"]
    );
    assert_eq!(
        focus_window_requests("0x1", "2"),
        vec!["dispatch focuswindow address:0x1", "dispatch bringactivetotop"]
    );
    assert_eq!(launcher_command("  mac-drawer  -r "), Some(strings(&["mac-drawer", "-r"])));
    assert!(launcher_command("   ").is_none());
    assert_eq!(truncate_title("short", 25), "short");
    assert_eq!(truncate_title("abcdefghij", 4), "abcd…");
    assert_eq!(instance_label("Terminal", "2"), "Terminal (2)");
    let w = window_menu_actions("0x1", 2);
    assert_eq!(w, vec!["dock.close.0x1", "dock.float.0x1", "dock.fullscreen.0x1", "dock.movews.0x1.1", "dock.movews.0x1.2"]);
    let m = app_menu_actions("foot", &strings(&["foot"]));
    assert_eq!(m, vec!["dock.launch.foot", "dock.closeall.foot", "dock.unpin.foot"]);
}

#[test]
fn icons_never_grow() {
    for count in [0usize, 1, 6, 7, 12, 30, 100, 10_000] {
        let s = scale_icon_size(48, count);
        assert!((0..=48).contains(&s));
        if count <= 6 {
            assert_eq!(s, 48);
        }
    }
    assert_eq!(scale_icon_size(48, 12), 36);
    assert_eq!(scale_icon_size(48, 10_000), 0);
}
