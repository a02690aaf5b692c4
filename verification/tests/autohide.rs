use mac_dock::autohide::{
    apply_window_command, autohide_step, dock_window_layout, drag_outside_dock,
    find_cursor_monitor, is_cursor_at_edge, is_cursor_in_visible_dock, position_of,
    resolve_monitors, should_refresh, AutohideAction, AutohidePoll, AutohideState, CursorPos,
    DockWindowSize, Layer, MonitorRect, Position,
};
use mac_dock::dock::DockConfig;
use mac_dock::signals::WindowCommand;

fn monitors() -> Vec<MonitorRect> {
    vec![
        MonitorRect { x: 0, y: 0, width: 1920, height: 1080 },
        MonitorRect { x: 1920, y: 0, width: 2560, height: 1440 },
    ]
}

#[test]
fn edges_and_monitors() {
    let m = monitors();
    assert!(is_cursor_at_edge(CursorPos { x: 100, y: 1079 }, &m, Position::Bottom));
    assert!(!is_cursor_at_edge(CursorPos { x: 100, y: 1000 }, &m, Position::Bottom));
    assert!(is_cursor_at_edge(CursorPos { x: 4479, y: 10 }, &m, Position::Right));
    assert!(is_cursor_at_edge(CursorPos { x: 1921, y: 10 }, &m, Position::Left));
    assert_eq!(find_cursor_monitor(CursorPos { x: 2000, y: 5 }, &m), Some(1));
    assert_eq!(find_cursor_monitor(CursorPos { x: -5, y: 5 }, &m), None);
    assert_eq!(position_of("right"), Position::Right);
    assert_eq!(position_of("nonsense"), Position::Bottom);
}

#[test]
fn cursor_inside_dock_area() {
    let m = monitors();
    let w = vec![DockWindowSize { width: 400, height: 60, has_surface: true }];
    assert!(is_cursor_in_visible_dock(CursorPos { x: 960, y: 1050 }, &w, &m));
    assert!(!is_cursor_in_visible_dock(CursorPos { x: 100, y: 1050 }, &w, &m));
    let hidden = vec![DockWindowSize { width: 0, height: 60, has_surface: true }];
    assert!(!is_cursor_in_visible_dock(CursorPos { x: 960, y: 1050 }, &hidden, &m));
}

fn poll(any_visible: bool, at_edge: bool, in_dock: bool, now_ms: u64) -> AutohidePoll {
    AutohidePoll {
        any_visible,
        at_edge,
        cursor_monitor: Some(0),
        in_dock_area: in_dock,
        keep_visible: false,
        now_ms,
    }
}

#[test]
fn autohide_cycle() {
    let mut s = AutohideState { left_at_ms: None };
    assert_eq!(autohide_step(&mut s, &poll(false, true, false, 0), 1000, 1), AutohideAction::Show(0));
    assert_eq!(autohide_step(&mut s, &poll(true, false, true, 100), 1000, 1), AutohideAction::Nothing);
    assert_eq!(autohide_step(&mut s, &poll(true, false, false, 200), 1000, 1), AutohideAction::Nothing);
    assert_eq!(s.left_at_ms, Some(200));
    assert_eq!(autohide_step(&mut s, &poll(true, false, false, 900), 1000, 1), AutohideAction::Nothing);
    assert_eq!(autohide_step(&mut s, &poll(true, false, false, 1200), 1000, 1), AutohideAction::HideAll);
    assert_eq!(s.left_at_ms, None);
    assert_eq!(autohide_step(&mut s, &poll(false, true, false, 1300), 1000, 0), AutohideAction::Nothing);
    assert!(drag_outside_dock(false, false));
}

#[test]
fn window_layout_from_config() {
    let mut c = DockConfig::default();
    let l = dock_window_layout(&c);
    assert!(l.anchor_bottom && !l.anchor_left && !l.anchor_right);
    assert_eq!(l.layer, Layer::Overlay);
    assert!(l.ignore_exclusive_zones);
    c.position = "left".to_string();
    c.full = true;
    c.exclusive = true;
    let l = dock_window_layout(&c);
    assert!(l.anchor_left && l.anchor_top && l.anchor_bottom && !l.anchor_right);
    assert_eq!(l.layer, Layer::Top);
    assert!(l.auto_exclusive_zone && !l.ignore_exclusive_zones);
}

#[test]
fn refresh_and_commands() {
    assert!(should_refresh("0x2", "0x1"));
    assert!(!should_refresh("0x1", "0x1"));
    assert!(!should_refresh("a>>b", ""));
    assert_eq!(apply_window_command(WindowCommand::Toggle, true), Some(false));
    assert_eq!(apply_window_command(WindowCommand::Quit, true), None);
}

#[test]
fn monitor_resolution() {
    let names = vec!["DP-1".to_string(), "HDMI-1".to_string()];
    assert_eq!(resolve_monitors("HDMI-1", &names, 2), vec![1]);
    assert_eq!(resolve_monitors("HDMI-1", &names, 1), vec![0]);
    assert_eq!(resolve_monitors("", &names, 2), vec![0, 1]);
    assert_eq!(resolve_monitors("eDP-1", &names, 2), vec![0, 1]);
}
