use mac_dock::compositor::{WmEvent, WmWorkspace};
use mac_dock::sway::{
    active_monitors, collect_windows_recursive, output_to_monitor, SwayOutput,
    check_command_reply, check_subscribe_reply, collect_windows_with_context, encode_message,
    find_focused_window, list_clients_from_tree, node_to_wm_client, parse_response_header,
    window_event, CommandOutcome, SwayNode, SwayWorkspaceRef, WindowProperties, MSG_GET_TREE,
    MSG_RUN_COMMAND,
};

fn node(node_type: &str) -> SwayNode {
    SwayNode {
        node_type: Some(node_type.to_string()),
        name: None,
        num: None,
        id: None,
        app_id: None,
        pid: None,
        window_properties: None,
        fullscreen_mode: None,
        focused: None,
        workspace: None,
        nodes: Vec::new(),
        floating_nodes: Vec::new(),
    }
}

fn window(id: i64, name: &str, app_id: &str, pid: i64, focused: bool) -> SwayNode {
    SwayNode {
        id: Some(id),
        name: Some(name.to_string()),
        app_id: Some(app_id.to_string()),
        pid: Some(pid),
        focused: Some(focused),
        fullscreen_mode: Some(0),
        ..node("con")
    }
}

fn named(node_type: &str, name: &str, children: Vec<SwayNode>) -> SwayNode {
    SwayNode { name: Some(name.to_string()), nodes: children, ..node(node_type) }
}

fn empty_ws() -> WmWorkspace {
    WmWorkspace { id: 0, name: String::new() }
}

#[test]
fn encode_decode_header() {
    let payload = [1u8, 2, 3, 4, 5];
    let buf = encode_message(MSG_RUN_COMMAND, &payload);
    assert_eq!(&buf[..6], b"i3-ipc");
    assert_eq!(u32::from_le_bytes(buf[6..10].try_into().unwrap()), 5);
    assert_eq!(u32::from_le_bytes(buf[10..14].try_into().unwrap()), 0);
    assert_eq!(&buf[14..], &payload);
    assert_eq!(parse_response_header(&buf[..14]).unwrap(), 5);
}

#[test]
fn header_rejects_bad_magic_and_oversized_payloads() {
    let mut buf = encode_message(MSG_GET_TREE, &[]);
    buf[0] = b'x';
    assert!(parse_response_header(&buf[..14]).is_err());
    let mut big = encode_message(MSG_GET_TREE, &[]);
    big[6..10].copy_from_slice(&100_000_001u32.to_le_bytes());
    assert!(parse_response_header(&big[..14]).is_err());
    big[6..10].copy_from_slice(&100_000_000u32.to_le_bytes());
    assert_eq!(parse_response_header(&big[..14]).unwrap(), 100_000_000);
}

#[test]
fn collect_windows_from_tree() {
    let mut calc = window(43, "Calculator", "gnome-calculator", 5678, false);
    calc.floating_nodes = Vec::new();
    let floating = SwayNode { nodes: vec![calc], ..node("floating_con") };
    let mut ws = named("workspace", "1", vec![window(42, "Firefox", "firefox", 1234, false)]);
    ws.num = Some(1);
    ws.floating_nodes = vec![floating];
    let output = named("output", "DP-1", vec![ws]);
    let tree = SwayNode { nodes: vec![output], ..node("root") };

    let mut clients = Vec::new();
    collect_windows_with_context(&tree, &mut clients, &empty_ws(), 0, false);
    assert_eq!(clients.len(), 2);
    assert_eq!(clients[0].class, "firefox");
    assert_eq!(clients[0].id, "42");
    assert_eq!(clients[0].title, "Firefox");
    assert_eq!(clients[0].pid, 1234);
    assert_eq!(clients[0].workspace.name, "1");
    assert_eq!(clients[0].workspace.id, 1);
    assert!(!clients[0].floating);
    assert_eq!(clients[1].class, "gnome-calculator");
    assert_eq!(clients[1].id, "43");
    assert!(clients[1].floating);
}

#[test]
fn find_focused_in_tree() {
    let ws = named(
        "workspace",
        "1",
        vec![
            window(10, "Unfocused", "app1", 100, false),
            window(20, "Focused Window", "app2", 200, true),
        ],
    );
    let tree = SwayNode { nodes: vec![SwayNode { nodes: vec![ws], ..node("output") }], ..node("root") };
    let focused = find_focused_window(&tree);
    assert!(focused.is_some());
    let f = focused.unwrap();
    assert_eq!(f.id, "20");
    assert_eq!(f.class, "app2");
    assert_eq!(f.title, "Focused Window");
}

#[test]
fn x11_window_uses_window_properties() {
    let n = SwayNode {
        id: Some(99),
        name: Some("Steam".to_string()),
        app_id: None,
        pid: Some(9999),
        focused: Some(false),
        fullscreen_mode: Some(0),
        window_properties: Some(WindowProperties { class: Some("steam".to_string()) }),
        ..node("con")
    };
    let client = node_to_wm_client(&n, false).unwrap();
    assert_eq!(client.class, "steam");
    assert_eq!(client.id, "99");
}

#[test]
fn parse_event_json() {
    match window_event("focus", Some(42)) {
        Some(WmEvent::ActiveWindowChanged(id)) => assert_eq!(id, "42"),
        _ => panic!("expected an active window change"),
    }
    match window_event("close", None) {
        Some(WmEvent::ActiveWindowChanged(id)) => assert_eq!(id, ""),
        _ => panic!("expected an active window change"),
    }
    assert!(window_event("title", Some(42)).is_none());
}

#[test]
fn empty_tree_yields_no_windows() {
    let tree = node("root");
    let mut clients = Vec::new();
    collect_windows_with_context(&tree, &mut clients, &empty_ws(), 0, false);
    assert!(clients.is_empty());
}

#[test]
fn multi_monitor_assigns_correct_output_ids() {
    let mut ws1 = named("workspace", "1", vec![window(10, "App on DP-1", "app1", 100, false)]);
    ws1.num = Some(1);
    let mut ws2 = named("workspace", "2", vec![window(20, "App on HDMI-1", "app2", 200, false)]);
    ws2.num = Some(2);
    let tree = SwayNode {
        nodes: vec![
            named("output", "__i3", Vec::new()),
            named("output", "DP-1", vec![ws1]),
            named("output", "HDMI-1", vec![ws2]),
        ],
        ..node("root")
    };
    let clients = list_clients_from_tree(&tree);
    assert_eq!(clients.len(), 2);
    assert_eq!(clients[0].class, "app1");
    assert_eq!(clients[0].monitor_id, 0);
    assert_eq!(clients[0].workspace.name, "1");
    assert_eq!(clients[1].class, "app2");
    assert_eq!(clients[1].monitor_id, 1);
    assert_eq!(clients[1].workspace.name, "2");
}

#[test]
fn no_focused_window_returns_none() {
    let tree = SwayNode { nodes: vec![window(1, "", "test", 1, false)], ..node("root") };
    assert!(find_focused_window(&tree).is_none());
}

#[test]
fn scratch_workspace_is_skipped() {
    let scratch = named("workspace", "__i3_scratch", vec![window(5, "hidden", "h", 5, false)]);
    let output = named("output", "DP-1", vec![scratch]);
    let mut clients = Vec::new();
    collect_windows_with_context(&output, &mut clients, &empty_ws(), 0, false);
    assert!(clients.is_empty());
}

#[test]
fn embedded_workspace_is_read() {
    let mut n = window(7, "t", "a", 3, false);
    n.workspace = Some(SwayWorkspaceRef { num: Some(4), name: Some("four".to_string()) });
    n.fullscreen_mode = Some(1);
    let c = node_to_wm_client(&n, true).unwrap();
    assert_eq!(c.workspace.id, 4);
    assert_eq!(c.workspace.name, "four");
    assert!(c.fullscreen && c.floating);
}

#[test]
fn command_replies() {
    assert!(check_command_reply(&[]).is_ok());
    let ok = CommandOutcome { success: Some(true), error: None };
    assert!(check_command_reply(&[ok]).is_ok());
    let bad = CommandOutcome { success: Some(false), error: Some("no such window".to_string()) };
    assert_eq!(check_command_reply(&[bad]).unwrap_err(), "no such window");
    let bare = CommandOutcome { success: Some(false), error: None };
    assert_eq!(check_command_reply(&[bare]).unwrap_err(), "unknown error");
    assert!(check_subscribe_reply(Some(true)).is_ok());
    assert!(check_subscribe_reply(None).is_err());
}

fn output(name: &str, active: bool) -> SwayOutput {
    SwayOutput {
        name: Some(name.to_string()),
        active: Some(active),
        focused: Some(false),
        current_workspace: None,
        rect_x: None,
        rect_y: None,
        rect_width: None,
        rect_height: None,
        mode_width: None,
        mode_height: None,
    }
}

#[test]
fn parse_output() {
    let mut o = output("DP-1", true);
    o.focused = Some(true);
    o.current_workspace = Some("1".to_string());
    o.rect_x = Some(0);
    o.rect_y = Some(0);
    o.rect_width = Some(3840);
    o.rect_height = Some(2160);
    o.mode_width = Some(3840);
    o.mode_height = Some(2160);
    let mon = output_to_monitor(&o, 0);
    assert_eq!(mon.name, "DP-1");
    assert_eq!(mon.rect.width, 3840);
    assert_eq!(mon.rect.height, 2160);
    assert!(mon.focused);
    assert_eq!(mon.active_workspace.name, "1");
}

#[test]
fn inactive_outputs_are_skipped_and_sizes_fall_back() {
    let mut a = output("DP-1", true);
    a.mode_width = Some(2560);
    a.mode_height = Some(1440);
    a.rect_width = Some(1280);
    let b = output("HDMI-1", false);
    let mut c = output("eDP-1", true);
    c.rect_x = Some(1280);
    c.rect_width = Some(1920);
    c.rect_height = Some(1200);
    let mons = active_monitors(&vec![a, b, c]);
    assert_eq!(mons.len(), 2);
    assert_eq!((mons[0].id, mons[0].name.as_str()), (0, "DP-1"));
    assert_eq!((mons[0].rect.width, mons[0].rect.height), (2560, 1440));
    assert_eq!((mons[1].id, mons[1].name.as_str()), (1, "eDP-1"));
    assert_eq!((mons[1].rect.x, mons[1].rect.width, mons[1].rect.height), (1280, 1920, 1200));
    assert!(!mons[1].focused);
    assert_eq!(mons[1].active_workspace.name, "");
}

#[test]
fn tree_walk_places_windows_in_pre_order_on_the_given_output() {
    let child = window(2, "Child", "child", 2, false);
    let floating_child = window(3, "Float", "float", 3, false);
    let mut parent = window(1, "Parent", "parent", 1, false);
    parent.nodes = vec![child];
    parent.floating_nodes = vec![floating_child];
    let hidden = named("workspace", "__i3_scratch", vec![window(9, "Hidden", "hidden", 9, false)]);
    let tree = SwayNode { nodes: vec![parent, hidden], ..node("con") };
    let mut clients = Vec::new();
    collect_windows_recursive(&tree, &mut clients, &empty_ws(), 7, false, 0);
    let ids: Vec<&str> = clients.iter().map(|c| c.id.as_str()).collect();
    assert_eq!(ids, vec!["1", "2", "3"]);
    assert!(clients.iter().all(|c| c.monitor_id == 7));
    assert!(!clients[0].floating && !clients[1].floating && clients[2].floating);
}
