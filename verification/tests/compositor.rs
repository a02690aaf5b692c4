use mac_dock::compositor::{
    create, detect, to_wm_client, Backend, CompositorEnv, CompositorKind, DockError, HyprClient,
    HyprlandBackend, NullCompositor, SwayBackend, WmOverride, WmWorkspace,
};
use mac_dock::launch::LaunchSettings;

fn no_env() -> CompositorEnv {
    CompositorEnv { hyprland_instance_signature: None, swaysock: None }
}

#[test]
fn detect_sway_override() {
    let mut launch = LaunchSettings::new();
    assert_eq!(
        detect(Some(WmOverride::Sway), &no_env(), &mut launch).unwrap(),
        CompositorKind::Sway
    );
}

#[test]
fn detect_hyprland_override() {
    let mut launch = LaunchSettings::new();
    assert_eq!(
        detect(Some(WmOverride::Hyprland), &no_env(), &mut launch).unwrap(),
        CompositorKind::Hyprland
    );
}

#[test]
fn detect_uwsm_falls_through_to_env() {
    let mut launch = LaunchSettings::new();
    let result = detect(Some(WmOverride::Uwsm), &no_env(), &mut launch);
    assert!(
        matches!(result, Ok(CompositorKind::Hyprland) | Ok(CompositorKind::Sway))
            || matches!(result, Err(DockError::NoCompositorDetected))
    );
    assert!(launch.uwsm_mode());
    launch.set_uwsm_mode(false);
}

#[test]
fn detect_prefers_hyprland_then_sway() {
    let mut launch = LaunchSettings::new();
    let both = CompositorEnv {
        hyprland_instance_signature: Some("abc".to_string()),
        swaysock: Some("/run/sway.sock".to_string()),
    };
    assert_eq!(detect(None, &both, &mut launch).unwrap(), CompositorKind::Hyprland);
    let sway = CompositorEnv { hyprland_instance_signature: None, swaysock: Some("/s".to_string()) };
    assert_eq!(detect(None, &sway, &mut launch).unwrap(), CompositorKind::Sway);
    assert!(matches!(detect(None, &no_env(), &mut launch), Err(DockError::NoCompositorDetected)));
    assert!(!launch.uwsm_mode());
}

#[test]
fn create_requires_the_backend_environment() {
    assert!(matches!(create(CompositorKind::Sway, &no_env()), Err(DockError::EnvNotSet(v)) if v == "SWAYSOCK"));
    assert!(matches!(
        create(CompositorKind::Hyprland, &no_env()),
        Err(DockError::EnvNotSet(v)) if v == "HYPRLAND_INSTANCE_SIGNATURE"
    ));
    let env = CompositorEnv { hyprland_instance_signature: None, swaysock: Some("/run/s".to_string()) };
    match create(CompositorKind::Sway, &env) {
        Ok(Backend::Sway(b)) => assert_eq!(b.socket_path, "/run/s"),
        _ => panic!("expected the Sway backend"),
    }
}

#[test]
fn hyprland_requests() {
    let env = CompositorEnv { hyprland_instance_signature: Some("x".to_string()), swaysock: None };
    let b = HyprlandBackend::new(&env).unwrap();
    assert_eq!(b.focus_window("0x1"), "dispatch focuswindow address:0x1");
    assert_eq!(b.move_to_workspace("0x1", -3), "dispatch movetoworkspace -3,address:0x1");
    assert_eq!(b.exec("foot"), "dispatch exec foot");
    assert_eq!(b.raise_active(), "dispatch bringactivetotop");
    assert!(b.supports_cursor_position());
}

#[test]
fn sway_commands() {
    let env = CompositorEnv { hyprland_instance_signature: None, swaysock: Some("/s".to_string()) };
    let b = SwayBackend::new(&env).unwrap();
    assert_eq!(b.focus_window("42"), "[con_id=42] focus");
    assert_eq!(b.move_to_workspace("42", 7), "[con_id=42] move to workspace number 7");
    assert_eq!(b.exec("echo hi; rm -rf /"), "exec echo hi rm -rf /");
    assert_eq!(b.toggle_special_workspace("magic"), "scratchpad show");
    assert!(b.raise_active().is_none());
    assert!(!b.supports_cursor_position());
}

#[test]
fn hyprland_client_conversion() {
    let c = HyprClient {
        address: "0xabc".to_string(),
        class: "firefox".to_string(),
        initial_class: "firefox".to_string(),
        title: "Mozilla".to_string(),
        pid: 42,
        workspace: WmWorkspace { id: 2, name: "2".to_string() },
        floating: true,
        monitor: 1,
        fullscreen: 2,
    };
    let w = to_wm_client(c);
    assert_eq!(w.id, "0xabc");
    assert_eq!(w.workspace.id, 2);
    assert!(w.fullscreen);
    assert_eq!(w.monitor_id, 1);
}

#[test]
fn list_clients_returns_error() {
    assert!(NullCompositor.list_clients().is_err());
}

#[test]
fn get_active_window_returns_error() {
    assert!(NullCompositor.get_active_window().is_err());
}

#[test]
fn cursor_position_unsupported() {
    assert!(!NullCompositor.supports_cursor_position());
    assert_eq!(NullCompositor.get_cursor_position(), None);
}

#[test]
fn window_operations_return_errors() {
    let c = NullCompositor;
    assert!(c.focus_window("x").is_err());
    assert!(c.close_window("x").is_err());
    assert!(c.toggle_floating("x").is_err());
    assert!(c.toggle_fullscreen("x").is_err());
    assert!(c.move_to_workspace("x", 1).is_err());
    assert!(c.toggle_special_workspace("x").is_err());
    assert!(c.raise_active().is_err());
}

#[test]
fn event_stream_creates_successfully() {
    assert!(NullCompositor.event_stream().is_ok());
}

#[test]
fn exec_launches_trivial_command() {
    let r = NullCompositor.exec("/bin/true");
    assert!(r.is_ok());
    assert_eq!(r.unwrap().unwrap().args, vec!["/bin/true"]);
}

#[test]
fn exec_empty_command_returns_ok() {
    let r = NullCompositor.exec("");
    assert!(r.is_ok());
    assert!(r.unwrap().is_none());
}
