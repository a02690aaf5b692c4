use mac_dock::signals::{
    command_for_signal, notification_command_for_signal, sig_hide, sig_notification_dnd,
    sig_notification_toggle, sig_show, sig_toggle, window_signals,
    NotificationCommand, WindowCommand,
};

#[test]
fn signal_numbers() {
    assert_eq!(sig_toggle(), 35);
    assert_eq!(sig_show(), 36);
    assert_eq!(sig_hide(), 37);
    assert_eq!(sig_notification_toggle(), 38);
    assert_eq!(sig_notification_dnd(), 39);
}

#[test]
fn window_commands_need_resident_mode() {
    assert_eq!(command_for_signal(36, 10, true), Some(WindowCommand::Show));
    assert_eq!(command_for_signal(36, 10, false), None);
    assert_eq!(command_for_signal(10, 10, true), Some(WindowCommand::Toggle));
    assert_eq!(command_for_signal(37, 10, true), Some(WindowCommand::Hide));
    assert_eq!(command_for_signal(2, 10, true), None);
    assert_eq!(command_for_signal(libc::SIGUSR1, libc::SIGUSR1, true), Some(WindowCommand::Toggle));
    assert_eq!(window_signals(libc::SIGUSR1), vec![libc::SIGUSR1, 35, 36, 37]);
}

#[test]
fn notification_commands() {
    assert_eq!(notification_command_for_signal(38), Some(NotificationCommand::TogglePanel));
    assert_eq!(notification_command_for_signal(39), Some(NotificationCommand::ToggleDnd));
    assert_eq!(notification_command_for_signal(40), Some(NotificationCommand::OpenDndMenu));
    assert_eq!(notification_command_for_signal(35), None);
    assert_eq!(notification_command_for_signal(41), None);
}
