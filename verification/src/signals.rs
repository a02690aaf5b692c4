//! Control signals: the real-time signals the dock, drawer and
//! notification daemon respond to, and what each one commands.

use vstd::prelude::*;

verus! {

/// SIGRTMIN on Linux with glibc.
pub const SIGRTMIN: i32 = 34;

/// Signal that toggles the dock or drawer window.
pub fn sig_toggle() -> (r: i32)
    ensures
        r == SIGRTMIN + 1,
{
    SIGRTMIN + 1
}

/// Signal that shows the window.
pub fn sig_show() -> (r: i32)
    ensures
        r == SIGRTMIN + 2,
{
    SIGRTMIN + 2
}

/// Signal that hides the window.
pub fn sig_hide() -> (r: i32)
    ensures
        r == SIGRTMIN + 3,
{
    SIGRTMIN + 3
}

/// Signal that toggles the notification panel.
pub fn sig_notification_toggle() -> (r: i32)
    ensures
        r == SIGRTMIN + 4,
{
    SIGRTMIN + 4
}

/// Signal that toggles Do Not Disturb.
pub fn sig_notification_dnd() -> (r: i32)
    ensures
        r == SIGRTMIN + 5,
{
    SIGRTMIN + 5
}

/// Signal that opens the Do Not Disturb menu.
pub fn sig_notification_dnd_menu() -> (r: i32)
    ensures
        r == SIGRTMIN + 6,
{
    SIGRTMIN + 6
}

/// Window visibility commands sent via signal handling.
#[derive(Debug, Clone, Copy, PartialEq, Eq, Structural)]
pub enum WindowCommand {
    Show,
    Hide,
    Toggle,
    Quit,
}

/// The command a signal gives a window: only a resident window obeys,
/// SIGUSR1 (deprecated) and SIGRTMIN+1 toggle, SIGRTMIN+2 shows and
/// SIGRTMIN+3 hides.
pub open spec fn window_command_for(sig: i32, sigusr1: i32, is_resident: bool) -> Option<WindowCommand> {
    if !is_resident {
        None
    } else if sig == sigusr1 || sig == SIGRTMIN + 1 {
        Some(WindowCommand::Toggle)
    } else if sig == SIGRTMIN + 2 {
        Some(WindowCommand::Show)
    } else if sig == SIGRTMIN + 3 {
        Some(WindowCommand::Hide)
    } else {
        None
    }
}

/// The command for a received signal, given the number of SIGUSR1.
pub fn command_for_signal(sig: i32, sigusr1: i32, is_resident: bool) -> (r: Option<WindowCommand>)
    ensures
        r == window_command_for(sig, sigusr1, is_resident),
{
    if sig == sigusr1 {
        if is_resident {
            Some(WindowCommand::Toggle)
        } else {
            None
        }
    } else if sig == sig_toggle() {
        if is_resident {
            Some(WindowCommand::Toggle)
        } else {
            None
        }
    } else if sig == sig_show() {
        if is_resident {
            Some(WindowCommand::Show)
        } else {
            None
        }
    } else if sig == sig_hide() {
        if is_resident {
            Some(WindowCommand::Hide)
        } else {
            None
        }
    } else {
        None
    }
}

/// The signals the window listens for: SIGUSR1 (whose number the caller
/// passes, as it depends on the platform) and SIGRTMIN+1/2/3.
pub fn window_signals(sigusr1: i32) -> (r: Vec<i32>)
    ensures
        r@ == seq![sigusr1, 35i32, 36i32, 37i32],
{
    vec![sigusr1, sig_toggle(), sig_show(), sig_hide()]
}

/// Commands the notification daemon responds to via signals.
#[derive(Debug, Clone, Copy, PartialEq, Eq, Structural)]
pub enum NotificationCommand {
    TogglePanel,
    ToggleDnd,
    OpenDndMenu,
}

/// The notification command for a received signal: SIGRTMIN+4 toggles
/// the panel, SIGRTMIN+5 toggles Do Not Disturb, SIGRTMIN+6 opens the
/// Do Not Disturb menu.
pub fn notification_command_for_signal(sig: i32) -> (r: Option<NotificationCommand>)
    ensures
        sig == SIGRTMIN + 4 ==> r == Some(NotificationCommand::TogglePanel),
        sig == SIGRTMIN + 5 ==> r == Some(NotificationCommand::ToggleDnd),
        sig == SIGRTMIN + 6 ==> r == Some(NotificationCommand::OpenDndMenu),
        sig != SIGRTMIN + 4 && sig != SIGRTMIN + 5 && sig != SIGRTMIN + 6 ==> r is None,
{
    if sig == sig_notification_toggle() {
        Some(NotificationCommand::TogglePanel)
    } else if sig == sig_notification_dnd() {
        Some(NotificationCommand::ToggleDnd)
    } else if sig == sig_notification_dnd_menu() {
        Some(NotificationCommand::OpenDndMenu)
    } else {
        None
    }
}

} // verus!
