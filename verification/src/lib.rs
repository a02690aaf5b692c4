//! Verified core logic of a macOS-style dock, application drawer and
//! notification center for Wayland compositors.

pub mod autohide;
pub mod calc;
pub mod categories;
pub mod compositor;
pub mod desktop_entry;
pub mod desktop_search;
pub mod dock;
pub mod drawer;
pub mod dock_actions;
pub mod css_imports;
pub mod events;
pub mod flags;
pub mod instance;
pub mod launch;
pub mod notifications;
pub mod pinning;
pub mod search;
pub mod signals;
pub mod sway;
pub mod text;
pub mod xdg;
