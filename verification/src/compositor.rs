//! The compositor abstraction: which backend runs, the compositor-neutral
//! window model, and the requests each backend sends for window actions.

use vstd::prelude::*;
use crate::events::HyprEvent;
use crate::launch::{
    exec_unsafe_chars, launch_command, launch_plan_of, sanitize_exec_command, LaunchPlan,
    LaunchSettings,
};
use crate::text::{decimal, decimal_string, remove_chars};

verus! {

#[verifier::external_type_specification]
#[verifier::external_body]
pub struct ExIoError(std::io::Error);

#[verifier::external_type_specification]
#[verifier::external_body]
pub struct ExJsonError(serde_json::Error);

#[verifier::external_type_specification]
#[verifier::external_body]
pub struct ExPathBuf(std::path::PathBuf);

/// Unified error type for the compositor and desktop helpers.
#[derive(Debug)]
pub enum DockError {
    /// Compositor IPC error.
    Ipc(std::io::Error),
    /// JSON parse error.
    Json(serde_json::Error),
    /// Desktop entry parse error in a file.
    DesktopEntry { path: std::path::PathBuf, message: String },
    /// No icon found for an application.
    IconNotFound(String),
    /// Data directory not found.
    DataDirNotFound(String),
    /// Lock file already held by another process.
    LockFileHeld { path: std::path::PathBuf, pid: u32 },
    /// Environment variable not set.
    EnvNotSet(String),
    /// Unsupported compositor.
    UnsupportedCompositor(String),
    /// Neither Hyprland nor Sway was detected.
    NoCompositorDetected,
}

/// Supported compositor backends.
#[derive(Debug, Clone, Copy, PartialEq, Eq, Structural)]
pub enum CompositorKind {
    Hyprland,
    Sway,
}

/// Values of the `--wm` flag. Uwsm is a launch wrapper that falls
/// through to auto-detection of the actual compositor.
#[derive(Debug, Clone, Copy, PartialEq, Eq, Structural)]
pub enum WmOverride {
    Hyprland,
    Sway,
    /// Universal Wayland Session Manager: launch wrapper, not a compositor.
    Uwsm,
}

/// The environment variables by which a running compositor is found.
pub struct CompositorEnv {
    /// `HYPRLAND_INSTANCE_SIGNATURE`, if set.
    pub hyprland_instance_signature: Option<String>,
    /// `SWAYSOCK`, if set.
    pub swaysock: Option<String>,
}

/// Picks the compositor backend: the `--wm` override when it names a
/// compositor; otherwise (and after switching launches to uwsm for
/// `--wm uwsm`) Hyprland when its instance signature is set, else Sway
/// when its socket is set, else an error.
pub fn detect(wm_override: Option<WmOverride>, env: &CompositorEnv, launch: &mut LaunchSettings) -> (r: Result<CompositorKind, DockError>)
    ensures
        wm_override == Some(WmOverride::Hyprland) ==> (r matches Ok(CompositorKind::Hyprland)),
        wm_override == Some(WmOverride::Sway) ==> (r matches Ok(CompositorKind::Sway)),
        wm_override is None || wm_override == Some(WmOverride::Uwsm) ==> {
            &&& env.hyprland_instance_signature is Some ==> (r matches Ok(CompositorKind::Hyprland))
            &&& env.hyprland_instance_signature is None && env.swaysock is Some ==> (r matches Ok(
                CompositorKind::Sway,
            ))
            &&& env.hyprland_instance_signature is None && env.swaysock is None ==> (r matches Err(
                DockError::NoCompositorDetected,
            ))
        },
        final(launch).uwsm == (old(launch).uwsm || wm_override == Some(WmOverride::Uwsm)),
{
    match wm_override {
        Some(WmOverride::Hyprland) => return Ok(CompositorKind::Hyprland),
        Some(WmOverride::Sway) => return Ok(CompositorKind::Sway),
        Some(WmOverride::Uwsm) => launch.set_uwsm_mode(true),
        None => {},
    }
    if env.hyprland_instance_signature.is_some() {
        Ok(CompositorKind::Hyprland)
    } else if env.swaysock.is_some() {
        Ok(CompositorKind::Sway)
    } else {
        Err(DockError::NoCompositorDetected)
    }
}

/// Compositor-neutral workspace reference.
#[derive(Debug, Clone, Default)]
pub struct WmWorkspace {
    /// Compositor-assigned numeric workspace ID.
    pub id: i32,
    /// Workspace name (may be numeric-as-string or a human name).
    pub name: String,
}

/// Compositor-neutral window representation.
#[derive(Debug, Clone, Default)]
pub struct WmClient {
    /// Compositor-specific identifier (Hyprland: `0x1234`, Sway: `42`).
    pub id: String,
    /// Application class (Hyprland: `class`; Sway: `app_id` or
    /// `window_properties.class`).
    pub class: String,
    /// Initial class at window creation (Hyprland only); empty on
    /// backends that don't track it.
    pub initial_class: String,
    /// Human-readable window title.
    pub title: String,
    /// Process ID of the window's owning process, or 0 if unavailable.
    pub pid: i32,
    /// Workspace this window lives on.
    pub workspace: WmWorkspace,
    /// Whether the window is floating (not tiled).
    pub floating: bool,
    /// ID of the monitor this window is on.
    pub monitor_id: i32,
    /// Whether the window is currently fullscreen.
    pub fullscreen: bool,
}

/// The mathematical content of a `WmClient`.
pub ghost struct ClientView {
    pub id: Seq<char>,
    pub class: Seq<char>,
    pub initial_class: Seq<char>,
    pub title: Seq<char>,
    pub pid: i32,
    pub ws_id: i32,
    pub ws_name: Seq<char>,
    pub floating: bool,
    pub monitor_id: i32,
    pub fullscreen: bool,
}

impl View for WmClient {
    type V = ClientView;

    open spec fn view(&self) -> ClientView {
        ClientView {
            id: self.id@,
            class: self.class@,
            initial_class: self.initial_class@,
            title: self.title@,
            pid: self.pid,
            ws_id: self.workspace.id,
            ws_name: self.workspace.name@,
            floating: self.floating,
            monitor_id: self.monitor_id,
            fullscreen: self.fullscreen,
        }
    }
}

/// A copy of a workspace reference.
pub fn copy_workspace(w: &WmWorkspace) -> (r: WmWorkspace)
    ensures
        r.id == w.id,
        r.name@ == w.name@,
{
    WmWorkspace { id: w.id, name: w.name.clone() }
}

/// A copy of a window.
pub fn copy_client(c: &WmClient) -> (r: WmClient)
    ensures
        r@ == c@,
{
    WmClient {
        id: c.id.clone(),
        class: c.class.clone(),
        initial_class: c.initial_class.clone(),
        title: c.title.clone(),
        pid: c.pid,
        workspace: copy_workspace(&c.workspace),
        floating: c.floating,
        monitor_id: c.monitor_id,
        fullscreen: c.fullscreen,
    }
}

/// Events from the compositor event stream.
#[derive(Debug, Clone)]
pub enum WmEvent {
    /// Active window changed. Contains the window id.
    ActiveWindowChanged(String),
    /// Monitor added or removed (hotplug).
    MonitorChanged,
    /// Any other event.
    Other(String),
}

/// The compositor-neutral form of a Hyprland event.
pub fn wm_event_from_hypr(e: HyprEvent) -> (r: WmEvent)
    ensures
        e matches HyprEvent::ActiveWindowV2(a) ==> (r matches WmEvent::ActiveWindowChanged(b)
            && b@ == a@),
        e is MonitorChanged ==> r is MonitorChanged,
        e matches HyprEvent::Other(a) ==> (r matches WmEvent::Other(b) && b@ == a@),
{
    match e {
        HyprEvent::ActiveWindowV2(a) => WmEvent::ActiveWindowChanged(a),
        HyprEvent::MonitorChanged => WmEvent::MonitorChanged,
        HyprEvent::Other(s) => WmEvent::Other(s),
    }
}

/// A window as `hyprctl clients -j` describes it: the fields the dock reads.
pub struct HyprClient {
    pub address: String,
    pub class: String,
    pub initial_class: String,
    pub title: String,
    pub pid: i32,
    pub workspace: WmWorkspace,
    pub floating: bool,
    pub monitor: i32,
    /// Hyprland's fullscreen state: 0 when not fullscreen.
    pub fullscreen: i32,
}

/// Converts a Hyprland window into the compositor-neutral form.
pub fn to_wm_client(c: HyprClient) -> (r: WmClient)
    ensures
        r@ == (ClientView {
            id: c.address@,
            class: c.class@,
            initial_class: c.initial_class@,
            title: c.title@,
            pid: c.pid,
            ws_id: c.workspace.id,
            ws_name: c.workspace.name@,
            floating: c.floating,
            monitor_id: c.monitor,
            fullscreen: c.fullscreen != 0,
        }),
{
    WmClient {
        id: c.address,
        class: c.class,
        initial_class: c.initial_class,
        title: c.title,
        pid: c.pid,
        workspace: c.workspace,
        floating: c.floating,
        monitor_id: c.monitor,
        fullscreen: c.fullscreen != 0,
    }
}

/// A request for `s` followed by `id`.
fn request(s: &str, id: &str) -> (r: String)
    ensures
        r@ == s@ + id@,
{
    let mut r = s.to_owned();
    r.append(id);
    r
}

/// The Hyprland backend: window actions are `hyprctl` requests.
pub struct HyprlandBackend;

impl HyprlandBackend {
    /// Available when Hyprland's instance signature is set.
    pub fn new(env: &CompositorEnv) -> (r: Result<Self, DockError>)
        ensures
            r is Ok <==> env.hyprland_instance_signature is Some,
            r is Err ==> (r matches Err(DockError::EnvNotSet(v)) && v@
                == "HYPRLAND_INSTANCE_SIGNATURE"@),
    {
        if env.hyprland_instance_signature.is_none() {
            return Err(DockError::EnvNotSet("HYPRLAND_INSTANCE_SIGNATURE".to_owned()));
        }
        Ok(HyprlandBackend)
    }

    /// The request that focuses window `id`.
    pub fn focus_window(&self, id: &str) -> (r: String)
        ensures
            r@ == "dispatch focuswindow address:"@ + id@,
    {
        request("dispatch focuswindow address:", id)
    }

    /// The request that closes window `id`.
    pub fn close_window(&self, id: &str) -> (r: String)
        ensures
            r@ == "dispatch closewindow address:"@ + id@,
    {
        request("dispatch closewindow address:", id)
    }

    /// The request that toggles floating for window `id`.
    pub fn toggle_floating(&self, id: &str) -> (r: String)
        ensures
            r@ == "dispatch togglefloating address:"@ + id@,
    {
        request("dispatch togglefloating address:", id)
    }

    /// The request that toggles fullscreen for window `id`.
    pub fn toggle_fullscreen(&self, id: &str) -> (r: String)
        ensures
            r@ == "dispatch fullscreen address:"@ + id@,
    {
        request("dispatch fullscreen address:", id)
    }

    /// The request that moves window `id` to a workspace.
    pub fn move_to_workspace(&self, id: &str, workspace: i32) -> (r: String)
        ensures
            r@ == "dispatch movetoworkspace "@ + decimal(workspace as int) + ",address:"@ + id@,
    {
        let mut r = "dispatch movetoworkspace ".to_owned();
        let n = decimal_string(workspace as i64);
        r.append(n.as_str());
        r.append(",address:");
        r.append(id);
        r
    }

    /// The request that toggles a special workspace.
    pub fn toggle_special_workspace(&self, name: &str) -> (r: String)
        ensures
            r@ == "dispatch togglespecialworkspace "@ + name@,
    {
        request("dispatch togglespecialworkspace ", name)
    }

    /// The request that raises the active window.
    pub fn raise_active(&self) -> (r: String)
        ensures
            r@ == "dispatch bringactivetotop"@,
    {
        "dispatch bringactivetotop".to_owned()
    }

    /// The request that runs a command; Hyprland parses it itself.
    pub fn exec(&self, cmd: &str) -> (r: String)
        ensures
            r@ == "dispatch exec "@ + cmd@,
    {
        request("dispatch exec ", cmd)
    }

    /// Hyprland reports the cursor position.
    pub fn supports_cursor_position(&self) -> (b: bool)
        ensures
            b,
    {
        true
    }
}

/// The Sway backend: window actions are i3-ipc `RUN_COMMAND` payloads.
pub struct SwayBackend {
    /// Path of the Sway IPC socket.
    pub socket_path: String,
}

impl SwayBackend {
    /// Available when Sway's socket path is set.
    pub fn new(env: &CompositorEnv) -> (r: Result<Self, DockError>)
        ensures
            env.swaysock matches Some(p) ==> (r matches Ok(b) && b.socket_path@ == p@),
            env.swaysock is None ==> (r matches Err(DockError::EnvNotSet(v)) && v@ == "SWAYSOCK"@),
    {
        match &env.swaysock {
            Some(p) => Ok(SwayBackend { socket_path: p.clone() }),
            None => Err(DockError::EnvNotSet("SWAYSOCK".to_owned())),
        }
    }

    /// The command that focuses container `id`.
    pub fn focus_window(&self, id: &str) -> (r: String)
        ensures
            r@ == "[con_id="@ + id@ + "] focus"@,
    {
        let mut r = request("[con_id=", id);
        r.append("] focus");
        r
    }

    /// The command that closes container `id`.
    pub fn close_window(&self, id: &str) -> (r: String)
        ensures
            r@ == "[con_id="@ + id@ + "] kill"@,
    {
        let mut r = request("[con_id=", id);
        r.append("] kill");
        r
    }

    /// The command that toggles floating for container `id`.
    pub fn toggle_floating(&self, id: &str) -> (r: String)
        ensures
            r@ == "[con_id="@ + id@ + "] floating toggle"@,
    {
        let mut r = request("[con_id=", id);
        r.append("] floating toggle");
        r
    }

    /// The command that toggles fullscreen for container `id`.
    pub fn toggle_fullscreen(&self, id: &str) -> (r: String)
        ensures
            r@ == "[con_id="@ + id@ + "] fullscreen toggle"@,
    {
        let mut r = request("[con_id=", id);
        r.append("] fullscreen toggle");
        r
    }

    /// The command that moves container `id` to a numbered workspace.
    pub fn move_to_workspace(&self, id: &str, workspace: i32) -> (r: String)
        ensures
            r@ == "[con_id="@ + id@ + "] move to workspace number "@ + decimal(workspace as int),
    {
        let mut r = request("[con_id=", id);
        r.append("] move to workspace number ");
        let n = decimal_string(workspace as i64);
        r.append(n.as_str());
        r
    }

    /// Sway's counterpart of special workspaces is the scratchpad.
    pub fn toggle_special_workspace(&self, name: &str) -> (r: String)
        ensures
            r@ == "scratchpad show"@,
    {
        "scratchpad show".to_owned()
    }

    /// Sway manages its own stacking: nothing is sent.
    pub fn raise_active(&self) -> (r: Option<String>)
        ensures
            r is None,
    {
        None
    }

    /// The command that runs `cmd`, with the characters that could
    /// chain or substitute commands removed.
    pub fn exec(&self, cmd: &str) -> (r: String)
        ensures
            r@ == "exec "@ + remove_chars(cmd@, exec_unsafe_chars()),
    {
        let s = sanitize_exec_command(cmd);
        request("exec ", s.as_str())
    }

    /// Sway does not expose the cursor position via IPC.
    pub fn supports_cursor_position(&self) -> (b: bool)
        ensures
            !b,
    {
        false
    }
}

/// A compositor backend.
pub enum Backend {
    Hyprland(HyprlandBackend),
    Sway(SwayBackend),
}

/// Creates the backend for the given kind.
pub fn create(kind: CompositorKind, env: &CompositorEnv) -> (r: Result<Backend, DockError>)
    ensures
        kind == CompositorKind::Hyprland ==> (r is Ok <==> env.hyprland_instance_signature is Some)
            && (r is Ok ==> (r matches Ok(Backend::Hyprland(_))))
            && (r is Err ==> (r matches Err(DockError::EnvNotSet(v)) && v@
            == "HYPRLAND_INSTANCE_SIGNATURE"@)),
        kind == CompositorKind::Sway ==> (r is Ok <==> env.swaysock is Some)
            && (env.swaysock matches Some(p) ==> (r matches Ok(Backend::Sway(b)) && b.socket_path@
            == p@))
            && (r is Err ==> (r matches Err(DockError::EnvNotSet(v)) && v@ == "SWAYSOCK"@)),
{
    match kind {
        CompositorKind::Hyprland => match HyprlandBackend::new(env) {
            Ok(b) => Ok(Backend::Hyprland(b)),
            Err(e) => Err(e),
        },
        CompositorKind::Sway => match SwayBackend::new(env) {
            Ok(b) => Ok(Backend::Sway(b)),
            Err(e) => Err(e),
        },
    }
}

/// Fallback backend for compositors without Hyprland or Sway IPC: window
/// actions fail, and commands are started directly as processes.
pub struct NullCompositor;

/// Event stream of `NullCompositor`: it never yields an event.
pub struct NullEventStream;

impl NullCompositor {
    pub fn list_clients(&self) -> (r: Result<Vec<WmClient>, DockError>)
        ensures
            r matches Err(DockError::NoCompositorDetected),
    {
        Err(DockError::NoCompositorDetected)
    }

    pub fn get_active_window(&self) -> (r: Result<WmClient, DockError>)
        ensures
            r matches Err(DockError::NoCompositorDetected),
    {
        Err(DockError::NoCompositorDetected)
    }

    pub fn get_cursor_position(&self) -> (r: Option<(i32, i32)>)
        ensures
            r is None,
    {
        None
    }

    pub fn focus_window(&self, id: &str) -> (r: Result<(), DockError>)
        ensures
            r matches Err(DockError::NoCompositorDetected),
    {
        Err(DockError::NoCompositorDetected)
    }

    pub fn close_window(&self, id: &str) -> (r: Result<(), DockError>)
        ensures
            r matches Err(DockError::NoCompositorDetected),
    {
        Err(DockError::NoCompositorDetected)
    }

    pub fn toggle_floating(&self, id: &str) -> (r: Result<(), DockError>)
        ensures
            r matches Err(DockError::NoCompositorDetected),
    {
        Err(DockError::NoCompositorDetected)
    }

    pub fn toggle_fullscreen(&self, id: &str) -> (r: Result<(), DockError>)
        ensures
            r matches Err(DockError::NoCompositorDetected),
    {
        Err(DockError::NoCompositorDetected)
    }

    pub fn move_to_workspace(&self, id: &str, workspace: i32) -> (r: Result<(), DockError>)
        ensures
            r matches Err(DockError::NoCompositorDetected),
    {
        Err(DockError::NoCompositorDetected)
    }

    pub fn toggle_special_workspace(&self, name: &str) -> (r: Result<(), DockError>)
        ensures
            r matches Err(DockError::NoCompositorDetected),
    {
        Err(DockError::NoCompositorDetected)
    }

    pub fn raise_active(&self) -> (r: Result<(), DockError>)
        ensures
            r matches Err(DockError::NoCompositorDetected),
    {
        Err(DockError::NoCompositorDetected)
    }

    /// Commands are started directly rather than through compositor IPC:
    /// this gives the process to start (none for an empty command).
    pub fn exec(&self, cmd: &str) -> (r: Result<Option<LaunchPlan>, DockError>)
        ensures
            r matches Ok(p) && (p matches Some(plan) ==> launch_plan_of(cmd@) == Some((
                plan.env@.map_values(|e: (String, String)| (e.0@, e.1@)),
                plan.args.deep_view(),
            ))) && (p is None ==> launch_plan_of(cmd@) is None),
    {
        Ok(launch_command(cmd))
    }

    pub fn event_stream(&self) -> (r: Result<NullEventStream, DockError>)
        ensures
            r is Ok,
    {
        Ok(NullEventStream)
    }

    pub fn supports_cursor_position(&self) -> (b: bool)
        ensures
            !b,
    {
        false
    }
}

} // verus!
