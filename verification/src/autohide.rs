//! The dock window on screen: its layer-shell layout, the autohide
//! decisions made from the cursor position, and reactions to compositor
//! events and control signals.

use vstd::prelude::*;
use crate::dock::DockConfig;
use crate::signals::WindowCommand;
use crate::text::{contains, find_exec, str_eq, chars_of};

verus! {

/// The screen edge the dock sits at.
#[derive(Debug, Clone, Copy, PartialEq, Eq, Structural)]
pub enum Position {
    Bottom,
    Top,
    Left,
    Right,
}

/// The edge named by the `position` setting; anything unknown is the
/// bottom.
pub fn position_of(s: &str) -> (p: Position)
    ensures
        s@ == "top"@ ==> p == Position::Top,
        s@ == "left"@ ==> p == Position::Left,
        s@ == "right"@ ==> p == Position::Right,
        s@ != "top"@ && s@ != "left"@ && s@ != "right"@ ==> p == Position::Bottom,
{
    proof {
        reveal_strlit("top");
        reveal_strlit("left");
        reveal_strlit("right");
        assert("top"@.len() == 3 && "left"@.len() == 4 && "right"@.len() == 5);
    }
    if str_eq(s, "top") {
        Position::Top
    } else if str_eq(s, "left") {
        Position::Left
    } else if str_eq(s, "right") {
        Position::Right
    } else {
        Position::Bottom
    }
}

/// The layer-shell layer of a window.
#[derive(Debug, Clone, Copy, PartialEq, Eq, Structural)]
pub enum Layer {
    Overlay,
    Top,
    Bottom,
}

/// How the dock window sits on its monitor.
pub struct WindowLayout {
    pub anchor_top: bool,
    pub anchor_bottom: bool,
    pub anchor_left: bool,
    pub anchor_right: bool,
    pub layer: Layer,
    /// Reserve space so that other windows move aside.
    pub auto_exclusive_zone: bool,
    /// Ignore other surfaces' exclusive zones (exclusive zone -1).
    pub ignore_exclusive_zones: bool,
    pub margin_top: i32,
    pub margin_left: i32,
    pub margin_right: i32,
    pub margin_bottom: i32,
}

/// The layer-shell layout of the dock window: anchored to its edge (and
/// stretched along it with `full`; an unknown position anchors to the
/// bottom only), on the configured layer (the top layer when exclusive;
/// an unknown layer is the overlay, which ignores exclusive zones), with
/// the configured margins.
pub fn dock_window_layout(config: &DockConfig) -> (r: WindowLayout)
    ensures
        ({
            let p = config.position@;
            &&& p == "bottom"@ ==> r.anchor_bottom && !r.anchor_top && r.anchor_left == config.full
                && r.anchor_right == config.full
            &&& p == "top"@ ==> r.anchor_top && !r.anchor_bottom && r.anchor_left == config.full
                && r.anchor_right == config.full
            &&& p == "left"@ ==> r.anchor_left && !r.anchor_right && r.anchor_top == config.full
                && r.anchor_bottom == config.full
            &&& p == "right"@ ==> r.anchor_right && !r.anchor_left && r.anchor_top == config.full
                && r.anchor_bottom == config.full
            &&& p != "bottom"@ && p != "top"@ && p != "left"@ && p != "right"@ ==> r.anchor_bottom
                && !r.anchor_top && !r.anchor_left && !r.anchor_right
        }),
        r.auto_exclusive_zone == config.exclusive,
        ({
            let l = if config.exclusive {
                "top"@
            } else {
                config.layer@
            };
            &&& l == "top"@ ==> r.layer == Layer::Top && !r.ignore_exclusive_zones
            &&& l == "bottom"@ ==> r.layer == Layer::Bottom && !r.ignore_exclusive_zones
            &&& l != "top"@ && l != "bottom"@ ==> r.layer == Layer::Overlay && r.ignore_exclusive_zones
        }),
        r.margin_top == config.mt,
        r.margin_left == config.ml,
        r.margin_right == config.mr,
        r.margin_bottom == config.mb,
{
    proof {
        reveal_strlit("top");
        reveal_strlit("bottom");
        reveal_strlit("left");
        reveal_strlit("right");
        assert("top"@.len() == 3 && "left"@.len() == 4 && "right"@.len() == 5 && "bottom"@.len()
            == 6);
    }
    let p = config.position.as_str();
    let full = config.full;
    let (t, b, l, rt) = if str_eq(p, "bottom") {
        (false, true, full, full)
    } else if str_eq(p, "top") {
        (true, false, full, full)
    } else if str_eq(p, "left") {
        (full, full, true, false)
    } else if str_eq(p, "right") {
        (full, full, false, true)
    } else {
        (false, true, false, false)
    };
    let layer_is_top = config.exclusive || str_eq(config.layer.as_str(), "top");
    let (layer, ignore) = if layer_is_top {
        (Layer::Top, false)
    } else if str_eq(config.layer.as_str(), "bottom") {
        (Layer::Bottom, false)
    } else {
        (Layer::Overlay, true)
    };
    WindowLayout {
        anchor_top: t,
        anchor_bottom: b,
        anchor_left: l,
        anchor_right: rt,
        layer,
        auto_exclusive_zone: config.exclusive,
        ignore_exclusive_zones: ignore,
        margin_top: config.mt,
        margin_left: config.ml,
        margin_right: config.mr,
        margin_bottom: config.mb,
    }
}

/// A monitor's area in the compositor's layout.
#[derive(Debug, Clone, Copy)]
pub struct MonitorRect {
    pub x: i32,
    pub y: i32,
    pub width: i32,
    pub height: i32,
}

/// A cursor position.
#[derive(Debug, Clone, Copy)]
pub struct CursorPos {
    pub x: i32,
    pub y: i32,
}

/// Edge detection threshold in pixels.
pub const EDGE_THRESHOLD: i32 = 2;

/// Whether the cursor lies on a monitor.
pub open spec fn on_monitor(c: CursorPos, m: MonitorRect) -> bool {
    c.x >= m.x && c.x < m.x + m.width && c.y >= m.y && c.y < m.y + m.height
}

/// Whether the cursor, on monitor `m`, is at the dock's edge of it.
pub open spec fn at_edge_of(c: CursorPos, m: MonitorRect, p: Position) -> bool {
    match p {
        Position::Bottom => c.y >= m.y + m.height - EDGE_THRESHOLD,
        Position::Top => c.y <= m.y + EDGE_THRESHOLD,
        Position::Left => c.x <= m.x + EDGE_THRESHOLD,
        Position::Right => c.x >= m.x + m.width - EDGE_THRESHOLD,
    }
}

/// Monitor coordinates small enough that the edge arithmetic fits in an `i32`.
pub open spec fn rect_in_range(m: MonitorRect) -> bool {
    -1_000_000_000 <= m.x <= 1_000_000_000 && -1_000_000_000 <= m.y <= 1_000_000_000 && 0
        <= m.width <= 1_000_000_000 && 0 <= m.height <= 1_000_000_000
}

/// Whether the cursor is at the dock's edge of the monitor it is on.
pub fn is_cursor_at_edge(cursor: CursorPos, monitors: &[MonitorRect], position: Position) -> (r: bool)
    requires
        forall|i: int| 0 <= i < monitors@.len() ==> rect_in_range(#[trigger] monitors@[i]),
    ensures
        r == exists|i: int|
            0 <= i < monitors@.len() && on_monitor(cursor, #[trigger] monitors@[i]) && at_edge_of(
                cursor,
                monitors@[i],
                position,
            ),
{
    let mut i: usize = 0;
    while i < monitors.len()
        invariant
            i <= monitors@.len(),
            forall|j: int| 0 <= j < monitors@.len() ==> rect_in_range(#[trigger] monitors@[j]),
            forall|j: int|
                0 <= j < i ==> !(on_monitor(cursor, #[trigger] monitors@[j]) && at_edge_of(
                    cursor,
                    monitors@[j],
                    position,
                )),
        decreases monitors@.len() - i,
    {
        let mon = monitors[i];
        assert(rect_in_range(monitors@[i as int]));
        let in_x = cursor.x >= mon.x && cursor.x < mon.x + mon.width;
        let in_y = cursor.y >= mon.y && cursor.y < mon.y + mon.height;
        if in_x && in_y {
            let at_edge = match position {
                Position::Bottom => cursor.y >= mon.y + mon.height - EDGE_THRESHOLD,
                Position::Top => cursor.y <= mon.y + EDGE_THRESHOLD,
                Position::Left => cursor.x <= mon.x + EDGE_THRESHOLD,
                Position::Right => cursor.x >= mon.x + mon.width - EDGE_THRESHOLD,
            };
            if at_edge {
                return true;
            }
        }
        i += 1;
    }
    false
}

/// The first monitor the cursor lies on.
pub fn find_cursor_monitor(cursor: CursorPos, monitors: &[MonitorRect]) -> (r: Option<usize>)
    requires
        forall|i: int| 0 <= i < monitors@.len() ==> rect_in_range(#[trigger] monitors@[i]),
    ensures
        r matches Some(k) ==> k < monitors@.len() && on_monitor(cursor, monitors@[k as int])
            && forall|j: int| 0 <= j < k ==> !on_monitor(cursor, #[trigger] monitors@[j]),
        r is None ==> forall|j: int| 0 <= j < monitors@.len() ==> !on_monitor(cursor, #[trigger] monitors@[j]),
{
    let mut i: usize = 0;
    while i < monitors.len()
        invariant
            i <= monitors@.len(),
            forall|j: int| 0 <= j < monitors@.len() ==> rect_in_range(#[trigger] monitors@[j]),
            forall|j: int| 0 <= j < i ==> !on_monitor(cursor, #[trigger] monitors@[j]),
        decreases monitors@.len() - i,
    {
        let mon = monitors[i];
        assert(rect_in_range(monitors@[i as int]));
        if cursor.x >= mon.x && cursor.x < mon.x + mon.width && cursor.y >= mon.y && cursor.y
            < mon.y + mon.height {
            return Some(i);
        }
        i += 1;
    }
    None
}

/// A visible dock window's size.
#[derive(Debug, Clone, Copy)]
pub struct DockWindowSize {
    pub width: i32,
    pub height: i32,
    /// Whether the window has a surface.
    pub has_surface: bool,
}

/// Whether the cursor is inside a window of size `w` x `h` centered at
/// the bottom of monitor `m` (the bottom edge included).
pub open spec fn in_dock_area(c: CursorPos, m: MonitorRect, w: int, h: int) -> bool {
    let dock_x = m.x + crate::dock::trunc_div(m.width - w, 2);
    let dock_y = m.y + m.height - h;
    c.x >= dock_x && c.x < dock_x + w && c.y >= dock_y && c.y <= m.y + m.height
}

/// Whether the cursor is inside any visible dock window, placed at the
/// bottom center of some monitor; windows without a size or a surface
/// are skipped.
pub fn is_cursor_in_visible_dock(cursor: CursorPos, windows: &[DockWindowSize], monitors: &[MonitorRect]) -> (r: bool)
    requires
        forall|i: int| 0 <= i < monitors@.len() ==> rect_in_range(#[trigger] monitors@[i]),
        forall|i: int|
            0 <= i < windows@.len() ==> 0 <= (#[trigger] windows@[i]).width <= 1_000_000_000 && 0
                <= windows@[i].height <= 1_000_000_000,
    ensures
        r == exists|i: int, j: int|
            0 <= i < windows@.len() && 0 <= j < monitors@.len() && windows@[i].width != 0
                && windows@[i].height != 0 && windows@[i].has_surface && #[trigger] in_dock_area(
                cursor,
                monitors@[j],
                windows@[i].width as int,
                windows@[i].height as int,
            ),
{
    let mut i: usize = 0;
    while i < windows.len()
        invariant
            i <= windows@.len(),
            forall|k: int| 0 <= k < monitors@.len() ==> rect_in_range(#[trigger] monitors@[k]),
            forall|k: int|
                0 <= k < windows@.len() ==> 0 <= (#[trigger] windows@[k]).width <= 1_000_000_000 && 0
                    <= windows@[k].height <= 1_000_000_000,
            forall|a: int, b: int|
                0 <= a < i && 0 <= b < monitors@.len() && windows@[a].width != 0
                    && windows@[a].height != 0 && windows@[a].has_surface ==> !#[trigger] in_dock_area(
                    cursor,
                    monitors@[b],
                    windows@[a].width as int,
                    windows@[a].height as int,
                ),
        decreases windows@.len() - i,
    {
        let win = windows[i];
        assert(0 <= windows@[i as int].width);
        if win.width != 0 && win.height != 0 && win.has_surface {
            let w = win.width;
            let h = win.height;
            let mut j: usize = 0;
            while j < monitors.len()
                invariant
                    j <= monitors@.len(),
                    i < windows@.len(),
                    win == windows@[i as int],
                    w != 0 && h != 0 && win.has_surface,
                    w == win.width,
                    h == win.height,
                    0 <= w <= 1_000_000_000,
                    0 <= h <= 1_000_000_000,
                    forall|k: int| 0 <= k < monitors@.len() ==> rect_in_range(#[trigger] monitors@[k]),
                    forall|b: int|
                        0 <= b < j ==> !in_dock_area(cursor, #[trigger] monitors@[b], w as int, h as int),
                decreases monitors@.len() - j,
            {
                let mon = monitors[j];
                assert(rect_in_range(monitors@[j as int]));
                let dock_x = mon.x + (mon.width - w) / 2;
                let dock_y = mon.y + mon.height - h;
                if cursor.x >= dock_x && cursor.x < dock_x + w && cursor.y >= dock_y && cursor.y
                    <= mon.y + mon.height {
                    assert(in_dock_area(
                        cursor,
                        monitors@[j as int],
                        windows@[i as int].width as int,
                        windows@[i as int].height as int,
                    ));
                    return true;
                }
                j += 1;
            }
        }
        i += 1;
    }
    false
}

/// What the autohide poller remembers between polls: when the cursor
/// left the dock (milliseconds on a monotonic clock).
pub struct AutohideState {
    pub left_at_ms: Option<u64>,
}

/// What the poller observed in one poll.
pub struct AutohidePoll {
    /// Whether any dock window is visible.
    pub any_visible: bool,
    /// Whether the cursor is at the dock's edge of its monitor.
    pub at_edge: bool,
    /// The monitor under the cursor, if any.
    pub cursor_monitor: Option<usize>,
    /// Whether the cursor is inside a visible dock window.
    pub in_dock_area: bool,
    /// Whether a popover menu is open or a drag is in progress.
    pub keep_visible: bool,
    /// Current time in milliseconds on the same clock.
    pub now_ms: u64,
}

/// What the poller does after one poll.
#[derive(Debug, Clone, Copy, PartialEq, Eq, Structural)]
pub enum AutohideAction {
    /// Nothing changes on screen.
    Nothing,
    /// Show the dock window of this monitor.
    Show(usize),
    /// Hide all dock windows.
    HideAll,
}

/// One poll of autohide: a hidden dock is shown on the cursor's monitor
/// when the cursor reaches the edge; a visible dock stays while the
/// cursor is inside it or at the edge (or a menu or drag is open), and is
/// hidden once the cursor has been away for `hide_timeout_ms`.
pub fn autohide_step(state: &mut AutohideState, poll: &AutohidePoll, hide_timeout_ms: u64, window_count: usize) -> (r: AutohideAction)
    ensures
        !poll.any_visible && poll.at_edge ==> final(state).left_at_ms is None && r == (match poll.cursor_monitor {
            Some(k) => if k < window_count {
                AutohideAction::Show(k)
            } else {
                AutohideAction::Nothing
            },
            None => AutohideAction::Nothing,
        }),
        !poll.any_visible && !poll.at_edge ==> final(state).left_at_ms == old(state).left_at_ms
            && r == AutohideAction::Nothing,
        poll.any_visible && (poll.in_dock_area || poll.at_edge || poll.keep_visible) ==> final(state).left_at_ms
            is None && r == AutohideAction::Nothing,
        poll.any_visible && !(poll.in_dock_area || poll.at_edge || poll.keep_visible) ==> (match old(state).left_at_ms {
            None => final(state).left_at_ms == Some(poll.now_ms) && r == AutohideAction::Nothing,
            Some(t) => if poll.now_ms >= t && poll.now_ms - t >= hide_timeout_ms {
                final(state).left_at_ms is None && r == AutohideAction::HideAll
            } else {
                final(state).left_at_ms == Some(t) && r == AutohideAction::Nothing
            },
        }),
{
    if !poll.any_visible {
        if poll.at_edge {
            state.left_at_ms = None;
            match poll.cursor_monitor {
                Some(k) => if k < window_count {
                    AutohideAction::Show(k)
                } else {
                    AutohideAction::Nothing
                },
                None => AutohideAction::Nothing,
            }
        } else {
            AutohideAction::Nothing
        }
    } else if poll.in_dock_area || poll.at_edge || poll.keep_visible {
        state.left_at_ms = None;
        AutohideAction::Nothing
    } else {
        match state.left_at_ms {
            None => {
                state.left_at_ms = Some(poll.now_ms);
                AutohideAction::Nothing
            },
            Some(t) => {
                if poll.now_ms >= t && poll.now_ms - t >= hide_timeout_ms {
                    state.left_at_ms = None;
                    AutohideAction::HideAll
                } else {
                    AutohideAction::Nothing
                }
            },
        }
    }
}

/// Whether a drag has left the dock: the cursor is neither inside the
/// dock nor at its edge.
pub fn drag_outside_dock(in_dock_area: bool, at_edge: bool) -> (b: bool)
    ensures
        b == (!in_dock_area && !at_edge),
{
    !in_dock_area && !at_edge
}

/// Whether an active-window event calls for refreshing the windows: the
/// address changed and is a real address (not a raw event line).
pub fn should_refresh(win_addr: &str, last_addr: &str) -> (b: bool)
    ensures
        b == (win_addr@ != last_addr@ && !contains(win_addr@, ">>"@)),
{
    !str_eq(win_addr, last_addr) && find_exec(&chars_of(win_addr), &chars_of(">>"), 0).is_none()
}

/// Visibility of a dock window after a control command (`None`: the
/// window is closed).
pub fn apply_window_command(cmd: WindowCommand, visible: bool) -> (r: Option<bool>)
    ensures
        cmd == WindowCommand::Show ==> r == Some(true),
        cmd == WindowCommand::Hide ==> r == Some(false),
        cmd == WindowCommand::Toggle ==> r == Some(!visible),
        cmd == WindowCommand::Quit ==> r is None,
{
    match cmd {
        WindowCommand::Show => Some(true),
        WindowCommand::Hide => Some(false),
        WindowCommand::Toggle => Some(!visible),
        WindowCommand::Quit => None,
    }
}

/// The last position of `name` among the compositor's outputs that have
/// a GDK monitor (the first `gdk_count`).
pub open spec fn output_index(names: Seq<Seq<char>>, name: Seq<char>, gdk_count: int) -> Option<int>
    decreases names.len(),
{
    if names.len() == 0 {
        None
    } else if names.last() == name && names.len() - 1 < gdk_count {
        Some(names.len() - 1)
    } else {
        output_index(names.drop_last(), name, gdk_count)
    }
}

/// The monitors to show the dock on: the one named by the `output`
/// setting when it names an output that has a GDK monitor, else all.
pub fn resolve_monitors(output: &str, output_names: &Vec<String>, gdk_count: usize) -> (r: Vec<usize>)
    ensures
        ({
            let k = output_index(output_names.deep_view(), output@, gdk_count as int);
            &&& output@.len() > 0 && k is Some ==> r@ == seq![k->0 as usize]
            &&& !(output@.len() > 0 && k is Some) ==> r@ == Seq::new(gdk_count as nat, |i: int| i as usize)
        }),
{
    let ghost nv = output_names.deep_view();
    let mut found: Option<usize> = None;
    if !output.is_empty() {
        let mut i: usize = 0;
        while i < output_names.len()
            invariant
                i <= output_names@.len(),
                nv == output_names.deep_view(),
                output_index(nv.take(i as int), output@, gdk_count as int) == match found {
                    Some(k) => Some(k as int),
                    None => None::<int>,
                },
            decreases output_names@.len() - i,
        {
            let ghost pre = nv.take(i + 1);
            assert(pre.drop_last() =~= nv.take(i as int));
            assert(pre.last() == output_names@[i as int]@);
            if str_eq(output_names[i].as_str(), output) && i < gdk_count {
                found = Some(i);
            }
            i += 1;
        }
        assert(nv.take(i as int) =~= nv);
    }
    match found {
        Some(k) => {
            let v = vec![k];
            assert(v@ =~= seq![k]);
            v
        },
        None => {
            let mut v: Vec<usize> = Vec::new();
            let mut i: usize = 0;
            while i < gdk_count
                invariant
                    i <= gdk_count,
                    v@ =~= Seq::new(i as nat, |j: int| j as usize),
                decreases gdk_count - i,
            {
                v.push(i);
                i += 1;
            }
            v
        },
    }
}

} // verus!
