//! The dock's menus and buttons: the actions a menu item names, what
//! each action does, and the requests a button click sends.

use vstd::prelude::*;
use crate::compositor::WmClient;
use crate::dock::{client_views, instances_of, task_instances};
use crate::events::utf8_len;
use crate::pinning::{pin_item, pinned_contains, unpin_item, without_item};
use crate::text::{
    chars_of, decimal, decimal_string, index_of_char, index_of_char_exec, slice_vec, starts_with,
    starts_with_exec, str_eq, string_of, words,
};

verus! {

/// The part of `s` before its first `.`, and what follows that dot.
pub open spec fn split_dot(s: Seq<char>) -> (Seq<char>, Option<Seq<char>>) {
    match index_of_char(s, '.') {
        Some(i) => (s.take(i), Some(s.skip(i + 1))),
        None => (s, None),
    }
}

/// A dock menu action, in its view.
pub ghost enum ActionView {
    Close(Seq<char>),
    Float(Seq<char>),
    Fullscreen(Seq<char>),
    MoveToWorkspace(Seq<char>, Seq<char>),
    Launch(Seq<char>),
    CloseAll(Seq<char>),
    Pin(Seq<char>),
    Unpin(Seq<char>),
    Nothing,
}

/// A dock menu action.
pub enum DockAction {
    /// Close the window with this address.
    Close(String),
    /// Toggle floating for the window with this address.
    Float(String),
    /// Toggle fullscreen for the window with this address.
    Fullscreen(String),
    /// Move the window with this address (first) to this workspace (second).
    MoveToWorkspace(String, String),
    /// Launch a new instance of this class.
    Launch(String),
    /// Close every window of this class.
    CloseAll(String),
    /// Pin this class.
    Pin(String),
    /// Unpin this class.
    Unpin(String),
    /// Nothing to do (unknown action, or one without its argument).
    Nothing,
}

impl View for DockAction {
    type V = ActionView;

    open spec fn view(&self) -> ActionView {
        match self {
            DockAction::Close(a) => ActionView::Close(a@),
            DockAction::Float(a) => ActionView::Float(a@),
            DockAction::Fullscreen(a) => ActionView::Fullscreen(a@),
            DockAction::MoveToWorkspace(a, w) => ActionView::MoveToWorkspace(a@, w@),
            DockAction::Launch(a) => ActionView::Launch(a@),
            DockAction::CloseAll(a) => ActionView::CloseAll(a@),
            DockAction::Pin(a) => ActionView::Pin(a@),
            DockAction::Unpin(a) => ActionView::Unpin(a@),
            DockAction::Nothing => ActionView::Nothing,
        }
    }
}

/// The action a menu item's name stands for: the verb before the first
/// dot selects it, and the text up to the next dot is its argument. A
/// `movews.ADDRESS.WS` action takes the window address as that argument
/// and the workspace as everything after the second dot.
pub open spec fn action_of(cmd: Seq<char>) -> ActionView {
    let (verb, rest) = split_dot(cmd);
    match rest {
        None => ActionView::Nothing,
        Some(r) => {
            let (a, tail) = split_dot(r);
            if verb == "movews"@ {
                match tail {
                    Some(ws) => ActionView::MoveToWorkspace(a, ws),
                    None => ActionView::Nothing,
                }
            } else if verb == "close"@ {
                ActionView::Close(a)
            } else if verb == "float"@ {
                ActionView::Float(a)
            } else if verb == "fullscreen"@ {
                ActionView::Fullscreen(a)
            } else if verb == "launch"@ {
                ActionView::Launch(a)
            } else if verb == "closeall"@ {
                ActionView::CloseAll(a)
            } else if verb == "pin"@ {
                ActionView::Pin(a)
            } else if verb == "unpin"@ {
                ActionView::Unpin(a)
            } else {
                ActionView::Nothing
            }
        },
    }
}

fn split_dot_exec(v: &Vec<char>) -> (r: (Vec<char>, Option<Vec<char>>))
    ensures
        r.0@ == split_dot(v@).0,
        r.1 matches Some(t) ==> split_dot(v@).1 == Some(t@),
        r.1 is None ==> split_dot(v@).1 is None,
{
    match index_of_char_exec(v, '.') {
        Some(i) => {
            proof {
                crate::text::lemma_index_of_char(v@, '.');
            }
            let head = slice_vec(v, 0, i);
            let tail = slice_vec(v, i + 1, v.len());
            assert(head@ =~= v@.take(i as int));
            assert(tail@ =~= v@.skip(i + 1));
            (head, Some(tail))
        },
        None => (slice_vec(v, 0, v.len()), None),
    }
}

/// Parses the name of a dock menu action.
pub fn parse_dock_action(cmd: &str) -> (r: DockAction)
    ensures
        r@ == action_of(cmd@),
{
    let v = chars_of(cmd);
    let (verb_v, rest) = split_dot_exec(&v);
    proof {
        assert(v@.subrange(0, v@.len() as int) =~= v@);
    }
    let (arg, tail) = match rest {
        None => return DockAction::Nothing,
        Some(r) => {
            let (a, t) = split_dot_exec(&r);
            (string_of(&a), t)
        },
    };
    let verb = string_of(&verb_v);
    let vs = verb.as_str();
    if str_eq(vs, "movews") {
        match tail {
            Some(w) => DockAction::MoveToWorkspace(arg, string_of(&w)),
            None => DockAction::Nothing,
        }
    } else if str_eq(vs, "close") {
        DockAction::Close(arg)
    } else if str_eq(vs, "float") {
        DockAction::Float(arg)
    } else if str_eq(vs, "fullscreen") {
        DockAction::Fullscreen(arg)
    } else if str_eq(vs, "launch") {
        DockAction::Launch(arg)
    } else if str_eq(vs, "closeall") {
        DockAction::CloseAll(arg)
    } else if str_eq(vs, "pin") {
        DockAction::Pin(arg)
    } else if str_eq(vs, "unpin") {
        DockAction::Unpin(arg)
    } else {
        DockAction::Nothing
    }
}

/// What carrying out a dock action takes.
pub struct ActionEffect {
    /// Hyprland requests to send, in order.
    pub requests: Vec<String>,
    /// An application class to launch.
    pub launch: Option<String>,
    /// Whether the pinned list changed and must be saved.
    pub save_pins: bool,
    /// Whether the dock must be rebuilt.
    pub rebuild: bool,
}

/// The request that closes the window with address `a`.
pub open spec fn close_request(a: Seq<char>) -> Seq<char> {
    "dispatch closewindow address:"@ + a
}

fn request_for(prefix: &str, a: &str) -> (r: String)
    ensures
        r@ == prefix@ + a@,
{
    let mut r = prefix.to_owned();
    r.append(a);
    r
}

/// Carries out a dock action on the pinned list and tells what else it
/// takes: window actions become Hyprland requests (closing all windows
/// of a class closes each of its windows in order); pinning changes the
/// list, which is saved when it changed, and the dock is rebuilt either
/// way.
pub fn apply_dock_action(action: DockAction, pinned: &mut Vec<String>, clients: &Vec<WmClient>) -> (r: ActionEffect)
    ensures
        ({
            let old_pins = old(pinned)@.map_values(|s: String| s@);
            let new_pins = final(pinned)@.map_values(|s: String| s@);
            match action@ {
                ActionView::Close(a) => r.requests.deep_view() == seq![close_request(a)]
                    && r.launch is None && !r.save_pins && !r.rebuild && new_pins == old_pins,
                ActionView::Float(a) => r.requests.deep_view() == seq![
                    "dispatch togglefloating address:"@ + a,
                ] && r.launch is None && !r.save_pins && !r.rebuild && new_pins == old_pins,
                ActionView::Fullscreen(a) => r.requests.deep_view() == seq![
                    "dispatch fullscreen address:"@ + a,
                ] && r.launch is None && !r.save_pins && !r.rebuild && new_pins == old_pins,
                ActionView::MoveToWorkspace(a, w) => r.requests.deep_view() == seq![
                    "dispatch movetoworkspace "@ + w + ",address:"@ + a,
                ] && r.launch is None && !r.save_pins && !r.rebuild && new_pins == old_pins,
                ActionView::Launch(c) => r.requests@.len() == 0 && (r.launch matches Some(l) && l@
                    == c) && !r.save_pins && !r.rebuild && new_pins == old_pins,
                ActionView::CloseAll(c) => r.requests.deep_view() == instances_of(
                    client_views(clients@),
                    c,
                ).map_values(|w: crate::compositor::ClientView| close_request(w.id))
                    && r.launch is None && !r.save_pins && !r.rebuild && new_pins == old_pins,
                ActionView::Pin(c) => r.requests@.len() == 0 && r.launch is None && r.rebuild
                    && r.save_pins == !pinned_contains(old_pins, c) && (r.save_pins ==> new_pins
                    == old_pins.push(c)) && (!r.save_pins ==> new_pins == old_pins),
                ActionView::Unpin(c) => r.requests@.len() == 0 && r.launch is None && r.rebuild
                    && r.save_pins == (new_pins.len() < old_pins.len()) && new_pins == without_item(
                    old_pins,
                    c,
                ),
                ActionView::Nothing => r.requests@.len() == 0 && r.launch is None && !r.save_pins
                    && !r.rebuild && new_pins == old_pins,
            }
        }),
{
    let mut requests: Vec<String> = Vec::new();
    match action {
        DockAction::Close(a) => {
            requests.push(request_for("dispatch closewindow address:", a.as_str()));
            assert(requests.deep_view() =~= seq![close_request(a@)]);
            ActionEffect { requests, launch: None, save_pins: false, rebuild: false }
        },
        DockAction::Float(a) => {
            requests.push(request_for("dispatch togglefloating address:", a.as_str()));
            assert(requests.deep_view() =~= seq!["dispatch togglefloating address:"@ + a@]);
            ActionEffect { requests, launch: None, save_pins: false, rebuild: false }
        },
        DockAction::Fullscreen(a) => {
            requests.push(request_for("dispatch fullscreen address:", a.as_str()));
            assert(requests.deep_view() =~= seq!["dispatch fullscreen address:"@ + a@]);
            ActionEffect { requests, launch: None, save_pins: false, rebuild: false }
        },
        DockAction::MoveToWorkspace(a, w) => {
            let mut req = request_for("dispatch movetoworkspace ", w.as_str());
            req.append(",address:");
            req.append(a.as_str());
            requests.push(req);
            assert(requests.deep_view() =~= seq![
                "dispatch movetoworkspace "@ + w@ + ",address:"@ + a@,
            ]);
            ActionEffect { requests, launch: None, save_pins: false, rebuild: false }
        },
        DockAction::Launch(c) => ActionEffect {
            requests,
            launch: Some(c),
            save_pins: false,
            rebuild: false,
        },
        DockAction::CloseAll(c) => {
            let instances = task_instances(clients, c.as_str());
            let ghost iv = client_views(instances@);
            let mut i: usize = 0;
            while i < instances.len()
                invariant
                    i <= instances@.len(),
                    iv == client_views(instances@),
                    requests.deep_view() =~= iv.take(i as int).map_values(
                        |w: crate::compositor::ClientView| close_request(w.id),
                    ),
                decreases instances@.len() - i,
            {
                assert(iv[i as int] == instances@[i as int]@);
                let ghost before = requests.deep_view();
                requests.push(request_for("dispatch closewindow address:", instances[i].id.as_str()));
                assert(requests.deep_view() =~= before.push(close_request(iv[i as int].id)));
                i += 1;
            }
            assert(iv.take(i as int) =~= iv);
            ActionEffect { requests, launch: None, save_pins: false, rebuild: false }
        },
        DockAction::Pin(c) => {
            let added = pin_item(pinned, c.as_str());
            ActionEffect { requests, launch: None, save_pins: added, rebuild: true }
        },
        DockAction::Unpin(c) => {
            let removed = unpin_item(pinned, c.as_str());
            ActionEffect { requests, launch: None, save_pins: removed, rebuild: true }
        },
        DockAction::Nothing => ActionEffect {
            requests,
            launch: None,
            save_pins: false,
            rebuild: false,
        },
    }
}


/// The indicator image under (or beside) a dock icon.
pub struct IndicatorAsset {
    /// File name of the image.
    pub name: &'static str,
    /// The icon size is divided by this for the image's width.
    pub width_divisor: i32,
    /// The icon size is divided by this for the image's height.
    pub height_divisor: i32,
}

/// The indicator for an application with `count` windows: empty, single
/// or multiple, thin along the dock's direction.
pub fn indicator_asset(count: usize, vertical: bool) -> (r: IndicatorAsset)
    ensures
        count == 0 && !vertical ==> r.name@ == "task-empty.svg"@,
        count == 0 && vertical ==> r.name@ == "task-empty-vertical.svg"@,
        count == 1 && !vertical ==> r.name@ == "task-single.svg"@,
        count == 1 && vertical ==> r.name@ == "task-single-vertical.svg"@,
        count > 1 && !vertical ==> r.name@ == "task-multiple.svg"@,
        count > 1 && vertical ==> r.name@ == "task-multiple-vertical.svg"@,
        !vertical ==> r.width_divisor == 1 && r.height_divisor == 8,
        vertical ==> r.width_divisor == 8 && r.height_divisor == 1,
{
    let (wd, hd) = if vertical {
        (8, 1)
    } else {
        (1, 8)
    };
    let name = if count == 0 {
        if vertical {
            "task-empty-vertical.svg"
        } else {
            "task-empty.svg"
        }
    } else if count == 1 {
        if vertical {
            "task-single-vertical.svg"
        } else {
            "task-single.svg"
        }
    } else if vertical {
        "task-multiple-vertical.svg"
    } else {
        "task-multiple.svg"
    };
    IndicatorAsset { name, width_divisor: wd, height_divisor: hd }
}

/// The size of an indicator image for icons of `img_size` pixels.
pub fn indicator_size(img_size: i32, asset: &IndicatorAsset) -> (r: (i32, i32))
    requires
        asset.width_divisor > 0,
        asset.height_divisor > 0,
    ensures
        r.0 == crate::dock::trunc_div(img_size as int, asset.width_divisor as int),
        r.1 == crate::dock::trunc_div(img_size as int, asset.height_divisor as int),
{
    (img_size / asset.width_divisor, img_size / asset.height_divisor)
}

/// Whether the indicator goes before the icon (docks at the left or top).
pub fn indicator_first(position: &str) -> (b: bool)
    ensures
        b == (position@ == "left"@ || position@ == "top"@),
{
    str_eq(position, "left") || str_eq(position, "top")
}

/// The Hyprland requests that focus a window: a window on a special
/// workspace toggles that workspace (named after `special:`), any other
/// is focused by address; then the active window is raised.
pub fn focus_window_requests(address: &str, workspace_name: &str) -> (r: Vec<String>)
    ensures
        starts_with(workspace_name@, "special"@) ==> r.deep_view() == seq![
            "dispatch togglespecialworkspace "@ + (if starts_with(workspace_name@, "special:"@) {
                workspace_name@.skip(8)
            } else {
                Seq::empty()
            }),
            "dispatch bringactivetotop"@,
        ],
        !starts_with(workspace_name@, "special"@) ==> r.deep_view() == seq![
            "dispatch focuswindow address:"@ + address@,
            "dispatch bringactivetotop"@,
        ],
{
    let w = chars_of(workspace_name);
    let mut r: Vec<String> = Vec::new();
    if starts_with_exec(&w, &chars_of("special")) {
        let name = if starts_with_exec(&w, &chars_of("special:")) {
            proof {
                reveal_strlit("special:");
            }
            let t = slice_vec(&w, 8, w.len());
            assert(t@ =~= workspace_name@.skip(8));
            string_of(&t)
        } else {
            String::new()
        };
        r.push(request_for("dispatch togglespecialworkspace ", name.as_str()));
    } else {
        r.push(request_for("dispatch focuswindow address:", address));
    }
    r.push("dispatch bringactivetotop".to_owned());
    assert(r.deep_view() =~= seq![r@[0]@, r@[1]@]);
    r
}

/// The program and arguments the launcher button starts: the command's
/// whitespace-separated words; none when it has none.
pub fn launcher_command(cmd: &str) -> (r: Option<Vec<String>>)
    ensures
        words(cmd@).len() == 0 ==> r is None,
        words(cmd@).len() > 0 ==> (r matches Some(v) && v.deep_view() == words(cmd@)),
{
    let w = crate::text::split_whitespace_exec(&chars_of(cmd));
    if w.len() == 0 {
        None
    } else {
        Some(w)
    }
}

/// A window title cut to `max` bytes, with an ellipsis, when longer.
pub fn truncate_title(title: &str, max: usize) -> (r: String)
    requires
        utf8_len(title@) > max ==> vstd::utf8::is_char_boundary(
            vstd::utf8::encode_utf8(title@),
            max as int,
        ),
    ensures
        utf8_len(title@) <= max ==> r@ == title@,
        utf8_len(title@) > max ==> r@ == vstd::utf8::decode_utf8(
            vstd::utf8::encode_utf8(title@).take(max as int),
        ).push('…'),
{
    if title.len() > max {
        let (head, _) = title.split_at(max);
        proof {
            vstd::utf8::encode_utf8_decode_utf8(head@);
            assert(vstd::utf8::encode_utf8(title@).subrange(0, max as int) =~= vstd::utf8::encode_utf8(
                title@,
            ).take(max as int));
        }
        let mut r = head.to_owned();
        push_ellipsis(&mut r);
        r
    } else {
        title.to_owned()
    }
}

fn push_ellipsis(s: &mut String)
    ensures
        final(s)@ == old(s)@.push('…'),
{
    crate::text::push_char(s, '…');
}

/// The label of a window in the dock's menus: its title (cut to 25
/// bytes) and, in parentheses, its workspace.
pub fn instance_label(title: &str, workspace_name: &str) -> (r: String)
    requires
        utf8_len(title@) > 25 ==> vstd::utf8::is_char_boundary(
            vstd::utf8::encode_utf8(title@),
            25,
        ),
    ensures
        ({
            let t = if utf8_len(title@) <= 25 {
                title@
            } else {
                vstd::utf8::decode_utf8(vstd::utf8::encode_utf8(title@).take(25)).push('…')
            };
            r@ == t + " ("@ + workspace_name@ + ")"@
        }),
{
    let mut r = truncate_title(title, 25);
    r.append(" (");
    r.append(workspace_name);
    r.append(")");
    r
}

/// The menu item names of a window's context menu section: close, toggle
/// floating, fullscreen, then a move to each workspace from 1 to `num_ws`.
pub fn window_menu_actions(address: &str, num_ws: i32) -> (r: Vec<String>)
    requires
        num_ws < i32::MAX,
    ensures
        r@.len() == 3 + (if num_ws > 0 {
            num_ws as int
        } else {
            0
        }),
        r@[0]@ == "dock.close."@ + address@,
        r@[1]@ == "dock.float."@ + address@,
        r@[2]@ == "dock.fullscreen."@ + address@,
        forall|k: int|
            3 <= k < r@.len() ==> #[trigger] r@[k]@ == "dock.movews."@ + address@ + "."@ + decimal(
                k - 2,
            ),
{
    let mut r: Vec<String> = Vec::new();
    r.push(request_for("dock.close.", address));
    r.push(request_for("dock.float.", address));
    r.push(request_for("dock.fullscreen.", address));
    let mut ws: i32 = 1;
    while ws <= num_ws
        invariant
            1 <= ws,
            num_ws < i32::MAX,
            ws <= num_ws + 1 || num_ws <= 0,
            num_ws <= 0 ==> ws == 1,
            r@.len() == 3 + ws - 1,
            r@[0]@ == "dock.close."@ + address@,
            r@[1]@ == "dock.float."@ + address@,
            r@[2]@ == "dock.fullscreen."@ + address@,
            forall|k: int|
                3 <= k < r@.len() ==> #[trigger] r@[k]@ == "dock.movews."@ + address@ + "."@
                    + decimal(k - 2),
        decreases num_ws + 1 - ws,
    {
        let mut a = request_for("dock.movews.", address);
        a.append(".");
        let n = decimal_string(ws as i64);
        a.append(n.as_str());
        r.push(a);
        ws += 1;
    }
    r
}

/// The menu item names for an application: a new window, closing all its
/// windows, and pinning or unpinning it.
pub fn app_menu_actions(class: &str, pinned: &[String]) -> (r: Vec<String>)
    ensures
        r@.len() == 3,
        r@[0]@ == "dock.launch."@ + class@,
        r@[1]@ == "dock.closeall."@ + class@,
        pinned_contains(pinned@.map_values(|s: String| s@), class@) ==> r@[2]@ == "dock.unpin."@
            + class@,
        !pinned_contains(pinned@.map_values(|s: String| s@), class@) ==> r@[2]@ == "dock.pin."@
            + class@,
{
    let mut r: Vec<String> = Vec::new();
    r.push(request_for("dock.launch.", class));
    r.push(request_for("dock.closeall.", class));
    if crate::pinning::is_pinned(pinned, class) {
        r.push(request_for("dock.unpin.", class));
    } else {
        r.push(request_for("dock.pin.", class));
    }
    r
}

} // verus!
