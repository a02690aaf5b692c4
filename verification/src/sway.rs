//! Sway's i3-compatible IPC: message framing, command replies, window
//! events, and the container tree from which windows are listed.

use vstd::prelude::*;
use crate::autohide::MonitorRect;
use crate::compositor::{copy_workspace, ClientView, DockError, WmClient, WmEvent, WmWorkspace};
use crate::text::{chars_of, decimal, decimal_string, starts_with, starts_with_exec};

verus! {

/// `window_properties` of an X11 window.
pub struct WindowProperties {
    /// The X11 class, when it is a string.
    pub class: Option<String>,
}

/// The `workspace` object embedded in some containers (such as event
/// containers).
pub struct SwayWorkspaceRef {
    /// `num`, when it is an integer.
    pub num: Option<i64>,
    /// `name`, when it is a string.
    pub name: Option<String>,
}

/// A node of Sway's `GET_TREE` reply: the keys the dock reads. A key that
/// is absent or of another JSON type is `None`; absent `nodes` or
/// `floating_nodes` are empty.
pub struct SwayNode {
    /// `type`: `root`, `output`, `workspace`, `con` or `floating_con`.
    pub node_type: Option<String>,
    pub name: Option<String>,
    /// Workspace number.
    pub num: Option<i64>,
    /// Container id.
    pub id: Option<i64>,
    /// Wayland application id.
    pub app_id: Option<String>,
    pub pid: Option<i64>,
    /// Present (with any value) for X11 windows.
    pub window_properties: Option<WindowProperties>,
    pub fullscreen_mode: Option<i64>,
    pub focused: Option<bool>,
    pub workspace: Option<SwayWorkspaceRef>,
    pub nodes: Vec<SwayNode>,
    pub floating_nodes: Vec<SwayNode>,
}

/// A string field, or the empty string when it is missing.
pub open spec fn text_or_empty(o: Option<String>) -> Seq<char> {
    match o {
        Some(s) => s@,
        None => Seq::empty(),
    }
}

/// An integer field, or 0 when it is missing.
pub open spec fn int_or_zero(o: Option<i64>) -> i64 {
    match o {
        Some(v) => v,
        None => 0,
    }
}

/// A node is a window if it has a pid and either an app id (Wayland) or
/// window properties (X11), and is a plain container.
pub open spec fn is_window(n: SwayNode) -> bool {
    &&& int_or_zero(n.pid) > 0
    &&& (text_or_empty(n.app_id).len() > 0 || n.window_properties is Some)
    &&& text_or_empty(n.node_type) == "con"@
}

/// The class of a window: its app id, else its X11 class, else empty.
pub open spec fn class_of(n: SwayNode) -> Seq<char> {
    if text_or_empty(n.app_id).len() > 0 {
        text_or_empty(n.app_id)
    } else {
        match n.window_properties {
            Some(p) => text_or_empty(p.class),
            None => Seq::empty(),
        }
    }
}

/// The workspace embedded in a node, or workspace 0 with no name.
pub open spec fn embedded_workspace(n: SwayNode) -> (i32, Seq<char>) {
    match n.workspace {
        Some(w) => (int_or_zero(w.num) as i32, text_or_empty(w.name)),
        None => (0, Seq::empty()),
    }
}

/// The window a container node describes; none without an integer id.
pub open spec fn client_of_node(n: SwayNode, floating: bool) -> Option<ClientView> {
    match n.id {
        Some(id) => Some(
            ClientView {
                id: decimal(id as int),
                class: class_of(n),
                initial_class: Seq::empty(),
                title: text_or_empty(n.name),
                pid: int_or_zero(n.pid) as i32,
                ws_id: embedded_workspace(n).0,
                ws_name: embedded_workspace(n).1,
                floating: floating,
                monitor_id: 0,
                fullscreen: int_or_zero(n.fullscreen_mode) > 0,
            },
        ),
        None => None,
    }
}

fn text_or_empty_exec(o: &Option<String>) -> (r: String)
    ensures
        r@ == text_or_empty(*o),
{
    match o {
        Some(s) => s.clone(),
        None => String::new(),
    }
}

fn int_or_zero_exec(o: &Option<i64>) -> (r: i64)
    ensures
        r == int_or_zero(*o),
{
    match o {
        Some(v) => *v,
        None => 0,
    }
}

/// Whether the node has the given type.
fn type_is(n: &SwayNode, t: &str) -> (b: bool)
    ensures
        b == (text_or_empty(n.node_type) == t@),
{
    let ty = text_or_empty_exec(&n.node_type);
    crate::text::str_eq(ty.as_str(), t)
}

fn optional_text_nonempty(o: &Option<String>) -> (b: bool)
    ensures
        b == (text_or_empty(*o).len() > 0),
{
    match o {
        Some(s) => !s.as_str().is_empty(),
        None => false,
    }
}

/// A node is a window if it has a pid and either an app id (Wayland) or
/// window properties (X11), and is a plain container.
pub fn is_window_node(node: &SwayNode) -> (b: bool)
    ensures
        b == is_window(*node),
{
    let has_pid = int_or_zero_exec(&node.pid) > 0;
    let has_app_id = optional_text_nonempty(&node.app_id);
    let has_window_props = node.window_properties.is_some();
    has_pid && (has_app_id || has_window_props) && type_is(node, "con")
}

/// The workspace embedded in a node (event containers carry one), or
/// workspace 0 with no name.
pub fn extract_workspace_from_node(node: &SwayNode) -> (r: (i32, String))
    ensures
        r.0 == embedded_workspace(*node).0,
        r.1@ == embedded_workspace(*node).1,
{
    match &node.workspace {
        Some(w) => {
            let num = int_or_zero_exec(&w.num);
            (num as i32, text_or_empty_exec(&w.name))
        },
        None => (0, String::new()),
    }
}

/// Converts a container node into a window; none without an id.
pub fn node_to_wm_client(node: &SwayNode, floating: bool) -> (r: Option<WmClient>)
    ensures
        r matches Some(c) ==> client_of_node(*node, floating) == Some(c@),
        r is None ==> client_of_node(*node, floating) is None,
{
    let id = match node.id {
        Some(v) => v,
        None => return None,
    };
    let class = if optional_text_nonempty(&node.app_id) {
        text_or_empty_exec(&node.app_id)
    } else {
        match &node.window_properties {
            Some(p) => text_or_empty_exec(&p.class),
            None => String::new(),
        }
    };
    let title = text_or_empty_exec(&node.name);
    let pid = int_or_zero_exec(&node.pid);
    let fullscreen_mode = int_or_zero_exec(&node.fullscreen_mode);
    let (ws_id, ws_name) = extract_workspace_from_node(node);
    Some(
        WmClient {
            id: decimal_string(id),
            class,
            initial_class: String::new(),
            title,
            pid: pid as i32,
            workspace: WmWorkspace { id: ws_id, name: ws_name },
            floating,
            monitor_id: 0,
            fullscreen: fullscreen_mode > 0,
        },
    )
}


/// The views of a list of windows.
pub open spec fn views(s: Seq<WmClient>) -> Seq<ClientView> {
    s.map_values(|c: WmClient| c@)
}

/// Maximum tree traversal depth, against stack overflow.
pub const MAX_TREE_DEPTH: u32 = 128;

/// The window of a container node, placed on the workspace and output in
/// which the traversal found it.
pub open spec fn placed_window(n: SwayNode, ws: (i32, Seq<char>), output: i32, floating: bool) -> Seq<ClientView> {
    if is_window(n) {
        match client_of_node(n, floating) {
            Some(c) => seq![
                ClientView {
                    id: c.id,
                    class: c.class,
                    initial_class: c.initial_class,
                    title: c.title,
                    pid: c.pid,
                    ws_id: ws.0,
                    ws_name: ws.1,
                    floating: c.floating,
                    monitor_id: output,
                    fullscreen: c.fullscreen,
                },
            ],
            None => Seq::empty(),
        }
    } else {
        Seq::empty()
    }
}

/// The windows under a node, depth first, each with the workspace and
/// output it lies in; windows under `floating_con` containers or in
/// `floating_nodes` are floating. Sway's internal `__`-named outputs and
/// workspaces are skipped, and nothing deeper than `MAX_TREE_DEPTH` is
/// visited.
pub open spec fn tree_windows(n: SwayNode, ws: (i32, Seq<char>), output: i32, floating: bool, depth: int) -> Seq<ClientView>
    decreases 129 - depth, 0int, 0int,
{
    if depth > 128 {
        Seq::empty()
    } else {
        let ty = text_or_empty(n.node_type);
        let name = text_or_empty(n.name);
        if ty == "workspace"@ {
            if starts_with(name, "__"@) {
                Seq::empty()
            } else {
                let ws2 = (int_or_zero(n.num) as i32, name);
                list_windows(n.nodes@, 0, ws2, output, false, depth + 1) + list_windows(
                    n.floating_nodes@,
                    0,
                    ws2,
                    output,
                    true,
                    depth + 1,
                )
            }
        } else if ty == "output"@ {
            if starts_with(name, "__"@) {
                Seq::empty()
            } else {
                list_windows(n.nodes@, 0, ws, output, false, depth + 1) + list_windows(
                    n.floating_nodes@,
                    0,
                    ws,
                    output,
                    true,
                    depth + 1,
                )
            }
        } else if ty == "floating_con"@ {
            list_windows(n.nodes@, 0, ws, output, true, depth + 1) + list_windows(
                n.floating_nodes@,
                0,
                ws,
                output,
                true,
                depth + 1,
            )
        } else {
            placed_window(n, ws, output, floating) + list_windows(
                n.nodes@,
                0,
                ws,
                output,
                floating,
                depth + 1,
            ) + list_windows(n.floating_nodes@, 0, ws, output, true, depth + 1)
        }
    }
}

/// The windows under the nodes `cs[i..]`, in order.
pub open spec fn list_windows(cs: Seq<SwayNode>, i: int, ws: (i32, Seq<char>), output: i32, floating: bool, depth: int) -> Seq<ClientView>
    decreases 129 - depth, 1int, cs.len() - i,
{
    if i < 0 || i >= cs.len() {
        Seq::empty()
    } else {
        tree_windows(cs[i], ws, output, floating, depth) + list_windows(
            cs,
            i + 1,
            ws,
            output,
            floating,
            depth,
        )
    }
}

/// Whether every window of `s` lies on output `output`.
pub open spec fn all_on_output(s: Seq<ClientView>, output: i32) -> bool {
    forall|k: int| 0 <= k < s.len() ==> (#[trigger] s[k]).monitor_id == output
}

proof fn lemma_on_output_concat(a: Seq<ClientView>, b: Seq<ClientView>, output: i32)
    requires
        all_on_output(a, output),
        all_on_output(b, output),
    ensures
        all_on_output(a + b, output),
{
    assert forall|k: int| 0 <= k < (a + b).len() implies (#[trigger] (a + b)[k]).monitor_id == output by {
        if k < a.len() {
            assert((a + b)[k] == a[k]);
        } else {
            assert((a + b)[k] == b[k - a.len()]);
        }
    }
}

proof fn lemma_tree_on_output(n: SwayNode, ws: (i32, Seq<char>), output: i32, floating: bool, depth: int)
    ensures
        all_on_output(tree_windows(n, ws, output, floating, depth), output),
    decreases 129 - depth, 0int, 0int,
{
    if depth <= 128 {
        let ty = text_or_empty(n.node_type);
        let name = text_or_empty(n.name);
        let ws2 = (int_or_zero(n.num) as i32, name);
        lemma_list_on_output(n.nodes@, 0, ws, output, false, depth + 1);
        lemma_list_on_output(n.floating_nodes@, 0, ws, output, true, depth + 1);
        lemma_list_on_output(n.nodes@, 0, ws2, output, false, depth + 1);
        lemma_list_on_output(n.floating_nodes@, 0, ws2, output, true, depth + 1);
        lemma_list_on_output(n.nodes@, 0, ws, output, true, depth + 1);
        lemma_list_on_output(n.nodes@, 0, ws, output, floating, depth + 1);
        lemma_on_output_concat(
            list_windows(n.nodes@, 0, ws2, output, false, depth + 1),
            list_windows(n.floating_nodes@, 0, ws2, output, true, depth + 1),
            output,
        );
        lemma_on_output_concat(
            list_windows(n.nodes@, 0, ws, output, false, depth + 1),
            list_windows(n.floating_nodes@, 0, ws, output, true, depth + 1),
            output,
        );
        lemma_on_output_concat(
            list_windows(n.nodes@, 0, ws, output, true, depth + 1),
            list_windows(n.floating_nodes@, 0, ws, output, true, depth + 1),
            output,
        );
        let p = placed_window(n, ws, output, floating);
        assert(all_on_output(p, output));
        lemma_on_output_concat(p, list_windows(n.nodes@, 0, ws, output, floating, depth + 1), output);
        lemma_on_output_concat(
            p + list_windows(n.nodes@, 0, ws, output, floating, depth + 1),
            list_windows(n.floating_nodes@, 0, ws, output, true, depth + 1),
            output,
        );
    }
}

proof fn lemma_list_on_output(cs: Seq<SwayNode>, i: int, ws: (i32, Seq<char>), output: i32, floating: bool, depth: int)
    ensures
        all_on_output(list_windows(cs, i, ws, output, floating, depth), output),
    decreases 129 - depth, 1int, cs.len() - i,
{
    if 0 <= i < cs.len() {
        lemma_tree_on_output(cs[i], ws, output, floating, depth);
        lemma_list_on_output(cs, i + 1, ws, output, floating, depth);
        lemma_on_output_concat(
            tree_windows(cs[i], ws, output, floating, depth),
            list_windows(cs, i + 1, ws, output, floating, depth),
            output,
        );
    }
}

/// Whether the walk from `n` reaches a workspace or an output node, where
/// the floating flag starts afresh.
pub open spec fn meets_reset(n: SwayNode, depth: int) -> bool
    decreases 129 - depth, 0int, 0int,
{
    if depth > 128 {
        false
    } else {
        let ty = text_or_empty(n.node_type);
        if ty == "workspace"@ || ty == "output"@ {
            true
        } else {
            list_meets_reset(n.nodes@, 0, depth + 1) || list_meets_reset(n.floating_nodes@, 0, depth + 1)
        }
    }
}

/// Whether the walk from any of `cs[i..]` reaches a workspace or output.
pub open spec fn list_meets_reset(cs: Seq<SwayNode>, i: int, depth: int) -> bool
    decreases 129 - depth, 1int, cs.len() - i,
{
    if i < 0 || i >= cs.len() {
        false
    } else {
        meets_reset(cs[i], depth) || list_meets_reset(cs, i + 1, depth)
    }
}

/// Whether every window of `s` is floating.
pub open spec fn all_floating(s: Seq<ClientView>) -> bool {
    forall|k: int| 0 <= k < s.len() ==> (#[trigger] s[k]).floating
}

proof fn lemma_floating_concat(a: Seq<ClientView>, b: Seq<ClientView>)
    requires
        all_floating(a),
        all_floating(b),
    ensures
        all_floating(a + b),
{
    assert forall|k: int| 0 <= k < (a + b).len() implies (#[trigger] (a + b)[k]).floating by {
        if k < a.len() {
            assert((a + b)[k] == a[k]);
        } else {
            assert((a + b)[k] == b[k - a.len()]);
        }
    }
}

proof fn lemma_tree_floating(n: SwayNode, ws: (i32, Seq<char>), output: i32, depth: int)
    requires
        !meets_reset(n, depth),
    ensures
        all_floating(tree_windows(n, ws, output, true, depth)),
    decreases 129 - depth, 0int, 0int,
{
    if depth <= 128 {
        lemma_list_floating(n.nodes@, 0, ws, output, depth + 1);
        lemma_list_floating(n.floating_nodes@, 0, ws, output, depth + 1);
        lemma_floating_concat(
            list_windows(n.nodes@, 0, ws, output, true, depth + 1),
            list_windows(n.floating_nodes@, 0, ws, output, true, depth + 1),
        );
        let p = placed_window(n, ws, output, true);
        assert(all_floating(p));
        lemma_floating_concat(p, list_windows(n.nodes@, 0, ws, output, true, depth + 1));
        lemma_floating_concat(
            p + list_windows(n.nodes@, 0, ws, output, true, depth + 1),
            list_windows(n.floating_nodes@, 0, ws, output, true, depth + 1),
        );
    }
}

proof fn lemma_list_floating(cs: Seq<SwayNode>, i: int, ws: (i32, Seq<char>), output: i32, depth: int)
    requires
        !list_meets_reset(cs, i, depth),
    ensures
        all_floating(list_windows(cs, i, ws, output, true, depth)),
    decreases 129 - depth, 1int, cs.len() - i,
{
    if 0 <= i < cs.len() {
        lemma_tree_floating(cs[i], ws, output, depth);
        lemma_list_floating(cs, i + 1, ws, output, depth);
        lemma_floating_concat(
            tree_windows(cs[i], ws, output, true, depth),
            list_windows(cs, i + 1, ws, output, true, depth),
        );
    }
}

/// The walk of the Sway tree: every window it collects is placed on the
/// output the walk was given; nothing is collected below the depth limit;
/// Sway's internal workspaces and outputs (named `__...`) contribute no
/// window; a window node comes before the windows in its children, and
/// its tiled children (`nodes`) before its floating ones (pre-order); and
/// once the walk is floating (below `floating_nodes` or a `floating_con`),
/// every window it finds is floating until a workspace or output starts
/// afresh.
pub proof fn tree_walk_law(n: SwayNode, ws: (i32, Seq<char>), output: i32, floating: bool, depth: int)
    ensures
        all_on_output(tree_windows(n, ws, output, floating, depth), output),
        floating && !meets_reset(n, depth) ==> all_floating(
            tree_windows(n, ws, output, floating, depth),
        ),
        depth > 128 ==> tree_windows(n, ws, output, floating, depth).len() == 0,
        depth <= 128 && (text_or_empty(n.node_type) == "workspace"@ || text_or_empty(n.node_type)
            == "output"@) && starts_with(text_or_empty(n.name), "__"@) ==> tree_windows(
            n,
            ws,
            output,
            floating,
            depth,
        ).len() == 0,
        depth <= 128 && text_or_empty(n.node_type) != "workspace"@ && text_or_empty(n.node_type)
            != "output"@ && text_or_empty(n.node_type) != "floating_con"@ ==> tree_windows(
            n,
            ws,
            output,
            floating,
            depth,
        ) == placed_window(n, ws, output, floating) + list_windows(
            n.nodes@,
            0,
            ws,
            output,
            floating,
            depth + 1,
        ) + list_windows(n.floating_nodes@, 0, ws, output, true, depth + 1),
{
    lemma_tree_on_output(n, ws, output, floating, depth);
    if floating && !meets_reset(n, depth) {
        lemma_tree_floating(n, ws, output, depth);
    }
}

proof fn lemma_views_push(s: Seq<WmClient>, c: WmClient)
    ensures
        views(s.push(c)) == views(s).push(c@),
{
    assert(views(s.push(c)) =~= views(s).push(c@));
}

/// Walks the nodes of `cs` in order, collecting their windows.
fn recurse_list(cs: &Vec<SwayNode>, windows: &mut Vec<WmClient>, ws: &WmWorkspace, output: i32, is_floating: bool, depth: u32)
    requires
        1 <= depth <= 129,
    ensures
        views(final(windows)@) == views(old(windows)@) + list_windows(
            cs@,
            0,
            (ws.id, ws.name@),
            output,
            is_floating,
            depth as int,
        ),
    decreases 129 - depth, 4int,
{
    let ghost wsv = (ws.id, ws.name@);
    let ghost start = views(windows@);
    let mut i: usize = 0;
    while i < cs.len()
        invariant
            i <= cs@.len(),
            1 <= depth <= 129,
            wsv == (ws.id, ws.name@),
            views(windows@) + list_windows(cs@, i as int, wsv, output, is_floating, depth as int)
                == start + list_windows(cs@, 0, wsv, output, is_floating, depth as int),
        decreases cs@.len() - i,
    {
        let ghost before = views(windows@);
        collect_windows_recursive(&cs[i], windows, ws, output, is_floating, depth);
        proof {
            let a = tree_windows(cs@[i as int], wsv, output, is_floating, depth as int);
            let b = list_windows(cs@, i + 1, wsv, output, is_floating, depth as int);
            assert(list_windows(cs@, i as int, wsv, output, is_floating, depth as int) == a + b);
            assert(views(windows@) + b =~= before + (a + b));
        }
        i += 1;
    }
    proof {
        assert(views(windows@) + list_windows(cs@, i as int, wsv, output, is_floating, depth as int)
            =~= views(windows@));
    }
}

/// Recurses into both child lists of a node; children of
/// `floating_nodes` are floating.
fn recurse_children(node: &SwayNode, windows: &mut Vec<WmClient>, ws: &WmWorkspace, output: i32, is_floating: bool, depth: u32)
    requires
        depth <= 128,
    ensures
        views(final(windows)@) == views(old(windows)@) + list_windows(
            node.nodes@,
            0,
            (ws.id, ws.name@),
            output,
            is_floating,
            depth + 1,
        ) + list_windows(node.floating_nodes@, 0, (ws.id, ws.name@), output, true, depth + 1),
    decreases 129 - depth, 2int,
{
    recurse_list(&node.nodes, windows, ws, output, is_floating, depth + 1);
    recurse_list(&node.floating_nodes, windows, ws, output, true, depth + 1);
}

/// Collects the windows under `node` depth first, tracking the
/// workspace and output they lie in.
pub fn collect_windows_recursive(node: &SwayNode, windows: &mut Vec<WmClient>, current_workspace: &WmWorkspace, current_output: i32, is_floating: bool, depth: u32)
    ensures
        views(final(windows)@) == views(old(windows)@) + tree_windows(
            *node,
            (current_workspace.id, current_workspace.name@),
            current_output,
            is_floating,
            depth as int,
        ),
    decreases 129 - depth, 3int,
{
    if depth > MAX_TREE_DEPTH {
        assert(views(windows@) + Seq::<ClientView>::empty() =~= views(windows@));
        return;
    }
    let ghost start = views(windows@);
    if type_is(node, "workspace") {
        let ws_name = text_or_empty_exec(&node.name);
        if starts_with_exec(&chars_of(ws_name.as_str()), &chars_of("__")) {
            assert(views(windows@) + Seq::<ClientView>::empty() =~= views(windows@));
            return;
        }
        let ws_num = int_or_zero_exec(&node.num);
        let ws = WmWorkspace { id: ws_num as i32, name: ws_name };
        recurse_children(node, windows, &ws, current_output, false, depth);
        assert(views(windows@) =~= start + tree_windows(
            *node,
            (current_workspace.id, current_workspace.name@),
            current_output,
            is_floating,
            depth as int,
        ));
        return;
    }
    if type_is(node, "output") {
        let name = text_or_empty_exec(&node.name);
        if starts_with_exec(&chars_of(name.as_str()), &chars_of("__")) {
            assert(views(windows@) + Seq::<ClientView>::empty() =~= views(windows@));
            return;
        }
        recurse_children(node, windows, current_workspace, current_output, false, depth);
        assert(views(windows@) =~= start + tree_windows(
            *node,
            (current_workspace.id, current_workspace.name@),
            current_output,
            is_floating,
            depth as int,
        ));
        return;
    }
    if type_is(node, "floating_con") {
        recurse_children(node, windows, current_workspace, current_output, true, depth);
        assert(views(windows@) =~= start + tree_windows(
            *node,
            (current_workspace.id, current_workspace.name@),
            current_output,
            is_floating,
            depth as int,
        ));
        return;
    }
    if is_window_node(node) {
        match node_to_wm_client(node, is_floating) {
            Some(mut client) => {
                client.workspace = copy_workspace(current_workspace);
                client.monitor_id = current_output;
                proof {
                    lemma_views_push(windows@, client);
                }
                windows.push(client);
            },
            None => {},
        }
    }
    let ghost mid = views(windows@);
    assert(mid =~= start + placed_window(
        *node,
        (current_workspace.id, current_workspace.name@),
        current_output,
        is_floating,
    ));
    recurse_children(node, windows, current_workspace, current_output, is_floating, depth);
    assert(views(windows@) =~= start + tree_windows(
        *node,
        (current_workspace.id, current_workspace.name@),
        current_output,
        is_floating,
        depth as int,
    ));
}

/// Collects the windows under `node`, starting at depth 0.
pub fn collect_windows_with_context(node: &SwayNode, windows: &mut Vec<WmClient>, current_workspace: &WmWorkspace, current_output: i32, is_floating: bool)
    ensures
        views(final(windows)@) == views(old(windows)@) + tree_windows(
            *node,
            (current_workspace.id, current_workspace.name@),
            current_output,
            is_floating,
            0,
        ),
{
    collect_windows_recursive(node, windows, current_workspace, current_output, is_floating, 0);
}


/// Whether a root child is a real output (not Sway's internal `__i3`).
pub open spec fn is_real_output(n: SwayNode) -> bool {
    text_or_empty(n.node_type) == "output"@ && !starts_with(text_or_empty(n.name), "__"@)
}

/// The windows of the root children `cs[i..]`: each real output is
/// walked with the next monitor index, starting from `idx`.
pub open spec fn output_windows(cs: Seq<SwayNode>, i: int, idx: int) -> Seq<ClientView>
    decreases cs.len() - i,
{
    if i < 0 || i >= cs.len() {
        Seq::empty()
    } else if is_real_output(cs[i]) {
        tree_windows(cs[i], (0, Seq::empty()), idx as i32, false, 0) + output_windows(
            cs,
            i + 1,
            idx + 1,
        )
    } else {
        output_windows(cs, i + 1, idx)
    }
}

/// The windows of a `GET_TREE` reply: the real outputs among the root's
/// children are numbered from 0 in order, and the windows under each are
/// collected with that monitor index.
pub fn list_clients_from_tree(tree: &SwayNode) -> (r: Vec<WmClient>)
    requires
        tree.nodes@.len() <= i32::MAX,
    ensures
        views(r@) == output_windows(tree.nodes@, 0, 0),
{
    let mut clients: Vec<WmClient> = Vec::new();
    let default_ws = WmWorkspace { id: 0, name: String::new() };
    let mut output_idx: i32 = 0;
    let mut i: usize = 0;
    while i < tree.nodes.len()
        invariant
            i <= tree.nodes@.len() <= i32::MAX,
            0 <= output_idx <= i,
            default_ws.id == 0,
            default_ws.name@ == Seq::<char>::empty(),
            views(clients@) + output_windows(tree.nodes@, i as int, output_idx as int)
                == output_windows(tree.nodes@, 0, 0),
        decreases tree.nodes@.len() - i,
    {
        let child = &tree.nodes[i];
        let ghost before = views(clients@);
        let is_output = type_is(child, "output");
        let name = text_or_empty_exec(&child.name);
        if is_output && !starts_with_exec(&chars_of(name.as_str()), &chars_of("__")) {
            collect_windows_with_context(child, &mut clients, &default_ws, output_idx, false);
            proof {
                let a = tree_windows(tree.nodes@[i as int], (0, Seq::empty()), output_idx, false, 0);
                let b = output_windows(tree.nodes@, i + 1, output_idx + 1);
                assert(views(clients@) + b =~= before + (a + b));
            }
            output_idx += 1;
        }
        i += 1;
    }
    assert(views(clients@) + output_windows(tree.nodes@, i as int, output_idx as int)
        =~= views(clients@));
    clients
}

/// The focused window under a node: the first node, depth first, that
/// is focused and a window (none when that node has no id); nodes inside
/// `floating_con` containers or `floating_nodes` are floating.
pub open spec fn focused_window(n: SwayNode, is_floating: bool) -> Option<ClientView>
    decreases n, 0int,
{
    let floating = is_floating || text_or_empty(n.node_type) == "floating_con"@;
    if n.focused == Some(true) && is_window(n) {
        client_of_node(n, floating)
    } else {
        proof {
            assert(decreases_to!(n => n.nodes));
            assert(decreases_to!(n => n.floating_nodes));
        }
        match focused_in(n.nodes@, 0, floating) {
            Some(c) => Some(c),
            None => focused_in(n.floating_nodes@, 0, true),
        }
    }
}

/// The focused window under the first of `cs[i..]` that has one.
pub open spec fn focused_in(cs: Seq<SwayNode>, i: int, is_floating: bool) -> Option<ClientView>
    decreases cs, cs.len() - i,
{
    if i < 0 || i >= cs.len() {
        None
    } else {
        match focused_window(cs[i], is_floating) {
            Some(c) => Some(c),
            None => focused_in(cs, i + 1, is_floating),
        }
    }
}


/// Searches the nodes of `cs` in order for the focused window.
fn find_focused_in(cs: &Vec<SwayNode>, is_floating: bool) -> (r: Option<WmClient>)
    ensures
        r matches Some(c) ==> focused_in(cs@, 0, is_floating) == Some(c@),
        r is None ==> focused_in(cs@, 0, is_floating) is None,
    decreases cs@, 1int,
{
    let mut i: usize = 0;
    while i < cs.len()
        invariant
            i <= cs@.len(),
            focused_in(cs@, 0, is_floating) == focused_in(cs@, i as int, is_floating),
        decreases cs@.len() - i,
    {
        proof {
            assert(decreases_to!(cs@ => cs@[i as int]));
        }
        match find_focused_window_inner(&cs[i], is_floating) {
            Some(c) => return Some(c),
            None => {},
        }
        i += 1;
    }
    None
}

/// The focused window under `node`, depth first.
fn find_focused_window_inner(node: &SwayNode, is_floating: bool) -> (r: Option<WmClient>)
    ensures
        r matches Some(c) ==> focused_window(*node, is_floating) == Some(c@),
        r is None ==> focused_window(*node, is_floating) is None,
    decreases *node, 0int,
{
    let floating = is_floating || type_is(node, "floating_con");
    if node.focused == Some(true) && is_window_node(node) {
        return node_to_wm_client(node, floating);
    }
    proof {
        assert(decreases_to!(*node => node.nodes));
        assert(decreases_to!(*node => node.floating_nodes));
    }
    match find_focused_in(&node.nodes, floating) {
        Some(c) => Some(c),
        None => find_focused_in(&node.floating_nodes, true),
    }
}

/// Finds the focused window in a `GET_TREE` reply.
pub fn find_focused_window(tree: &SwayNode) -> (r: Option<WmClient>)
    ensures
        r matches Some(c) ==> focused_window(*tree, false) == Some(c@),
        r is None ==> focused_window(*tree, false) is None,
{
    find_focused_window_inner(tree, false)
}


/// An output of Sway's `GET_OUTPUTS` reply: the keys the dock reads. A
/// key that is absent or of another JSON type is `None`.
pub struct SwayOutput {
    /// `name`.
    pub name: Option<String>,
    /// `active`.
    pub active: Option<bool>,
    /// `focused`.
    pub focused: Option<bool>,
    /// `current_workspace`.
    pub current_workspace: Option<String>,
    /// `rect.x`, `rect.y`, `rect.width` and `rect.height`.
    pub rect_x: Option<i64>,
    pub rect_y: Option<i64>,
    pub rect_width: Option<i64>,
    pub rect_height: Option<i64>,
    /// `current_mode.width` and `current_mode.height`.
    pub mode_width: Option<i64>,
    pub mode_height: Option<i64>,
}

/// A monitor as the dock sees it: its position in the list of active
/// outputs, name, geometry, focus and current workspace.
pub struct OutputMonitor {
    pub id: i32,
    pub name: String,
    pub rect: MonitorRect,
    pub focused: bool,
    pub active_workspace: WmWorkspace,
}

/// A size taken from the current mode, else from the output's rectangle,
/// else 0.
pub open spec fn mode_or_rect(mode: Option<i64>, rect: Option<i64>) -> i64 {
    match mode {
        Some(v) => v,
        None => int_or_zero(rect),
    }
}

/// Whether `m` is the monitor made of output `o` at position `idx`
/// (numbers are cut to 32 bits as `as i32` does).
pub open spec fn monitor_of_output(m: OutputMonitor, o: SwayOutput, idx: i32) -> bool {
    &&& m.id == idx
    &&& m.name@ == text_or_empty(o.name)
    &&& m.rect.x == int_or_zero(o.rect_x) as i32
    &&& m.rect.y == int_or_zero(o.rect_y) as i32
    &&& m.rect.width == mode_or_rect(o.mode_width, o.rect_width) as i32
    &&& m.rect.height == mode_or_rect(o.mode_height, o.rect_height) as i32
    &&& m.focused == (o.focused == Some(true))
    &&& m.active_workspace.id == 0
    &&& m.active_workspace.name@ == text_or_empty(o.current_workspace)
}

/// The monitor made of an output at position `idx`.
pub fn output_to_monitor(o: &SwayOutput, idx: i32) -> (m: OutputMonitor)
    ensures
        monitor_of_output(m, *o, idx),
{
    let width = match o.mode_width {
        Some(v) => v,
        None => int_or_zero_exec(&o.rect_width),
    };
    let height = match o.mode_height {
        Some(v) => v,
        None => int_or_zero_exec(&o.rect_height),
    };
    OutputMonitor {
        id: idx,
        name: text_or_empty_exec(&o.name),
        rect: MonitorRect {
            x: int_or_zero_exec(&o.rect_x) as i32,
            y: int_or_zero_exec(&o.rect_y) as i32,
            width: width as i32,
            height: height as i32,
        },
        focused: o.focused == Some(true),
        active_workspace: WmWorkspace { id: 0, name: text_or_empty_exec(&o.current_workspace) },
    }
}

/// The positions of the active outputs, in order.
pub open spec fn active_positions(outputs: Seq<SwayOutput>) -> Seq<int>
    decreases outputs.len(),
{
    if outputs.len() == 0 {
        Seq::empty()
    } else if outputs.last().active == Some(true) {
        active_positions(outputs.drop_last()).push(outputs.len() - 1)
    } else {
        active_positions(outputs.drop_last())
    }
}

proof fn lemma_active_positions_bound(outputs: Seq<SwayOutput>)
    ensures
        forall|k: int| 0 <= k < active_positions(outputs).len() ==> 0 <= #[trigger] active_positions(outputs)[k]
            < outputs.len(),
    decreases outputs.len(),
{
    if outputs.len() > 0 {
        let d = outputs.drop_last();
        lemma_active_positions_bound(d);
        let ps = active_positions(outputs);
        assert forall|k: int| 0 <= k < ps.len() implies 0 <= #[trigger] ps[k] < outputs.len() by {
            if k < active_positions(d).len() {
                assert(ps[k] == active_positions(d)[k]);
            }
        }
    }
}

/// The monitors of the active outputs, numbered from 0 in order.
pub fn active_monitors(outputs: &Vec<SwayOutput>) -> (r: Vec<OutputMonitor>)
    ensures
        r@.len() == active_positions(outputs@).len(),
        forall|k: int|
            0 <= k < r@.len() ==> monitor_of_output(
                #[trigger] r@[k],
                outputs@[active_positions(outputs@)[k]],
                k as i32,
            ),
{
    let mut r: Vec<OutputMonitor> = Vec::new();
    let mut i: usize = 0;
    while i < outputs.len()
        invariant
            i <= outputs@.len(),
            r@.len() == active_positions(outputs@.take(i as int)).len(),
            forall|k: int|
                0 <= k < r@.len() ==> monitor_of_output(
                    #[trigger] r@[k],
                    outputs@[active_positions(outputs@.take(i as int))[k]],
                    k as i32,
                ),
        decreases outputs@.len() - i,
    {
        let ghost pre = outputs@.take(i + 1);
        assert(pre.drop_last() =~= outputs@.take(i as int));
        assert(pre.last() == outputs@[i as int]);
        proof {
            lemma_active_positions_bound(outputs@.take(i as int));
        }
        if outputs[i].active == Some(true) {
            let idx = r.len() as i32;
            let m = output_to_monitor(&outputs[i], idx);
            r.push(m);
            assert forall|k: int| 0 <= k < r@.len() implies monitor_of_output(
                #[trigger] r@[k],
                outputs@[active_positions(pre)[k]],
                k as i32,
            ) by {
                if k < r@.len() - 1 {
                    assert(active_positions(pre)[k] == active_positions(outputs@.take(i as int))[k]);
                }
            }
        } else {
            assert(active_positions(pre) == active_positions(outputs@.take(i as int)));
        }
        i += 1;
    }
    assert(outputs@.take(outputs@.len() as int) =~= outputs@);
    r
}

/// i3-ipc message type: run a command.
pub const MSG_RUN_COMMAND: u32 = 0;

/// i3-ipc message type: subscribe to events.
pub const MSG_SUBSCRIBE: u32 = 2;

/// i3-ipc message type: list outputs.
pub const MSG_GET_OUTPUTS: u32 = 3;

/// i3-ipc message type: get the container tree.
pub const MSG_GET_TREE: u32 = 4;

/// Size of an i3-ipc header: magic (6), payload length (4), type (4).
pub const HEADER_SIZE: usize = 14;

/// Maximum IPC response payload size (100MB safety cap).
pub const MAX_PAYLOAD_SIZE: usize = 100_000_000;

/// The magic string `i3-ipc` that starts every message.
pub open spec fn ipc_magic() -> Seq<u8> {
    seq![105u8, 51u8, 45u8, 105u8, 112u8, 99u8]
}

/// The four little-endian bytes of `x`.
pub open spec fn le_bytes(x: u32) -> Seq<u8> {
    seq![
        (x % 256) as u8,
        ((x / 256) % 256) as u8,
        ((x / 65536) % 256) as u8,
        (x / 16777216) as u8,
    ]
}

/// The number whose little-endian bytes are `b[i..i + 4]`.
pub open spec fn le_value(b: Seq<u8>, i: int) -> int {
    b[i] + 256 * b[i + 1] + 65536 * b[i + 2] + 16777216 * b[i + 3]
}

fn push_le_bytes(v: &mut Vec<u8>, x: u32)
    ensures
        final(v)@ == old(v)@ + le_bytes(x),
{
    v.push((x % 256) as u8);
    v.push(((x / 256) % 256) as u8);
    v.push(((x / 65536) % 256) as u8);
    v.push((x / 16777216) as u8);
    assert(v@ =~= old(v)@ + le_bytes(x));
}

/// Frames an i3-ipc message: magic, payload length and message type as
/// little-endian 32-bit numbers, then the payload. The length is taken
/// modulo 2^32, as a `u32` cast does.
pub fn encode_message(msg_type: u32, payload: &[u8]) -> (r: Vec<u8>)
    ensures
        r@ == ipc_magic() + le_bytes(payload@.len() as u32) + le_bytes(msg_type) + payload@,
{
    let mut v: Vec<u8> = Vec::new();
    v.push(105u8);
    v.push(51u8);
    v.push(45u8);
    v.push(105u8);
    v.push(112u8);
    v.push(99u8);
    assert(v@ =~= ipc_magic());
    #[verifier::truncate]
    let len = payload.len() as u32;
    push_le_bytes(&mut v, len);
    push_le_bytes(&mut v, msg_type);
    let ghost head = v@;
    let mut i: usize = 0;
    while i < payload.len()
        invariant
            i <= payload@.len(),
            v@ == head + payload@.take(i as int),
        decreases payload@.len() - i,
    {
        v.push(payload[i]);
        assert(v@ =~= head + payload@.take(i + 1));
        i += 1;
    }
    assert(payload@.take(payload@.len() as int) =~= payload@);
    v
}

/// Calls `std::io::Error::new` with `ErrorKind::InvalidData` and a message.
/// Nothing is stated of the error value.
#[verifier::external_body]
fn invalid_data_error(msg: String) -> std::io::Error {
    std::io::Error::new(std::io::ErrorKind::InvalidData, msg)
}

/// Reads the payload length from a response header: an error when the
/// magic is wrong or the length exceeds `MAX_PAYLOAD_SIZE`.
pub fn parse_response_header(header: &[u8]) -> (r: Result<usize, DockError>)
    requires
        header@.len() == HEADER_SIZE,
    ensures
        r is Ok <==> header@.take(6) == ipc_magic() && le_value(header@, 6) <= MAX_PAYLOAD_SIZE,
        r matches Ok(n) ==> n == le_value(header@, 6),
        r is Err ==> (r matches Err(DockError::Ipc(_))),
{
    if !(header[0] == 105u8 && header[1] == 51u8 && header[2] == 45u8 && header[3] == 105u8
        && header[4] == 112u8 && header[5] == 99u8) {
        proof {
            if header@.take(6) == ipc_magic() {
                assert(header@.take(6)[0] == header@[0]);
                assert(header@.take(6)[1] == header@[1]);
                assert(header@.take(6)[2] == header@[2]);
                assert(header@.take(6)[3] == header@[3]);
                assert(header@.take(6)[4] == header@[4]);
                assert(header@.take(6)[5] == header@[5]);
            }
        }
        return Err(DockError::Ipc(invalid_data_error("invalid i3-ipc magic in response".to_owned())));
    }
    assert(header@.take(6) =~= ipc_magic());
    let len: u64 = header[6] as u64 + 256 * (header[7] as u64) + 65536 * (header[8] as u64)
        + 16777216 * (header[9] as u64);
    if len > 100_000_000u64 {
        return Err(DockError::Ipc(invalid_data_error("IPC payload too large".to_owned())));
    }
    Ok(len as usize)
}

/// One entry of a `RUN_COMMAND` reply.
pub struct CommandOutcome {
    /// `success`, when it is a boolean.
    pub success: Option<bool>,
    /// `error`, when it is a string.
    pub error: Option<String>,
}

/// Checks a `RUN_COMMAND` reply: when its first entry reports failure,
/// the error is its message (or "unknown error").
pub fn check_command_reply(results: &[CommandOutcome]) -> (r: Result<(), String>)
    ensures
        results@.len() > 0 && results@[0].success == Some(false) ==> (r matches Err(m) && m@
            == match results@[0].error {
            Some(e) => e@,
            None => "unknown error"@,
        }),
        !(results@.len() > 0 && results@[0].success == Some(false)) ==> r is Ok,
{
    if results.len() > 0 && results[0].success == Some(false) {
        let msg = match &results[0].error {
            Some(e) => e.clone(),
            None => "unknown error".to_owned(),
        };
        return Err(msg);
    }
    Ok(())
}

/// Checks the reply to the window-event subscription.
pub fn check_subscribe_reply(success: Option<bool>) -> (r: Result<(), String>)
    ensures
        r is Ok <==> success == Some(true),
        r matches Err(m) ==> m@ == "Sway event subscription failed"@,
{
    if success == Some(true) {
        Ok(())
    } else {
        Err("Sway event subscription failed".to_owned())
    }
}

/// A window event of the subscription: `focus`, `new` and `close`
/// report the container id (empty when missing) as the active window;
/// other changes (title, fullscreen, ...) are skipped.
pub fn window_event(change: &str, container_id: Option<i64>) -> (r: Option<WmEvent>)
    ensures
        (change@ == "focus"@ || change@ == "new"@ || change@ == "close"@) ==> (r matches Some(
            WmEvent::ActiveWindowChanged(id),
        ) && id@ == match container_id {
            Some(n) => decimal(n as int),
            None => Seq::empty(),
        }),
        !(change@ == "focus"@ || change@ == "new"@ || change@ == "close"@) ==> r is None,
{
    if crate::text::str_eq(change, "focus") || crate::text::str_eq(change, "new")
        || crate::text::str_eq(change, "close") {
        let id = match container_id {
            Some(n) => decimal_string(n),
            None => String::new(),
        };
        Some(WmEvent::ActiveWindowChanged(id))
    } else {
        None
    }
}


proof fn lemma_le_roundtrip(x: u32)
    ensures
        le_value(le_bytes(x), 0) == x,
{
    let b = le_bytes(x);
    let x0 = x % 256;
    let x1 = (x / 256) % 256;
    let x2 = (x / 65536) % 256;
    let x3 = x / 16777216;
    assert(b[0] == x0 && b[1] == x1 && b[2] == x2 && b[3] == x3);
    assert(x0 + 256 * x1 + 65536 * x2 + 16777216 * x3 == x) by (nonlinear_arith)
        requires
            x0 == x % 256,
            x1 == (x / 256) % 256,
            x2 == (x / 65536) % 256,
            x3 == x / 16777216,
            x <= u32::MAX,
    {
        assert(x == 256 * (x / 256) + x % 256);
        assert(x / 256 == 256 * (x / 65536) + (x / 256) % 256);
        assert(x / 65536 == 256 * (x / 16777216) + (x / 65536) % 256);
    }
}

/// A framed message reads back: its header starts with the magic, and
/// holds the payload's length and the message type.
pub proof fn ipc_header_law(msg_type: u32, payload: Seq<u8>)
    requires
        payload.len() <= MAX_PAYLOAD_SIZE,
    ensures
        ({
            let m = ipc_magic() + le_bytes(payload.len() as u32) + le_bytes(msg_type) + payload;
            &&& m.take(6) == ipc_magic()
            &&& le_value(m, 6) == payload.len()
            &&& le_value(m, 10) == msg_type
            &&& m.skip(14) == payload
        }),
{
    let m = ipc_magic() + le_bytes(payload.len() as u32) + le_bytes(msg_type) + payload;
    lemma_le_roundtrip(payload.len() as u32);
    lemma_le_roundtrip(msg_type);
    let a = le_bytes(payload.len() as u32);
    let t = le_bytes(msg_type);
    assert(m[6] == a[0] && m[7] == a[1] && m[8] == a[2] && m[9] == a[3]);
    assert(m[10] == t[0] && m[11] == t[1] && m[12] == t[2] && m[13] == t[3]);
    assert(m.take(6) =~= ipc_magic());
    assert(m.skip(14) =~= payload);
}

} // verus!
