//! The dock: its settings, which buttons it shows in which order, what
//! its menu actions do, and when autohide shows or hides it.

use vstd::prelude::*;
use crate::compositor::{ClientView, WmClient};
use crate::pinning::pinned_contains;
use crate::text::{chars_of, contains, decimal, decimal_string, find_exec, split, split_exec, str_eq, trim, trim_str};

verus! {

/// The dock's settings (its command-line flags).
#[derive(Debug, Clone)]
pub struct DockConfig {
    /// Alignment in full width/height: "start", "center" or "end".
    pub alignment: String,
    /// Auto-hide: show the dock when the screen edge is hovered.
    pub autohide: bool,
    /// CSS file name.
    pub css_file: String,
    /// Turn on debug messages.
    pub debug: bool,
    /// Set exclusive zone: move other windows aside.
    pub exclusive: bool,
    /// Take full screen width/height.
    pub full: bool,
    /// Space-separated class list to ignore in the dock.
    pub ignore_classes: String,
    /// Hotspot delay in ms.
    pub hotspot_delay: i64,
    /// Hotspot layer: "overlay" or "top".
    pub hotspot_layer: String,
    /// Alternative name or path for the launcher icon.
    pub ico: String,
    /// Ignore running apps on these workspaces (comma-separated names/ids).
    pub ignore_workspaces: String,
    /// Icon size in pixels.
    pub icon_size: i32,
    /// Command assigned to the launcher button.
    pub launcher_cmd: String,
    /// Launcher button position: "start" or "end".
    pub launcher_pos: String,
    /// Layer: "overlay", "top" or "bottom".
    pub layer: String,
    /// Margin bottom.
    pub mb: i32,
    /// Margin left.
    pub ml: i32,
    /// Margin right.
    pub mr: i32,
    /// Margin top.
    pub mt: i32,
    /// Don't show the launcher button.
    pub nolauncher: bool,
    /// Number of workspaces in use.
    pub num_ws: i32,
    /// Position: "bottom", "top", "left" or "right".
    pub position: String,
    /// Leave the program resident, but without hotspot.
    pub resident: bool,
    /// Name of the output to display the dock on.
    pub output: String,
    /// Allow multiple instances of the dock.
    pub multi: bool,
}

/// The items of a list setting: none when it is empty, else the pieces
/// between occurrences of `d`, each trimmed.
pub open spec fn item_list(s: Seq<char>, d: char) -> Seq<Seq<char>> {
    if s.len() == 0 {
        Seq::empty()
    } else {
        split(s, d).map_values(|p: Seq<char>| trim(p))
    }
}

impl DockConfig {
    /// Whether the dock is vertical (left or right position).
    pub fn is_vertical(&self) -> (b: bool)
        ensures
            b == (self.position@ == "left"@ || self.position@ == "right"@),
    {
        str_eq(self.position.as_str(), "left") || str_eq(self.position.as_str(), "right")
    }

    /// Whether this is a resident-mode dock (autohide or resident flag).
    pub fn is_resident_mode(&self) -> (b: bool)
        ensures
            b == (self.autohide || self.resident),
    {
        self.autohide || self.resident
    }

    /// The ignored workspace names/ids: the comma-separated items, trimmed.
    pub fn ignored_workspaces(&self) -> (r: Vec<String>)
        ensures
            r.deep_view() == item_list(self.ignore_workspaces@, ','),
    {
        if self.ignore_workspaces.as_str().is_empty() {
            let r: Vec<String> = Vec::new();
            assert(r.deep_view() =~= Seq::<Seq<char>>::empty());
            r
        } else {
            trimmed_items(self.ignore_workspaces.as_str(), ',')
        }
    }

    /// The ignored classes: the space-separated items, trimmed.
    pub fn ignored_classes(&self) -> (r: Vec<String>)
        ensures
            r.deep_view() == item_list(self.ignore_classes@, ' '),
    {
        if self.ignore_classes.as_str().is_empty() {
            let r: Vec<String> = Vec::new();
            assert(r.deep_view() =~= Seq::<Seq<char>>::empty());
            r
        } else {
            trimmed_items(self.ignore_classes.as_str(), ' ')
        }
    }
}


impl Default for DockConfig {
    /// The flags' defaults.
    fn default() -> (c: Self)
        ensures
            c.alignment@ == "center"@,
            !c.autohide,
            c.css_file@ == "style.css"@,
            !c.debug,
            !c.exclusive,
            !c.full,
            c.ignore_classes@ == ""@,
            c.hotspot_delay == 20,
            c.hotspot_layer@ == "overlay"@,
            c.ico@ == ""@,
            c.ignore_workspaces@ == ""@,
            c.icon_size == 48,
            c.launcher_cmd@ == "mac-drawer"@,
            c.launcher_pos@ == "end"@,
            c.layer@ == "overlay"@,
            c.mb == 0 && c.ml == 0 && c.mr == 0 && c.mt == 0,
            !c.nolauncher,
            c.num_ws == 10,
            c.position@ == "bottom"@,
            !c.resident,
            c.output@ == ""@,
            !c.multi,
    {
        DockConfig {
            alignment: "center".to_owned(),
            autohide: false,
            css_file: "style.css".to_owned(),
            debug: false,
            exclusive: false,
            full: false,
            ignore_classes: "".to_owned(),
            hotspot_delay: 20,
            hotspot_layer: "overlay".to_owned(),
            ico: "".to_owned(),
            ignore_workspaces: "".to_owned(),
            icon_size: 48,
            launcher_cmd: "mac-drawer".to_owned(),
            launcher_pos: "end".to_owned(),
            layer: "overlay".to_owned(),
            mb: 0,
            ml: 0,
            mr: 0,
            mt: 0,
            nolauncher: false,
            num_ws: 10,
            position: "bottom".to_owned(),
            resident: false,
            output: "".to_owned(),
            multi: false,
        }
    }
}

/// The pieces of `s` between occurrences of `d`, each trimmed.
fn trimmed_items(s: &str, d: char) -> (r: Vec<String>)
    ensures
        r.deep_view() == split(s@, d).map_values(|p: Seq<char>| trim(p)),
{
    let parts = split_exec(&chars_of(s), d);
    let mut r: Vec<String> = Vec::new();
    let mut i: usize = 0;
    while i < parts.len()
        invariant
            i <= parts@.len(),
            parts.deep_view() == split(s@, d),
            r.deep_view() =~= split(s@, d).take(i as int).map_values(|p: Seq<char>| trim(p)),
        decreases parts@.len() - i,
    {
        assert(parts.deep_view()[i as int] == parts@[i as int]@);
        let t = trim_str(parts[i].as_str());
        let ghost before = r.deep_view();
        r.push(t);
        assert(r.deep_view() =~= before.push(trim(split(s@, d)[i as int])));
        i += 1;
    }
    assert(split(s@, d).take(i as int) =~= split(s@, d));
    r
}

/// Autohide and resident are mutually exclusive: resident wins.
pub fn resolve_mode_flags(config: &mut DockConfig)
    ensures
        final(config).autohide == (old(config).autohide && !old(config).resident),
        final(config).resident == old(config).resident,
{
    if config.autohide && config.resident {
        config.autohide = false;
    }
}

/// When another dock instance already runs: a resident-mode dock just
/// exits, any other sends the running instance the toggle signal.
pub fn signal_for_running_instance(config: &DockConfig) -> (r: Option<i32>)
    ensures
        config.autohide || config.resident ==> r is None,
        !(config.autohide || config.resident) ==> r == Some(35i32),
{
    if config.is_resident_mode() {
        None
    } else {
        Some(crate::signals::sig_toggle())
    }
}


/// A character with ASCII upper-case letters folded to lower case.
pub open spec fn ascii_fold(c: char) -> u32 {
    if 'A' <= c <= 'Z' {
        (c as u32 + 32) as u32
    } else {
        c as u32
    }
}

/// `str::eq_ignore_ascii_case`: equal up to ASCII letter case.
pub open spec fn eq_ignore_ascii_case(a: Seq<char>, b: Seq<char>) -> bool {
    a.len() == b.len() && forall|i: int| 0 <= i < a.len() ==> ascii_fold(a[i]) == ascii_fold(b[i])
}

fn ascii_fold_exec(c: char) -> (r: u32)
    ensures
        r == ascii_fold(c),
{
    if 'A' <= c && c <= 'Z' {
        c as u32 + 32
    } else {
        c as u32
    }
}

/// Whether two strings are equal up to ASCII letter case.
pub fn eq_ignore_ascii_case_exec(a: &str, b: &str) -> (r: bool)
    ensures
        r == eq_ignore_ascii_case(a@, b@),
{
    let av = chars_of(a);
    let bv = chars_of(b);
    if av.len() != bv.len() {
        return false;
    }
    let mut i: usize = 0;
    while i < av.len()
        invariant
            av@ == a@,
            bv@ == b@,
            av@.len() == bv@.len(),
            i <= av@.len(),
            forall|j: int| 0 <= j < i ==> ascii_fold(a@[j]) == ascii_fold(b@[j]),
        decreases av@.len() - i,
    {
        if ascii_fold_exec(av[i]) != ascii_fold_exec(bv[i]) {
            return false;
        }
        i += 1;
    }
    true
}

/// The windows whose class equals `class` up to ASCII case, in order.
pub open spec fn instances_of(clients: Seq<ClientView>, class: Seq<char>) -> Seq<ClientView>
    decreases clients.len(),
{
    if clients.len() == 0 {
        Seq::empty()
    } else if eq_ignore_ascii_case(clients.last().class, class) {
        instances_of(clients.drop_last(), class).push(clients.last())
    } else {
        instances_of(clients.drop_last(), class)
    }
}

/// The views of a list of windows.
pub open spec fn client_views(s: Seq<WmClient>) -> Seq<ClientView> {
    s.map_values(|c: WmClient| c@)
}

/// All windows of an application: those whose class matches `class` up
/// to ASCII case, in list order.
pub fn task_instances(clients: &Vec<WmClient>, class: &str) -> (r: Vec<WmClient>)
    ensures
        client_views(r@) == instances_of(client_views(clients@), class@),
{
    let mut r: Vec<WmClient> = Vec::new();
    let mut i: usize = 0;
    while i < clients.len()
        invariant
            i <= clients@.len(),
            client_views(r@) == instances_of(client_views(clients@).take(i as int), class@),
        decreases clients@.len() - i,
    {
        let ghost before = client_views(r@);
        let ghost pre = client_views(clients@).take(i + 1);
        assert(pre.drop_last() =~= client_views(clients@).take(i as int));
        assert(pre.last() == clients@[i as int]@);
        if eq_ignore_ascii_case_exec(clients[i].class.as_str(), class) {
            r.push(crate::compositor::copy_client(&clients[i]));
            assert(client_views(r@) =~= before.push(clients@[i as int]@));
        }
        i += 1;
    }
    assert(client_views(clients@).take(i as int) =~= client_views(clients@));
    r
}

/// Strictly before in string order (`String::cmp`: code point by code
/// point, a proper prefix first).
pub open spec fn text_lt(a: Seq<char>, b: Seq<char>) -> bool
    decreases a.len(),
{
    if b.len() == 0 {
        false
    } else if a.len() == 0 {
        true
    } else if (a[0] as u32) < (b[0] as u32) {
        true
    } else if a[0] == b[0] {
        text_lt(a.drop_first(), b.drop_first())
    } else {
        false
    }
}

pub(crate) fn text_lt_exec(a: &Vec<char>, b: &Vec<char>) -> (r: bool)
    ensures
        r == text_lt(a@, b@),
{
    let mut i: usize = 0;
    assert(a@.skip(0) =~= a@);
    assert(b@.skip(0) =~= b@);
    while i < a.len() && i < b.len() && a[i] == b[i]
        invariant
            i <= a@.len(),
            i <= b@.len(),
            a@.take(i as int) == b@.take(i as int),
            text_lt(a@, b@) == text_lt(a@.skip(i as int), b@.skip(i as int)),
        decreases a@.len() - i,
    {
        assert(a@.skip(i as int).drop_first() =~= a@.skip(i + 1));
        assert(b@.skip(i as int).drop_first() =~= b@.skip(i + 1));
        assert(a@.take(i + 1) =~= a@.take(i as int).push(a@[i as int]));
        assert(b@.take(i + 1) =~= b@.take(i as int).push(b@[i as int]));
        i += 1;
    }
    if i == b.len() {
        false
    } else if i == a.len() {
        true
    } else {
        (a[i] as u32) < (b[i] as u32)
    }
}

/// The dock's window order: by workspace id, then by class.
pub open spec fn client_before(a: ClientView, b: ClientView) -> bool {
    a.ws_id < b.ws_id || (a.ws_id == b.ws_id && text_lt(a.class, b.class))
}

/// `s` with `x` inserted after the last element not after it.
pub open spec fn insert_sorted(s: Seq<ClientView>, x: ClientView) -> Seq<ClientView>
    decreases s.len(),
{
    if s.len() == 0 {
        seq![x]
    } else if client_before(x, s.last()) {
        insert_sorted(s.drop_last(), x).push(s.last())
    } else {
        s.push(x)
    }
}

/// The stable sort of windows in the dock's window order.
pub open spec fn sort_clients(s: Seq<ClientView>) -> Seq<ClientView>
    decreases s.len(),
{
    if s.len() == 0 {
        s
    } else {
        insert_sorted(sort_clients(s.drop_last()), s.last())
    }
}

proof fn lemma_insert_at(s: Seq<ClientView>, x: ClientView, i: int)
    requires
        0 <= i <= s.len(),
        forall|j: int| i <= j < s.len() ==> client_before(x, #[trigger] s[j]),
        i > 0 ==> !client_before(x, s[i - 1]),
    ensures
        insert_sorted(s, x) == s.take(i).push(x) + s.skip(i),
    decreases s.len(),
{
    if s.len() == 0 {
        assert(s.take(i).push(x) + s.skip(i) =~= seq![x]);
    } else if i == s.len() {
        assert(s.take(i).push(x) + s.skip(i) =~= s.push(x));
    } else {
        let d = s.drop_last();
        assert forall|j: int| i <= j < d.len() implies client_before(x, #[trigger] d[j]) by {
            assert(d[j] == s[j]);
        }
        if i > 0 {
            assert(d[i - 1] == s[i - 1]);
        }
        lemma_insert_at(d, x, i);
        assert(d.take(i).push(x) + d.skip(i) + seq![s.last()] =~= s.take(i).push(x) + s.skip(i));
    }
}

fn client_before_exec(a: &WmClient, b: &WmClient) -> (r: bool)
    ensures
        r == client_before(a@, b@),
{
    a.workspace.id < b.workspace.id || (a.workspace.id == b.workspace.id && text_lt_exec(
        &chars_of(a.class.as_str()),
        &chars_of(b.class.as_str()),
    ))
}

/// Sorts windows by workspace id, then class; windows that compare
/// equal keep their order.
pub fn sort_clients_exec(clients: Vec<WmClient>) -> (r: Vec<WmClient>)
    ensures
        client_views(r@) == sort_clients(client_views(clients@)),
{
    let mut r: Vec<WmClient> = Vec::new();
    let mut k: usize = 0;
    while k < clients.len()
        invariant
            k <= clients@.len(),
            client_views(r@) == sort_clients(client_views(clients@).take(k as int)),
        decreases clients@.len() - k,
    {
        let x = crate::compositor::copy_client(&clients[k]);
        let ghost pre = client_views(clients@).take(k + 1);
        assert(pre.drop_last() =~= client_views(clients@).take(k as int));
        assert(pre.last() == x@);
        let mut i: usize = r.len();
        while i > 0 && client_before_exec(&x, &r[i - 1])
            invariant
                i <= r@.len(),
                forall|j: int| i <= j < r@.len() ==> client_before(x@, #[trigger] client_views(r@)[j]),
            decreases i,
        {
            i -= 1;
        }
        proof {
            let s = client_views(r@);
            if i > 0 {
                assert(s[i - 1] == r@[i - 1]@);
            }
            lemma_insert_at(s, x@, i as int);
        }
        let ghost s0 = client_views(r@);
        r.insert(i, x);
        assert(client_views(r@) =~= s0.take(i as int).push(x@) + s0.skip(i as int));
        k += 1;
    }
    assert(client_views(clients@).take(k as int) =~= client_views(clients@));
    r
}


/// Integer division rounding toward zero, as Rust's `/` on integers.
pub open spec fn trunc_div(a: int, b: int) -> int {
    if a >= 0 {
        a / b
    } else {
        -((-a) / b)
    }
}

/// Whether a window's workspace is ignored: by its id, or by its name up
/// to the first `:`.
pub open spec fn on_ignored_workspace(c: ClientView, ignored: Seq<Seq<char>>) -> bool {
    ignored.contains(decimal(c.ws_id as int)) || ignored.contains(split(c.ws_name, ':')[0])
}

/// The windows not on an ignored workspace, in order.
pub open spec fn without_ignored_workspaces(s: Seq<ClientView>, ignored: Seq<Seq<char>>) -> Seq<ClientView>
    decreases s.len(),
{
    if s.len() == 0 {
        s
    } else if on_ignored_workspace(s.last(), ignored) {
        without_ignored_workspaces(s.drop_last(), ignored)
    } else {
        without_ignored_workspaces(s.drop_last(), ignored).push(s.last())
    }
}

pub(crate) fn contains_text(items: &Vec<String>, x: &str) -> (b: bool)
    ensures
        b == items.deep_view().contains(x@),
{
    let mut i: usize = 0;
    while i < items.len()
        invariant
            i <= items@.len(),
            forall|j: int| 0 <= j < i ==> items.deep_view()[j] != x@,
        decreases items@.len() - i,
    {
        if str_eq(items[i].as_str(), x) {
            assert(items.deep_view()[i as int] == x@);
            return true;
        }
        i += 1;
    }
    false
}

/// Drops the windows on ignored workspaces.
pub fn retain_workspaces(clients: Vec<WmClient>, ignored: &Vec<String>) -> (r: Vec<WmClient>)
    ensures
        client_views(r@) == without_ignored_workspaces(client_views(clients@), ignored.deep_view()),
{
    let mut r: Vec<WmClient> = Vec::new();
    let mut i: usize = 0;
    while i < clients.len()
        invariant
            i <= clients@.len(),
            client_views(r@) == without_ignored_workspaces(
                client_views(clients@).take(i as int),
                ignored.deep_view(),
            ),
        decreases clients@.len() - i,
    {
        let c = &clients[i];
        let ghost pre = client_views(clients@).take(i + 1);
        assert(pre.drop_last() =~= client_views(clients@).take(i as int));
        assert(pre.last() == c@);
        let id = decimal_string(c.workspace.id as i64);
        let parts = split_exec(&chars_of(c.workspace.name.as_str()), ':');
        proof {
            crate::text::lemma_split_nonempty(c.workspace.name@, ':');
            assert(parts.deep_view()[0] == parts@[0]@);
        }
        let ignored_here = contains_text(ignored, id.as_str()) || contains_text(
            ignored,
            parts[0].as_str(),
        );
        if !ignored_here {
            let ghost before = client_views(r@);
            r.push(crate::compositor::copy_client(c));
            assert(client_views(r@) =~= before.push(c@));
        }
        i += 1;
    }
    assert(client_views(clients@).take(i as int) =~= client_views(clients@));
    r
}

/// `items` with `x` appended unless already present.
pub open spec fn add_unique(items: Seq<Seq<char>>, x: Seq<char>) -> Seq<Seq<char>> {
    if items.contains(x) {
        items
    } else {
        items.push(x)
    }
}

/// The pinned ids without repeats, in first-occurrence order.
pub open spec fn unique_items(s: Seq<Seq<char>>) -> Seq<Seq<char>>
    decreases s.len(),
{
    if s.len() == 0 {
        Seq::empty()
    } else {
        add_unique(unique_items(s.drop_last()), s.last())
    }
}

/// The dock's items: the pinned ids without repeats, then the classes of
/// the windows not yet among them, except empty classes and classes that
/// occur in the launcher command.
pub open spec fn dock_items(pinned: Seq<Seq<char>>, clients: Seq<ClientView>, launcher_cmd: Seq<char>) -> Seq<Seq<char>>
    decreases clients.len(),
{
    if clients.len() == 0 {
        unique_items(pinned)
    } else {
        let items = dock_items(pinned, clients.drop_last(), launcher_cmd);
        let c = clients.last().class;
        if !items.contains(c) && !contains(launcher_cmd, c) && c.len() > 0 {
            items.push(c)
        } else {
            items
        }
    }
}

/// Collects the dock's items.
pub fn collect_dock_items(pinned: &Vec<String>, clients: &Vec<WmClient>, launcher_cmd: &str) -> (r: Vec<String>)
    ensures
        r.deep_view() == dock_items(pinned.deep_view(), client_views(clients@), launcher_cmd@),
{
    let mut items: Vec<String> = Vec::new();
    let mut i: usize = 0;
    while i < pinned.len()
        invariant
            i <= pinned@.len(),
            items.deep_view() == unique_items(pinned.deep_view().take(i as int)),
        decreases pinned@.len() - i,
    {
        let ghost pre = pinned.deep_view().take(i + 1);
        assert(pre.drop_last() =~= pinned.deep_view().take(i as int));
        assert(pre.last() == pinned@[i as int]@);
        if !contains_text(&items, pinned[i].as_str()) {
            let ghost before = items.deep_view();
            items.push(pinned[i].clone());
            assert(items.deep_view() =~= before.push(pinned@[i as int]@));
        }
        i += 1;
    }
    assert(pinned.deep_view().take(i as int) =~= pinned.deep_view());
    let lv = chars_of(launcher_cmd);
    let mut k: usize = 0;
    while k < clients.len()
        invariant
            k <= clients@.len(),
            lv@ == launcher_cmd@,
            items.deep_view() == dock_items(
                pinned.deep_view(),
                client_views(clients@).take(k as int),
                launcher_cmd@,
            ),
        decreases clients@.len() - k,
    {
        let ghost pre = client_views(clients@).take(k + 1);
        assert(pre.drop_last() =~= client_views(clients@).take(k as int));
        assert(pre.last() == clients@[k as int]@);
        let class = clients[k].class.as_str();
        let cv = chars_of(class);
        if !contains_text(&items, class) && find_exec(&lv, &cv, 0).is_none() && !class.is_empty() {
            let ghost before = items.deep_view();
            items.push(clients[k].class.clone());
            assert(items.deep_view() =~= before.push(clients@[k as int].class@));
        }
        k += 1;
    }
    assert(client_views(clients@).take(k as int) =~= client_views(clients@));
    items
}

/// The icon size after scaling down for many items: the configured size
/// while `icon_size * 6 / count` is not smaller, else
/// `icon_size * 6 / (6 + (count - 6) / 3)`, with integer division.
pub open spec fn scaled_icon_size(icon_size: int, count: int) -> int {
    let c = if count < 1 {
        1
    } else {
        count
    };
    if trunc_div(icon_size * 6, c) < icon_size {
        trunc_div(icon_size * 6, 6 + trunc_div(count - 6, 3))
    } else {
        icon_size
    }
}

/// Scales the icon size down when the dock holds many items.
pub fn scale_icon_size(icon_size: i32, count: usize) -> (r: i32)
    requires
        -357913941 <= icon_size <= 357913941,
        count <= i32::MAX,
    ensures
        r == scaled_icon_size(icon_size as int, count as int),
{
    let c: i32 = if count < 1 {
        1
    } else {
        count as i32
    };
    if icon_size * 6 / c < icon_size {
        let overflow = (count as i32 - 6) / 3;
        icon_size * 6 / (6 + overflow)
    } else {
        icon_size
    }
}


/// Icons shrink when the dock holds many items, and never grow: with up
/// to six items they keep the configured size, with more they are at most
/// that size (and not negative).
pub proof fn icon_scaling_law(icon_size: int, count: int)
    requires
        0 <= icon_size,
        0 <= count,
    ensures
        0 <= scaled_icon_size(icon_size, count) <= icon_size,
        count <= 6 ==> scaled_icon_size(icon_size, count) == icon_size,
{
    let c = if count < 1 {
        1
    } else {
        count
    };
    let n = icon_size * 6;
    assert(n >= 0) by (nonlinear_arith)
        requires
            n == icon_size * 6,
            icon_size >= 0,
    ;
    if c <= 6 {
        assert(n / c >= icon_size) by (nonlinear_arith)
            requires
                n == icon_size * 6,
                1 <= c <= 6,
                icon_size >= 0,
        ;
    } else {
        let d = 6 + (count - 6) / 3;
        assert(d >= 6);
        assert(0 <= n / d <= icon_size) by (nonlinear_arith)
            requires
                n == icon_size * 6,
                d >= 6,
                icon_size >= 0,
        ;
    }
}

/// A button of the dock, in its view.
pub ghost enum ButtonView {
    Launcher,
    Pinned { app_id: Seq<char>, pin_index: int },
    Task { client: ClientView, count: int, active: bool, drag_index: Option<int> },
}

/// A button of the dock.
pub enum DockButton {
    /// The launcher (opens the drawer).
    Launcher,
    /// A pinned application that is not running; clicking launches it.
    Pinned { app_id: String, pin_index: usize },
    /// A running application: its first window, the number of its
    /// windows (for the indicator), whether it holds the focus, and the
    /// pinned position it can be dragged from.
    Task { client: WmClient, instance_count: usize, active: bool, drag_index: Option<usize> },
}

impl View for DockButton {
    type V = ButtonView;

    open spec fn view(&self) -> ButtonView {
        match self {
            DockButton::Launcher => ButtonView::Launcher,
            DockButton::Pinned { app_id, pin_index } => ButtonView::Pinned {
                app_id: app_id@,
                pin_index: *pin_index as int,
            },
            DockButton::Task { client, instance_count, active, drag_index } => ButtonView::Task {
                client: client@,
                count: *instance_count as int,
                active: *active,
                drag_index: match drag_index {
                    Some(k) => Some(*k as int),
                    None => None,
                },
            },
        }
    }
}

/// The views of a list of buttons.
pub open spec fn button_views(s: Seq<DockButton>) -> Seq<ButtonView> {
    s.map_values(|b: DockButton| b@)
}

/// The buttons of the pinned items `pinned[i..]`: ignored classes are
/// skipped; a pin with no window gets a launch button; otherwise a
/// button for its first window, once per pin (again for a pin repeated
/// with a single window). A focused window is marked active unless the
/// dock autohides; a button can be dragged unless the dock is locked.
pub open spec fn pinned_buttons(pinned: Seq<Seq<char>>, i: int, clients: Seq<ClientView>, ignored: Seq<Seq<char>>, active: Seq<char>, autohide: bool, locked: bool, added: Seq<Seq<char>>) -> Seq<ButtonView>
    decreases pinned.len() - i,
{
    if i < 0 || i >= pinned.len() {
        Seq::empty()
    } else {
        let pin = pinned[i];
        let inst = instances_of(clients, pin);
        if ignored.contains(pin) {
            pinned_buttons(pinned, i + 1, clients, ignored, active, autohide, locked, added)
        } else if inst.len() == 0 {
            seq![ButtonView::Pinned { app_id: pin, pin_index: i }] + pinned_buttons(
                pinned,
                i + 1,
                clients,
                ignored,
                active,
                autohide,
                locked,
                added,
            )
        } else if inst.len() == 1 || !added.contains(pin) {
            seq![
                ButtonView::Task {
                    client: inst[0],
                    count: inst.len() as int,
                    active: inst[0].class == active && !autohide,
                    drag_index: if locked {
                        None
                    } else {
                        Some(i)
                    },
                },
            ] + pinned_buttons(pinned, i + 1, clients, ignored, active, autohide, locked, added.push(pin))
        } else {
            pinned_buttons(pinned, i + 1, clients, ignored, active, autohide, locked, added)
        }
    }
}

/// The buttons of the running windows `clients[i..]` whose class is not
/// pinned: one per class (again for a class with a single window),
/// skipping empty and ignored classes.
pub open spec fn task_buttons(clients: Seq<ClientView>, i: int, pinned: Seq<Seq<char>>, ignored: Seq<Seq<char>>, active: Seq<char>, autohide: bool, added: Seq<Seq<char>>) -> Seq<ButtonView>
    decreases clients.len() - i,
{
    if i < 0 || i >= clients.len() {
        Seq::empty()
    } else {
        let t = clients[i];
        let inst = instances_of(clients, t.class);
        if t.class.len() == 0 || pinned_contains(pinned, t.class) || ignored.contains(t.class) {
            task_buttons(clients, i + 1, pinned, ignored, active, autohide, added)
        } else if inst.len() == 1 || !added.contains(t.class) {
            seq![
                ButtonView::Task {
                    client: t,
                    count: inst.len() as int,
                    active: t.class == active && !autohide,
                    drag_index: None,
                },
            ] + task_buttons(clients, i + 1, pinned, ignored, active, autohide, added.push(t.class))
        } else {
            task_buttons(clients, i + 1, pinned, ignored, active, autohide, added)
        }
    }
}

fn push_button(v: &mut Vec<DockButton>, b: DockButton)
    ensures
        button_views(final(v)@) == button_views(old(v)@).push(b@),
{
    let ghost before = button_views(v@);
    v.push(b);
    assert(button_views(v@) =~= before.push(b@));
}

/// Appends the buttons of the pinned items.
fn add_pinned_buttons(buttons: &mut Vec<DockButton>, pinned: &Vec<String>, clients: &Vec<WmClient>, ignored: &Vec<String>, active: &str, autohide: bool, locked: bool)
    requires
        pinned@.len() <= usize::MAX,
    ensures
        button_views(final(buttons)@) == button_views(old(buttons)@) + pinned_buttons(
            pinned.deep_view(),
            0,
            client_views(clients@),
            ignored.deep_view(),
            active@,
            autohide,
            locked,
            Seq::empty(),
        ),
{
    let ghost start = button_views(buttons@);
    let ghost pv = pinned.deep_view();
    let ghost cv = client_views(clients@);
    let ghost iv = ignored.deep_view();
    let mut added: Vec<String> = Vec::new();
    assert(added.deep_view() =~= Seq::<Seq<char>>::empty());
    let mut i: usize = 0;
    while i < pinned.len()
        invariant
            i <= pinned@.len(),
            pv == pinned.deep_view(),
            cv == client_views(clients@),
            iv == ignored.deep_view(),
            button_views(buttons@) + pinned_buttons(pv, i as int, cv, iv, active@, autohide, locked, added.deep_view())
                == start + pinned_buttons(pv, 0, cv, iv, active@, autohide, locked, Seq::empty()),
        decreases pinned@.len() - i,
    {
        let ghost before = button_views(buttons@);
        let ghost ad = added.deep_view();
        let pin = pinned[i].as_str();
        assert(pv[i as int] == pin@);
        if contains_text(ignored, pin) {
        } else {
            let instances = task_instances(clients, pin);
            if instances.len() == 0 {
                push_button(buttons, DockButton::Pinned { app_id: pin.to_owned(), pin_index: i });
                assert(button_views(buttons@) + pinned_buttons(pv, i + 1, cv, iv, active@, autohide, locked, ad)
                    =~= before + pinned_buttons(pv, i as int, cv, iv, active@, autohide, locked, ad));
            } else if instances.len() == 1 || !contains_text(&added, pin) {
                let first = crate::compositor::copy_client(&instances[0]);
                assert(client_views(instances@)[0] == instances@[0]@);
                let is_active = str_eq(first.class.as_str(), active) && !autohide;
                let drag = if locked {
                    None
                } else {
                    Some(i)
                };
                push_button(
                    buttons,
                    DockButton::Task {
                        client: first,
                        instance_count: instances.len(),
                        active: is_active,
                        drag_index: drag,
                    },
                );
                added.push(pin.to_owned());
                assert(added.deep_view() =~= ad.push(pin@));
                assert(button_views(buttons@) + pinned_buttons(pv, i + 1, cv, iv, active@, autohide, locked, added.deep_view())
                    =~= before + pinned_buttons(pv, i as int, cv, iv, active@, autohide, locked, ad));
            }
        }
        i += 1;
    }
    assert(button_views(buttons@) + pinned_buttons(pv, i as int, cv, iv, active@, autohide, locked, added.deep_view())
        =~= button_views(buttons@));
}

/// Appends the buttons of the running windows whose class is not pinned.
fn add_task_buttons(buttons: &mut Vec<DockButton>, pinned: &Vec<String>, clients: &Vec<WmClient>, ignored: &Vec<String>, active: &str, autohide: bool)
    ensures
        button_views(final(buttons)@) == button_views(old(buttons)@) + task_buttons(
            client_views(clients@),
            0,
            pinned@.map_values(|s: String| s@),
            ignored.deep_view(),
            active@,
            autohide,
            Seq::empty(),
        ),
{
    let ghost start = button_views(buttons@);
    let ghost pv = pinned@.map_values(|s: String| s@);
    let ghost cv = client_views(clients@);
    let ghost iv = ignored.deep_view();
    let mut added: Vec<String> = Vec::new();
    assert(added.deep_view() =~= Seq::<Seq<char>>::empty());
    let mut i: usize = 0;
    while i < clients.len()
        invariant
            i <= clients@.len(),
            pv == pinned@.map_values(|s: String| s@),
            cv == client_views(clients@),
            iv == ignored.deep_view(),
            button_views(buttons@) + task_buttons(cv, i as int, pv, iv, active@, autohide, added.deep_view())
                == start + task_buttons(cv, 0, pv, iv, active@, autohide, Seq::empty()),
        decreases clients@.len() - i,
    {
        let ghost before = button_views(buttons@);
        let ghost ad = added.deep_view();
        let task = &clients[i];
        assert(cv[i as int] == task@);
        let class = task.class.as_str();
        if class.is_empty() || crate::pinning::is_pinned(pinned.as_slice(), class) || contains_text(ignored, class) {
        } else {
            let instances = task_instances(clients, class);
            if instances.len() == 1 || !contains_text(&added, class) {
                let is_active = str_eq(class, active) && !autohide;
                push_button(
                    buttons,
                    DockButton::Task {
                        client: crate::compositor::copy_client(task),
                        instance_count: instances.len(),
                        active: is_active,
                        drag_index: None,
                    },
                );
                added.push(task.class.clone());
                assert(added.deep_view() =~= ad.push(class@));
                assert(button_views(buttons@) + task_buttons(cv, i + 1, pv, iv, active@, autohide, added.deep_view())
                    =~= before + task_buttons(cv, i as int, pv, iv, active@, autohide, ad));
            }
        }
        i += 1;
    }
    assert(button_views(buttons@) + task_buttons(cv, i as int, pv, iv, active@, autohide, added.deep_view())
        =~= button_views(buttons@));
}


/// Where the dock's content box goes in its window.
#[derive(Debug, Clone, Copy, PartialEq, Eq, Structural)]
pub enum Placement {
    /// Before other content (alignment "start").
    Prepend,
    /// After other content (alignment "end", or centered without `full`).
    Append,
    /// After other content, expanded and centered (centered with `full`).
    AppendCentered,
}

/// What a rebuild of the dock shows.
pub struct DockPlan {
    /// The windows, sorted by workspace then class, without those on
    /// ignored workspaces (the dock's state keeps them).
    pub clients: Vec<WmClient>,
    /// How many items the dock holds (pinned and running classes).
    pub item_count: usize,
    /// The icon size after scaling down for many items.
    pub img_size_scaled: i32,
    /// The buttons, in order.
    pub buttons: Vec<DockButton>,
    /// Where the content box goes.
    pub placement: Placement,
    /// Whether pinned icons can be dropped to reorder them.
    pub drop_target: bool,
}

/// Whether the dock shows a launcher button.
pub open spec fn has_launcher(config: DockConfig) -> bool {
    !config.nolauncher && config.launcher_cmd@.len() > 0
}

/// The buttons of the dock: the launcher when it goes first, the pinned
/// items, the other running applications, and the launcher when it goes
/// last.
pub open spec fn dock_buttons(config: DockConfig, pinned: Seq<Seq<char>>, clients: Seq<ClientView>, active: Seq<char>, locked: bool) -> Seq<ButtonView> {
    let ignored = item_list(config.ignore_classes@, ' ');
    let first = if has_launcher(config) && config.launcher_pos@ == "start"@ {
        seq![ButtonView::Launcher]
    } else {
        Seq::empty()
    };
    let last = if has_launcher(config) && config.launcher_pos@ == "end"@ {
        seq![ButtonView::Launcher]
    } else {
        Seq::empty()
    };
    first + pinned_buttons(pinned, 0, clients, ignored, active, config.autohide, locked, Seq::empty())
        + task_buttons(clients, 0, pinned, ignored, active, config.autohide, Seq::empty()) + last
}

/// Plans a rebuild of the dock from the pinned list, the compositor's
/// windows and the focused window's class (empty when none).
pub fn build(config: &DockConfig, pinned: &Vec<String>, clients: Vec<WmClient>, active_class: &str, locked: bool) -> (plan: DockPlan)
    requires
        -357913941 <= config.icon_size <= 357913941,
        pinned@.len() + clients@.len() <= i32::MAX,
    ensures
        client_views(plan.clients@) == without_ignored_workspaces(
            sort_clients(client_views(clients@)),
            item_list(config.ignore_workspaces@, ','),
        ),
        plan.item_count == dock_items(
            pinned.deep_view(),
            client_views(plan.clients@),
            config.launcher_cmd@,
        ).len(),
        plan.img_size_scaled == scaled_icon_size(config.icon_size as int, plan.item_count as int),
        button_views(plan.buttons@) == dock_buttons(
            *config,
            pinned.deep_view(),
            client_views(plan.clients@),
            active_class@,
            locked,
        ),
        config.alignment@ == "start"@ ==> plan.placement == Placement::Prepend,
        config.alignment@ == "end"@ ==> plan.placement == Placement::Append,
        config.alignment@ != "start"@ && config.alignment@ != "end"@ ==> plan.placement == (if config.full {
            Placement::AppendCentered
        } else {
            Placement::Append
        }),
        plan.drop_target == (!config.autohide || !locked),
{
    proof {
        reveal_strlit("start");
        reveal_strlit("end");
        assert("start"@.len() != "end"@.len());
    }
    let placement = if str_eq(config.alignment.as_str(), "start") {
        Placement::Prepend
    } else if str_eq(config.alignment.as_str(), "end") {
        Placement::Append
    } else if config.full {
        Placement::AppendCentered
    } else {
        Placement::Append
    };
    let sorted = sort_clients_exec(clients);
    let ignored_ws = config.ignored_workspaces();
    let kept = retain_workspaces(sorted, &ignored_ws);
    let items = collect_dock_items(pinned, &kept, config.launcher_cmd.as_str());
    proof {
        lemma_dock_items_len(pinned.deep_view(), client_views(kept@), config.launcher_cmd@);
        lemma_sort_len(client_views(clients@));
        lemma_retained_len(sort_clients(client_views(clients@)), ignored_ws.deep_view());
    }
    let img_size_scaled = scale_icon_size(config.icon_size, items.len());
    let ignored_classes = config.ignored_classes();
    let launcher = !config.nolauncher && !config.launcher_cmd.as_str().is_empty();
    let mut buttons: Vec<DockButton> = Vec::new();
    assert(button_views(buttons@) =~= Seq::<ButtonView>::empty());
    if launcher && str_eq(config.launcher_pos.as_str(), "start") {
        push_button(&mut buttons, DockButton::Launcher);
    }
    add_pinned_buttons(&mut buttons, pinned, &kept, &ignored_classes, active_class, config.autohide, locked);
    proof {
        assert(pinned@.map_values(|s: String| s@) =~= pinned.deep_view());
    }
    add_task_buttons(&mut buttons, pinned, &kept, &ignored_classes, active_class, config.autohide);
    if launcher && str_eq(config.launcher_pos.as_str(), "end") {
        push_button(&mut buttons, DockButton::Launcher);
    }
    DockPlan {
        clients: kept,
        item_count: items.len(),
        img_size_scaled,
        buttons,
        placement,
        drop_target: !config.autohide || !locked,
    }
}

proof fn lemma_unique_items_len(s: Seq<Seq<char>>)
    ensures
        unique_items(s).len() <= s.len(),
    decreases s.len(),
{
    if s.len() > 0 {
        lemma_unique_items_len(s.drop_last());
    }
}

proof fn lemma_dock_items_len(pinned: Seq<Seq<char>>, clients: Seq<ClientView>, launcher_cmd: Seq<char>)
    ensures
        dock_items(pinned, clients, launcher_cmd).len() <= pinned.len() + clients.len(),
    decreases clients.len(),
{
    if clients.len() == 0 {
        lemma_unique_items_len(pinned);
    } else {
        lemma_dock_items_len(pinned, clients.drop_last(), launcher_cmd);
    }
}


proof fn lemma_insert_len(s: Seq<ClientView>, x: ClientView)
    ensures
        insert_sorted(s, x).len() == s.len() + 1,
    decreases s.len(),
{
    if s.len() > 0 {
        lemma_insert_len(s.drop_last(), x);
    }
}

proof fn lemma_sort_len(s: Seq<ClientView>)
    ensures
        sort_clients(s).len() == s.len(),
    decreases s.len(),
{
    if s.len() > 0 {
        lemma_sort_len(s.drop_last());
        lemma_insert_len(sort_clients(s.drop_last()), s.last());
    }
}

proof fn lemma_retained_len(s: Seq<ClientView>, ignored: Seq<Seq<char>>)
    ensures
        without_ignored_workspaces(s, ignored).len() <= s.len(),
    decreases s.len(),
{
    if s.len() > 0 {
        lemma_retained_len(s.drop_last(), ignored);
    }
}


pub(crate) proof fn lemma_text_lt_irreflexive(a: Seq<char>)
    ensures
        !text_lt(a, a),
    decreases a.len(),
{
    if a.len() > 0 {
        lemma_text_lt_irreflexive(a.drop_first());
    }
}

pub(crate) proof fn lemma_text_lt_transitive(a: Seq<char>, b: Seq<char>, c: Seq<char>)
    requires
        text_lt(a, b),
        text_lt(b, c),
    ensures
        text_lt(a, c),
    decreases a.len(),
{
    if a.len() > 0 && b.len() > 0 && c.len() > 0 && a[0] == b[0] && b[0] == c[0] {
        lemma_text_lt_transitive(a.drop_first(), b.drop_first(), c.drop_first());
    }
}

pub(crate) proof fn lemma_text_lt_total(a: Seq<char>, b: Seq<char>)
    ensures
        a == b || text_lt(a, b) || text_lt(b, a),
    decreases a.len(),
{
    if a.len() > 0 && b.len() > 0 && a[0] == b[0] {
        lemma_text_lt_total(a.drop_first(), b.drop_first());
        if a.drop_first() == b.drop_first() {
            assert(a =~= seq![a[0]] + a.drop_first());
            assert(b =~= seq![b[0]] + b.drop_first());
        }
    } else if a.len() > 0 && b.len() > 0 {
        if (a[0] as u32) == (b[0] as u32) {
            vstd::utf8::char_u32_cast(a[0], a[0] as u32);
            vstd::utf8::char_u32_cast(b[0], b[0] as u32);
        }
    } else if a.len() == 0 && b.len() == 0 {
        assert(a =~= b);
    }
}

pub(crate) proof fn lemma_text_lt_asymmetric(a: Seq<char>, b: Seq<char>)
    requires
        text_lt(a, b),
    ensures
        !text_lt(b, a),
{
    if text_lt(b, a) {
        lemma_text_lt_transitive(a, b, a);
        lemma_text_lt_irreflexive(a);
    }
}

proof fn lemma_before_asymmetric(a: ClientView, b: ClientView)
    requires
        client_before(a, b),
    ensures
        !client_before(b, a),
{
    if a.ws_id == b.ws_id {
        lemma_text_lt_asymmetric(a.class, b.class);
    }
}

proof fn lemma_not_before_transitive(a: ClientView, b: ClientView, c: ClientView)
    requires
        !client_before(a, b),
        !client_before(b, c),
    ensures
        !client_before(a, c),
{
    if client_before(a, c) && a.ws_id == b.ws_id && b.ws_id == c.ws_id {
        lemma_text_lt_total(a.class, b.class);
        lemma_text_lt_total(b.class, c.class);
        if text_lt(b.class, a.class) && text_lt(c.class, b.class) {
            lemma_text_lt_transitive(c.class, b.class, a.class);
            lemma_text_lt_asymmetric(c.class, a.class);
        } else if a.class == b.class && text_lt(c.class, b.class) {
            lemma_text_lt_asymmetric(c.class, a.class);
        } else if text_lt(b.class, a.class) && b.class == c.class {
            lemma_text_lt_asymmetric(c.class, a.class);
        } else if a.class == b.class && b.class == c.class {
            lemma_text_lt_irreflexive(a.class);
        }
    }
}

/// Windows in the dock's order: none comes before one listed earlier.
pub open spec fn clients_sorted(s: Seq<ClientView>) -> bool {
    forall|i: int, j: int| 0 <= i < j < s.len() ==> !client_before(#[trigger] s[j], #[trigger] s[i])
}

proof fn lemma_insert_contents(s: Seq<ClientView>, x: ClientView)
    ensures
        insert_sorted(s, x).to_multiset() =~= s.to_multiset().insert(x),
        forall|e: ClientView| #[trigger] insert_sorted(s, x).contains(e) ==> e == x || s.contains(e),
    decreases s.len(),
{
    broadcast use vstd::seq_lib::group_to_multiset_ensures;
    broadcast use vstd::multiset::group_multiset_axioms;

    if s.len() > 0 && client_before(x, s.last()) {
        let d = s.drop_last();
        lemma_insert_contents(d, x);
        assert(s =~= d.push(s.last()));
        assert forall|e: ClientView| #[trigger] insert_sorted(s, x).contains(e) implies e == x
            || s.contains(e) by {
            let r = insert_sorted(d, x);
            let k = choose|k: int| 0 <= k < r.push(s.last()).len() && r.push(s.last())[k] == e;
            if k < r.len() {
                assert(r.contains(e));
                if d.contains(e) {
                    let m = choose|m: int| 0 <= m < d.len() && d[m] == e;
                    assert(s[m] == e);
                }
            } else {
                assert(s[s.len() - 1] == e);
            }
        }
    } else if s.len() > 0 {
        assert forall|e: ClientView| #[trigger] insert_sorted(s, x).contains(e) implies e == x
            || s.contains(e) by {
            let k = choose|k: int| 0 <= k < s.push(x).len() && s.push(x)[k] == e;
            if k < s.len() {
                assert(s[k] == e);
            }
        }
    } else {
        assert(insert_sorted(s, x) =~= seq![x]);
        assert(s.push(x) =~= seq![x]);
    }
}

proof fn lemma_insert_sorted_sorted(s: Seq<ClientView>, x: ClientView)
    requires
        clients_sorted(s),
    ensures
        clients_sorted(insert_sorted(s, x)),
    decreases s.len(),
{
    if s.len() == 0 {
    } else if client_before(x, s.last()) {
        let d = s.drop_last();
        let last = s.last();
        assert(clients_sorted(d)) by {
            assert forall|i: int, j: int| 0 <= i < j < d.len() implies !client_before(
                #[trigger] d[j],
                #[trigger] d[i],
            ) by {
                assert(d[i] == s[i] && d[j] == s[j]);
            }
        }
        lemma_insert_sorted_sorted(d, x);
        lemma_insert_contents(d, x);
        let r = insert_sorted(d, x);
        lemma_before_asymmetric(x, last);
        assert forall|i: int, j: int| 0 <= i < j < r.push(last).len() implies !client_before(
            #[trigger] r.push(last)[j],
            #[trigger] r.push(last)[i],
        ) by {
            if j == r.len() {
                let e = r[i];
                assert(r.contains(e));
                if e != x {
                    let m = choose|m: int| 0 <= m < d.len() && d[m] == e;
                    assert(s[m] == e && s[s.len() - 1] == last);
                }
            } else {
                assert(r.push(last)[j] == r[j] && r.push(last)[i] == r[i]);
            }
        }
    } else {
        let last = s.last();
        assert forall|i: int, j: int| 0 <= i < j < s.push(x).len() implies !client_before(
            #[trigger] s.push(x)[j],
            #[trigger] s.push(x)[i],
        ) by {
            if j == s.len() {
                if i < s.len() - 1 {
                    assert(!client_before(s[s.len() - 1], s[i]));
                    lemma_not_before_transitive(x, last, s[i]);
                }
            } else {
                assert(s.push(x)[j] == s[j] && s.push(x)[i] == s[i]);
            }
        }
    }
}

/// The dock orders windows by workspace, then class, and loses none:
/// sorting gives a sorted rearrangement of the windows.
pub proof fn client_order_law(s: Seq<ClientView>)
    ensures
        clients_sorted(sort_clients(s)),
        sort_clients(s).to_multiset() == s.to_multiset(),
    decreases s.len(),
{
    broadcast use vstd::seq_lib::group_to_multiset_ensures;

    if s.len() > 0 {
        client_order_law(s.drop_last());
        lemma_insert_sorted_sorted(sort_clients(s.drop_last()), s.last());
        lemma_insert_contents(sort_clients(s.drop_last()), s.last());
        assert(s =~= s.drop_last().push(s.last()));
    }
}

} // verus!
