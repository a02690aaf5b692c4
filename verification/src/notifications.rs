//! The notification daemon's model: notifications, their configuration,
//! popup stacking and timeouts, Do Not Disturb, and which window a
//! clicked notification focuses.

use vstd::prelude::*;
use crate::compositor::HyprClient;
use crate::text::{contains, decimal, lowercase, to_lowercase};

verus! {

#[verifier::external_type_specification]
#[verifier::external_body]
pub struct ExSystemTime(std::time::SystemTime);

/// Popup display position corner.
#[derive(Debug, Clone, Copy, PartialEq, Eq, Structural)]
pub enum PopupPosition {
    TopRight,
    TopLeft,
    BottomRight,
    BottomLeft,
}

/// Settings of the notification daemon (its command-line flags).
#[derive(Debug, Clone)]
pub struct NotificationConfig {
    /// Popup display position.
    pub popup_position: PopupPosition,
    /// Default popup timeout in ms.
    pub popup_timeout: u64,
    /// Maximum simultaneous popups.
    pub max_popups: usize,
    /// Maximum history entries to retain.
    pub max_history: usize,
    /// Start in Do Not Disturb mode.
    pub dnd: bool,
    /// Persist notification history across restarts.
    pub persist: bool,
    /// Popup icon size in pixels.
    pub icon_size: i32,
    /// Notification panel width in pixels.
    pub panel_width: i32,
    /// Turn on debug messages.
    pub debug: bool,
}

impl Default for NotificationConfig {
    /// The flags' defaults.
    fn default() -> (c: Self)
        ensures
            c.popup_position == PopupPosition::TopRight,
            c.popup_timeout == 7000,
            c.max_popups == 5,
            c.max_history == 200,
            !c.dnd,
            !c.persist,
            c.icon_size == 48,
            c.panel_width == 380,
            !c.debug,
    {
        NotificationConfig {
            popup_position: PopupPosition::TopRight,
            popup_timeout: 7000,
            max_popups: 5,
            max_history: 200,
            dnd: false,
            persist: false,
            icon_size: 48,
            panel_width: 380,
            debug: false,
        }
    }
}

/// Urgency level per the freedesktop notification specification.
#[derive(Debug, Clone, Copy, PartialEq, Eq, Structural)]
pub enum Urgency {
    Low,
    Normal,
    Critical,
}

/// The urgency a D-Bus byte stands for: 0 low, 2 critical, anything else
/// normal.
pub open spec fn urgency_of(val: u8) -> Urgency {
    if val == 0 {
        Urgency::Low
    } else if val == 2 {
        Urgency::Critical
    } else {
        Urgency::Normal
    }
}

impl From<u8> for Urgency {
    fn from(val: u8) -> (r: Self) {
        match val {
            0 => Urgency::Low,
            2 => Urgency::Critical,
            _ => Urgency::Normal,
        }
    }
}

impl vstd::std_specs::convert::FromSpecImpl<u8> for Urgency {
    open spec fn obeys_from_spec() -> bool {
        true
    }

    open spec fn from_spec(val: u8) -> Urgency {
        urgency_of(val)
    }
}

/// The wire value of an urgency level.
pub fn urgency_value(u: Urgency) -> (r: u8)
    ensures
        urgency_of(r) == u,
        u == Urgency::Low ==> r == 0,
        u == Urgency::Normal ==> r == 1,
        u == Urgency::Critical ==> r == 2,
{
    match u {
        Urgency::Low => 0,
        Urgency::Normal => 1,
        Urgency::Critical => 2,
    }
}

/// A single notification received via D-Bus.
#[derive(Debug)]
pub struct Notification {
    pub id: u32,
    pub app_name: String,
    pub app_icon: String,
    pub summary: String,
    pub body: String,
    pub actions: Vec<(String, String)>,
    pub urgency: Urgency,
    pub timeout_ms: i32,
    pub timestamp: std::time::SystemTime,
    pub read: bool,
    pub desktop_entry: Option<String>,
}

/// The (key, label) pairs of a flat D-Bus actions array
/// `[key1, label1, key2, label2, ...]`; a trailing odd element is dropped.
pub open spec fn action_pairs(flat: Seq<Seq<char>>) -> Seq<(Seq<char>, Seq<char>)> {
    Seq::new(flat.len() / 2, |i: int| (flat[2 * i], flat[2 * i + 1]))
}

/// Parses the flat actions array from D-Bus into (key, label) pairs.
pub fn parse_actions(flat: &[String]) -> (r: Vec<(String, String)>)
    ensures
        r@.map_values(|p: (String, String)| (p.0@, p.1@)) == action_pairs(
            flat@.map_values(|s: String| s@),
        ),
{
    let ghost fv = flat@.map_values(|s: String| s@);
    let mut r: Vec<(String, String)> = Vec::new();
    let mut i: usize = 0;
    while i + 1 < flat.len()
        invariant
            i % 2 == 0,
            i <= flat@.len(),
            fv == flat@.map_values(|s: String| s@),
            r@.len() == i / 2,
            forall|k: int|
                0 <= k < r@.len() ==> (#[trigger] r@[k]).0@ == fv[2 * k] && r@[k].1@ == fv[2 * k
                    + 1],
        decreases flat@.len() - i,
    {
        r.push((flat[i].clone(), flat[i + 1].clone()));
        i += 2;
    }
    assert(r@.map_values(|p: (String, String)| (p.0@, p.1@)) =~= action_pairs(fv));
    r
}

/// Width of popup notification windows.
pub const POPUP_WIDTH: i32 = 380;

/// Margin from the top edge of the screen.
pub const POPUP_TOP_MARGIN: i32 = 12;

/// Vertical gap between stacked popups.
pub const POPUP_GAP: i32 = 10;

/// Icon size in popup notifications.
pub const POPUP_ICON_SIZE: i32 = 48;

/// Icon size of a group header in the panel.
pub const GROUP_ICON_SIZE: i32 = 24;

/// Estimated height of a popup: its icon plus padding.
pub const POPUP_ESTIMATED_HEIGHT: i32 = 72;

/// The largest number of stacked popups whose margins fit in an `i32`.
pub const MAX_STACKED_POPUPS: usize = 26_000_000;

/// The margin of the popup at position `index` of the stack.
pub open spec fn popup_offset_of(index: int) -> int {
    POPUP_TOP_MARGIN + index * (POPUP_ESTIMATED_HEIGHT + POPUP_GAP)
}

/// The edge margin of the popup at position `index` of the stack.
pub fn popup_offset(index: usize) -> (r: i32)
    requires
        index <= MAX_STACKED_POPUPS,
    ensures
        r == popup_offset_of(index as int),
{
    POPUP_TOP_MARGIN + (index as i32) * (POPUP_ESTIMATED_HEIGHT + POPUP_GAP)
}

/// Whether popups stack from the top edge (else from the bottom).
pub fn is_top_position(p: PopupPosition) -> (b: bool)
    ensures
        b == (p == PopupPosition::TopRight || p == PopupPosition::TopLeft),
{
    match p {
        PopupPosition::TopRight | PopupPosition::TopLeft => true,
        _ => false,
    }
}

/// How long a popup stays before it is dismissed automatically (0 =
/// never): critical notifications stay, others use their own timeout
/// when positive, else the configured default.
pub fn resolve_timeout(notif: &Notification, popup_timeout: u64) -> (r: u64)
    ensures
        notif.urgency == Urgency::Critical ==> r == 0,
        notif.urgency != Urgency::Critical && notif.timeout_ms > 0 ==> r == notif.timeout_ms,
        notif.urgency != Urgency::Critical && notif.timeout_ms <= 0 ==> r == popup_timeout,
{
    if notif.urgency == Urgency::Critical {
        return 0;
    }
    if notif.timeout_ms > 0 {
        notif.timeout_ms as u64
    } else {
        popup_timeout
    }
}

/// The ids of the open popups, oldest first.
pub struct PopupStack {
    pub ids: Vec<u32>,
}

/// How many of the oldest popups must go before one more is shown: all of
/// them when the limit is 0, else enough to leave `max_popups - 1`.
pub open spec fn evicted_count(len: int, max_popups: int) -> int {
    if len < max_popups {
        0
    } else if max_popups == 0 {
        len
    } else {
        len - max_popups + 1
    }
}

impl PopupStack {
    /// No popups.
    pub fn new() -> (s: Self)
        ensures
            s.ids@ == Seq::<u32>::empty(),
    {
        PopupStack { ids: Vec::new() }
    }

    /// Removes the popup of notification `id` (the first, should it occur
    /// twice); returns whether there was one. The others keep their order.
    pub fn dismiss(&mut self, id: u32) -> (removed: bool)
        ensures
            removed == old(self).ids@.contains(id),
            !removed ==> final(self).ids@ == old(self).ids@,
            removed ==> exists|k: int|
                0 <= k < old(self).ids@.len() && old(self).ids@[k] == id && (forall|j: int|
                    0 <= j < k ==> old(self).ids@[j] != id) && final(self).ids@ == old(
                    self,
                ).ids@.remove(k),
    {
        let mut i: usize = 0;
        while i < self.ids.len()
            invariant
                i <= self.ids@.len(),
                self.ids@ == old(self).ids@,
                forall|j: int| 0 <= j < i ==> self.ids@[j] != id,
            decreases self.ids@.len() - i,
        {
            if self.ids[i] == id {
                self.ids.remove(i);
                return true;
            }
            i += 1;
        }
        false
    }

    /// Dismisses the oldest popups until another fits under `max_popups`;
    /// returns the ids dismissed, oldest first.
    pub fn make_room(&mut self, max_popups: usize) -> (dismissed: Vec<u32>)
        ensures
            ({
                let k = evicted_count(old(self).ids@.len() as int, max_popups as int);
                &&& dismissed@ == old(self).ids@.take(k)
                &&& final(self).ids@ == old(self).ids@.skip(k)
            }),
    {
        let ghost start = self.ids@;
        let mut dismissed: Vec<u32> = Vec::new();
        while self.ids.len() >= max_popups && self.ids.len() > 0
            invariant
                dismissed@ + self.ids@ == start,
                evicted_count(start.len() as int, max_popups as int) == dismissed@.len()
                    + evicted_count(self.ids@.len() as int, max_popups as int),
            decreases self.ids@.len(),
        {
            let old_id = self.ids[0];
            let ghost before = self.ids@;
            self.ids.remove(0);
            dismissed.push(old_id);
            assert(dismissed@ + self.ids@ =~= start) by {
                assert(before == seq![old_id] + self.ids@);
            }
        }
        assert(start.take(dismissed@.len() as int) =~= dismissed@);
        assert(start.skip(dismissed@.len() as int) =~= self.ids@);
        dismissed
    }

    /// Adds the popup of a newly shown notification on top of the stack.
    pub fn push(&mut self, id: u32)
        ensures
            final(self).ids@ == old(self).ids@.push(id),
    {
        self.ids.push(id);
    }

    /// The edge margin of each popup after a restack, in stack order.
    pub fn offsets(&self) -> (r: Vec<i32>)
        requires
            self.ids@.len() <= MAX_STACKED_POPUPS,
        ensures
            r@.len() == self.ids@.len(),
            forall|k: int| 0 <= k < r@.len() ==> r@[k] == popup_offset_of(k),
    {
        let mut r: Vec<i32> = Vec::new();
        let mut i: usize = 0;
        while i < self.ids.len()
            invariant
                i <= self.ids@.len() <= MAX_STACKED_POPUPS,
                r@.len() == i,
                forall|k: int| 0 <= k < i ==> r@[k] == popup_offset_of(k),
            decreases self.ids@.len() - i,
        {
            r.push(popup_offset(i));
            i += 1;
        }
        r
    }
}

/// Showing popups never leaves more than `max_popups` of them (or one,
/// when the limit is 0): making room and then pushing keeps the bound.
pub proof fn popup_limit_law(len: int, max_popups: int)
    requires
        0 <= len <= (if max_popups == 0 { 1 } else { max_popups }),
        0 <= max_popups,
    ensures
        len - evicted_count(len, max_popups) + 1 <= (if max_popups == 0 { 1 } else { max_popups }),
{
}

/// The Do Not Disturb options of the menu: minutes (0 = permanent
/// toggle) and labels.
pub fn dnd_durations() -> (r: Vec<(u64, &'static str)>)
    ensures
        r@.len() == 4,
        r@[0].0 == 0 && r@[1].0 == 60 && r@[2].0 == 120 && r@[3].0 == 480,
        r@[0].1@ == "Do Not Disturb"@ && r@[1].1@ == "For 1 hour"@,
        r@[2].1@ == "For 2 hours"@ && r@[3].1@ == "Until tomorrow morning"@,
{
    vec![
        (0, "Do Not Disturb"),
        (60, "For 1 hour"),
        (120, "For 2 hours"),
        (480, "Until tomorrow morning"),
    ]
}

/// Do Not Disturb after a menu choice: the permanent option toggles it
/// and clears any expiry; a timed option turns it on until the given
/// number of seconds from now.
pub struct DndUpdate {
    pub dnd: bool,
    pub expires_in_secs: Option<u64>,
}

/// Applies a Do Not Disturb menu choice of `minutes`.
pub fn dnd_menu_choice(current_dnd: bool, minutes: u64) -> (r: DndUpdate)
    requires
        minutes * 60 <= u64::MAX,
    ensures
        minutes == 0 ==> r.dnd == !current_dnd && r.expires_in_secs is None,
        minutes > 0 ==> r.dnd && r.expires_in_secs == Some((minutes * 60) as u64),
{
    if minutes == 0 {
        DndUpdate { dnd: !current_dnd, expires_in_secs: None }
    } else {
        DndUpdate { dnd: true, expires_in_secs: Some(minutes * 60) }
    }
}

/// When a timed Do Not Disturb runs out, it is switched off only if its
/// expiry is still set (a later permanent toggle clears it).
pub fn dnd_timer_expired(dnd: bool, has_expiry: bool) -> (r: (bool, bool))
    ensures
        has_expiry ==> r == (false, false),
        !has_expiry ==> r == (dnd, false),
{
    if has_expiry {
        (false, false)
    } else {
        (dnd, false)
    }
}

/// The icon of the panel's Do Not Disturb button.
pub fn dnd_button_icon(dnd: bool) -> (r: &'static str)
    ensures
        dnd ==> r@ == "notifications-disabled-symbolic"@,
        !dnd ==> r@ == "preferences-system-notifications-symbolic"@,
{
    if dnd {
        "notifications-disabled-symbolic"
    } else {
        "preferences-system-notifications-symbolic"
    }
}

/// The count shown in a group header.
pub fn group_count_label(count: usize) -> (r: String)
    ensures
        r@ == decimal(count as int),
{
    crate::text::string_of(&crate::text::digits_exec(count as u64))
}

/// An optional string, by its characters.
pub open spec fn opt_text(o: Option<String>) -> Option<Seq<char>> {
    match o {
        Some(t) => Some(t@),
        None => None,
    }
}

/// The icon of a group in the panel: the notification's icon when it is
/// a theme name (non-empty, no `/`), else the application's icon found
/// through its desktop entry when that is a theme name, else a generic one.
pub open spec fn group_icon_of(app_icon: Seq<char>, desktop_icon: Option<Seq<char>>) -> Seq<char> {
    if app_icon.len() > 0 && !app_icon.contains('/') {
        app_icon
    } else {
        match desktop_icon {
            Some(i) => if !i.contains('/') {
                i
            } else {
                "dialog-information"@
            },
            None => "dialog-information"@,
        }
    }
}

/// The icon of a group in the panel (see `group_icon_of`).
pub fn group_icon_name(app_icon: &str, desktop_icon: Option<String>) -> (r: String)
    ensures
        r@ == group_icon_of(app_icon@, opt_text(desktop_icon)),
{
    let a = crate::text::chars_of(app_icon);
    if a.len() > 0 && !has_slash(&a) {
        return app_icon.to_owned();
    }
    match desktop_icon {
        Some(i) => {
            let v = crate::text::chars_of(i.as_str());
            if !has_slash(&v) {
                i
            } else {
                "dialog-information".to_owned()
            }
        },
        None => "dialog-information".to_owned(),
    }
}

fn has_slash(v: &Vec<char>) -> (b: bool)
    ensures
        b == v@.contains('/'),
{
    let mut i: usize = 0;
    while i < v.len()
        invariant
            i <= v@.len(),
            forall|j: int| 0 <= j < i ==> v@[j] != '/',
        decreases v@.len() - i,
    {
        if v[i] == '/' {
            assert(v@[i as int] == '/');
            return true;
        }
        i += 1;
    }
    false
}

/// Whether a window class and a notification's application name match,
/// both lowercased: equal, or one contains the other.
pub open spec fn names_match(class_lower: Seq<char>, candidate_lower: Seq<char>) -> bool {
    class_lower == candidate_lower || contains(class_lower, candidate_lower) || contains(
        candidate_lower,
        class_lower,
    )
}

/// The first window, from `i` on, whose class matches `candidate`.
pub open spec fn first_matching_window(clients: Seq<HyprClient>, candidate: Seq<char>, i: int) -> Option<int>
    decreases clients.len() - i,
{
    if i < 0 || i >= clients.len() {
        None
    } else if names_match(lowercase(clients[i].class@), lowercase(candidate)) {
        Some(i)
    } else {
        first_matching_window(clients, candidate, i + 1)
    }
}

/// Clicking a notification finds a window whenever some window's class
/// and the candidate name relate, ignoring case: they are equal, the class
/// contains the name, or the name contains the class. The window found is
/// the first such one, and it relates to the name in one of these ways.
pub proof fn window_match_law(clients: Seq<HyprClient>, candidate: Seq<char>, i: int)
    requires
        0 <= i < clients.len(),
        ({
            let c = lowercase(clients[i].class@);
            let n = lowercase(candidate);
            c == n || contains(c, n) || contains(n, c)
        }),
    ensures
        first_matching_window(clients, candidate, 0) matches Some(k) && 0 <= k <= i && ({
            let c = lowercase(clients[k].class@);
            let n = lowercase(candidate);
            c == n || contains(c, n) || contains(n, c)
        }),
{
    lemma_first_matching_window(clients, candidate, 0, i);
}

proof fn lemma_first_matching_window(clients: Seq<HyprClient>, candidate: Seq<char>, from: int, i: int)
    requires
        0 <= from <= i < clients.len(),
        ({
            let c = lowercase(clients[i].class@);
            let n = lowercase(candidate);
            c == n || contains(c, n) || contains(n, c)
        }),
    ensures
        first_matching_window(clients, candidate, from) matches Some(k) && from <= k <= i && ({
            let c = lowercase(clients[k].class@);
            let n = lowercase(candidate);
            c == n || contains(c, n) || contains(n, c)
        }),
    decreases i - from,
{
    if from < i && !names_match(lowercase(clients[from].class@), lowercase(candidate)) {
        lemma_first_matching_window(clients, candidate, from + 1, i);
    }
}

/// What clicking a notification does.
pub enum FocusTarget {
    /// Focus the window with this address.
    Focus(String),
    /// The application is not running: launch this desktop entry or name.
    Launch(String),
}

fn find_window(clients: &[HyprClient], candidate: &str) -> (r: Option<usize>)
    ensures
        r matches Some(k) ==> first_matching_window(clients@, candidate@, 0) == Some(k as int)
            && k < clients@.len(),
        r is None ==> first_matching_window(clients@, candidate@, 0) is None,
{
    let cand = to_lowercase(candidate);
    let cv = crate::text::chars_of(cand.as_str());
    let mut i: usize = 0;
    while i < clients.len()
        invariant
            i <= clients@.len(),
            cv@ == lowercase(candidate@),
            first_matching_window(clients@, candidate@, 0) == first_matching_window(
                clients@,
                candidate@,
                i as int,
            ),
        decreases clients@.len() - i,
    {
        let class = to_lowercase(clients[i].class.as_str());
        let kv = crate::text::chars_of(class.as_str());
        let m = crate::text::chars_eq(&kv, &cv) || crate::text::find_exec(&kv, &cv, 0).is_some()
            || crate::text::find_exec(&cv, &kv, 0).is_some();
        if m {
            return Some(i);
        }
        i += 1;
    }
    None
}

/// Decides what clicking a notification does: focus the first window
/// matching the desktop entry, else the first matching the application
/// name; with no match, launch the desktop entry (or the name).
pub fn focus_target(app_name: &str, desktop_entry: Option<&str>, clients: &[HyprClient]) -> (r: FocusTarget)
    ensures
        ({
            let by_entry = match desktop_entry {
                Some(e) => first_matching_window(clients@, e@, 0),
                None => None,
            };
            let by_name = first_matching_window(clients@, app_name@, 0);
            match r {
                FocusTarget::Focus(a) => match by_entry {
                    Some(k) => a@ == clients@[k].address@,
                    None => by_name matches Some(k) && a@ == clients@[k].address@,
                },
                FocusTarget::Launch(c) => by_entry is None && by_name is None && c@ == match desktop_entry {
                    Some(e) => e@,
                    None => app_name@,
                },
            }
        }),
{
    if let Some(e) = desktop_entry {
        if let Some(k) = find_window(clients, e) {
            return FocusTarget::Focus(clients[k].address.clone());
        }
    }
    if let Some(k) = find_window(clients, app_name) {
        return FocusTarget::Focus(clients[k].address.clone());
    }
    match desktop_entry {
        Some(e) => FocusTarget::Launch(e.to_owned()),
        None => FocusTarget::Launch(app_name.to_owned()),
    }
}


/// The notification history that the panel shows, oldest first.
pub struct NotificationHistory {
    pub items: Vec<Notification>,
}

/// The ids of notifications, in order.
pub open spec fn ids_of(items: Seq<Notification>) -> Seq<u32> {
    items.map_values(|n: Notification| n.id)
}

/// The last `max` notifications of `items` (all of them when there are
/// no more than `max`).
pub open spec fn keep_newest(items: Seq<Notification>, max: nat) -> Seq<Notification> {
    if items.len() <= max {
        items
    } else {
        items.skip(items.len() - max)
    }
}

/// `items` without the notifications whose id is `id`.
pub open spec fn without_id(items: Seq<Notification>, id: u32) -> Seq<Notification>
    decreases items.len(),
{
    if items.len() == 0 {
        items
    } else if items.last().id == id {
        without_id(items.drop_last(), id)
    } else {
        without_id(items.drop_last(), id).push(items.last())
    }
}

/// `items` without the notifications of the application `app`.
pub open spec fn without_app(items: Seq<Notification>, app: Seq<char>) -> Seq<Notification>
    decreases items.len(),
{
    if items.len() == 0 {
        items
    } else if items.last().app_name@ == app {
        without_app(items.drop_last(), app)
    } else {
        without_app(items.drop_last(), app).push(items.last())
    }
}

/// One application's group in the panel, in its view.
pub ghost struct GroupView {
    pub app_name: Seq<char>,
    pub icon: Seq<char>,
    pub ids: Seq<u32>,
}

/// The position of the group of application `app`, or -1 when there is none.
pub open spec fn app_index(groups: Seq<GroupView>, app: Seq<char>) -> int
    decreases groups.len(),
{
    if groups.len() == 0 {
        -1
    } else {
        let k = app_index(groups.drop_last(), app);
        if k >= 0 {
            k
        } else if groups.last().app_name == app {
            groups.len() - 1
        } else {
            -1
        }
    }
}

/// The history grouped by application: one group per application, in the
/// order in which the applications first appear; each group holds its
/// notifications' ids in history order, and the icon chosen from the
/// group's first notification and that notification's desktop icon
/// (`desktop_icons[i]` belongs to `items[i]`).
pub open spec fn grouped_history(items: Seq<Notification>, desktop_icons: Seq<Option<Seq<char>>>) -> Seq<GroupView>
    decreases items.len(),
{
    if items.len() == 0 {
        Seq::empty()
    } else {
        let g = grouped_history(items.drop_last(), desktop_icons);
        let n = items.last();
        let k = app_index(g, n.app_name@);
        if k >= 0 {
            g.update(k, GroupView { app_name: g[k].app_name, icon: g[k].icon, ids: g[k].ids.push(n.id) })
        } else {
            g.push(GroupView {
                app_name: n.app_name@,
                icon: group_icon_of(n.app_icon@, desktop_icons[items.len() - 1]),
                ids: seq![n.id],
            })
        }
    }
}

/// `app_index` is the first group of the application, if any.
pub proof fn lemma_app_index(groups: Seq<GroupView>, app: Seq<char>)
    ensures
        -1 <= app_index(groups, app) < groups.len(),
        app_index(groups, app) >= 0 ==> groups[app_index(groups, app)].app_name == app && forall|
            j: int,
        | 0 <= j < app_index(groups, app) ==> groups[j].app_name != app,
        app_index(groups, app) == -1 ==> forall|j: int|
            0 <= j < groups.len() ==> groups[j].app_name != app,
    decreases groups.len(),
{
    if groups.len() > 0 {
        lemma_app_index(groups.drop_last(), app);
        assert forall|j: int| 0 <= j < groups.len() - 1 implies groups[j] == groups.drop_last()[j] by {}
    }
}

/// The grouping is empty exactly when the history is.
pub proof fn lemma_grouped_empty(items: Seq<Notification>, desktop_icons: Seq<Option<Seq<char>>>)
    ensures
        (grouped_history(items, desktop_icons).len() == 0) == (items.len() == 0),
        grouped_history(items, desktop_icons).len() <= items.len(),
    decreases items.len(),
{
    if items.len() > 0 {
        lemma_grouped_empty(items.drop_last(), desktop_icons);
        let g = grouped_history(items.drop_last(), desktop_icons);
        lemma_app_index(g, items.last().app_name@);
    }
}

/// One application's group as the panel shows it: the header's name,
/// icon and count, and the ids of its rows.
pub struct PanelGroup {
    pub app_name: String,
    pub icon: String,
    pub count_label: String,
    pub ids: Vec<u32>,
}

fn find_app(apps: &Vec<String>, app: &str) -> (r: Option<usize>)
    ensures
        r matches Some(k) ==> k < apps@.len() && apps@[k as int]@ == app@ && forall|j: int|
            0 <= j < k ==> apps@[j]@ != app@,
        r is None ==> forall|j: int| 0 <= j < apps@.len() ==> apps@[j]@ != app@,
{
    let mut j: usize = 0;
    while j < apps.len()
        invariant
            j <= apps@.len(),
            forall|i: int| 0 <= i < j ==> apps@[i]@ != app@,
        decreases apps@.len() - j,
    {
        if crate::text::str_eq(apps[j].as_str(), app) {
            return Some(j);
        }
        j += 1;
    }
    None
}

impl NotificationHistory {
    /// An empty history.
    pub fn new() -> (r: Self)
        ensures
            r.items@.len() == 0,
    {
        NotificationHistory { items: Vec::new() }
    }

    /// Records a notification as the newest; beyond `max_history` entries
    /// the oldest are dropped first.
    pub fn push(&mut self, n: Notification, max_history: usize)
        ensures
            final(self).items@ == keep_newest(old(self).items@.push(n), max_history as nat),
    {
        self.items.push(n);
        let ghost all = self.items@;
        let ghost mut dropped: int = 0;
        while self.items.len() > max_history
            invariant
                0 <= dropped <= all.len(),
                self.items@ == all.skip(dropped),
                dropped > 0 ==> all.len() - dropped >= max_history,
            decreases self.items@.len(),
        {
            let _old = self.items.remove(0);
            proof {
                assert(all.skip(dropped).subrange(1, all.skip(dropped).len() as int) =~= all.skip(
                    dropped + 1,
                ));
                dropped = dropped + 1;
            }
        }
        proof {
            if all.len() <= max_history {
                assert(dropped == 0);
                assert(all.skip(0) =~= all);
            } else {
                assert(self.items@.len() == max_history);
                assert(dropped == all.len() - max_history);
            }
        }
    }

    /// Removes the notifications with this id; tells whether any was there.
    pub fn remove(&mut self, id: u32) -> (removed: bool)
        ensures
            final(self).items@ == without_id(old(self).items@, id),
            removed == ids_of(old(self).items@).contains(id),
    {
        let ghost orig = self.items@;
        let mut rest: Vec<Notification> = Vec::new();
        std::mem::swap(&mut rest, &mut self.items);
        let mut kept: Vec<Notification> = Vec::new();
        let mut removed = false;
        let ghost mut k: int = 0;
        while rest.len() > 0
            invariant
                0 <= k <= orig.len(),
                rest@ == orig.skip(k),
                kept@ == without_id(orig.take(k), id),
                removed == ids_of(orig.take(k)).contains(id),
            decreases rest@.len(),
        {
            let n = rest.remove(0);
            proof {
                assert(n == orig[k]);
                assert(orig.take(k + 1).drop_last() =~= orig.take(k));
                assert(orig.take(k + 1).last() == orig[k]);
                let s0 = ids_of(orig.take(k));
                let s1 = ids_of(orig.take(k + 1));
                assert(s1 =~= s0.push(orig[k].id));
                if s0.contains(id) {
                    let j = choose|j: int| 0 <= j < s0.len() && s0[j] == id;
                    assert(s1[j] == id);
                }
                if orig[k].id == id {
                    assert(s1[k] == id);
                }
                if s1.contains(id) {
                    let j = choose|j: int| 0 <= j < s1.len() && s1[j] == id;
                    if j < k {
                        assert(s0[j] == id);
                    }
                }
                assert(s1.contains(id) == (s0.contains(id) || orig[k].id == id));
                assert(orig.skip(k).subrange(1, orig.skip(k).len() as int) =~= orig.skip(k + 1));
            }
            if n.id == id {
                removed = true;
            } else {
                kept.push(n);
            }
            proof {
                k = k + 1;
            }
        }
        assert(orig.take(k) =~= orig);
        self.items = kept;
        removed
    }

    /// Removes every notification of the application `app_name`.
    pub fn dismiss_app(&mut self, app_name: &str)
        ensures
            final(self).items@ == without_app(old(self).items@, app_name@),
    {
        let ghost orig = self.items@;
        let mut rest: Vec<Notification> = Vec::new();
        std::mem::swap(&mut rest, &mut self.items);
        let mut kept: Vec<Notification> = Vec::new();
        let ghost mut k: int = 0;
        while rest.len() > 0
            invariant
                0 <= k <= orig.len(),
                rest@ == orig.skip(k),
                kept@ == without_app(orig.take(k), app_name@),
            decreases rest@.len(),
        {
            let n = rest.remove(0);
            proof {
                assert(n == orig[k]);
                assert(orig.take(k + 1).drop_last() =~= orig.take(k));
                assert(orig.take(k + 1).last() == orig[k]);
                assert(orig.skip(k).subrange(1, orig.skip(k).len() as int) =~= orig.skip(k + 1));
            }
            if !crate::text::str_eq(n.app_name.as_str(), app_name) {
                kept.push(n);
            }
            proof {
                k = k + 1;
            }
        }
        assert(orig.take(k) =~= orig);
        self.items = kept;
    }

    /// The panel's groups (see `grouped_history`); `desktop_icons[i]` is
    /// the icon of the desktop entry of `items[i]`'s application, if one
    /// was found. No group at all means the panel shows its "No
    /// notifications" placeholder.
    pub fn panel_groups(&self, desktop_icons: &Vec<Option<String>>) -> (r: Vec<PanelGroup>)
        requires
            desktop_icons@.len() == self.items@.len(),
        ensures
            ({
                let g = grouped_history(
                    self.items@,
                    desktop_icons@.map_values(|o: Option<String>| opt_text(o)),
                );
                &&& r@.len() == g.len()
                &&& forall|k: int|
                    0 <= k < g.len() ==> (#[trigger] r@[k]).app_name@ == g[k].app_name && r@[k].icon@
                        == g[k].icon && r@[k].ids@ == g[k].ids && r@[k].count_label@ == decimal(
                        g[k].ids.len() as int,
                    )
            }),
            (r@.len() == 0) == (self.items@.len() == 0),
    {
        let ghost items = self.items@;
        let ghost icons = desktop_icons@.map_values(|o: Option<String>| opt_text(o));
        let mut apps: Vec<String> = Vec::new();
        let mut group_icons: Vec<String> = Vec::new();
        let mut ids: Vec<Vec<u32>> = Vec::new();
        let mut i: usize = 0;
        while i < self.items.len()
            invariant
                i <= items.len(),
                items == self.items@,
                desktop_icons@.len() == items.len(),
                icons == desktop_icons@.map_values(|o: Option<String>| opt_text(o)),
                apps@.len() == grouped_history(items.take(i as int), icons).len(),
                group_icons@.len() == apps@.len(),
                ids@.len() == apps@.len(),
                forall|k: int|
                    0 <= k < apps@.len() ==> (#[trigger] apps@[k])@ == grouped_history(
                        items.take(i as int),
                        icons,
                    )[k].app_name && group_icons@[k]@ == grouped_history(items.take(i as int), icons)[k].icon
                        && ids@[k]@ == grouped_history(items.take(i as int), icons)[k].ids,
            decreases items.len() - i,
        {
            let ghost g = grouped_history(items.take(i as int), icons);
            let n = &self.items[i];
            proof {
                assert(items.take(i + 1).drop_last() =~= items.take(i as int));
                assert(items.take(i + 1).last() == items[i as int]);
                lemma_app_index(g, n.app_name@);
                assert forall|j: int| 0 <= j < apps@.len() implies (apps@[j]@ == n.app_name@) == (
                    g[j].app_name == n.app_name@) by {}
            }
            let ghost g2 = grouped_history(items.take(i + 1), icons);
            match find_app(&apps, n.app_name.as_str()) {
                Some(k) => {
                    assert(app_index(g, n.app_name@) == k);
                    assert(g2 == g.update(
                        k as int,
                        GroupView { app_name: g[k as int].app_name, icon: g[k as int].icon, ids: g[k as int].ids.push(n.id) },
                    ));
                    let ghost before = ids@;
                    let mut v = ids.remove(k);
                    v.push(n.id);
                    ids.insert(k, v);
                    assert(ids@ =~= before.update(k as int, v));
                    assert forall|j: int| 0 <= j < apps@.len() implies (#[trigger] apps@[j])@ == g2[j].app_name
                        && group_icons@[j]@ == g2[j].icon && ids@[j]@ == g2[j].ids by {
                        if j == k as int {
                            assert(ids@[j]@ =~= g[j].ids.push(n.id));
                        }
                    }
                },
                None => {
                    assert(app_index(g, n.app_name@) == -1);
                    let di: Option<String> = match &desktop_icons[i] {
                        Some(t) => Some(t.clone()),
                        None => None,
                    };
                    assert(opt_text(di) == icons[i as int]);
                    assert(g2 == g.push(
                        GroupView {
                            app_name: n.app_name@,
                            icon: group_icon_of(n.app_icon@, icons[i as int]),
                            ids: seq![n.id],
                        },
                    ));
                    let icon = group_icon_name(n.app_icon.as_str(), di);
                    apps.push(n.app_name.clone());
                    group_icons.push(icon);
                    let mut v: Vec<u32> = Vec::new();
                    v.push(n.id);
                    ids.push(v);
                    assert forall|j: int| 0 <= j < apps@.len() implies (#[trigger] apps@[j])@ == g2[j].app_name
                        && group_icons@[j]@ == g2[j].icon && ids@[j]@ == g2[j].ids by {
                        if j == apps@.len() - 1 {
                            assert(ids@[j]@ =~= seq![n.id]);
                        }
                    }
                },
            }
            i += 1;
        }
        assert(items.take(i as int) =~= items);
        let ghost g = grouped_history(items, icons);
        assert(grouped_history(items.take(i as int), icons) == g);
        let mut r: Vec<PanelGroup> = Vec::new();
        let mut apps = apps;
        let mut group_icons = group_icons;
        let mut ids = ids;
        let ghost apps0 = apps@;
        let ghost icons0 = group_icons@;
        let ghost ids0 = ids@;
        while apps.len() > 0
            invariant
                apps0.len() == g.len(),
                icons0.len() == g.len(),
                ids0.len() == g.len(),
                forall|k: int|
                    0 <= k < g.len() ==> (#[trigger] apps0[k])@ == g[k].app_name && icons0[k]@ == g[k].icon
                        && ids0[k]@ == g[k].ids,
                r@.len() + apps@.len() == g.len(),
                apps@ == apps0.skip(r@.len() as int),
                group_icons@ == icons0.skip(r@.len() as int),
                ids@ == ids0.skip(r@.len() as int),
                forall|k: int|
                    0 <= k < r@.len() ==> (#[trigger] r@[k]).app_name@ == g[k].app_name && r@[k].icon@
                        == g[k].icon && r@[k].ids@ == g[k].ids && r@[k].count_label@ == decimal(
                        g[k].ids.len() as int,
                    ),
            decreases apps@.len(),
        {
            let ghost k = r@.len() as int;
            let a = apps.remove(0);
            let ic = group_icons.remove(0);
            let v = ids.remove(0);
            assert(a == apps0[k]);
            assert(ic == icons0[k]);
            assert(v == ids0[k]);
            let label = group_count_label(v.len());
            r.push(PanelGroup { app_name: a, icon: ic, count_label: label, ids: v });
            assert(apps@ =~= apps0.skip(k + 1));
            assert(group_icons@ =~= icons0.skip(k + 1));
            assert(ids@ =~= ids0.skip(k + 1));
        }
        proof {
            lemma_grouped_empty(items, icons);
        }
        r
    }
}

} // verus!
