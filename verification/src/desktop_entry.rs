//! XDG `.desktop` files: the `[Desktop Entry]` section read into the
//! fields the dock and drawer use.

use vstd::prelude::*;
use crate::text::{chars_of, index_of_char, index_of_char_exec, remove_chars, remove_chars_exec, slice_vec, split, split_exec, str_eq, string_of, trim, trim_vec};

verus! {

/// A parsed XDG .desktop file entry.
#[derive(Debug, Clone, Default)]
pub struct DesktopEntry {
    pub desktop_id: String,
    pub name: String,
    pub name_loc: String,
    pub comment: String,
    pub comment_loc: String,
    pub icon: String,
    /// The `Exec` command line (`exec` is a word of Verus).
    pub exec_cmd: String,
    pub category: String,
    pub terminal: bool,
    pub no_display: bool,
}

/// The content of a `DesktopEntry`.
pub ghost struct EntryView {
    pub desktop_id: Seq<char>,
    pub name: Seq<char>,
    pub name_loc: Seq<char>,
    pub comment: Seq<char>,
    pub comment_loc: Seq<char>,
    pub icon: Seq<char>,
    pub exec_cmd: Seq<char>,
    pub category: Seq<char>,
    pub terminal: bool,
    pub no_display: bool,
}

impl View for DesktopEntry {
    type V = EntryView;

    open spec fn view(&self) -> EntryView {
        EntryView {
            desktop_id: self.desktop_id@,
            name: self.name@,
            name_loc: self.name_loc@,
            comment: self.comment@,
            comment_loc: self.comment_loc@,
            icon: self.icon@,
            exec_cmd: self.exec_cmd@,
            category: self.category@,
            terminal: self.terminal,
            no_display: self.no_display,
        }
    }
}

/// A copy of an entry.
pub fn copy_entry(e: &DesktopEntry) -> (r: DesktopEntry)
    ensures
        r@ == e@,
{
    DesktopEntry {
        desktop_id: e.desktop_id.clone(),
        name: e.name.clone(),
        name_loc: e.name_loc.clone(),
        comment: e.comment.clone(),
        comment_loc: e.comment_loc.clone(),
        icon: e.icon.clone(),
        exec_cmd: e.exec_cmd.clone(),
        category: e.category.clone(),
        terminal: e.terminal,
        no_display: e.no_display,
    }
}

/// `l` without one trailing carriage return.
pub open spec fn strip_cr(l: Seq<char>) -> Seq<char> {
    if l.len() > 0 && l.last() == '\r' {
        l.drop_last()
    } else {
        l
    }
}

/// The lines of a text as `BufRead::lines` yields them: split at `\n`,
/// a `\r` before each `\n` removed, and no empty line after a final `\n`.
pub open spec fn text_lines(s: Seq<char>) -> Seq<Seq<char>> {
    let parts = split(s, '\n');
    let n = parts.len() as int;
    Seq::new((n - 1) as nat, |i: int| strip_cr(parts[i])) + if n > 0 && parts[n - 1].len() > 0 {
        seq![parts[n - 1]]
    } else {
        Seq::empty()
    }
}

/// Splits text into lines as `BufRead::lines` does.
pub fn content_lines(content: &str) -> (r: Vec<String>)
    ensures
        r.deep_view() == text_lines(content@),
{
    let parts = split_exec(&chars_of(content), '\n');
    let ghost ps = split(content@, '\n');
    proof {
        crate::text::lemma_split_nonempty(content@, '\n');
    }
    let mut r: Vec<String> = Vec::new();
    let n = parts.len();
    let mut i: usize = 0;
    while i + 1 < n
        invariant
            n == parts@.len(),
            parts.deep_view() == ps,
            i <= n,
            n > 0 ==> i < n,
            r.deep_view() =~= Seq::new(i as nat, |k: int| strip_cr(ps[k])),
        decreases n - i,
    {
        let v = chars_of(parts[i].as_str());
        assert(parts.deep_view()[i as int] == parts@[i as int]@);
        assert(v@ == ps[i as int]);
        let l = if v.len() > 0 && v[v.len() - 1] == '\r' {
            let w = slice_vec(&v, 0, v.len() - 1);
            assert(w@ =~= v@.drop_last());
            string_of(&w)
        } else {
            parts[i].clone()
        };
        assert(l@ == strip_cr(ps[i as int]));
        let ghost before = r.deep_view();
        r.push(l);
        assert(r.deep_view() =~= before.push(strip_cr(ps[i as int])));
        i += 1;
    }
    if n > 0 && !parts[n - 1].as_str().is_empty() {
        assert(parts.deep_view()[n - 1] == parts@[n - 1]@);
        let ghost before = r.deep_view();
        r.push(parts[n - 1].clone());
        assert(r.deep_view() =~= before.push(ps[n - 1]));
    }
    proof {
        let nn = ps.len() as int;
        let front = Seq::new((nn - 1) as nat, |k: int| strip_cr(ps[k]));
        assert(i == n - 1);
        assert(r.deep_view() =~= text_lines(content@));
    }
    r
}

/// A `key=value` line split at its first `=`, both sides trimmed; none
/// without `=` or with an empty key position.
pub open spec fn keypair(s: Seq<char>) -> Option<(Seq<char>, Seq<char>)> {
    match index_of_char(s, '=') {
        Some(i) => if i == 0 {
            None
        } else {
            Some((trim(s.take(i)), trim(s.skip(i + 1))))
        },
        None => None,
    }
}

/// Splits a line at the first `=` into (key, value), both trimmed.
pub fn parse_keypair(s: &str) -> (r: Option<(String, String)>)
    ensures
        r matches Some(kv) ==> keypair(s@) == Some((kv.0@, kv.1@)),
        r is None ==> keypair(s@) is None,
{
    let v = chars_of(s);
    match index_of_char_exec(&v, '=') {
        None => None,
        Some(idx) => {
            proof {
                crate::text::lemma_index_of_char(v@, '=');
            }
            if idx == 0 {
                return None;
            }
            let k = slice_vec(&v, 0, idx);
            let val = slice_vec(&v, idx + 1, v.len());
            assert(k@ =~= s@.take(idx as int));
            assert(val@ =~= s@.skip(idx + 1));
            Some((string_of(&trim_vec(&k)), string_of(&trim_vec(&val))))
        },
    }
}

/// The language code of a `LANG` value: what precedes its first `_`.
pub open spec fn lang_code(lang_env: Seq<char>) -> Seq<char> {
    split(lang_env, '_')[0]
}

/// `true` parses as true; anything else (including parse errors) is false.
pub open spec fn bool_value(v: Seq<char>) -> bool {
    v == "true"@
}

/// The entry after one `key=value` line of the `[Desktop Entry]`
/// section. `loc_name` and `loc_comment` are the localized keys
/// (`Name[xx]`, `Comment[xx]`), `desktop` the current desktop.
pub open spec fn apply_key(e: EntryView, key: Seq<char>, value: Seq<char>, loc_name: Seq<char>, loc_comment: Seq<char>, desktop: Seq<char>) -> EntryView {
    if key == "Name"@ {
        EntryView { name: value, ..e }
    } else if key == "Comment"@ {
        EntryView { comment: value, ..e }
    } else if key == "Icon"@ {
        EntryView { icon: value, ..e }
    } else if key == "Categories"@ {
        EntryView { category: value, ..e }
    } else if key == "Terminal"@ {
        EntryView { terminal: bool_value(value), ..e }
    } else if (key == "NoDisplay"@ || key == "Hidden"@) && !e.no_display {
        EntryView { no_display: bool_value(value), ..e }
    } else if key == "OnlyShowIn"@ && !e.no_display {
        EntryView {
            no_display: !(desktop.len() > 0 && split(value, ';').contains(desktop)),
            ..e
        }
    } else if key == "NotShowIn"@ && !e.no_display && desktop.len() > 0 {
        EntryView { no_display: split(value, ';').contains(desktop), ..e }
    } else if key == "Exec"@ {
        EntryView { exec_cmd: remove_chars(value, seq!['"', '\'']), ..e }
    } else if key == loc_name {
        EntryView { name_loc: value, ..e }
    } else if key == loc_comment {
        EntryView { comment_loc: value, ..e }
    } else {
        e
    }
}

/// Whether a line opens a section other than `[Desktop Entry]`.
pub open spec fn ends_entry_section(l: Seq<char>) -> bool {
    l.len() > 0 && l[0] == '[' && l != "[Desktop Entry]"@
}

/// The entry after the lines `lines[i..]`, up to the first other section;
/// lines without a key or with an empty value are skipped.
pub open spec fn scan_lines(lines: Seq<Seq<char>>, i: int, e: EntryView, loc_name: Seq<char>, loc_comment: Seq<char>, desktop: Seq<char>) -> EntryView
    decreases lines.len() - i,
{
    if i < 0 || i >= lines.len() || ends_entry_section(lines[i]) {
        e
    } else {
        match keypair(lines[i]) {
            Some((k, v)) => if v.len() == 0 {
                scan_lines(lines, i + 1, e, loc_name, loc_comment, desktop)
            } else {
                scan_lines(
                    lines,
                    i + 1,
                    apply_key(e, k, v, loc_name, loc_comment, desktop),
                    loc_name,
                    loc_comment,
                    desktop,
                )
            },
            None => scan_lines(lines, i + 1, e, loc_name, loc_comment, desktop),
        }
    }
}

/// The entry that a `.desktop` file's text describes for `id`, given the
/// `LANG` and `XDG_CURRENT_DESKTOP` values: localized name and comment
/// fall back to the plain ones.
pub open spec fn desktop_entry_of(id: Seq<char>, content: Seq<char>, lang_env: Seq<char>, desktop: Seq<char>) -> EntryView {
    let lang = lang_code(lang_env);
    let init = EntryView {
        desktop_id: id,
        name: Seq::empty(),
        name_loc: Seq::empty(),
        comment: Seq::empty(),
        comment_loc: Seq::empty(),
        icon: Seq::empty(),
        exec_cmd: Seq::empty(),
        category: Seq::empty(),
        terminal: false,
        no_display: false,
    };
    let e = scan_lines(
        text_lines(content),
        0,
        init,
        "Name["@ + lang + "]"@,
        "Comment["@ + lang + "]"@,
        desktop,
    );
    EntryView {
        name_loc: if e.name_loc.len() == 0 {
            e.name
        } else {
            e.name_loc
        },
        comment_loc: if e.comment_loc.len() == 0 {
            e.comment
        } else {
            e.comment_loc
        },
        ..e
    }
}

fn list_contains(items: &Vec<String>, x: &str) -> (b: bool)
    ensures
        b == items.deep_view().contains(x@),
{
    let mut i: usize = 0;
    while i < items.len()
        invariant
            i <= items@.len(),
            forall|j: int| 0 <= j < i ==> items.deep_view()[j] != x@,
        decreases items@.len() - i,
    {
        if str_eq(items[i].as_str(), x) {
            assert(items.deep_view()[i as int] == x@);
            return true;
        }
        i += 1;
    }
    false
}

fn apply_key_exec(e: &mut DesktopEntry, key: &str, value: &str, loc_name: &str, loc_comment: &str, desktop: &str)
    ensures
        final(e)@ == apply_key(old(e)@, key@, value@, loc_name@, loc_comment@, desktop@),
{
    if str_eq(key, "Name") {
        e.name = value.to_owned();
    } else if str_eq(key, "Comment") {
        e.comment = value.to_owned();
    } else if str_eq(key, "Icon") {
        e.icon = value.to_owned();
    } else if str_eq(key, "Categories") {
        e.category = value.to_owned();
    } else if str_eq(key, "Terminal") {
        e.terminal = str_eq(value, "true");
    } else if (str_eq(key, "NoDisplay") || str_eq(key, "Hidden")) && !e.no_display {
        e.no_display = str_eq(value, "true");
    } else if str_eq(key, "OnlyShowIn") && !e.no_display {
        let items = split_exec(&chars_of(value), ';');
        e.no_display = !(!desktop.is_empty() && list_contains(&items, desktop));
    } else if str_eq(key, "NotShowIn") && !e.no_display && !desktop.is_empty() {
        let items = split_exec(&chars_of(value), ';');
        e.no_display = list_contains(&items, desktop);
    } else if str_eq(key, "Exec") {
        let q = vec!['"', '\''];
        assert(q@ =~= seq!['"', '\'']);
        e.exec_cmd = remove_chars_exec(&chars_of(value), &q);
    } else if str_eq(key, loc_name) {
        e.name_loc = value.to_owned();
    } else if str_eq(key, loc_comment) {
        e.comment_loc = value.to_owned();
    }
}

/// A key in brackets after a prefix: `Name[xx]`.
fn bracketed(prefix: &str, lang: &str) -> (r: String)
    ensures
        r@ == prefix@ + "["@ + lang@ + "]"@,
{
    let mut r = prefix.to_owned();
    r.append("[");
    r.append(lang);
    r.append("]");
    r
}

/// Parses the text of a `.desktop` file for entry `id`, given the values
/// of `LANG` and `XDG_CURRENT_DESKTOP` (empty when unset).
pub fn parse_desktop_entry(id: &str, content: &str, lang_env: &str, current_desktop: &str) -> (r: DesktopEntry)
    ensures
        r@ == desktop_entry_of(id@, content@, lang_env@, current_desktop@),
{
    let lang_parts = split_exec(&chars_of(lang_env), '_');
    proof {
        crate::text::lemma_split_nonempty(lang_env@, '_');
    }
    let lang = lang_parts[0].clone();
    assert(lang_parts.deep_view()[0] == lang_parts@[0]@);
    assert(lang@ == lang_code(lang_env@));
    let localized_name = bracketed("Name", lang.as_str());
    let localized_comment = bracketed("Comment", lang.as_str());
    proof {
        reveal_strlit("Name");
        reveal_strlit("Comment");
        reveal_strlit("Name[");
        reveal_strlit("Comment[");
        reveal_strlit("[");
        assert(localized_name@ =~= "Name["@ + lang_code(lang_env@) + "]"@);
        assert(localized_comment@ =~= "Comment["@ + lang_code(lang_env@) + "]"@);
    }
    let mut entry = DesktopEntry {
        desktop_id: id.to_owned(),
        name: String::new(),
        name_loc: String::new(),
        comment: String::new(),
        comment_loc: String::new(),
        icon: String::new(),
        exec_cmd: String::new(),
        category: String::new(),
        terminal: false,
        no_display: false,
    };
    let ghost init = entry@;
    let lines = content_lines(content);
    let ghost ls = lines.deep_view();
    let ghost ln = localized_name@;
    let ghost lc = localized_comment@;
    let ghost cd = current_desktop@;
    let mut i: usize = 0;
    let mut stop = false;
    while i < lines.len() && !stop
        invariant
            i <= lines@.len(),
            ls == lines.deep_view(),
            ln == localized_name@,
            lc == localized_comment@,
            cd == current_desktop@,
            !stop ==> scan_lines(ls, 0, init, ln, lc, cd) == scan_lines(ls, i as int, entry@, ln, lc, cd),
            stop ==> scan_lines(ls, 0, init, ln, lc, cd) == entry@,
        decreases lines@.len() - i + (if stop { 0int } else { 1int }),
    {
        let line = lines[i].as_str();
        let lv = chars_of(line);
        let opens = lv.len() > 0 && lv[0] == '[';
        if opens && !str_eq(line, "[Desktop Entry]") {
            stop = true;
        } else {
            match parse_keypair(line) {
                Some((key, value)) => {
                    if !value.as_str().is_empty() {
                        apply_key_exec(
                            &mut entry,
                            key.as_str(),
                            value.as_str(),
                            localized_name.as_str(),
                            localized_comment.as_str(),
                            current_desktop,
                        );
                    }
                },
                None => {},
            }
            i += 1;
        }
    }
    if entry.name_loc.as_str().is_empty() {
        entry.name_loc = entry.name.clone();
    }
    if entry.comment_loc.as_str().is_empty() {
        entry.comment_loc = entry.comment.clone();
    }
    entry
}


/// An entry always has a display name when it has a name, and a
/// description when it has a comment: the localized fields fall back to
/// the plain ones; and it keeps the id it was read for.
pub proof fn localized_fallback_law(id: Seq<char>, content: Seq<char>, lang_env: Seq<char>, desktop: Seq<char>)
    ensures
        ({
            let e = desktop_entry_of(id, content, lang_env, desktop);
            &&& e.name.len() > 0 ==> e.name_loc.len() > 0
            &&& e.comment.len() > 0 ==> e.comment_loc.len() > 0
            &&& e.desktop_id == id
        }),
{
    let lang = lang_code(lang_env);
    let init = EntryView {
        desktop_id: id,
        name: Seq::empty(),
        name_loc: Seq::empty(),
        comment: Seq::empty(),
        comment_loc: Seq::empty(),
        icon: Seq::empty(),
        exec_cmd: Seq::empty(),
        category: Seq::empty(),
        terminal: false,
        no_display: false,
    };
    lemma_scan_keeps_id(text_lines(content), 0, init, "Name["@ + lang + "]"@, "Comment["@ + lang + "]"@, desktop);
}

proof fn lemma_scan_keeps_id(lines: Seq<Seq<char>>, i: int, e: EntryView, loc_name: Seq<char>, loc_comment: Seq<char>, desktop: Seq<char>)
    ensures
        scan_lines(lines, i, e, loc_name, loc_comment, desktop).desktop_id == e.desktop_id,
    decreases lines.len() - i,
{
    if !(i < 0 || i >= lines.len() || ends_entry_section(lines[i])) {
        match keypair(lines[i]) {
            Some((k, v)) => if v.len() == 0 {
                lemma_scan_keeps_id(lines, i + 1, e, loc_name, loc_comment, desktop);
            } else {
                lemma_scan_keeps_id(lines, i + 1, apply_key(e, k, v, loc_name, loc_comment, desktop), loc_name, loc_comment, desktop);
            },
            None => lemma_scan_keeps_id(lines, i + 1, e, loc_name, loc_comment, desktop),
        }
    }
}


/// The value of a line that sets the `Terminal` key to a non-empty value.
pub open spec fn terminal_value(l: Seq<char>) -> Option<Seq<char>> {
    match keypair(l) {
        Some((k, v)) => if k == "Terminal"@ && v.len() > 0 {
            Some(v)
        } else {
            None
        },
        None => None,
    }
}

/// Whether line `j` belongs to the part of the file read from line `i` on:
/// no line from `i` to `j` opens another section.
pub open spec fn in_section_from(lines: Seq<Seq<char>>, i: int, j: int) -> bool {
    0 <= i <= j < lines.len() && forall|k: int| i <= k <= j ==> !ends_entry_section(#[trigger] lines[k])
}

/// Whether line `j` is the last line from `i` on, within the section, that
/// sets `Terminal` to a non-empty value.
pub open spec fn is_last_terminal(lines: Seq<Seq<char>>, i: int, j: int) -> bool {
    &&& in_section_from(lines, i, j)
    &&& terminal_value(lines[j]) is Some
    &&& forall|k: int| j < k && #[trigger] in_section_from(lines, i, k) ==> terminal_value(lines[k]) is None
}

proof fn lemma_scan_terminal(lines: Seq<Seq<char>>, i: int, e: EntryView, loc_name: Seq<char>, loc_comment: Seq<char>, desktop: Seq<char>)
    requires
        0 <= i <= lines.len(),
        loc_name != "Terminal"@,
        loc_comment != "Terminal"@,
    ensures
        forall|j: int| #[trigger] is_last_terminal(lines, i, j) ==> scan_lines(lines, i, e, loc_name, loc_comment, desktop).terminal
            == (terminal_value(lines[j]) == Some("true"@)),
        (forall|j: int| #[trigger] in_section_from(lines, i, j) ==> terminal_value(lines[j]) is None)
            ==> scan_lines(lines, i, e, loc_name, loc_comment, desktop).terminal == e.terminal,
        (exists|j: int| #[trigger] in_section_from(lines, i, j) && terminal_value(lines[j]) is Some)
            ==> exists|j: int| #[trigger] is_last_terminal(lines, i, j),
    decreases lines.len() - i,
{
    reveal_strlit("Terminal");
    reveal_strlit("Name");
    reveal_strlit("Comment");
    reveal_strlit("Icon");
    reveal_strlit("Categories");
    reveal_strlit("true");
    if i >= lines.len() || ends_entry_section(lines[i]) {
        assert forall|j: int| !(#[trigger] in_section_from(lines, i, j)) by {
            if in_section_from(lines, i, j) {
                assert(!ends_entry_section(lines[i]));
            }
        }
    } else {
        let e2 = match keypair(lines[i]) {
            Some((k, v)) => if v.len() == 0 {
                e
            } else {
                apply_key(e, k, v, loc_name, loc_comment, desktop)
            },
            None => e,
        };
        assert(scan_lines(lines, i, e, loc_name, loc_comment, desktop) == scan_lines(
            lines,
            i + 1,
            e2,
            loc_name,
            loc_comment,
            desktop,
        ));
        lemma_scan_terminal(lines, i + 1, e2, loc_name, loc_comment, desktop);
        let r = scan_lines(lines, i, e, loc_name, loc_comment, desktop);
        if let Some((k, v)) = keypair(lines[i]) {
            if k == "Terminal"@ && v.len() > 0 {
                assert(k.len() == 8);
                assert(k != "Name"@ && k != "Comment"@ && k != "Icon"@ && k != "Categories"@);
                assert(e2 == apply_key(e, k, v, loc_name, loc_comment, desktop));
                assert(e2.terminal == bool_value(v));
            }
        }
        assert(terminal_value(lines[i]) matches Some(v) ==> e2.terminal == (v == "true"@));
        assert(terminal_value(lines[i]) is None ==> e2.terminal == e.terminal);
        assert forall|k: int| i + 1 <= k && #[trigger] in_section_from(lines, i + 1, k) implies in_section_from(lines, i, k) by {
            assert forall|m: int| i <= m <= k implies !ends_entry_section(#[trigger] lines[m]) by {
                if m > i {
                    assert(i + 1 <= m <= k);
                }
            }
        }
        assert forall|k: int| i < k && #[trigger] in_section_from(lines, i, k) implies in_section_from(lines, i + 1, k) by {}
        assert forall|j: int| #[trigger] is_last_terminal(lines, i, j) implies r.terminal == (terminal_value(lines[j])
            == Some("true"@)) by {
            if j == i {
                assert forall|k: int| #[trigger] in_section_from(lines, i + 1, k) implies terminal_value(lines[k]) is None by {
                    assert(in_section_from(lines, i, k));
                }
            } else {
                assert(in_section_from(lines, i + 1, j));
                assert forall|k: int| j < k && #[trigger] in_section_from(lines, i + 1, k) implies terminal_value(lines[k]) is None by {
                    assert(in_section_from(lines, i, k));
                }
                assert(is_last_terminal(lines, i + 1, j));
            }
        }
        if forall|j: int| #[trigger] in_section_from(lines, i, j) ==> terminal_value(lines[j]) is None {
            assert(in_section_from(lines, i, i));
            assert forall|k: int| #[trigger] in_section_from(lines, i + 1, k) implies terminal_value(lines[k]) is None by {
                assert(in_section_from(lines, i, k));
            }
        }
        if exists|j: int| #[trigger] in_section_from(lines, i, j) && terminal_value(lines[j]) is Some {
            if exists|j: int| #[trigger] in_section_from(lines, i + 1, j) && terminal_value(lines[j]) is Some {
                let j = choose|j: int| #[trigger] is_last_terminal(lines, i + 1, j);
                assert(in_section_from(lines, i, j));
                assert forall|k: int| j < k && #[trigger] in_section_from(lines, i, k) implies terminal_value(lines[k]) is None by {
                    assert(in_section_from(lines, i + 1, k));
                }
                assert(is_last_terminal(lines, i, j));
            } else {
                let j = choose|j: int| #[trigger] in_section_from(lines, i, j) && terminal_value(lines[j]) is Some;
                if j > i {
                    assert(in_section_from(lines, i + 1, j));
                }
                assert(in_section_from(lines, i, i));
                assert forall|k: int| i < k && #[trigger] in_section_from(lines, i, k) implies terminal_value(lines[k]) is None by {
                    assert(in_section_from(lines, i + 1, k));
                }
                assert(is_last_terminal(lines, i, i));
            }
        }
    }
}

/// An application runs in a terminal exactly when the last line of the
/// entry's section that gives `Terminal` a value gives it `true`.
pub proof fn terminal_law(id: Seq<char>, content: Seq<char>, lang_env: Seq<char>, desktop: Seq<char>)
    ensures
        desktop_entry_of(id, content, lang_env, desktop).terminal <==> exists|j: int|
            #[trigger] is_last_terminal(text_lines(content), 0, j) && terminal_value(text_lines(content)[j])
                == Some("true"@),
{
    reveal_strlit("Terminal");
    reveal_strlit("Name[");
    reveal_strlit("Comment[");
    let lang = lang_code(lang_env);
    let lines = text_lines(content);
    let ln = "Name["@ + lang + "]"@;
    let lc = "Comment["@ + lang + "]"@;
    assert(ln[0] == 'N');
    assert(lc[0] == 'C');
    let init = EntryView {
        desktop_id: id,
        name: Seq::empty(),
        name_loc: Seq::empty(),
        comment: Seq::empty(),
        comment_loc: Seq::empty(),
        icon: Seq::empty(),
        exec_cmd: Seq::empty(),
        category: Seq::empty(),
        terminal: false,
        no_display: false,
    };
    lemma_scan_terminal(lines, 0, init, ln, lc, desktop);
    let r = desktop_entry_of(id, content, lang_env, desktop);
    assert(r.terminal == scan_lines(lines, 0, init, ln, lc, desktop).terminal);
    if r.terminal {
        if forall|j: int| #[trigger] in_section_from(lines, 0, j) ==> terminal_value(lines[j]) is None {
        } else {
            let j = choose|j: int| !(#[trigger] in_section_from(lines, 0, j) ==> terminal_value(lines[j]) is None);
            assert(in_section_from(lines, 0, j) && terminal_value(lines[j]) is Some);
            let jl = choose|j: int| #[trigger] is_last_terminal(lines, 0, j);
            assert(is_last_terminal(lines, 0, jl));
        }
    }
}

} // verus!
