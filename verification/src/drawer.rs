//! The application drawer: cleaning up desktop entries' commands and
//! labels, the XDG user directories, the pinned row, the power bar and
//! the search box's modes.

use vstd::prelude::*;
use crate::desktop_entry::{text_lines, content_lines, DesktopEntry, EntryView};
use crate::text::{
    chars_of, index_of_char, index_of_char_exec, remove_chars, remove_chars_exec, slice_vec,
    split_whitespace_exec, starts_with, starts_with_exec, ends_with, ends_with_exec, str_eq, string_of, trim, trim_vec,
    words,
};

verus! {

/// An `Exec` command without quotes, cut before its first field code
/// (`%u`, `%f`, ...) together with the character before it, and trimmed.
pub open spec fn cleaned_exec(exec: Seq<char>) -> Seq<char> {
    let e = remove_chars(exec, seq!['"', '\'']);
    match index_of_char(e, '%') {
        Some(p) => trim(e.take(if p > 0 {
            p - 1
        } else {
            0
        })),
        None => trim(e),
    }
}

/// Whether the character before the first `%` (after removing quotes)
/// takes one byte, so that cutting there falls on a character boundary.
pub open spec fn exec_cut_is_boundary(exec: Seq<char>) -> bool {
    let e = remove_chars(exec, seq!['"', '\'']);
    match index_of_char(e, '%') {
        Some(p) => p > 0 ==> (e[p - 1] as u32) < 128,
        None => true,
    }
}

/// Whether `clean_exec` can cut this command (see
/// `exec_cut_is_boundary`).
pub fn exec_cut_ok(exec: &str) -> (b: bool)
    ensures
        b == exec_cut_is_boundary(exec@),
{
    let q = vec!['"', '\''];
    assert(q@ =~= seq!['"', '\'']);
    let e = remove_chars_exec(&chars_of(exec), &q);
    let ev = chars_of(e.as_str());
    match index_of_char_exec(&ev, '%') {
        Some(pos) => {
            proof {
                crate::text::lemma_index_of_char(ev@, '%');
            }
            pos == 0 || (ev[pos - 1] as u32) < 128
        },
        None => true,
    }
}

/// Strips field codes (%u, %f, etc.) and quotes from an Exec command.
pub fn clean_exec(exec: &str) -> (r: String)
    requires
        exec_cut_is_boundary(exec@),
    ensures
        r@ == cleaned_exec(exec@),
{
    let q = vec!['"', '\''];
    assert(q@ =~= seq!['"', '\'']);
    let e = remove_chars_exec(&chars_of(exec), &q);
    let ev = chars_of(e.as_str());
    match index_of_char_exec(&ev, '%') {
        Some(pos) => {
            proof {
                crate::text::lemma_index_of_char(ev@, '%');
            }
            let cut = if pos > 0 {
                pos - 1
            } else {
                0
            };
            let head = slice_vec(&ev, 0, cut);
            assert(head@ =~= ev@.take(cut as int));
            string_of(&trim_vec(&head))
        },
        None => string_of(&trim_vec(&ev)),
    }
}

/// `s` cut to `max` characters: longer strings keep `max - 1` of them
/// and end with an ellipsis.
pub open spec fn truncated(s: Seq<char>, max: nat) -> Seq<char> {
    if s.len() > max {
        s.take(if max > 0 {
            max - 1
        } else {
            0
        }).push('…')
    } else {
        s
    }
}

/// Truncates a string to `max` characters, appending an ellipsis if needed.
pub fn truncate(s: &str, max: usize) -> (r: String)
    ensures
        r@ == truncated(s@, max as nat),
{
    let v = chars_of(s);
    if v.len() > max {
        let keep = if max > 0 {
            max - 1
        } else {
            0
        };
        let head = slice_vec(&v, 0, keep);
        assert(head@ =~= s@.take(keep as int));
        let mut r = string_of(&head);
        crate::text::push_char(&mut r, '…');
        r
    } else {
        s.to_owned()
    }
}

/// `s` without leading occurrences of `c`.
pub open spec fn drop_leading(s: Seq<char>, c: char) -> Seq<char>
    decreases s.len(),
{
    if s.len() > 0 && s[0] == c {
        drop_leading(s.drop_first(), c)
    } else {
        s
    }
}

/// `s` without trailing occurrences of `c`.
pub open spec fn drop_trailing(s: Seq<char>, c: char) -> Seq<char>
    decreases s.len(),
{
    if s.len() > 0 && s.last() == c {
        drop_trailing(s.drop_last(), c)
    } else {
        s
    }
}

/// `s` with every occurrence of `pat`, scanned left to right without
/// overlaps, replaced by `rep` (`str::replace`, for a non-empty pattern).
pub open spec fn replace_all(s: Seq<char>, pat: Seq<char>, rep: Seq<char>) -> Seq<char>
    recommends
        pat.len() > 0,
    decreases s.len(),
{
    if pat.len() == 0 || s.len() < pat.len() {
        s
    } else if s.take(pat.len() as int) == pat {
        rep + replace_all(s.skip(pat.len() as int), pat, rep)
    } else {
        seq![s[0]] + replace_all(s.drop_first(), pat, rep)
    }
}

fn drop_quotes(v: &Vec<char>) -> (r: Vec<char>)
    ensures
        r@ == drop_trailing(drop_leading(v@, '"'), '"'),
{
    let mut lo: usize = 0;
    assert(v@.skip(0) =~= v@);
    while lo < v.len() && v[lo] == '"'
        invariant
            lo <= v@.len(),
            drop_leading(v@, '"') == drop_leading(v@.skip(lo as int), '"'),
        decreases v@.len() - lo,
    {
        assert(v@.skip(lo as int).drop_first() =~= v@.skip(lo + 1));
        lo += 1;
    }
    assert(drop_leading(v@.skip(lo as int), '"') == v@.skip(lo as int));
    let mut hi: usize = v.len();
    while hi > lo && v[hi - 1] == '"'
        invariant
            lo <= hi <= v@.len(),
            drop_trailing(v@.skip(lo as int), '"') == drop_trailing(v@.subrange(lo as int, hi as int), '"'),
        decreases hi,
    {
        assert(v@.subrange(lo as int, hi as int).drop_last() =~= v@.subrange(lo as int, hi - 1));
        hi -= 1;
    }
    assert(v@.skip(lo as int) =~= v@.subrange(lo as int, v@.len() as int));
    slice_vec(v, lo, hi)
}

fn replace_all_exec(v: &Vec<char>, pat: &Vec<char>, rep: &Vec<char>) -> (r: Vec<char>)
    requires
        pat@.len() > 0,
    ensures
        r@ == replace_all(v@, pat@, rep@),
{
    let mut r: Vec<char> = Vec::new();
    let mut i: usize = 0;
    assert(v@.skip(0) =~= v@);
    assert(r@ + replace_all(v@, pat@, rep@) =~= replace_all(v@, pat@, rep@));
    while i < v.len()
        invariant
            i <= v@.len(),
            pat@.len() > 0,
            r@ + replace_all(v@.skip(i as int), pat@, rep@) == replace_all(v@, pat@, rep@),
        decreases v@.len() - i,
    {
        let ghost rest = v@.skip(i as int);
        if crate::text::occurs_at_exec(v, pat, i) {
            assert(rest.take(pat@.len() as int) =~= v@.subrange(i as int, i + pat@.len()));
            assert(rest.skip(pat@.len() as int) =~= v@.skip(i + pat@.len()));
            let ghost before = r@;
            let mut k: usize = 0;
            while k < rep.len()
                invariant
                    k <= rep@.len(),
                    r@ == before + rep@.take(k as int),
                decreases rep@.len() - k,
            {
                r.push(rep[k]);
                assert(r@ =~= before + rep@.take(k + 1));
                k += 1;
            }
            assert(rep@.take(rep@.len() as int) =~= rep@);
            assert(r@ + replace_all(v@.skip(i + pat@.len()), pat@, rep@) =~= before + replace_all(
                rest,
                pat@,
                rep@,
            ));
            i += pat.len();
        } else {
            proof {
                if rest.len() >= pat@.len() {
                    assert(rest.take(pat@.len() as int) =~= v@.subrange(i as int, i + pat@.len()));
                }
            }
            assert(rest.drop_first() =~= v@.skip(i + 1));
            let ghost before = r@;
            r.push(v[i]);
            assert(r@ + replace_all(v@.skip(i + 1), pat@, rep@) =~= before + replace_all(
                rest,
                pat@,
                rep@,
            ));
            i += 1;
        }
    }
    assert(replace_all(v@.skip(i as int), pat@, rep@) == v@.skip(i as int));
    assert(r@ =~= r@ + v@.skip(i as int));
    r
}

/// The directory a `user-dirs.dirs` line assigns: what follows the first
/// `=`, trimmed, without surrounding double quotes, with `$HOME`
/// replaced by the home directory; none without `=`.
pub open spec fn user_dir_value(line: Seq<char>, home: Seq<char>) -> Option<Seq<char>> {
    match index_of_char(line, '=') {
        Some(i) => Some(
            replace_all(drop_trailing(drop_leading(trim(line.skip(i + 1)), '"'), '"'), "$HOME"@, home),
        ),
        None => None,
    }
}

/// Parses a line like `XDG_DOCUMENTS_DIR="$HOME/Documents"` into a path.
pub fn parse_user_dir_line(line: &str, home: &str) -> (r: Option<String>)
    ensures
        r matches Some(p) ==> user_dir_value(line@, home@) == Some(p@),
        r is None ==> user_dir_value(line@, home@) is None,
{
    let v = chars_of(line);
    match index_of_char_exec(&v, '=') {
        None => None,
        Some(i) => {
            proof {
                crate::text::lemma_index_of_char(v@, '=');
                assert(index_of_char(v@, '=') == Some(i as int));
            }
            assert(i < v.len());
            let after = slice_vec(&v, i + 1, v.len());
            assert(after@ =~= line@.skip(i + 1));
            let unquoted = drop_quotes(&trim_vec(&after));
            let pat = chars_of("$HOME");
            proof {
                reveal_strlit("$HOME");
            }
            let expanded = replace_all_exec(&unquoted, &pat, &chars_of(home));
            Some(string_of(&expanded))
        },
    }
}

/// The key of each known XDG user directory and the name it is kept under.
pub open spec fn user_dir_keys() -> Seq<(Seq<char>, Seq<char>)> {
    seq![
        ("XDG_DOCUMENTS_DIR"@, "documents"@),
        ("XDG_DOWNLOAD_DIR"@, "downloads"@),
        ("XDG_MUSIC_DIR"@, "music"@),
        ("XDG_PICTURES_DIR"@, "pictures"@),
        ("XDG_VIDEOS_DIR"@, "videos"@),
    ]
}

/// The name a trimmed `user-dirs.dirs` line sets: the first known key
/// the line starts with.
pub open spec fn user_dir_name(line: Seq<char>) -> Option<Seq<char>> {
    if starts_with(line, "XDG_DOCUMENTS_DIR"@) {
        Some("documents"@)
    } else if starts_with(line, "XDG_DOWNLOAD_DIR"@) {
        Some("downloads"@)
    } else if starts_with(line, "XDG_MUSIC_DIR"@) {
        Some("music"@)
    } else if starts_with(line, "XDG_PICTURES_DIR"@) {
        Some("pictures"@)
    } else if starts_with(line, "XDG_VIDEOS_DIR"@) {
        Some("videos"@)
    } else {
        None
    }
}

/// `dirs` with the directory named `name` set to `path`.
pub open spec fn set_dir(dirs: Seq<(Seq<char>, Seq<char>)>, name: Seq<char>, path: Seq<char>) -> Seq<(Seq<char>, Seq<char>)> {
    Seq::new(dirs.len(), |i: int| if dirs[i].0 == name { (name, path) } else { dirs[i] })
}

/// The user directories after the lines `lines[i..]` of `user-dirs.dirs`.
pub open spec fn apply_user_dir_lines(dirs: Seq<(Seq<char>, Seq<char>)>, lines: Seq<Seq<char>>, home: Seq<char>) -> Seq<(Seq<char>, Seq<char>)>
    decreases lines.len(),
{
    if lines.len() == 0 {
        dirs
    } else {
        let prev = apply_user_dir_lines(dirs, lines.drop_last(), home);
        let l = trim(lines.last());
        match (user_dir_value(l, home), user_dir_name(l)) {
            (Some(v), Some(n)) => set_dir(prev, n, v),
            _ => prev,
        }
    }
}

/// The default user directories under `home`.
pub open spec fn default_user_dirs(home: Seq<char>) -> Seq<(Seq<char>, Seq<char>)> {
    seq![
        ("home"@, home),
        ("documents"@, crate::css_imports::join_path(home, "Documents"@)),
        ("downloads"@, crate::css_imports::join_path(home, "Downloads"@)),
        ("music"@, crate::css_imports::join_path(home, "Music"@)),
        ("pictures"@, crate::css_imports::join_path(home, "Pictures"@)),
        ("videos"@, crate::css_imports::join_path(home, "Videos"@)),
    ]
}

fn dir_pair(name: &str, path: String) -> (r: (String, String))
    ensures
        r.0@ == name@,
        r.1@ == path@,
{
    (name.to_owned(), path)
}

fn pairs_view(v: &Vec<(String, String)>) -> (r: Ghost<Seq<(Seq<char>, Seq<char>)>>)
    ensures
        r@ == v@.map_values(|p: (String, String)| (p.0@, p.1@)),
{
    Ghost(v@.map_values(|p: (String, String)| (p.0@, p.1@)))
}

/// Maps the XDG user directory names to paths: the defaults under the
/// home directory, overridden by the lines of `user-dirs.dirs` (its text,
/// when it could be read).
pub fn map_xdg_user_dirs(home: &str, user_dirs_file: Option<&str>) -> (r: Vec<(String, String)>)
    ensures
        r@.map_values(|p: (String, String)| (p.0@, p.1@)) == match user_dirs_file {
            Some(t) => apply_user_dir_lines(default_user_dirs(home@), text_lines(t@), home@),
            None => default_user_dirs(home@),
        },
{
    let mut dirs: Vec<(String, String)> = Vec::new();
    dirs.push(dir_pair("home", home.to_owned()));
    dirs.push(dir_pair("documents", crate::css_imports::join_path_str(home, "Documents")));
    dirs.push(dir_pair("downloads", crate::css_imports::join_path_str(home, "Downloads")));
    dirs.push(dir_pair("music", crate::css_imports::join_path_str(home, "Music")));
    dirs.push(dir_pair("pictures", crate::css_imports::join_path_str(home, "Pictures")));
    dirs.push(dir_pair("videos", crate::css_imports::join_path_str(home, "Videos")));
    assert(dirs@.map_values(|p: (String, String)| (p.0@, p.1@)) =~= default_user_dirs(home@));
    match user_dirs_file {
        None => dirs,
        Some(text) => {
            let lines = content_lines(text);
            let ghost lv = lines.deep_view();
            let mut i: usize = 0;
            while i < lines.len()
                invariant
                    i <= lines@.len(),
                    lv == lines.deep_view(),
                    lv == text_lines(text@),
                    dirs@.map_values(|p: (String, String)| (p.0@, p.1@)) == apply_user_dir_lines(
                        default_user_dirs(home@),
                        lv.take(i as int),
                        home@,
                    ),
                decreases lines@.len() - i,
            {
                assert(lv.take(i + 1).drop_last() =~= lv.take(i as int));
                assert(lv[i as int] == lines@[i as int]@);
                let l = string_of(&trim_vec(&chars_of(lines[i].as_str())));
                let value = parse_user_dir_line(l.as_str(), home);
                let name = user_dir_name_exec(l.as_str());
                match (value, name) {
                    (Some(v), Some(n)) => {
                        let ghost before = dirs@.map_values(|p: (String, String)| (p.0@, p.1@));
                        let mut k: usize = 0;
                        while k < dirs.len()
                            invariant
                                k <= dirs@.len(),
                                dirs@.len() == before.len(),
                                forall|j: int|
                                    0 <= j < k ==> (#[trigger] dirs@[j]).0@ == (if before[j].0 == n@ {
                                        n@
                                    } else {
                                        before[j].0
                                    }) && dirs@[j].1@ == (if before[j].0 == n@ {
                                        v@
                                    } else {
                                        before[j].1
                                    }),
                                forall|j: int|
                                    k <= j < dirs@.len() ==> (#[trigger] dirs@[j]).0@ == before[j].0
                                        && dirs@[j].1@ == before[j].1,
                            decreases dirs@.len() - k,
                        {
                            assert(dirs@[k as int].0@ == before[k as int].0);
                            if str_eq(dirs[k].0.as_str(), n) {
                                dirs.set(k, (n.to_owned(), v.clone()));
                            }
                            k += 1;
                        }
                        assert(dirs@.map_values(|p: (String, String)| (p.0@, p.1@)) =~= set_dir(
                            before,
                            n@,
                            v@,
                        ));
                    },
                    _ => {},
                }
                i += 1;
            }
            assert(lv.take(i as int) =~= lv);
            dirs
        },
    }
}

fn user_dir_name_exec(line: &str) -> (r: Option<&'static str>)
    ensures
        r matches Some(n) ==> user_dir_name(line@) == Some(n@),
        r is None ==> user_dir_name(line@) is None,
{
    let v = chars_of(line);
    if starts_with_exec(&v, &chars_of("XDG_DOCUMENTS_DIR")) {
        Some("documents")
    } else if starts_with_exec(&v, &chars_of("XDG_DOWNLOAD_DIR")) {
        Some("downloads")
    } else if starts_with_exec(&v, &chars_of("XDG_MUSIC_DIR")) {
        Some("music")
    } else if starts_with_exec(&v, &chars_of("XDG_PICTURES_DIR")) {
        Some("pictures")
    } else if starts_with_exec(&v, &chars_of("XDG_VIDEOS_DIR")) {
        Some("videos")
    } else {
        None
    }
}

/// The buttons among `s` that have a command.
pub open spec fn with_command(s: Seq<(Seq<char>, Seq<char>)>) -> Seq<(Seq<char>, Seq<char>)>
    decreases s.len(),
{
    if s.len() == 0 {
        s
    } else if s.last().1.len() > 0 {
        with_command(s.drop_last()).push(s.last())
    } else {
        with_command(s.drop_last())
    }
}

fn push_power_button(r: &mut Vec<(&'static str, String)>, icon: &'static str, cmd: &str)
    ensures
        cmd@.len() > 0 ==> final(r)@.map_values(|b: (&'static str, String)| (b.0@, b.1@)) == old(
            r,
        )@.map_values(|b: (&'static str, String)| (b.0@, b.1@)).push((icon@, cmd@)),
        cmd@.len() == 0 ==> final(r)@ == old(r)@,
{
    if !cmd.is_empty() {
        let ghost before = r@.map_values(|b: (&'static str, String)| (b.0@, b.1@));
        r.push((icon, cmd.to_owned()));
        assert(r@.map_values(|b: (&'static str, String)| (b.0@, b.1@)) =~= before.push((icon@, cmd@)));
    }
}

/// The icons of the power bar's buttons, in order, with the command
/// each runs; buttons without a command are left out.
pub fn power_bar_buttons(lock: &str, exit: &str, reboot: &str, sleep: &str, poweroff: &str) -> (r: Vec<(&'static str, String)>)
    ensures
        r@.map_values(|b: (&'static str, String)| (b.0@, b.1@)) == with_command(
            seq![
                ("system-lock-screen"@, lock@),
                ("system-log-out"@, exit@),
                ("system-reboot"@, reboot@),
                ("system-suspend"@, sleep@),
                ("system-shutdown"@, poweroff@),
            ],
        ),
{
    let ghost all = seq![
        ("system-lock-screen"@, lock@),
        ("system-log-out"@, exit@),
        ("system-reboot"@, reboot@),
        ("system-suspend"@, sleep@),
        ("system-shutdown"@, poweroff@),
    ];
    let mut r: Vec<(&'static str, String)> = Vec::new();
    assert(r@.map_values(|b: (&'static str, String)| (b.0@, b.1@)) =~= with_command(all.take(0)));
    push_power_button(&mut r, "system-lock-screen", lock);
    assert(all.take(1).drop_last() =~= all.take(0));
    assert(all.take(1).last() == all[0]);
    assert(r@.map_values(|b: (&'static str, String)| (b.0@, b.1@)) == with_command(all.take(1)));
    push_power_button(&mut r, "system-log-out", exit);
    assert(all.take(2).drop_last() =~= all.take(1));
    assert(all.take(2).last() == all[1]);
    assert(r@.map_values(|b: (&'static str, String)| (b.0@, b.1@)) == with_command(all.take(2)));
    push_power_button(&mut r, "system-reboot", reboot);
    assert(all.take(3).drop_last() =~= all.take(2));
    assert(all.take(3).last() == all[2]);
    assert(r@.map_values(|b: (&'static str, String)| (b.0@, b.1@)) == with_command(all.take(3)));
    push_power_button(&mut r, "system-suspend", sleep);
    assert(all.take(4).drop_last() =~= all.take(3));
    assert(all.take(4).last() == all[3]);
    assert(r@.map_values(|b: (&'static str, String)| (b.0@, b.1@)) == with_command(all.take(4)));
    push_power_button(&mut r, "system-shutdown", poweroff);
    assert(all.take(5).drop_last() =~= all.take(4));
    assert(all.take(5).last() == all[4]);
    assert(r@.map_values(|b: (&'static str, String)| (b.0@, b.1@)) == with_command(all.take(5)));
    assert(all.take(5) =~= all);
    r
}

/// The program and arguments a command line starts: its
/// whitespace-separated words; none when it has none.
pub fn command_words(cmd: &str) -> (r: Option<Vec<String>>)
    ensures
        words(cmd@).len() == 0 ==> r is None,
        words(cmd@).len() > 0 ==> (r matches Some(v) && v.deep_view() == words(cmd@)),
{
    let w = split_whitespace_exec(&chars_of(cmd));
    if w.len() == 0 {
        None
    } else {
        Some(w)
    }
}

/// What the drawer shows for the text in its search box.
pub enum SearchMode {
    /// Empty text: back to the normal view (rebuilt when leaving search).
    Normal { rebuild: bool },
    /// Text starting with `:`: a command to run; the status line says so.
    Command { status: String },
    /// Anything else: matching applications and files.
    Search,
}

/// The drawer's mode for the search text `phrase`, given whether it was
/// searching before.
pub fn search_mode(phrase: &str, in_search_mode: bool) -> (r: SearchMode)
    ensures
        phrase@.len() == 0 ==> (r matches SearchMode::Normal { rebuild } && rebuild == in_search_mode),
        phrase@.len() > 0 && phrase@[0] == ':' ==> (r matches SearchMode::Command { status } && status@
            == if crate::events::utf8_len(phrase@) > 1 {
            "Execute \""@ + phrase@.skip(1) + "\""@
        } else {
            "Execute a command"@
        }),
        phrase@.len() > 0 && phrase@[0] != ':' ==> r is Search,
{
    if phrase.is_empty() {
        return SearchMode::Normal { rebuild: in_search_mode };
    }
    let v = chars_of(phrase);
    if v[0] == ':' {
        if phrase.len() > 1 {
            let rest = slice_vec(&v, 1, v.len());
            assert(rest@ =~= phrase@.skip(1));
            let mut s = "Execute \"".to_owned();
            let rs = string_of(&rest);
            s.append(rs.as_str());
            s.append("\"");
            SearchMode::Command { status: s }
        } else {
            SearchMode::Command { status: "Execute a command".to_owned() }
        }
    } else {
        SearchMode::Search
    }
}

/// What launching from the drawer does to its window: a resident drawer
/// hides (and clears its search), any other closes.
pub fn closes_on_launch(resident: bool) -> (b: bool)
    ensures
        b == !resident,
{
    !resident
}

/// The signal `--open` or `--close` sends to a running drawer.
pub fn open_close_signal(open: bool, close: bool) -> (r: Option<i32>)
    ensures
        open ==> r == Some(36i32),
        !open && close ==> r == Some(37i32),
        !open && !close ==> r is None,
{
    if open {
        Some(crate::signals::sig_show())
    } else if close {
        Some(crate::signals::sig_hide())
    } else {
        None
    }
}

/// The per-line count of the pinned row: the column count once there are
/// that many pins, else the number of pins; unset without pins.
pub fn pinned_per_line(count: u32, columns: u32) -> (r: Option<u32>)
    ensures
        count >= columns ==> r == Some(columns),
        count < columns && count > 0 ==> r == Some(count),
        count < columns && count == 0 ==> r is None,
{
    if count >= columns {
        Some(columns)
    } else if count > 0 {
        Some(count)
    } else {
        None
    }
}

/// A pinned application in the drawer's pinned row.
pub struct PinnedItem {
    pub desktop_id: String,
    /// Icon name, when the entry has one.
    pub icon: Option<String>,
    /// The label: the (localized) name cut to 20 characters.
    pub label: String,
    /// The command started on click (no quotes; wrapped in the terminal
    /// for terminal applications).
    pub command: String,
}

/// The command a pinned application's button starts.
pub open spec fn pinned_command(e: EntryView, term: Seq<char>) -> Seq<char> {
    let exec = remove_chars(e.exec_cmd, seq!['"', '\'']);
    if e.terminal {
        term + " -e "@ + exec
    } else {
        exec
    }
}

/// The entry with the given id among `entries`, if any (the first).
pub open spec fn entry_index(entries: Seq<EntryView>, id: Seq<char>) -> Option<int>
    decreases entries.len(),
{
    if entries.len() == 0 {
        None
    } else {
        match entry_index(entries.drop_last(), id) {
            Some(k) => Some(k),
            None => if entries.last().desktop_id == id {
                Some(entries.len() - 1)
            } else {
                None
            },
        }
    }
}

/// The view of a pinned item, for the pin `id` and its entry `e`.
pub open spec fn pinned_item_of(e: EntryView, term: Seq<char>) -> (Seq<char>, Option<Seq<char>>, Seq<char>, Seq<char>) {
    (
        e.desktop_id,
        if e.icon.len() > 0 {
            Some(e.icon)
        } else {
            None
        },
        truncated(if e.name_loc.len() > 0 {
            e.name_loc
        } else {
            e.name
        }, 20),
        pinned_command(e, term),
    )
}

/// The items of the pinned row `pinned[..i]`: pins without an entry (or
/// whose entry has an empty id) are skipped.
pub open spec fn pinned_row(pinned: Seq<Seq<char>>, entries: Seq<EntryView>, term: Seq<char>) -> Seq<(Seq<char>, Option<Seq<char>>, Seq<char>, Seq<char>)>
    decreases pinned.len(),
{
    if pinned.len() == 0 {
        Seq::empty()
    } else {
        let prev = pinned_row(pinned.drop_last(), entries, term);
        match entry_index(entries, pinned.last()) {
            Some(k) => if entries[k].desktop_id.len() > 0 {
                prev.push(pinned_item_of(entries[k], term))
            } else {
                prev
            },
            None => prev,
        }
    }
}

/// The view of a pinned item.
pub open spec fn pinned_item_view(p: PinnedItem) -> (Seq<char>, Option<Seq<char>>, Seq<char>, Seq<char>) {
    (
        p.desktop_id@,
        match p.icon {
            Some(i) => Some(i@),
            None => None,
        },
        p.label@,
        p.command@,
    )
}

proof fn lemma_entry_index_bound(entries: Seq<EntryView>, id: Seq<char>)
    ensures
        entry_index(entries, id) matches Some(k) ==> 0 <= k < entries.len() && entries[k].desktop_id
            == id,
    decreases entries.len(),
{
    if entries.len() > 0 {
        lemma_entry_index_bound(entries.drop_last(), id);
    }
}

fn find_entry(entries: &Vec<DesktopEntry>, id: &str) -> (r: Option<usize>)
    ensures
        r matches Some(k) ==> entry_index(entries@.map_values(|e: DesktopEntry| e@), id@) == Some(
            k as int,
        ),
        r is None ==> entry_index(entries@.map_values(|e: DesktopEntry| e@), id@) is None,
{
    let ghost ev = entries@.map_values(|e: DesktopEntry| e@);
    let mut i: usize = 0;
    while i < entries.len()
        invariant
            i <= entries@.len(),
            ev == entries@.map_values(|e: DesktopEntry| e@),
            entry_index(ev.take(i as int), id@) is None,
        decreases entries@.len() - i,
    {
        assert(ev.take(i + 1).drop_last() =~= ev.take(i as int));
        assert(ev[i as int] == entries@[i as int]@);
        if str_eq(entries[i].desktop_id.as_str(), id) {
            proof {
                lemma_entry_index_prefix(ev, id@, i as int);
            }
            return Some(i);
        }
        i += 1;
    }
    assert(ev.take(i as int) =~= ev);
    None
}

proof fn lemma_entry_index_prefix(ev: Seq<EntryView>, id: Seq<char>, i: int)
    requires
        0 <= i < ev.len(),
        entry_index(ev.take(i), id) is None,
        ev[i].desktop_id == id,
    ensures
        entry_index(ev, id) == Some(i),
    decreases ev.len(),
{
    if ev.len() - 1 == i {
        assert(ev.drop_last() =~= ev.take(i));
    } else {
        assert(ev.drop_last().take(i) =~= ev.take(i));
        assert(ev.drop_last()[i] == ev[i]);
        lemma_entry_index_prefix(ev.drop_last(), id, i);
    }
}

/// The items of the drawer's pinned row, in pin order.
pub fn pinned_items(pinned: &Vec<String>, entries: &Vec<DesktopEntry>, term: &str) -> (r: Vec<PinnedItem>)
    ensures
        r@.map_values(|p: PinnedItem| pinned_item_view(p)) == pinned_row(
            pinned.deep_view(),
            entries@.map_values(|e: DesktopEntry| e@),
            term@,
        ),
{
    let ghost ev = entries@.map_values(|e: DesktopEntry| e@);
    let ghost pv = pinned.deep_view();
    let mut r: Vec<PinnedItem> = Vec::new();
    let mut i: usize = 0;
    while i < pinned.len()
        invariant
            i <= pinned@.len(),
            ev == entries@.map_values(|e: DesktopEntry| e@),
            pv == pinned.deep_view(),
            r@.map_values(|p: PinnedItem| pinned_item_view(p)) == pinned_row(pv.take(i as int), ev, term@),
        decreases pinned@.len() - i,
    {
        assert(pv.take(i + 1).drop_last() =~= pv.take(i as int));
        assert(pv[i as int] == pinned@[i as int]@);
        match find_entry(entries, pinned[i].as_str()) {
            Some(k) => {
                proof {
                    lemma_entry_index_bound(ev, pv[i as int]);
                }
                let e = &entries[k];
                assert(ev[k as int] == e@);
                if !e.desktop_id.as_str().is_empty() {
                    let icon = if e.icon.as_str().is_empty() {
                        None
                    } else {
                        Some(e.icon.clone())
                    };
                    let name = if !e.name_loc.as_str().is_empty() {
                        e.name_loc.as_str()
                    } else {
                        e.name.as_str()
                    };
                    let label = truncate(name, 20);
                    let q = vec!['"', '\''];
                    assert(q@ =~= seq!['"', '\'']);
                    let exec = remove_chars_exec(&chars_of(e.exec_cmd.as_str()), &q);
                    let command = if e.terminal {
                        crate::launch::terminal_wrap(exec.as_str(), term)
                    } else {
                        exec
                    };
                    let item = PinnedItem { desktop_id: e.desktop_id.clone(), icon, label, command };
                    let ghost before = r@.map_values(|p: PinnedItem| pinned_item_view(p));
                    r.push(item);
                    assert(r@.map_values(|p: PinnedItem| pinned_item_view(p)) =~= before.push(
                        pinned_item_of(ev[k as int], term@),
                    ));
                }
            },
            None => {},
        }
        i += 1;
    }
    assert(pv.take(i as int) =~= pv);
    r
}


/// A `.desktop` file found in an application directory: its id (the
/// file stem) and its text (`None` when it could not be read).
pub struct DesktopFile {
    pub id: String,
    pub content: Option<String>,
}

/// The id of an application directory entry named `name`: its stem
/// when its extension is `desktop` (a name that is only `.desktop` has
/// no extension).
pub open spec fn desktop_stem(name: Seq<char>) -> Option<Seq<char>> {
    if ends_with(name, ".desktop"@) && name.len() > ".desktop"@.len() {
        Some(name.take(name.len() - ".desktop"@.len()))
    } else {
        None
    }
}

/// The id of a `.desktop` file from its file name; none for other files.
pub fn desktop_id_of(name: &str) -> (r: Option<String>)
    ensures
        r matches Some(id) ==> desktop_stem(name@) == Some(id@),
        r is None ==> desktop_stem(name@) is None,
{
    let v = chars_of(name);
    let ext = chars_of(".desktop");
    proof {
        reveal_strlit(".desktop");
    }
    if v.len() > ext.len() && ends_with_exec(&v, &ext) {
        let stem = slice_vec(&v, 0, v.len() - ext.len());
        assert(stem@ =~= name@.take(name@.len() - ".desktop"@.len()));
        Some(string_of(&stem))
    } else {
        None
    }
}

/// The ids of `files`.
pub open spec fn file_ids(files: Seq<DesktopFile>) -> Seq<Seq<char>> {
    files.map_values(|f: DesktopFile| f.id@)
}

/// The entries read from `files` in order: the first file with a given
/// id wins (even when it could not be read), unreadable files are
/// skipped.
pub open spec fn loaded_entries(files: Seq<DesktopFile>, lang_env: Seq<char>, desktop: Seq<char>) -> Seq<EntryView>
    decreases files.len(),
{
    if files.len() == 0 {
        Seq::empty()
    } else {
        let prev = loaded_entries(files.drop_last(), lang_env, desktop);
        let f = files.last();
        if file_ids(files.drop_last()).contains(f.id@) {
            prev
        } else {
            match f.content {
                Some(t) => prev.push(
                    crate::desktop_entry::desktop_entry_of(f.id@, t@, lang_env, desktop),
                ),
                None => prev,
            }
        }
    }
}

/// The drawer loads each application once: the entries read from the
/// files have distinct ids (the first file with an id wins), and each id
/// is that of one of the files.
pub proof fn unique_ids_law(files: Seq<DesktopFile>, lang_env: Seq<char>, desktop: Seq<char>)
    ensures
        ({
            let es = loaded_entries(files, lang_env, desktop);
            &&& forall|i: int, j: int|
                0 <= i < j < es.len() ==> #[trigger] es[i].desktop_id != #[trigger] es[j].desktop_id
            &&& forall|i: int| 0 <= i < es.len() ==> file_ids(files).contains(#[trigger] es[i].desktop_id)
        }),
    decreases files.len(),
{
    if files.len() > 0 {
        let d = files.drop_last();
        let f = files.last();
        unique_ids_law(d, lang_env, desktop);
        let prev = loaded_entries(d, lang_env, desktop);
        assert(file_ids(d) =~= file_ids(files).drop_last());
        assert forall|x: Seq<char>| file_ids(d).contains(x) implies file_ids(files).contains(x) by {
            let k = choose|k: int| 0 <= k < file_ids(d).len() && file_ids(d)[k] == x;
            assert(file_ids(files)[k] == x);
        }
        if !file_ids(d).contains(f.id@) {
            match f.content {
                Some(t) => {
                    crate::desktop_entry::localized_fallback_law(f.id@, t@, lang_env, desktop);
                    let e = crate::desktop_entry::desktop_entry_of(f.id@, t@, lang_env, desktop);
                    let es = prev.push(e);
                    assert(file_ids(files)[files.len() - 1] == f.id@);
                    assert forall|i: int, j: int| 0 <= i < j < es.len() implies #[trigger] es[i].desktop_id
                        != #[trigger] es[j].desktop_id by {
                        if j == es.len() - 1 {
                            assert(es[i] == prev[i]);
                            assert(file_ids(d).contains(prev[i].desktop_id));
                        } else {
                            assert(es[i] == prev[i] && es[j] == prev[j]);
                        }
                    }
                    assert forall|i: int| 0 <= i < es.len() implies file_ids(files).contains(
                        #[trigger] es[i].desktop_id,
                    ) by {
                        if i < prev.len() {
                            assert(es[i] == prev[i]);
                            assert(file_ids(d).contains(prev[i].desktop_id));
                        }
                    }
                },
                None => {},
            }
        }
    }
}

/// Ordering of the drawer's entries: by lowercased localized name.
pub open spec fn entry_before(a: EntryView, b: EntryView) -> bool {
    crate::dock::text_lt(crate::text::lowercase(a.name_loc), crate::text::lowercase(b.name_loc))
}

/// `s` with `x` inserted after the last element not after it.
pub open spec fn insert_entry(s: Seq<EntryView>, x: EntryView) -> Seq<EntryView>
    decreases s.len(),
{
    if s.len() == 0 {
        seq![x]
    } else if entry_before(x, s.last()) {
        insert_entry(s.drop_last(), x).push(s.last())
    } else {
        s.push(x)
    }
}

/// The stable sort of entries by lowercased localized name.
pub open spec fn sort_entries(s: Seq<EntryView>) -> Seq<EntryView>
    decreases s.len(),
{
    if s.len() == 0 {
        s
    } else {
        insert_entry(sort_entries(s.drop_last()), s.last())
    }
}

proof fn lemma_insert_entry_at(s: Seq<EntryView>, x: EntryView, i: int)
    requires
        0 <= i <= s.len(),
        forall|j: int| i <= j < s.len() ==> entry_before(x, #[trigger] s[j]),
        i > 0 ==> !entry_before(x, s[i - 1]),
    ensures
        insert_entry(s, x) == s.take(i).push(x) + s.skip(i),
    decreases s.len(),
{
    if s.len() == 0 {
        assert(s.take(i).push(x) + s.skip(i) =~= seq![x]);
    } else if i == s.len() {
        assert(s.take(i).push(x) + s.skip(i) =~= s.push(x));
    } else {
        let d = s.drop_last();
        assert forall|j: int| i <= j < d.len() implies entry_before(x, #[trigger] d[j]) by {
            assert(d[j] == s[j]);
        }
        if i > 0 {
            assert(d[i - 1] == s[i - 1]);
        }
        lemma_insert_entry_at(d, x, i);
        assert(d.take(i).push(x) + d.skip(i) + seq![s.last()] =~= s.take(i).push(x) + s.skip(i));
    }
}

/// The views of a list of entries.
pub open spec fn entry_views(s: Seq<DesktopEntry>) -> Seq<EntryView> {
    s.map_values(|e: DesktopEntry| e@)
}

/// Sorts entries by lowercased localized name, keeping the order of
/// entries that compare equal.
pub fn sort_entries_exec(entries: &Vec<DesktopEntry>) -> (r: Vec<DesktopEntry>)
    ensures
        entry_views(r@) == sort_entries(entry_views(entries@)),
{
    let mut r: Vec<DesktopEntry> = Vec::new();
    let mut keys: Vec<Vec<char>> = Vec::new();
    let mut k: usize = 0;
    while k < entries.len()
        invariant
            k <= entries@.len(),
            keys@.len() == r@.len(),
            forall|j: int| 0 <= j < r@.len() ==> (#[trigger] keys@[j])@ == crate::text::lowercase(r@[j].name_loc@),
            entry_views(r@) == sort_entries(entry_views(entries@).take(k as int)),
        decreases entries@.len() - k,
    {
        let x = crate::desktop_entry::copy_entry(&entries[k]);
        let xk = chars_of(crate::text::to_lowercase(x.name_loc.as_str()).as_str());
        let ghost pre = entry_views(entries@).take(k + 1);
        assert(pre.drop_last() =~= entry_views(entries@).take(k as int));
        assert(pre.last() == x@);
        let mut i: usize = r.len();
        while i > 0 && crate::dock::text_lt_exec(&xk, &keys[i - 1])
            invariant
                i <= r@.len(),
                keys@.len() == r@.len(),
                xk@ == crate::text::lowercase(x@.name_loc),
                forall|j: int| 0 <= j < r@.len() ==> (#[trigger] keys@[j])@ == crate::text::lowercase(r@[j].name_loc@),
                forall|j: int| i <= j < r@.len() ==> entry_before(x@, #[trigger] entry_views(r@)[j]),
            decreases i,
        {
            assert(entry_views(r@)[i - 1] == r@[i - 1]@);
            i -= 1;
        }
        proof {
            let s = entry_views(r@);
            if i > 0 {
                assert(s[i - 1] == r@[i - 1]@);
            }
            lemma_insert_entry_at(s, x@, i as int);
        }
        let ghost s0 = entry_views(r@);
        let ghost k0 = keys@;
        r.insert(i, x);
        keys.insert(i, xk);
        assert(entry_views(r@) =~= s0.take(i as int).push(x@) + s0.skip(i as int));
        assert forall|j: int| 0 <= j < r@.len() implies (#[trigger] keys@[j])@ == crate::text::lowercase(
            r@[j].name_loc@,
        ) by {
            if j < i {
                assert(keys@[j] == k0[j]);
            } else if j > i {
                assert(keys@[j] == k0[j - 1]);
            }
        }
        k += 1;
    }
    assert(entry_views(entries@).take(k as int) =~= entry_views(entries@));
    r
}

/// The drawer's state.
pub struct DrawerState {
    /// The entries read, in reading order (one per id).
    pub id2entry: Vec<DesktopEntry>,
    /// The entries sorted by lowercased localized name, for display.
    pub desktop_entries: Vec<DesktopEntry>,
    /// The category of each shown entry: (desktop id, category), in
    /// reading order.
    pub entry_categories: Vec<(String, &'static str)>,
    /// Pinned item desktop ids.
    pub pinned: Vec<String>,
    /// Application directories.
    pub app_dirs: Vec<String>,
    /// Current search phrase.
    pub search_phrase: String,
    /// XDG user directories: (name, path).
    pub user_dirs: Vec<(String, String)>,
    /// Directories excluded from file search.
    pub exclusions: Vec<String>,
    /// Whether a scroll happened (prevents an accidental launch).
    pub been_scrolled: bool,
}

/// The (desktop id, category) of each shown entry among `s`, in order.
pub open spec fn shown_categories(s: Seq<EntryView>) -> Seq<(Seq<char>, Seq<char>)>
    decreases s.len(),
{
    if s.len() == 0 {
        Seq::empty()
    } else if !s.last().no_display {
        shown_categories(s.drop_last()).push(
            (s.last().desktop_id, crate::categories::assigned_categories(s.last().category)[0]),
        )
    } else {
        shown_categories(s.drop_last())
    }
}

/// The ids in `cats` whose category is `category`, in order.
pub open spec fn ids_in_category(cats: Seq<(Seq<char>, Seq<char>)>, category: Seq<char>) -> Seq<Seq<char>>
    decreases cats.len(),
{
    if cats.len() == 0 {
        Seq::empty()
    } else if cats.last().1 == category {
        ids_in_category(cats.drop_last(), category).push(cats.last().0)
    } else {
        ids_in_category(cats.drop_last(), category)
    }
}

impl DrawerState {
    /// A drawer with no entries, pins or search, for the given
    /// application and user directories.
    pub fn new(app_dirs: Vec<String>, user_dirs: Vec<(String, String)>) -> (s: Self)
        ensures
            s.id2entry@.len() == 0,
            s.desktop_entries@.len() == 0,
            s.entry_categories@.len() == 0,
            s.pinned@.len() == 0,
            s.app_dirs@ == app_dirs@,
            s.search_phrase@.len() == 0,
            s.user_dirs@ == user_dirs@,
            s.exclusions@.len() == 0,
            !s.been_scrolled,
    {
        DrawerState {
            id2entry: Vec::new(),
            desktop_entries: Vec::new(),
            entry_categories: Vec::new(),
            pinned: Vec::new(),
            app_dirs,
            search_phrase: String::new(),
            user_dirs,
            exclusions: Vec::new(),
            been_scrolled: false,
        }
    }

    /// The ids of the shown entries of a category, in reading order.
    pub fn category_list(&self, category: &str) -> (r: Vec<String>)
        ensures
            r.deep_view() == ids_in_category(
                self.entry_categories@.map_values(|p: (String, &'static str)| (p.0@, p.1@)),
                category@,
            ),
    {
        let ghost cv = self.entry_categories@.map_values(|p: (String, &'static str)| (p.0@, p.1@));
        let mut r: Vec<String> = Vec::new();
        let mut i: usize = 0;
        while i < self.entry_categories.len()
            invariant
                i <= self.entry_categories@.len(),
                cv == self.entry_categories@.map_values(|p: (String, &'static str)| (p.0@, p.1@)),
                r.deep_view() == ids_in_category(cv.take(i as int), category@),
            decreases self.entry_categories@.len() - i,
        {
            let ghost before = r.deep_view();
            assert(cv.take(i + 1).drop_last() =~= cv.take(i as int));
            assert(cv.take(i + 1).last() == cv[i as int]);
            if str_eq(self.entry_categories[i].1, category) {
                r.push(self.entry_categories[i].0.clone());
                assert(r.deep_view() =~= before.push(cv[i as int].0));
            }
            i += 1;
        }
        assert(cv.take(i as int) =~= cv);
        r
    }

    /// Replaces the entries with those read from `files` (in directory
    /// order; the first file with a given id wins), records the category
    /// of each shown entry, and sorts the entries for display.
    pub fn load_desktop_entries(&mut self, files: &Vec<DesktopFile>, lang_env: &str, current_desktop: &str)
        ensures
            entry_views(final(self).id2entry@) == loaded_entries(files@, lang_env@, current_desktop@),
            entry_views(final(self).desktop_entries@) == sort_entries(
                loaded_entries(files@, lang_env@, current_desktop@),
            ),
            final(self).entry_categories@.map_values(|p: (String, &'static str)| (p.0@, p.1@))
                == shown_categories(loaded_entries(files@, lang_env@, current_desktop@)),
            final(self).pinned@ == old(self).pinned@,
            final(self).user_dirs@ == old(self).user_dirs@,
            final(self).app_dirs@ == old(self).app_dirs@,
            final(self).exclusions@ == old(self).exclusions@,
            final(self).search_phrase@ == old(self).search_phrase@,
            final(self).been_scrolled == old(self).been_scrolled,
    {
        let mut loaded: Vec<DesktopEntry> = Vec::new();
        let mut cats: Vec<(String, &'static str)> = Vec::new();
        let mut seen: Vec<String> = Vec::new();
        let mut i: usize = 0;
        while i < files.len()
            invariant
                i <= files@.len(),
                seen.deep_view() == file_ids(files@.take(i as int)),
                entry_views(loaded@) == loaded_entries(files@.take(i as int), lang_env@, current_desktop@),
                cats@.map_values(|p: (String, &'static str)| (p.0@, p.1@)) == shown_categories(
                    entry_views(loaded@),
                ),
            decreases files@.len() - i,
        {
            let ghost pre = files@.take(i + 1);
            assert(pre.drop_last() =~= files@.take(i as int));
            assert(pre.last() == files@[i as int]);
            let f = &files[i];
            let already = crate::dock::contains_text(&seen, f.id.as_str());
            let ghost sb = seen.deep_view();
            seen.push(f.id.clone());
            assert(seen.deep_view() =~= sb.push(f.id@));
            if !already {
                match &f.content {
                    Some(t) => {
                        let de = crate::desktop_entry::parse_desktop_entry(
                            f.id.as_str(),
                            t.as_str(),
                            lang_env,
                            current_desktop,
                        );
                        let ghost lb = entry_views(loaded@);
                        let ghost cb = cats@.map_values(|p: (String, &'static str)| (p.0@, p.1@));
                        if !de.no_display {
                            let cat = crate::categories::assign_category(de.category.as_str());
                            cats.push((de.desktop_id.clone(), cat));
                            assert(cats@.map_values(|p: (String, &'static str)| (p.0@, p.1@)) =~= cb.push(
                                (de.desktop_id@, cat@),
                            ));
                        }
                        loaded.push(de);
                        assert(entry_views(loaded@) =~= lb.push(de@));
                        assert(entry_views(loaded@).drop_last() =~= lb);
                    },
                    None => {},
                }
            }
            assert(file_ids(files@.take(i + 1)) =~= file_ids(files@.take(i as int)).push(f.id@));
            i += 1;
        }
        assert(files@.take(i as int) =~= files@);
        self.desktop_entries = sort_entries_exec(&loaded);
        self.id2entry = loaded;
        self.entry_categories = cats;
    }
}


/// Entries in the drawer's order: no entry's lowercased localized name
/// comes strictly before that of an entry listed earlier.
pub open spec fn entries_sorted(s: Seq<EntryView>) -> bool {
    forall|i: int, j: int|
        0 <= i < j < s.len() ==> !crate::dock::text_lt(
            crate::text::lowercase((#[trigger] s[j]).name_loc),
            crate::text::lowercase((#[trigger] s[i]).name_loc),
        )
}

proof fn lemma_not_lt_transitive(a: Seq<char>, b: Seq<char>, c: Seq<char>)
    requires
        !crate::dock::text_lt(a, b),
        !crate::dock::text_lt(b, c),
    ensures
        !crate::dock::text_lt(a, c),
{
    crate::dock::lemma_text_lt_total(a, b);
    crate::dock::lemma_text_lt_total(b, c);
    if crate::dock::text_lt(a, c) {
        if a == b {
        } else if b == c {
        } else {
            crate::dock::lemma_text_lt_transitive(c, b, a);
            crate::dock::lemma_text_lt_asymmetric(c, a);
        }
    }
}

proof fn lemma_insert_entry_contents(s: Seq<EntryView>, x: EntryView)
    ensures
        insert_entry(s, x).to_multiset() =~= s.to_multiset().insert(x),
        forall|e: EntryView| #[trigger] insert_entry(s, x).contains(e) ==> e == x || s.contains(e),
    decreases s.len(),
{
    broadcast use vstd::seq_lib::group_to_multiset_ensures;
    broadcast use vstd::multiset::group_multiset_axioms;

    if s.len() > 0 && entry_before(x, s.last()) {
        let d = s.drop_last();
        lemma_insert_entry_contents(d, x);
        assert(s =~= d.push(s.last()));
        assert forall|e: EntryView| #[trigger] insert_entry(s, x).contains(e) implies e == x
            || s.contains(e) by {
            let r = insert_entry(d, x);
            let k = choose|k: int| 0 <= k < r.push(s.last()).len() && r.push(s.last())[k] == e;
            if k < r.len() {
                assert(r.contains(e));
                if d.contains(e) {
                    let m = choose|m: int| 0 <= m < d.len() && d[m] == e;
                    assert(s[m] == e);
                }
            } else {
                assert(s[s.len() - 1] == e);
            }
        }
    } else if s.len() > 0 {
        assert forall|e: EntryView| #[trigger] insert_entry(s, x).contains(e) implies e == x
            || s.contains(e) by {
            let k = choose|k: int| 0 <= k < s.push(x).len() && s.push(x)[k] == e;
            if k < s.len() {
                assert(s[k] == e);
            }
        }
    } else {
        assert(insert_entry(s, x) =~= seq![x]);
        assert(s.push(x) =~= seq![x]);
    }
}

proof fn lemma_insert_entry_sorted(s: Seq<EntryView>, x: EntryView)
    requires
        entries_sorted(s),
    ensures
        entries_sorted(insert_entry(s, x)),
    decreases s.len(),
{
    let kx = crate::text::lowercase(x.name_loc);
    if s.len() == 0 {
    } else if entry_before(x, s.last()) {
        let d = s.drop_last();
        let last = s.last();
        assert(entries_sorted(d)) by {
            assert forall|i: int, j: int| 0 <= i < j < d.len() implies !crate::dock::text_lt(
                crate::text::lowercase((#[trigger] d[j]).name_loc),
                crate::text::lowercase((#[trigger] d[i]).name_loc),
            ) by {
                assert(d[i] == s[i] && d[j] == s[j]);
            }
        }
        lemma_insert_entry_sorted(d, x);
        lemma_insert_entry_contents(d, x);
        let r = insert_entry(d, x);
        crate::dock::lemma_text_lt_asymmetric(kx, crate::text::lowercase(last.name_loc));
        assert forall|i: int, j: int| 0 <= i < j < r.push(last).len() implies !crate::dock::text_lt(
            crate::text::lowercase((#[trigger] r.push(last)[j]).name_loc),
            crate::text::lowercase((#[trigger] r.push(last)[i]).name_loc),
        ) by {
            if j == r.len() {
                let e = r[i];
                assert(r.contains(e));
                if e != x {
                    let m = choose|m: int| 0 <= m < d.len() && d[m] == e;
                    assert(s[m] == e && s[s.len() - 1] == last);
                }
            } else {
                assert(r.push(last)[j] == r[j] && r.push(last)[i] == r[i]);
            }
        }
    } else {
        let last = s.last();
        assert forall|i: int, j: int| 0 <= i < j < s.push(x).len() implies !crate::dock::text_lt(
            crate::text::lowercase((#[trigger] s.push(x)[j]).name_loc),
            crate::text::lowercase((#[trigger] s.push(x)[i]).name_loc),
        ) by {
            if j == s.len() {
                if i < s.len() - 1 {
                    assert(!crate::dock::text_lt(
                        crate::text::lowercase(s[s.len() - 1].name_loc),
                        crate::text::lowercase(s[i].name_loc),
                    ));
                    lemma_not_lt_transitive(
                        kx,
                        crate::text::lowercase(last.name_loc),
                        crate::text::lowercase(s[i].name_loc),
                    );
                }
            } else {
                assert(s.push(x)[j] == s[j] && s.push(x)[i] == s[i]);
            }
        }
    }
}

/// The drawer lists its applications by localized name, ignoring case, and
/// loses none: sorting gives a rearrangement of the entries in which no
/// lowercased localized name comes strictly before one listed earlier.
pub proof fn entry_order_law(s: Seq<EntryView>)
    ensures
        entries_sorted(sort_entries(s)),
        sort_entries(s).to_multiset() == s.to_multiset(),
    decreases s.len(),
{
    broadcast use vstd::seq_lib::group_to_multiset_ensures;

    if s.len() > 0 {
        entry_order_law(s.drop_last());
        lemma_insert_entry_sorted(sort_entries(s.drop_last()), s.last());
        lemma_insert_entry_contents(sort_entries(s.drop_last()), s.last());
        assert(s =~= s.drop_last().push(s.last()));
    }
}

} // verus!
