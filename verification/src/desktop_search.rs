//! Finding an application's `.desktop` file from a window class, and
//! reading its icon, command and name from the file's lines.

use vstd::prelude::*;
use crate::css_imports::{join_path, join_path_str};
use crate::events::utf8_len;
use crate::text::{chars_of, contains, ends_with, ends_with_exec, find_exec, index_of_char, index_of_char_exec, lowercase, slice_vec, split, split_exec, starts_with, starts_with_exec, str_eq, string_of, to_lowercase, trim, trim_vec};

verus! {

/// What `str::to_uppercase` returns for a string.
pub uninterp spec fn uppercase(s: Seq<char>) -> Seq<char>;

/// Calls `str::to_uppercase` (Unicode uppercase mapping, independent of
/// locale); its result is named by `uppercase`.
#[verifier::external_body]
pub(crate) fn to_uppercase(s: &str) -> (r: String)
    ensures
        r@ == uppercase(s@),
{
    s.to_uppercase()
}

/// The part of `s` before the first `d`.
pub open spec fn first_piece(s: Seq<char>, d: char) -> Seq<char> {
    split(s, d)[0]
}

fn first_piece_exec(s: &str, d: char) -> (r: String)
    ensures
        r@ == first_piece(s@, d),
{
    let parts = split_exec(&chars_of(s), d);
    proof {
        crate::text::lemma_split_nonempty(s@, d);
    }
    assert(parts.deep_view()[0] == parts@[0]@);
    parts[0].clone()
}

/// How many times `c` occurs in `s`.
pub open spec fn count_char(s: Seq<char>, c: char) -> nat
    decreases s.len(),
{
    if s.len() == 0 {
        0
    } else {
        count_char(s.drop_last(), c) + if s.last() == c {
            1nat
        } else {
            0nat
        }
    }
}

fn count_char_exec(v: &Vec<char>, c: char) -> (r: usize)
    ensures
        r == count_char(v@, c),
{
    let mut n: usize = 0;
    let mut i: usize = 0;
    while i < v.len()
        invariant
            i <= v@.len(),
            n == count_char(v@.take(i as int), c),
            n <= i,
        decreases v@.len() - i,
    {
        assert(v@.take(i + 1).drop_last() =~= v@.take(i as int));
        if v[i] == c {
            n += 1;
        }
        i += 1;
    }
    assert(v@.take(i as int) =~= v@);
    n
}

/// The first search pass: a reverse-domain file name (`org.x.App.desktop`)
/// that contains the class up to its first `-` and ends with the class.
pub open spec fn pass_one(name: Seq<char>, app_id: Seq<char>) -> bool {
    contains(name, first_piece(app_id, '-')) && count_char(name, '.') > 1 && ends_with(
        name,
        app_id + ".desktop"@,
    )
}

/// The second pass: the file name is the class with `.desktop`, ignoring case.
pub open spec fn pass_two(name: Seq<char>, app_id: Seq<char>) -> bool {
    uppercase(name) == uppercase(app_id) + ".DESKTOP"@
}

/// The third pass: the file name is the class up to its first `-` with
/// `.desktop`, ignoring case (`gimp-2.9.9` finds `gimp.desktop`).
pub open spec fn pass_three(name: Seq<char>, app_id: Seq<char>) -> bool {
    uppercase(name) == uppercase(first_piece(app_id, '-')) + ".DESKTOP"@
}

/// The fourth pass: the file name contains the class up to its first
/// space, ignoring case.
pub open spec fn pass_four(name: Seq<char>, app_id: Seq<char>) -> bool {
    contains(uppercase(name), uppercase(first_piece(app_id, ' ')))
}

/// Whether a file name matches in the given pass (1 to 4).
pub open spec fn matches_pass(pass: int, name: Seq<char>, app_id: Seq<char>) -> bool {
    if pass == 1 {
        pass_one(name, app_id)
    } else if pass == 2 {
        pass_two(name, app_id)
    } else if pass == 3 {
        pass_three(name, app_id)
    } else {
        pass_four(name, app_id)
    }
}

/// Whether position (d, e) of the listings matches in a pass.
pub open spec fn matches_at(listings: Seq<Seq<Seq<char>>>, pass: int, app_id: Seq<char>, d: int, e: int) -> bool {
    0 <= d < listings.len() && 0 <= e < listings[d].len() && matches_pass(pass, listings[d][e], app_id)
}

/// Whether position (d, e) comes before (d2, e2): by directory, then entry.
pub open spec fn position_before(d: int, e: int, d2: int, e2: int) -> bool {
    d < d2 || (d == d2 && e < e2)
}

/// The first matching position of a pass, directory by directory.
pub open spec fn is_first_match(listings: Seq<Seq<Seq<char>>>, pass: int, app_id: Seq<char>, d: int, e: int) -> bool {
    matches_at(listings, pass, app_id, d, e) && forall|d2: int, e2: int|
        position_before(d2, e2, d, e) ==> !#[trigger] matches_at(listings, pass, app_id, d2, e2)
}

/// Whether a pass matches nowhere.
pub open spec fn no_match(listings: Seq<Seq<Seq<char>>>, pass: int, app_id: Seq<char>) -> bool {
    forall|d: int, e: int| !#[trigger] matches_at(listings, pass, app_id, d, e)
}

fn matches_pass_exec(pass: u8, name: &str, app_id: &str) -> (b: bool)
    requires
        1 <= pass <= 4,
    ensures
        b == matches_pass(pass as int, name@, app_id@),
{
    let nv = chars_of(name);
    if pass == 1 {
        let dash = first_piece_exec(app_id, '-');
        let mut suffix = app_id.to_owned();
        suffix.append(".desktop");
        find_exec(&nv, &chars_of(dash.as_str()), 0).is_some() && count_char_exec(&nv, '.') > 1
            && ends_with_exec(&nv, &chars_of(suffix.as_str()))
    } else if pass == 2 {
        let mut target = to_uppercase(app_id);
        target.append(".DESKTOP");
        str_eq(to_uppercase(name).as_str(), target.as_str())
    } else if pass == 3 {
        let dash = first_piece_exec(app_id, '-');
        let mut target = to_uppercase(dash.as_str());
        target.append(".DESKTOP");
        str_eq(to_uppercase(name).as_str(), target.as_str())
    } else {
        let space = first_piece_exec(app_id, ' ');
        let un = to_uppercase(name);
        let us = to_uppercase(space.as_str());
        find_exec(&chars_of(un.as_str()), &chars_of(us.as_str()), 0).is_some()
    }
}

fn search_pass(listings: &Vec<Vec<String>>, pass: u8, app_id: &str) -> (r: Option<(usize, usize)>)
    requires
        1 <= pass <= 4,
    ensures
        r matches Some(p) ==> is_first_match(
            listings.deep_view(),
            pass as int,
            app_id@,
            p.0 as int,
            p.1 as int,
        ),
        r is None ==> no_match(listings.deep_view(), pass as int, app_id@),
{
    let ghost lv = listings.deep_view();
    let mut d: usize = 0;
    while d < listings.len()
        invariant
            d <= listings@.len(),
            lv == listings.deep_view(),
            1 <= pass <= 4,
            forall|d2: int, e2: int| d2 < d ==> !#[trigger] matches_at(lv, pass as int, app_id@, d2, e2),
        decreases listings@.len() - d,
    {
        let names = &listings[d];
        assert(lv[d as int] == names.deep_view());
        let mut e: usize = 0;
        while e < names.len()
            invariant
                d < listings@.len(),
                e <= names@.len(),
                lv == listings.deep_view(),
                lv[d as int] == names.deep_view(),
                1 <= pass <= 4,
                forall|d2: int, e2: int| d2 < d ==> !#[trigger] matches_at(lv, pass as int, app_id@, d2, e2),
                forall|e2: int| e2 < e ==> !#[trigger] matches_at(lv, pass as int, app_id@, d as int, e2),
            decreases names@.len() - e,
        {
            assert(names.deep_view()[e as int] == names@[e as int]@);
            if matches_pass_exec(pass, names[e].as_str(), app_id) {
                assert(matches_at(lv, pass as int, app_id@, d as int, e as int));
                return Some((d, e));
            }
            e += 1;
        }
        d += 1;
    }
    None
}

/// Which pass found the file, and where.
pub struct SearchHit {
    pub pass: u8,
    pub dir_index: usize,
    pub entry_index: usize,
}

/// Searches the listings of the application directories (their file
/// names, in directory order) for an application's `.desktop` file when
/// the window class doesn't match a file name exactly, e.g. `gimp-2.9.9`
/// for `gimp.desktop` (pass three) or `org.gimp.GIMP.desktop` (pass one).
/// The passes run in order and the first hit of the first pass that has
/// one wins; when none does, `search_desktop_contents` looks inside the
/// files.
pub fn search_desktop_dirs(app_id: &str, listings: &Vec<Vec<String>>) -> (r: Option<SearchHit>)
    ensures
        r matches Some(h) ==> 1 <= h.pass <= 4 && is_first_match(
            listings.deep_view(),
            h.pass as int,
            app_id@,
            h.dir_index as int,
            h.entry_index as int,
        ) && forall|p: int| 1 <= p < h.pass ==> no_match(listings.deep_view(), p, app_id@),
        r is None ==> forall|p: int| 1 <= p <= 4 ==> no_match(listings.deep_view(), p, app_id@),
{
    let mut pass: u8 = 1;
    while pass <= 4
        invariant
            1 <= pass <= 5,
            forall|p: int| 1 <= p < pass ==> no_match(listings.deep_view(), p, app_id@),
        decreases 5 - pass,
    {
        match search_pass(listings, pass, app_id) {
            Some((d, e)) => return Some(SearchHit { pass, dir_index: d, entry_index: e }),
            None => {},
        }
        pass += 1;
    }
    None
}

/// The text the last pass looks for in `.desktop` files:
/// `StartupWMClass=` and the class up to its first space.
pub fn needle_for_startup_class(app_id: &str) -> (r: String)
    ensures
        r@ == "StartupWMClass="@ + first_piece(app_id@, ' '),
{
    let mut r = "StartupWMClass=".to_owned();
    let p = first_piece_exec(app_id, ' ');
    r.append(p.as_str());
    r
}

/// Whether entry (d, e) of the directory contents is a readable file
/// whose text holds `needle`.
pub open spec fn content_matches_at(contents: Seq<Seq<Option<Seq<char>>>>, needle: Seq<char>, d: int, e: int) -> bool {
    0 <= d < contents.len() && 0 <= e < contents[d].len() && (contents[d][e] matches Some(t)
        && contains(t, needle))
}

/// The contents of directory entries, in listing order: `None` for a
/// directory or an unreadable file.
pub open spec fn contents_view(contents: Seq<Vec<Option<String>>>) -> Seq<Seq<Option<Seq<char>>>> {
    contents.map_values(|v: Vec<Option<String>>| v@.map_values(|o: Option<String>| match o {
        Some(t) => Some(t@),
        None => None,
    }))
}

/// The last pass of the `.desktop` search: the first file, directory by
/// directory, whose text names the class (up to its first space) as
/// `StartupWMClass`. `contents[d][e]` is the text of entry `e` of
/// directory `d`, or `None` for a directory or an unreadable file.
pub fn search_desktop_contents(app_id: &str, contents: &Vec<Vec<Option<String>>>) -> (r: Option<(usize, usize)>)
    ensures
        ({
            let cv = contents_view(contents@);
            let needle = "StartupWMClass="@ + first_piece(app_id@, ' ');
            &&& r matches Some(p) ==> content_matches_at(cv, needle, p.0 as int, p.1 as int) && forall|
                d2: int,
                e2: int,
            | position_before(d2, e2, p.0 as int, p.1 as int) ==> !#[trigger] content_matches_at(
                cv,
                needle,
                d2,
                e2,
            )
            &&& r is None ==> forall|d: int, e: int| !#[trigger] content_matches_at(cv, needle, d, e)
        }),
{
    let needle = needle_for_startup_class(app_id);
    let nv = chars_of(needle.as_str());
    let ghost cv = contents_view(contents@);
    let mut d: usize = 0;
    while d < contents.len()
        invariant
            d <= contents@.len(),
            cv == contents_view(contents@),
            nv@ == "StartupWMClass="@ + first_piece(app_id@, ' '),
            forall|d2: int, e2: int| d2 < d ==> !#[trigger] content_matches_at(cv, nv@, d2, e2),
        decreases contents@.len() - d,
    {
        let files = &contents[d];
        assert(cv[d as int] == files@.map_values(|o: Option<String>| match o {
            Some(t) => Some(t@),
            None => None,
        }));
        let mut e: usize = 0;
        while e < files.len()
            invariant
                d < contents@.len(),
                e <= files@.len(),
                files@ == contents@[d as int]@,
                cv == contents_view(contents@),
                cv[d as int] == files@.map_values(|o: Option<String>| match o {
                    Some(t) => Some(t@),
                    None => None,
                }),
                nv@ == "StartupWMClass="@ + first_piece(app_id@, ' '),
                forall|d2: int, e2: int| d2 < d ==> !#[trigger] content_matches_at(cv, nv@, d2, e2),
                forall|e2: int| e2 < e ==> !#[trigger] content_matches_at(cv, nv@, d as int, e2),
            decreases files@.len() - e,
        {
            match &files[e] {
                Some(t) => {
                    let found = find_exec(&chars_of(t.as_str()), &nv, 0).is_some();
                    if found {
                        assert(content_matches_at(cv, nv@, d as int, e as int));
                        return Some((d, e));
                    }
                    assert(!content_matches_at(cv, nv@, d as int, e as int));
                },
                None => {
                    assert(!content_matches_at(cv, nv@, d as int, e as int));
                },
            }
            e += 1;
        }
        d += 1;
    }
    None
}

/// The paths tried first for an application's `.desktop` file: in each
/// directory, the name itself and then its lowercase form.
pub fn desktop_file_candidates(app_name: &str, app_dirs: &Vec<String>) -> (r: Vec<String>)
    ensures
        r@.len() == 2 * app_dirs@.len(),
        forall|i: int|
            0 <= i < app_dirs@.len() ==> (#[trigger] r@[2 * i])@ == join_path(
                app_dirs@[i]@,
                app_name@ + ".desktop"@,
            ) && r@[2 * i + 1]@ == join_path(app_dirs@[i]@, lowercase(app_name@) + ".desktop"@),
{
    let mut file = app_name.to_owned();
    file.append(".desktop");
    let mut lower = to_lowercase(app_name);
    lower.append(".desktop");
    let mut r: Vec<String> = Vec::new();
    let mut i: usize = 0;
    while i < app_dirs.len()
        invariant
            i <= app_dirs@.len(),
            file@ == app_name@ + ".desktop"@,
            lower@ == lowercase(app_name@) + ".desktop"@,
            r@.len() == 2 * i,
            forall|k: int|
                0 <= k < i ==> (#[trigger] r@[2 * k])@ == join_path(app_dirs@[k]@, file@) && r@[2 * k
                    + 1]@ == join_path(app_dirs@[k]@, lower@),
        decreases app_dirs@.len() - i,
    {
        r.push(join_path_str(app_dirs[i].as_str(), file.as_str()));
        r.push(join_path_str(app_dirs[i].as_str(), lower.as_str()));
        assert(r@[2 * i as int]@ == join_path(app_dirs@[i as int]@, file@));
        i += 1;
    }
    r
}

/// Whether a missing exact match is followed by the fuzzy search: not
/// for absolute paths.
pub fn uses_fuzzy_search(app_name: &str) -> (b: bool)
    ensures
        b == !(app_name@.len() > 0 && app_name@[0] == '/'),
{
    let v = chars_of(app_name);
    !(v.len() > 0 && v[0] == '/')
}

/// Whether a line's uppercase form starts with `p`.
pub open spec fn upper_starts(line: Seq<char>, p: Seq<char>) -> bool {
    starts_with(uppercase(line), p)
}

/// The position of the first line, from `i` on, whose uppercase form
/// starts with `p`.
pub open spec fn first_line_with(lines: Seq<Seq<char>>, p: Seq<char>, i: int) -> Option<int>
    decreases lines.len() - i,
{
    if i < 0 || i >= lines.len() {
        None
    } else if upper_starts(lines[i], p) {
        Some(i)
    } else {
        first_line_with(lines, p, i + 1)
    }
}

/// The icon a `.desktop` file's lines name: the first line starting
/// (in any case) with `ICON` that contains `=`, up to a second `=`.
pub open spec fn icon_in_lines(lines: Seq<Seq<char>>, i: int) -> Option<Seq<char>>
    decreases lines.len() - i,
{
    if i < 0 || i >= lines.len() {
        None
    } else if upper_starts(lines[i], "ICON"@) && split(lines[i], '=').len() > 1 {
        Some(split(lines[i], '=')[1])
    } else {
        icon_in_lines(lines, i + 1)
    }
}

/// Whether the class names GIMP (it has no matching window class).
pub open spec fn is_gimp(app_name: Seq<char>) -> bool {
    starts_with(uppercase(app_name), "GIMP"@)
}

/// The icon name for an application, given the lines of its `.desktop`
/// file (none when no file was found or it could not be read).
pub fn get_icon(app_name: &str, lines: Option<Vec<String>>) -> (r: Option<String>)
    ensures
        is_gimp(first_piece(app_name@, ' ')) ==> (r matches Some(i) && i@ == "gimp"@),
        !is_gimp(first_piece(app_name@, ' ')) ==> match lines {
            Some(ls) => match icon_in_lines(ls.deep_view(), 0) {
                Some(i) => r matches Some(x) && x@ == i,
                None => r is None,
            },
            None => r is None,
        },
{
    let name = first_piece_exec(app_name, ' ');
    let upper = to_uppercase(name.as_str());
    if starts_with_exec(&chars_of(upper.as_str()), &chars_of("GIMP")) {
        proof {
            reveal_strlit("gimp");
        }
        return Some("gimp".to_owned());
    }
    let ls = match lines {
        Some(l) => l,
        None => return None,
    };
    let ghost lv = ls.deep_view();
    let mut i: usize = 0;
    while i < ls.len()
        invariant
            i <= ls@.len(),
            lv == ls.deep_view(),
            lines == Some(ls),
            !is_gimp(first_piece(app_name@, ' ')),
            icon_in_lines(lv, 0) == icon_in_lines(lv, i as int),
        decreases ls@.len() - i,
    {
        assert(lv[i as int] == ls@[i as int]@);
        let line = ls[i].as_str();
        let up = to_uppercase(line);
        if starts_with_exec(&chars_of(up.as_str()), &chars_of("ICON")) {
            let parts = split_exec(&chars_of(line), '=');
            if parts.len() > 1 {
                assert(parts.deep_view()[1] == parts@[1]@);
                return Some(parts[1].clone());
            }
        }
        i += 1;
    }
    None
}

/// The text after the first five bytes of a line (after `Exec=`).
pub open spec fn after_five_bytes(line: Seq<char>) -> Seq<char> {
    vstd::utf8::decode_utf8(vstd::utf8::encode_utf8(line).skip(5))
}

/// The command an `Exec` line holds: the text after its first five
/// bytes, cut before the first field code together with the character
/// before it, and trimmed.
pub open spec fn exec_of_line(line: Seq<char>) -> Seq<char> {
    let e = after_five_bytes(line);
    match index_of_char(e, '%') {
        Some(p) => trim(e.take(if p > 0 {
            p - 1
        } else {
            0
        })),
        None => trim(e),
    }
}

/// Whether an `Exec` line can be cut as the command is read: five bytes
/// long at least, its fifth byte ends a character, and the character
/// before its first `%` takes one byte.
pub open spec fn exec_line_cuttable(line: Seq<char>) -> bool {
    let b = vstd::utf8::encode_utf8(line);
    &&& utf8_len(line) >= 5
    &&& vstd::utf8::is_char_boundary(b, 5)
    &&& match index_of_char(after_five_bytes(line), '%') {
        Some(p) => p > 0 ==> (after_five_bytes(line)[p - 1] as u32) < 128,
        None => true,
    }
}

/// What `get_exec` gives for the lines of a `.desktop` file: the command
/// of the first line starting (in any case) with `EXEC`, or the
/// application's own name (`gimp` for GIMP) when there is none.
pub open spec fn exec_in_lines(app_name: Seq<char>, lines: Seq<Seq<char>>) -> Seq<char> {
    match first_line_with(lines, "EXEC"@, 0) {
        Some(k) => exec_of_line(lines[k]),
        None => if is_gimp(app_name) {
            "gimp"@
        } else {
            app_name
        },
    }
}

/// Whether the line `get_exec` reads its command from (the first one
/// starting, in any case, with `EXEC`) can be cut as it does; true when
/// there is none.
pub open spec fn exec_lines_cuttable(lines: Seq<Seq<char>>) -> bool {
    match first_line_with(lines, "EXEC"@, 0) {
        Some(k) => exec_line_cuttable(lines[k]),
        None => true,
    }
}

proof fn lemma_first_line_bound(lines: Seq<Seq<char>>, p: Seq<char>, i: int)
    ensures
        first_line_with(lines, p, i) matches Some(k) ==> i <= k < lines.len() && upper_starts(lines[k], p),
    decreases lines.len() - i,
{
    if 0 <= i < lines.len() && !upper_starts(lines[i], p) {
        lemma_first_line_bound(lines, p, i + 1);
    }
}

fn first_line_with_exec(lines: &Vec<String>, p: &str) -> (r: Option<usize>)
    ensures
        r matches Some(k) ==> first_line_with(lines.deep_view(), p@, 0) == Some(k as int) && k
            < lines@.len(),
        r is None ==> first_line_with(lines.deep_view(), p@, 0) is None,
{
    let ghost lv = lines.deep_view();
    let pv = chars_of(p);
    let mut i: usize = 0;
    while i < lines.len()
        invariant
            i <= lines@.len(),
            lv == lines.deep_view(),
            pv@ == p@,
            first_line_with(lv, p@, 0) == first_line_with(lv, p@, i as int),
        decreases lines@.len() - i,
    {
        assert(lv[i as int] == lines@[i as int]@);
        let up = to_uppercase(lines[i].as_str());
        if starts_with_exec(&chars_of(up.as_str()), &pv) {
            return Some(i);
        }
        i += 1;
    }
    None
}

/// The command of an `Exec` line that can be cut.
fn exec_from_line(line: &str) -> (r: String)
    requires
        exec_line_cuttable(line@),
    ensures
        r@ == exec_of_line(line@),
{
    let (_, tail) = line.split_at(5);
    proof {
        vstd::utf8::encode_utf8_decode_utf8(tail@);
        assert(vstd::utf8::encode_utf8(line@).subrange(5, vstd::utf8::encode_utf8(line@).len() as int)
            =~= vstd::utf8::encode_utf8(line@).skip(5));
    }
    assert(tail@ == after_five_bytes(line@));
    let ev = chars_of(tail);
    match index_of_char_exec(&ev, '%') {
        Some(pos) => {
            proof {
                crate::text::lemma_index_of_char(ev@, '%');
            }
            let cut = if pos > 0 {
                pos - 1
            } else {
                0
            };
            let head = slice_vec(&ev, 0, cut);
            assert(head@ =~= ev@.take(cut as int));
            string_of(&trim_vec(&head))
        },
        None => string_of(&trim_vec(&ev)),
    }
}

fn exec_line_cuttable_exec(line: &str) -> (b: bool)
    ensures
        b == exec_line_cuttable(line@),
{
    if line.len() < 5 || !line.is_char_boundary(5) {
        return false;
    }
    let (_, tail) = line.split_at(5);
    proof {
        vstd::utf8::encode_utf8_decode_utf8(tail@);
        assert(vstd::utf8::encode_utf8(line@).subrange(5, vstd::utf8::encode_utf8(line@).len() as int)
            =~= vstd::utf8::encode_utf8(line@).skip(5));
    }
    assert(tail@ == after_five_bytes(line@));
    let ev = chars_of(tail);
    match index_of_char_exec(&ev, '%') {
        Some(pos) => {
            proof {
                crate::text::lemma_index_of_char(ev@, '%');
            }
            pos == 0 || (ev[pos - 1] as u32) < 128
        },
        None => true,
    }
}

/// Whether `get_exec` can read the command from these lines.
pub fn exec_lines_cut_ok(lines: &Vec<String>) -> (b: bool)
    ensures
        b == exec_lines_cuttable(lines.deep_view()),
{
    match first_line_with_exec(lines, "EXEC") {
        Some(k) => {
            assert(lines.deep_view()[k as int] == lines@[k as int]@);
            exec_line_cuttable_exec(lines[k].as_str())
        },
        None => true,
    }
}

/// The command for an application, given the lines of its `.desktop`
/// file (none when no file was found or it could not be read).
pub fn get_exec(app_name: &str, lines: Option<Vec<String>>) -> (r: Option<String>)
    requires
        lines matches Some(ls) ==> exec_lines_cuttable(ls.deep_view()),
    ensures
        lines is None ==> r is None,
        lines matches Some(ls) ==> (r matches Some(x) && x@ == exec_in_lines(app_name@, ls.deep_view())),
{
    let lines = match lines {
        Some(l) => l,
        None => return None,
    };
    match first_line_with_exec(&lines, "EXEC") {
        Some(k) => {
            assert(lines.deep_view()[k as int] == lines@[k as int]@);
            Some(exec_from_line(lines[k].as_str()))
        },
        None => {
            let up = to_uppercase(app_name);
            if starts_with_exec(&chars_of(up.as_str()), &chars_of("GIMP")) {
                Some("gimp".to_owned())
            } else {
                Some(app_name.to_owned())
            }
        },
    }
}

/// `get_exec` on lines whose command can be read; none (the outer
/// option) when it cannot.
pub fn get_exec_checked(app_name: &str, lines: Option<Vec<String>>) -> (r: Option<Option<String>>)
    ensures
        r is None <==> (lines matches Some(ls) && !exec_lines_cuttable(ls.deep_view())),
        r matches Some(x) ==> (lines is None ==> x is None) && (lines matches Some(ls) ==> (
        x matches Some(c) && c@ == exec_in_lines(app_name@, ls.deep_view()))),
{
    match &lines {
        Some(ls) => if !exec_lines_cut_ok(ls) {
            return None;
        },
        None => {},
    }
    Some(get_exec(app_name, lines))
}

/// The display name in a `.desktop` file's lines: the text after the
/// first five bytes of the first line starting (in any case) with
/// `NAME=`; none when there is none.
pub open spec fn name_in_lines(lines: Seq<Seq<char>>) -> Option<Seq<char>> {
    match first_line_with(lines, "NAME="@, 0) {
        Some(k) => Some(after_five_bytes(lines[k])),
        None => None,
    }
}

/// Whether the line `get_name` reads the name from (the first one
/// starting, in any case, with `NAME=`) can be cut after five bytes;
/// true when there is none.
pub open spec fn name_lines_cuttable(lines: Seq<Seq<char>>) -> bool {
    match first_line_with(lines, "NAME="@, 0) {
        Some(k) => utf8_len(lines[k]) >= 5 && vstd::utf8::is_char_boundary(
            vstd::utf8::encode_utf8(lines[k]),
            5,
        ),
        None => true,
    }
}

/// Whether `get_name` can read the name from these lines.
pub fn name_lines_cut_ok(lines: &Vec<String>) -> (b: bool)
    ensures
        b == name_lines_cuttable(lines.deep_view()),
{
    match first_line_with_exec(lines, "NAME=") {
        Some(k) => {
            assert(lines.deep_view()[k as int] == lines@[k as int]@);
            let line = lines[k].as_str();
            line.len() >= 5 && line.is_char_boundary(5)
        },
        None => true,
    }
}

/// The display name of an application: from its `.desktop` file's lines
/// when they hold one, else the name it was asked for.
pub fn get_name(app_name: &str, lines: Option<Vec<String>>) -> (r: String)
    requires
        lines matches Some(ls) ==> name_lines_cuttable(ls.deep_view()),
    ensures
        match lines {
            Some(ls) => match name_in_lines(ls.deep_view()) {
                Some(n) => r@ == n,
                None => r@ == app_name@,
            },
            None => r@ == app_name@,
        },
{
    let lines = match lines {
        Some(l) => l,
        None => return app_name.to_owned(),
    };
    match first_line_with_exec(&lines, "NAME=") {
        Some(k) => {
            assert(lines.deep_view()[k as int] == lines@[k as int]@);
            let line = lines[k].as_str();
            let (_, tail) = line.split_at(5);
            proof {
                vstd::utf8::encode_utf8_decode_utf8(tail@);
                assert(vstd::utf8::encode_utf8(line@).subrange(
                    5,
                    vstd::utf8::encode_utf8(line@).len() as int,
                ) =~= vstd::utf8::encode_utf8(line@).skip(5));
            }
            tail.to_owned()
        },
        None => app_name.to_owned(),
    }
}

/// `get_name` on lines whose name can be read; none when it cannot.
pub fn get_name_checked(app_name: &str, lines: Option<Vec<String>>) -> (r: Option<String>)
    ensures
        r is None <==> (lines matches Some(ls) && !name_lines_cuttable(ls.deep_view())),
        r matches Some(n) ==> match lines {
            Some(ls) => match name_in_lines(ls.deep_view()) {
                Some(t) => n@ == t,
                None => n@ == app_name@,
            },
            None => n@ == app_name@,
        },
{
    match &lines {
        Some(ls) => if !name_lines_cut_ok(ls) {
            return None;
        },
        None => {},
    }
    Some(get_name(app_name, lines))
}

} // verus!
