//! The application directories of the XDG base directory layout, in the
//! order `.desktop` files are looked up in them.

use vstd::prelude::*;
use crate::css_imports::{join_path, join_path_str};
use crate::text::{chars_of, split, split_exec, starts_with, starts_with_exec, str_eq};

verus! {

/// The pieces of a path that are components: empty pieces (from
/// repeated or trailing separators) and `.` pieces are dropped.
pub open spec fn normal_parts(pieces: Seq<Seq<char>>) -> Seq<Seq<char>>
    decreases pieces.len(),
{
    if pieces.len() == 0 {
        pieces
    } else if pieces.last().len() == 0 || pieces.last() == seq!['.'] {
        normal_parts(pieces.drop_last())
    } else {
        normal_parts(pieces.drop_last()).push(pieces.last())
    }
}

/// Whether a relative path starts with a `.` component (which, unlike a
/// later one, counts).
pub open spec fn starts_at_cur_dir(s: Seq<char>) -> bool {
    !starts_with(s, seq!['/']) && split(s, '/')[0] == seq!['.']
}

/// Whether two Unix paths are equal as paths (`Path`'s `==`): both
/// absolute or both relative, both starting with `.` or neither, and the
/// same remaining components.
pub open spec fn same_path(a: Seq<char>, b: Seq<char>) -> bool {
    &&& starts_with(a, seq!['/']) == starts_with(b, seq!['/'])
    &&& starts_at_cur_dir(a) == starts_at_cur_dir(b)
    &&& normal_parts(split(a, '/')) == normal_parts(split(b, '/'))
}

/// Whether `dirs` already holds path `p`.
pub open spec fn has_path(dirs: Seq<Seq<char>>, p: Seq<char>) -> bool {
    exists|i: int| 0 <= i < dirs.len() && same_path(#[trigger] dirs[i], p)
}

/// `dirs` with `p` appended unless it is already there.
pub open spec fn add_path(dirs: Seq<Seq<char>>, p: Seq<char>) -> Seq<Seq<char>> {
    if has_path(dirs, p) {
        dirs
    } else {
        dirs.push(p)
    }
}

/// `dirs` with the `applications` directory of each data directory.
pub open spec fn add_data_dirs(dirs: Seq<Seq<char>>, data_dirs: Seq<Seq<char>>) -> Seq<Seq<char>>
    decreases data_dirs.len(),
{
    if data_dirs.len() == 0 {
        dirs
    } else {
        add_path(add_data_dirs(dirs, data_dirs.drop_last()), join_path(data_dirs.last(), "applications"@))
    }
}

/// The application directories: the user's (under `$XDG_DATA_HOME`, else
/// under `~/.local/share`, none without a home), those of the system
/// data directories (`$XDG_DATA_DIRS`, by default `/usr/local/share/` and
/// `/usr/share/`), then the flatpak ones; each directory once.
pub open spec fn app_dirs_of(home: Seq<char>, data_home: Option<Seq<char>>, data_dirs: Option<Seq<char>>) -> Seq<Seq<char>> {
    let first = match data_home {
        Some(d) => seq![join_path(d, "applications"@)],
        None => if home.len() > 0 {
            seq![join_path(home, ".local/share/applications"@)]
        } else {
            Seq::empty()
        },
    };
    let system = match data_dirs {
        Some(d) => d,
        None => "/usr/local/share/:/usr/share/"@,
    };
    add_path(
        add_path(
            add_data_dirs(first, split(system, ':')),
            join_path(home, ".local/share/flatpak/exports/share/applications"@),
        ),
        "/var/lib/flatpak/exports/share/applications"@,
    )
}

fn normal_parts_exec(pieces: &Vec<String>) -> (r: Vec<String>)
    ensures
        r.deep_view() == normal_parts(pieces.deep_view()),
{
    let ghost pv = pieces.deep_view();
    let mut r: Vec<String> = Vec::new();
    let mut i: usize = 0;
    while i < pieces.len()
        invariant
            i <= pieces@.len(),
            pv == pieces.deep_view(),
            r.deep_view() == normal_parts(pv.take(i as int)),
        decreases pieces@.len() - i,
    {
        let ghost pre = pv.take(i + 1);
        assert(pre.drop_last() =~= pv.take(i as int));
        assert(pre.last() == pieces@[i as int]@);
        let p = pieces[i].as_str();
        let dot = chars_of(p);
        let is_dot = dot.len() == 1 && dot[0] == '.';
        proof {
            if is_dot {
                assert(p@ =~= seq!['.']);
            }
            if p@ == seq!['.'] {
                assert(dot@[0] == '.');
            }
        }
        if !p.is_empty() && !is_dot {
            let ghost old_r = r.deep_view();
            r.push(pieces[i].clone());
            assert(r.deep_view() =~= old_r.push(pieces@[i as int]@));
        }
        i += 1;
    }
    assert(pv.take(pieces@.len() as int) =~= pv);
    r
}

fn strings_eq(a: &Vec<String>, b: &Vec<String>) -> (r: bool)
    ensures
        r == (a.deep_view() == b.deep_view()),
{
    if a.len() != b.len() {
        assert(a.deep_view().len() != b.deep_view().len());
        return false;
    }
    let mut i: usize = 0;
    while i < a.len()
        invariant
            i <= a@.len(),
            a@.len() == b@.len(),
            forall|j: int| 0 <= j < i ==> a.deep_view()[j] == b.deep_view()[j],
        decreases a@.len() - i,
    {
        if !str_eq(a[i].as_str(), b[i].as_str()) {
            assert(a.deep_view()[i as int] != b.deep_view()[i as int]);
            return false;
        }
        i += 1;
    }
    assert(a.deep_view() =~= b.deep_view());
    true
}

/// Whether two Unix paths are equal as paths.
pub fn same_path_exec(a: &str, b: &str) -> (r: bool)
    ensures
        r == same_path(a@, b@),
{
    let av = chars_of(a);
    let bv = chars_of(b);
    let slash = vec!['/'];
    assert(slash@ =~= seq!['/']);
    let a_abs = starts_with_exec(&av, &slash);
    let b_abs = starts_with_exec(&bv, &slash);
    let ap = split_exec(&av, '/');
    let bp = split_exec(&bv, '/');
    proof {
        crate::text::lemma_split_nonempty(a@, '/');
        crate::text::lemma_split_nonempty(b@, '/');
    }
    let a_cur = !a_abs && str_eq(ap[0].as_str(), ".");
    let b_cur = !b_abs && str_eq(bp[0].as_str(), ".");
    proof {
        reveal_strlit(".");
        assert("."@ =~= seq!['.']);
        assert(ap.deep_view()[0] == ap@[0]@);
        assert(bp.deep_view()[0] == bp@[0]@);
    }
    a_abs == b_abs && a_cur == b_cur && strings_eq(&normal_parts_exec(&ap), &normal_parts_exec(&bp))
}

fn add_path_exec(dirs: &mut Vec<String>, p: String)
    ensures
        final(dirs).deep_view() == add_path(old(dirs).deep_view(), p@),
{
    let mut i: usize = 0;
    while i < dirs.len()
        invariant
            i <= dirs@.len(),
            dirs@ == old(dirs)@,
            forall|j: int| 0 <= j < i ==> !same_path(#[trigger] dirs.deep_view()[j], p@),
        decreases dirs@.len() - i,
    {
        if same_path_exec(dirs[i].as_str(), p.as_str()) {
            assert(dirs.deep_view()[i as int] == dirs@[i as int]@);
            assert(has_path(dirs.deep_view(), p@));
            return;
        }
        i += 1;
    }
    let ghost before = dirs.deep_view();
    dirs.push(p);
    assert(dirs.deep_view() =~= before.push(p@));
}

/// The application directories for the given home directory and the
/// values of `$XDG_DATA_HOME` and `$XDG_DATA_DIRS` (none when unset).
pub fn app_dirs(home: &str, data_home: Option<&str>, data_dirs: Option<&str>) -> (r: Vec<String>)
    ensures
        r.deep_view() == app_dirs_of(home@, match data_home {
            Some(d) => Some(d@),
            None => None,
        }, match data_dirs {
            Some(d) => Some(d@),
            None => None,
        }),
{
    let mut dirs: Vec<String> = Vec::new();
    match data_home {
        Some(d) => {
            dirs.push(join_path_str(d, "applications"));
            assert(dirs.deep_view() =~= seq![join_path(d@, "applications"@)]);
        },
        None => if !home.is_empty() {
            dirs.push(join_path_str(home, ".local/share/applications"));
            assert(dirs.deep_view() =~= seq![join_path(home@, ".local/share/applications"@)]);
        } else {
            assert(dirs.deep_view() =~= Seq::<Seq<char>>::empty());
        },
    }
    let ghost first = dirs.deep_view();
    let system = match data_dirs {
        Some(d) => d,
        None => "/usr/local/share/:/usr/share/",
    };
    let pieces = split_exec(&chars_of(system), ':');
    let ghost pv = pieces.deep_view();
    let mut i: usize = 0;
    while i < pieces.len()
        invariant
            i <= pieces@.len(),
            pv == pieces.deep_view(),
            dirs.deep_view() == add_data_dirs(first, pv.take(i as int)),
        decreases pieces@.len() - i,
    {
        let ghost pre = pv.take(i + 1);
        assert(pre.drop_last() =~= pv.take(i as int));
        assert(pre.last() == pieces@[i as int]@);
        add_path_exec(&mut dirs, join_path_str(pieces[i].as_str(), "applications"));
        i += 1;
    }
    assert(pv.take(pieces@.len() as int) =~= pv);
    add_path_exec(&mut dirs, join_path_str(home, ".local/share/flatpak/exports/share/applications"));
    add_path_exec(&mut dirs, "/var/lib/flatpak/exports/share/applications".to_owned());
    dirs
}

} // verus!
