//! The drawer's search: which applications a phrase shows in the grid, and
//! what the file search does with each entry of the user's directories.

use vstd::prelude::*;
use crate::desktop_entry::{DesktopEntry, EntryView};
use crate::dock::contains_text;
use crate::dock::{
    lemma_text_lt_asymmetric, lemma_text_lt_irreflexive, lemma_text_lt_total,
    lemma_text_lt_transitive, text_lt, text_lt_exec,
};
use crate::dock_actions::truncate_title;
use crate::events::utf8_len;
use crate::text::{chars_of, contains, find_exec, lowercase, str_eq, to_lowercase};

verus! {

/// Whether the characters of `needle` occur in `hay` in order (not
/// necessarily next to each other).
pub open spec fn is_subsequence(needle: Seq<char>, hay: Seq<char>) -> bool
    decreases hay.len(),
{
    if needle.len() == 0 {
        true
    } else if hay.len() == 0 {
        false
    } else if needle[0] == hay[0] {
        is_subsequence(needle.drop_first(), hay.drop_first())
    } else {
        is_subsequence(needle, hay.drop_first())
    }
}

/// Subsequence search: whether the (lowercase) `needle` occurs in order
/// in the lowercased `haystack`.
pub fn subsequence_match(needle: &str, haystack: &str) -> (b: bool)
    ensures
        b == is_subsequence(needle@, lowercase(haystack@)),
{
    let n = chars_of(needle);
    let lower = to_lowercase(haystack);
    let h = chars_of(lower.as_str());
    let mut i: usize = 0;
    let mut j: usize = 0;
    assert(n@.skip(0) =~= n@);
    assert(h@.skip(0) =~= h@);
    while i < n.len() && j < h.len()
        invariant
            i <= n@.len(),
            j <= h@.len(),
            n@ == needle@,
            h@ == lowercase(haystack@),
            is_subsequence(n@, h@) == is_subsequence(n@.skip(i as int), h@.skip(j as int)),
        decreases h@.len() - j,
    {
        assert(h@.skip(j as int).drop_first() =~= h@.skip(j + 1));
        assert(n@.skip(i as int).drop_first() =~= n@.skip(i + 1));
        assert(n@.skip(i as int)[0] == n@[i as int]);
        assert(h@.skip(j as int)[0] == h@[j as int]);
        if n[i] == h[j] {
            i += 1;
        }
        j += 1;
    }
    if i < n.len() {
        assert(h@.skip(j as int).len() == 0);
    }
    i == n.len()
}

/// Whether a search phrase (lowercased: `needle`) finds an application:
/// by subsequence of its name, or as part of its description, generic
/// description or command, all compared in lowercase.
pub open spec fn entry_matches(e: EntryView, needle: Seq<char>) -> bool {
    ||| is_subsequence(needle, lowercase(e.name_loc))
    ||| contains(lowercase(e.comment_loc), needle)
    ||| contains(lowercase(e.comment), needle)
    ||| contains(lowercase(e.exec_cmd), needle)
}

/// Whether the grid shows an application: never when it is hidden;
/// without a phrase, when it is in the chosen category (all without one);
/// with a phrase, when the phrase finds it.
pub open spec fn shown_in_grid(e: EntryView, category: Option<Seq<Seq<char>>>, phrase: Seq<char>) -> bool {
    !e.no_display && if phrase.len() == 0 {
        match category {
            Some(ids) => ids.contains(e.desktop_id),
            None => true,
        }
    } else {
        entry_matches(e, lowercase(phrase))
    }
}

/// The grid shows an application whose displayed (localized) name holds
/// the search phrase's characters in order, ignoring case, whatever the
/// category, unless the application is hidden; a hidden one is never shown.
pub proof fn grid_name_match_law(e: EntryView, category: Option<Seq<Seq<char>>>, phrase: Seq<char>)
    ensures
        !e.no_display && phrase.len() > 0 && is_subsequence(lowercase(phrase), lowercase(e.name_loc))
            ==> shown_in_grid(e, category, phrase),
        e.no_display ==> !shown_in_grid(e, category, phrase),
        !e.no_display && phrase.len() > 0 && (contains(lowercase(e.comment_loc), lowercase(phrase))
            || contains(lowercase(e.comment), lowercase(phrase)) || contains(
            lowercase(e.exec_cmd),
            lowercase(phrase),
        )) ==> shown_in_grid(e, category, phrase),
{
}

fn contains_lower(text: &str, needle: &Vec<char>) -> (b: bool)
    ensures
        b == contains(lowercase(text@), needle@),
{
    let t = to_lowercase(text);
    find_exec(&chars_of(t.as_str()), needle, 0).is_some()
}

/// Whether the application grid shows `entry` for the chosen category's
/// ids and the search phrase.
pub fn shows_in_grid(entry: &DesktopEntry, category_ids: Option<&Vec<String>>, phrase: &str) -> (b: bool)
    ensures
        b == shown_in_grid(entry@, match category_ids {
            Some(ids) => Some(ids.deep_view()),
            None => None,
        }, phrase@),
{
    if entry.no_display {
        return false;
    }
    if phrase.is_empty() {
        return match category_ids {
            Some(ids) => contains_text(ids, entry.desktop_id.as_str()),
            None => true,
        };
    }
    let needle = to_lowercase(phrase);
    let nv = chars_of(needle.as_str());
    subsequence_match(needle.as_str(), entry.name_loc.as_str())
        || contains_lower(entry.comment_loc.as_str(), &nv)
        || contains_lower(entry.comment.as_str(), &nv)
        || contains_lower(entry.exec_cmd.as_str(), &nv)
}

/// What the file search does with an entry of a searched directory.
#[derive(Debug, Clone, Copy, PartialEq, Eq, Structural)]
pub enum FileVerdict {
    /// Its path names an excluded directory: skipped, not descended into.
    Excluded,
    /// The phrase is part of its path: listed.
    Matched,
    /// Not listed (a directory is still descended into).
    Unmatched,
}

/// Whether a path (relative to the searched directory) contains one of
/// the exclusions.
pub open spec fn excluded_by(relative: Seq<char>, exclusions: Seq<Seq<char>>) -> bool {
    exists|k: int| 0 <= k < exclusions.len() && contains(relative, #[trigger] exclusions[k])
}

/// The verdict of the file search on a path relative to the searched
/// directory: excluded when it contains an exclusion, else listed when it
/// contains the phrase, compared in lowercase.
pub fn file_verdict(relative: &str, phrase: &str, exclusions: &Vec<String>) -> (r: FileVerdict)
    ensures
        r is Excluded <==> excluded_by(relative@, exclusions.deep_view()),
        r is Matched <==> !excluded_by(relative@, exclusions.deep_view()) && contains(
            lowercase(relative@),
            lowercase(phrase@),
        ),
{
    let rv = chars_of(relative);
    let mut k: usize = 0;
    while k < exclusions.len()
        invariant
            k <= exclusions@.len(),
            rv@ == relative@,
            forall|j: int| 0 <= j < k ==> !contains(relative@, #[trigger] exclusions.deep_view()[j]),
        decreases exclusions@.len() - k,
    {
        if find_exec(&rv, &chars_of(exclusions[k].as_str()), 0).is_some() {
            assert(contains(relative@, exclusions.deep_view()[k as int]));
            return FileVerdict::Excluded;
        }
        k += 1;
    }
    let needle = to_lowercase(phrase);
    if contains_lower(relative, &chars_of(needle.as_str())) {
        FileVerdict::Matched
    } else {
        FileVerdict::Unmatched
    }
}

/// The user directories the file search walks: all but the home
/// directory (its subdirectories are searched on their own).
pub open spec fn search_roots_of(dirs: Seq<(Seq<char>, Seq<char>)>) -> Seq<(Seq<char>, Seq<char>)>
    decreases dirs.len(),
{
    if dirs.len() == 0 {
        dirs
    } else if dirs.last().0 == "home"@ {
        search_roots_of(dirs.drop_last())
    } else {
        search_roots_of(dirs.drop_last()).push(dirs.last())
    }
}

/// The (name, path) pairs of the user directories to search.
pub fn search_roots(user_dirs: &Vec<(String, String)>) -> (r: Vec<(String, String)>)
    ensures
        r@.map_values(|d: (String, String)| (d.0@, d.1@)) == search_roots_of(
            user_dirs@.map_values(|d: (String, String)| (d.0@, d.1@)),
        ),
{
    let ghost dv = user_dirs@.map_values(|d: (String, String)| (d.0@, d.1@));
    let mut r: Vec<(String, String)> = Vec::new();
    let mut i: usize = 0;
    while i < user_dirs.len()
        invariant
            i <= user_dirs@.len(),
            dv == user_dirs@.map_values(|d: (String, String)| (d.0@, d.1@)),
            r@.map_values(|d: (String, String)| (d.0@, d.1@)) == search_roots_of(dv.take(i as int)),
        decreases user_dirs@.len() - i,
    {
        let ghost pre = dv.take(i + 1);
        assert(pre.drop_last() =~= dv.take(i as int));
        assert(pre.last() == dv[i as int]);
        if !str_eq(user_dirs[i].0.as_str(), "home") {
            let ghost old_r = r@;
            r.push((user_dirs[i].0.clone(), user_dirs[i].1.clone()));
            assert(r@.map_values(|d: (String, String)| (d.0@, d.1@)) =~= old_r.map_values(
                |d: (String, String)| (d.0@, d.1@),
            ).push(dv[i as int]));
        }
        i += 1;
    }
    assert(dv.take(user_dirs@.len() as int) =~= dv);
    r
}

/// The label of a file search result: longer than `limit` bytes, it is
/// cut to `limit - 1` bytes with an ellipsis, and the full name becomes
/// its tooltip (the second value).
pub fn result_label(display: &str, limit: usize) -> (r: (String, bool))
    requires
        utf8_len(display@) > limit ==> vstd::utf8::is_char_boundary(
            vstd::utf8::encode_utf8(display@),
            if limit > 0 {
                limit - 1
            } else {
                0
            },
        ),
    ensures
        utf8_len(display@) <= limit ==> r.0@ == display@ && !r.1,
        utf8_len(display@) > limit ==> r.1 && r.0@ == vstd::utf8::decode_utf8(
            vstd::utf8::encode_utf8(display@).take(
                if limit > 0 {
                    limit - 1
                } else {
                    0
                },
            ),
        ).push('…'),
{
    if display.len() > limit {
        let cut = if limit > 0 {
            limit - 1
        } else {
            0
        };
        (truncate_title(display, cut), true)
    } else {
        (display.to_owned(), false)
    }
}

/// `names` with `x` inserted after the last name not after it.
pub open spec fn insert_name(names: Seq<Seq<char>>, x: Seq<char>) -> Seq<Seq<char>>
    decreases names.len(),
{
    if names.len() == 0 {
        seq![x]
    } else if text_lt(x, names.last()) {
        insert_name(names.drop_last(), x).push(names.last())
    } else {
        names.push(x)
    }
}

/// Names in alphabetical (character code) order, by a stable insertion.
pub open spec fn sort_names_of(names: Seq<Seq<char>>) -> Seq<Seq<char>>
    decreases names.len(),
{
    if names.len() == 0 {
        names
    } else {
        insert_name(sort_names_of(names.drop_last()), names.last())
    }
}

proof fn lemma_insert_name_at(s: Seq<Seq<char>>, x: Seq<char>, i: int)
    requires
        0 <= i <= s.len(),
        forall|j: int| i <= j < s.len() ==> text_lt(x, #[trigger] s[j]),
        i > 0 ==> !text_lt(x, s[i - 1]),
    ensures
        insert_name(s, x) == s.take(i).push(x) + s.skip(i),
    decreases s.len(),
{
    if s.len() == 0 {
        assert(s.take(i).push(x) + s.skip(i) =~= seq![x]);
    } else if i == s.len() {
        assert(s.take(i).push(x) + s.skip(i) =~= s.push(x));
    } else {
        let d = s.drop_last();
        assert forall|j: int| i <= j < d.len() implies text_lt(x, #[trigger] d[j]) by {
            assert(d[j] == s[j]);
        }
        if i > 0 {
            assert(d[i - 1] == s[i - 1]);
        }
        lemma_insert_name_at(d, x, i);
        assert(s.take(i).push(x) + s.skip(i) =~= (d.take(i).push(x) + d.skip(i)).push(s.last()));
    }
}

/// The names sorted alphabetically (by character codes; equal names keep
/// their order).
pub fn sort_names(names: Vec<String>) -> (r: Vec<String>)
    ensures
        r.deep_view() == sort_names_of(names.deep_view()),
{
    let ghost nv = names.deep_view();
    let mut r: Vec<String> = Vec::new();
    let mut rc: Vec<Vec<char>> = Vec::new();
    let mut k: usize = 0;
    while k < names.len()
        invariant
            k <= names@.len(),
            nv == names.deep_view(),
            r@.len() == rc@.len(),
            forall|j: int| 0 <= j < rc@.len() ==> (#[trigger] rc@[j])@ == r.deep_view()[j],
            r.deep_view() == sort_names_of(nv.take(k as int)),
        decreases names@.len() - k,
    {
        let x = names[k].clone();
        let xc = chars_of(x.as_str());
        let ghost pre = nv.take(k + 1);
        assert(pre.drop_last() =~= nv.take(k as int));
        assert(pre.last() == x@);
        let ghost s = r.deep_view();
        let mut i: usize = r.len();
        while i > 0 && text_lt_exec(&xc, &rc[i - 1])
            invariant
                i <= r@.len(),
                r@.len() == rc@.len(),
                s == r.deep_view(),
                xc@ == x@,
                forall|j: int| 0 <= j < rc@.len() ==> (#[trigger] rc@[j])@ == r.deep_view()[j],
                forall|j: int| i <= j < s.len() ==> text_lt(x@, #[trigger] s[j]),
            decreases i,
        {
            assert(rc@[i - 1]@ == s[i - 1]);
            i -= 1;
        }
        proof {
            if i > 0 {
                assert(rc@[i - 1]@ == s[i - 1]);
            }
            lemma_insert_name_at(s, x@, i as int);
        }
        let ghost rc_old = rc@;
        let ghost r_old = r@;
        r.insert(i, x);
        rc.insert(i, xc);
        assert(r.deep_view() =~= s.take(i as int).push(x@) + s.skip(i as int)) by {
            assert(r@ == r_old.insert(i as int, x));
        }
        assert forall|j: int| 0 <= j < rc@.len() implies (#[trigger] rc@[j])@ == r.deep_view()[j] by {
            assert(rc@ == rc_old.insert(i as int, xc));
            assert(r@ == r_old.insert(i as int, x));
            if j < i {
                assert(rc@[j] == rc_old[j] && r@[j] == r_old[j]);
            } else if j > i {
                assert(rc@[j] == rc_old[j - 1] && r@[j] == r_old[j - 1]);
            }
        }
        k += 1;
    }
    assert(nv.take(names@.len() as int) =~= nv);
    r
}

/// Names in alphabetical order: none comes before one listed earlier.
pub open spec fn names_sorted(s: Seq<Seq<char>>) -> bool {
    forall|i: int, j: int| 0 <= i < j < s.len() ==> !text_lt(#[trigger] s[j], #[trigger] s[i])
}

proof fn lemma_insert_name_contents(s: Seq<Seq<char>>, x: Seq<char>)
    ensures
        insert_name(s, x).to_multiset() =~= s.to_multiset().insert(x),
        forall|e: Seq<char>| #[trigger] insert_name(s, x).contains(e) ==> e == x || s.contains(e),
    decreases s.len(),
{
    broadcast use vstd::seq_lib::group_to_multiset_ensures;
    broadcast use vstd::multiset::group_multiset_axioms;

    if s.len() > 0 && text_lt(x, s.last()) {
        let d = s.drop_last();
        lemma_insert_name_contents(d, x);
        assert(s =~= d.push(s.last()));
        assert forall|e: Seq<char>| #[trigger] insert_name(s, x).contains(e) implies e == x
            || s.contains(e) by {
            let r = insert_name(d, x);
            let k = choose|k: int| 0 <= k < r.push(s.last()).len() && r.push(s.last())[k] == e;
            if k < r.len() {
                assert(r.contains(e));
                if d.contains(e) {
                    let m = choose|m: int| 0 <= m < d.len() && d[m] == e;
                    assert(s[m] == e);
                }
            } else {
                assert(s[s.len() - 1] == e);
            }
        }
    } else if s.len() > 0 {
        assert forall|e: Seq<char>| #[trigger] insert_name(s, x).contains(e) implies e == x
            || s.contains(e) by {
            let k = choose|k: int| 0 <= k < s.push(x).len() && s.push(x)[k] == e;
            if k < s.len() {
                assert(s[k] == e);
            }
        }
    } else {
        assert(insert_name(s, x) =~= seq![x]);
        assert(s.push(x) =~= seq![x]);
    }
}

proof fn lemma_not_lt_transitive(a: Seq<char>, b: Seq<char>, c: Seq<char>)
    requires
        !text_lt(a, b),
        !text_lt(b, c),
    ensures
        !text_lt(a, c),
{
    lemma_text_lt_total(a, b);
    lemma_text_lt_total(b, c);
    if text_lt(a, c) {
        if text_lt(b, a) && text_lt(c, b) {
            lemma_text_lt_transitive(c, b, a);
            lemma_text_lt_asymmetric(c, a);
        } else if a == b && text_lt(c, b) {
            lemma_text_lt_asymmetric(c, a);
        } else if text_lt(b, a) && b == c {
            lemma_text_lt_asymmetric(c, a);
        } else {
            lemma_text_lt_irreflexive(a);
        }
    }
}

proof fn lemma_insert_name_sorted(s: Seq<Seq<char>>, x: Seq<char>)
    requires
        names_sorted(s),
    ensures
        names_sorted(insert_name(s, x)),
    decreases s.len(),
{
    if s.len() == 0 {
    } else if text_lt(x, s.last()) {
        let d = s.drop_last();
        let last = s.last();
        assert(names_sorted(d)) by {
            assert forall|i: int, j: int| 0 <= i < j < d.len() implies !text_lt(
                #[trigger] d[j],
                #[trigger] d[i],
            ) by {
                assert(d[i] == s[i] && d[j] == s[j]);
            }
        }
        lemma_insert_name_sorted(d, x);
        lemma_insert_name_contents(d, x);
        let r = insert_name(d, x);
        lemma_text_lt_asymmetric(x, last);
        assert forall|i: int, j: int| 0 <= i < j < r.push(last).len() implies !text_lt(
            #[trigger] r.push(last)[j],
            #[trigger] r.push(last)[i],
        ) by {
            if j == r.len() {
                let e = r[i];
                assert(r.contains(e));
                if e != x {
                    let m = choose|m: int| 0 <= m < d.len() && d[m] == e;
                    assert(s[m] == e && s[s.len() - 1] == last);
                }
            } else {
                assert(r.push(last)[j] == r[j] && r.push(last)[i] == r[i]);
            }
        }
    } else {
        let last = s.last();
        assert forall|i: int, j: int| 0 <= i < j < s.push(x).len() implies !text_lt(
            #[trigger] s.push(x)[j],
            #[trigger] s.push(x)[i],
        ) by {
            if j == s.len() {
                if i < s.len() - 1 {
                    assert(!text_lt(s[s.len() - 1], s[i]));
                    lemma_not_lt_transitive(x, last, s[i]);
                }
            } else {
                assert(s.push(x)[j] == s[j] && s.push(x)[i] == s[i]);
            }
        }
    }
}

/// The file search lists its results alphabetically and loses none:
/// sorting gives a sorted rearrangement of the names.
pub proof fn file_results_order_law(s: Seq<Seq<char>>)
    ensures
        names_sorted(sort_names_of(s)),
        sort_names_of(s).to_multiset() == s.to_multiset(),
    decreases s.len(),
{
    broadcast use vstd::seq_lib::group_to_multiset_ensures;

    if s.len() > 0 {
        file_results_order_law(s.drop_last());
        lemma_insert_name_sorted(sort_names_of(s.drop_last()), s.last());
        lemma_insert_name_contents(sort_names_of(s.drop_last()), s.last());
        assert(s =~= s.drop_last().push(s.last()));
    }
}

} // verus!
