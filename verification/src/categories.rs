//! Freedesktop application categories and the assignment of desktop
//! entries to the main categories shown by the drawer.

use vstd::prelude::*;
use crate::text::{chars_eq, chars_of, split, split_exec, string_of_range, trim, trim_bounds};

verus! {

/// A freedesktop application category.
#[derive(Debug, Clone)]
pub struct Category {
    pub name: String,
    pub display_name: String,
    pub icon: String,
}

/// The freedesktop main categories, plus "Other", as
/// (name, display name, icon) triples, in display order.
pub open spec fn default_category_table() -> Seq<(Seq<char>, Seq<char>, Seq<char>)> {
    seq![
        ("AudioVideo"@, "Audio & Video"@, "applications-multimedia"@),
        ("Development"@, "Development"@, "applications-development"@),
        ("Game"@, "Games"@, "applications-games"@),
        ("Graphics"@, "Graphics"@, "applications-graphics"@),
        ("Network"@, "Internet"@, "applications-internet"@),
        ("Office"@, "Office"@, "applications-office"@),
        ("System"@, "System"@, "applications-system"@),
        ("Utility"@, "Utilities"@, "applications-utilities"@),
        ("Other"@, "Other"@, "applications-other"@),
    ]
}

/// A category as a (name, display name, icon) triple.
pub open spec fn category_view(c: Category) -> (Seq<char>, Seq<char>, Seq<char>) {
    (c.name@, c.display_name@, c.icon@)
}

fn category(name: &str, display_name: &str, icon: &str) -> (c: Category)
    ensures
        category_view(c) == (name@, display_name@, icon@),
{
    Category {
        name: name.to_owned(),
        display_name: display_name.to_owned(),
        icon: icon.to_owned(),
    }
}

/// The standard freedesktop main categories.
pub fn default_categories() -> (v: Vec<Category>)
    ensures
        v@.map_values(|c: Category| category_view(c)) == default_category_table(),
{
    let v = vec![
        category("AudioVideo", "Audio & Video", "applications-multimedia"),
        category("Development", "Development", "applications-development"),
        category("Game", "Games", "applications-games"),
        category("Graphics", "Graphics", "applications-graphics"),
        category("Network", "Internet", "applications-internet"),
        category("Office", "Office", "applications-office"),
        category("System", "System", "applications-system"),
        category("Utility", "Utilities", "applications-utilities"),
        category("Other", "Other", "applications-other"),
    ];
    assert(v@.map_values(|c: Category| category_view(c)) =~= default_category_table());
    v
}

/// The main category that one entry of a `Categories=` field stands for:
/// a main category stands for itself, some additional categories stand for
/// their main category (Audio and Video for AudioVideo, Science and
/// Education for Office, the settings and package managers for System).
pub open spec fn main_category_of(t: Seq<char>) -> Option<Seq<char>> {
    if t == "AudioVideo"@ {
        Some("AudioVideo"@)
    } else if t == "Development"@ {
        Some("Development"@)
    } else if t == "Game"@ {
        Some("Game"@)
    } else if t == "Graphics"@ {
        Some("Graphics"@)
    } else if t == "Network"@ {
        Some("Network"@)
    } else if t == "Office"@ {
        Some("Office"@)
    } else if t == "System"@ {
        Some("System"@)
    } else if t == "Utility"@ {
        Some("Utility"@)
    } else if t == "Audio"@ {
        Some("AudioVideo"@)
    } else if t == "Video"@ {
        Some("AudioVideo"@)
    } else if t == "Science"@ {
        Some("Office"@)
    } else if t == "Education"@ {
        Some("Office"@)
    } else if t == "Settings"@ {
        Some("System"@)
    } else if t == "DesktopSettings"@ {
        Some("System"@)
    } else if t == "PackageManager"@ {
        Some("System"@)
    } else if t == "HardwareSettings"@ {
        Some("System"@)
    } else {
        None
    }
}

/// The main categories, without "Other".
pub open spec fn main_categories() -> Seq<Seq<char>> {
    seq![
        "AudioVideo"@,
        "Development"@,
        "Game"@,
        "Graphics"@,
        "Network"@,
        "Office"@,
        "System"@,
        "Utility"@,
    ]
}

/// Main categories of the first `tokens`, in order of first appearance,
/// each once.
pub open spec fn assign_fold(tokens: Seq<Seq<char>>) -> Seq<Seq<char>>
    decreases tokens.len(),
{
    if tokens.len() == 0 {
        Seq::empty()
    } else {
        let acc = assign_fold(tokens.drop_last());
        match main_category_of(trim(tokens.last())) {
            Some(c) => if acc.contains(c) {
                acc
            } else {
                acc.push(c)
            },
            None => acc,
        }
    }
}

/// The main categories of a `Categories=` field, "Other" when there is none.
pub open spec fn assigned_categories(field: Seq<char>) -> Seq<Seq<char>> {
    let r = assign_fold(split(field, ';'));
    if r.len() == 0 {
        seq!["Other"@]
    } else {
        r
    }
}

fn main_category_exec(t: &Vec<char>) -> (r: Option<&'static str>)
    ensures
        r matches Some(c) ==> main_category_of(t@) == Some(c@),
        r is None ==> main_category_of(t@) is None,
{
    if chars_eq(t, &chars_of("AudioVideo")) {
        return Some("AudioVideo");
    }
    if chars_eq(t, &chars_of("Development")) {
        return Some("Development");
    }
    if chars_eq(t, &chars_of("Game")) {
        return Some("Game");
    }
    if chars_eq(t, &chars_of("Graphics")) {
        return Some("Graphics");
    }
    if chars_eq(t, &chars_of("Network")) {
        return Some("Network");
    }
    if chars_eq(t, &chars_of("Office")) {
        return Some("Office");
    }
    if chars_eq(t, &chars_of("System")) {
        return Some("System");
    }
    if chars_eq(t, &chars_of("Utility")) {
        return Some("Utility");
    }
    if chars_eq(t, &chars_of("Audio")) {
        return Some("AudioVideo");
    }
    if chars_eq(t, &chars_of("Video")) {
        return Some("AudioVideo");
    }
    if chars_eq(t, &chars_of("Science")) {
        return Some("Office");
    }
    if chars_eq(t, &chars_of("Education")) {
        return Some("Office");
    }
    if chars_eq(t, &chars_of("Settings")) {
        return Some("System");
    }
    if chars_eq(t, &chars_of("DesktopSettings")) {
        return Some("System");
    }
    if chars_eq(t, &chars_of("PackageManager")) {
        return Some("System");
    }
    if chars_eq(t, &chars_of("HardwareSettings")) {
        return Some("System");
    }
    None
}

/// Assigns an entry to ALL matching main categories based on its
/// `Categories` field, in order of appearance and without repetition.
/// An app with `Categories=Development;Network;` appears in both lists;
/// an entry with no main category gets "Other".
pub fn assign_categories(categories_field: &str) -> (r: Vec<&'static str>)
    ensures
        r@.map_values(|s: &str| s@) == assigned_categories(categories_field@),
{
    let field = chars_of(categories_field);
    let parts = split_exec(&field, ';');
    let mut result: Vec<&'static str> = Vec::new();
    let mut i: usize = 0;
    while i < parts.len()
        invariant
            i <= parts.len(),
            parts.deep_view() == split(categories_field@, ';'),
            result@.map_values(|s: &str| s@) == assign_fold(parts.deep_view().take(i as int)),
        decreases parts.len() - i,
    {
        let tok = chars_of(parts[i].as_str());
        let (lo, hi) = trim_bounds(&tok, 0, tok.len());
        let t = chars_of(string_of_range(&tok, lo, hi).as_str());
        proof {
            assert(tok@.subrange(0, tok@.len() as int) =~= tok@);
            assert(parts.deep_view().take(i + 1).drop_last() =~= parts.deep_view().take(i as int));
            assert(parts.deep_view().take(i + 1).last() == parts@[i as int]@);
        }
        let ghost acc = result@.map_values(|s: &str| s@);
        match main_category_exec(&t) {
            Some(c) => {
                let mut present = false;
                let mut j: usize = 0;
                let cv = chars_of(c);
                while j < result.len()
                    invariant
                        j <= result.len(),
                        acc == result@.map_values(|s: &str| s@),
                        cv@ == c@,
                        present == exists|k: int| 0 <= k < j && acc[k] == c@,
                    decreases result.len() - j,
                {
                    assert(acc[j as int] == result@[j as int]@);
                    if chars_eq(&chars_of(result[j]), &cv) {
                        present = true;
                    }
                    j += 1;
                }
                if !present {
                    result.push(c);
                    assert(result@.map_values(|s: &str| s@) =~= acc.push(c@));
                } else {
                    assert(acc.contains(c@));
                }
            },
            None => {},
        }
        i += 1;
    }
    assert(parts.deep_view().take(parts.len() as int) =~= parts.deep_view());
    if result.len() == 0 {
        result.push("Other");
        assert(result@.map_values(|s: &str| s@) =~= seq!["Other"@]);
    }
    result
}

/// The first main category of an entry (see `assign_categories`).
pub fn assign_category(categories_field: &str) -> (r: &'static str)
    ensures
        r@ == assigned_categories(categories_field@)[0],
{
    let v = assign_categories(categories_field);
    proof {
        category_assignment_law(categories_field@);
        assert(v@.map_values(|s: &str| s@).len() == v@.len());
    }
    assert(v@.map_values(|s: &str| s@)[0] == v@[0]@);
    v[0]
}

proof fn lemma_assign_fold_props(tokens: Seq<Seq<char>>)
    ensures
        assign_fold(tokens).no_duplicates(),
        forall|k: int| 0 <= k < assign_fold(tokens).len() ==>
            main_categories().contains(#[trigger] assign_fold(tokens)[k]),
    decreases tokens.len(),
{
    if tokens.len() > 0 {
        lemma_assign_fold_props(tokens.drop_last());
        let acc = assign_fold(tokens.drop_last());
        let t = trim(tokens.last());
        if let Some(c) = main_category_of(t) {
            assert(main_categories().contains(c)) by {
                assert(main_categories()[0] == "AudioVideo"@);
                assert(main_categories()[1] == "Development"@);
                assert(main_categories()[2] == "Game"@);
                assert(main_categories()[3] == "Graphics"@);
                assert(main_categories()[4] == "Network"@);
                assert(main_categories()[5] == "Office"@);
                assert(main_categories()[6] == "System"@);
                assert(main_categories()[7] == "Utility"@);
            }
            if !acc.contains(c) {
                let r = acc.push(c);
                assert forall|a: int, b: int| 0 <= a < r.len() && 0 <= b < r.len() && a != b implies r[a] != r[b] by {
                    if b == acc.len() as int {
                        assert(acc.contains(acc[a]));
                    } else if a == acc.len() as int {
                        assert(acc.contains(acc[b]));
                    }
                }
            }
        }
    }
}

/// Every entry lands in at least one category, in no category twice, and
/// only in categories the drawer knows: a main category, or "Other" alone
/// when the field names no main category.
pub proof fn category_assignment_law(field: Seq<char>)
    ensures
        assigned_categories(field).len() >= 1,
        assigned_categories(field).no_duplicates(),
        forall|k: int| 0 <= k < assigned_categories(field).len() ==>
            main_categories().contains(#[trigger] assigned_categories(field)[k])
            || assigned_categories(field) == seq!["Other"@],
{
    lemma_assign_fold_props(split(field, ';'));
}

} // verus!
