//! The list of pinned applications shared by the dock and the drawer,
//! and its on-disk form (one item per line).

use vstd::prelude::*;
use crate::text::{chars_of, push_char, split, split_exec, split_from, string_of, trim, trim_vec};

verus! {

/// Whether some item of `pinned` equals `id`, both trimmed.
pub open spec fn pinned_contains(pinned: Seq<Seq<char>>, id: Seq<char>) -> bool {
    exists|i: int| 0 <= i < pinned.len() && trim(#[trigger] pinned[i]) == trim(id)
}

/// `pinned` without the items equal to `id`, both trimmed.
pub open spec fn without_item(pinned: Seq<Seq<char>>, id: Seq<char>) -> Seq<Seq<char>>
    decreases pinned.len(),
{
    if pinned.len() == 0 {
        pinned
    } else if trim(pinned.last()) == trim(id) {
        without_item(pinned.drop_last(), id)
    } else {
        without_item(pinned.drop_last(), id).push(pinned.last())
    }
}

/// Checks if a task ID is in the pinned list (surrounding whitespace is
/// ignored on both sides).
pub fn is_pinned(pinned: &[String], task_id: &str) -> (r: bool)
    ensures
        r == pinned_contains(pinned@.map_values(|s: String| s@), task_id@),
{
    let ghost pv = pinned@.map_values(|s: String| s@);
    let t = trim_vec(&chars_of(task_id));
    let mut i: usize = 0;
    while i < pinned.len()
        invariant
            i <= pinned@.len(),
            pv == pinned@.map_values(|s: String| s@),
            t@ == trim(task_id@),
            forall|k: int| 0 <= k < i ==> trim(#[trigger] pv[k]) != trim(task_id@),
        decreases pinned@.len() - i,
    {
        let p = trim_vec(&chars_of(pinned[i].as_str()));
        assert(pv[i as int] == pinned@[i as int]@);
        if crate::text::chars_eq(&p, &t) {
            return true;
        }
        i += 1;
    }
    false
}

/// Adds an item to the pinned list if not already present.
/// Returns true if the item was added.
pub fn pin_item(pinned: &mut Vec<String>, item_id: &str) -> (added: bool)
    ensures
        added == !pinned_contains(old(pinned)@.map_values(|s: String| s@), item_id@),
        added ==> final(pinned)@.map_values(|s: String| s@) == old(pinned)@.map_values(
            |s: String| s@,
        ).push(item_id@),
        !added ==> final(pinned)@ == old(pinned)@,
{
    if is_pinned(pinned.as_slice(), item_id) {
        return false;
    }
    let ghost before = pinned@.map_values(|s: String| s@);
    pinned.push(item_id.to_owned());
    assert(pinned@.map_values(|s: String| s@) =~= before.push(item_id@));
    true
}

/// The pinned list after dragging the item at `from` onto position `to`:
/// the item leaves its place and is inserted at `to` in what remains (at
/// the end when `to` is past it). A `from` outside the list changes nothing.
pub open spec fn moved_item<A>(pinned: Seq<A>, from: int, to: int) -> Seq<A> {
    if 0 <= from < pinned.len() {
        let rest = pinned.remove(from);
        let at = if to < rest.len() {
            to
        } else {
            rest.len() as int
        };
        rest.insert(at, pinned[from])
    } else {
        pinned
    }
}

/// Moves a pinned item to another position (drag-to-reorder). Returns
/// whether `from` named an item; the items stay the same, only their order
/// may change.
pub fn move_pinned_item(pinned: &mut Vec<String>, from: usize, to: usize) -> (moved: bool)
    ensures
        moved == (from < old(pinned)@.len()),
        final(pinned)@ == moved_item(old(pinned)@, from as int, to as int),
        final(pinned)@.to_multiset() == old(pinned)@.to_multiset(),
{
    let ghost before = pinned@;
    if from >= pinned.len() {
        return false;
    }
    let item = pinned.remove(from);
    let at = if to < pinned.len() {
        to
    } else {
        pinned.len()
    };
    pinned.insert(at, item);
    proof {
        let rest = before.remove(from as int);
        assert(pinned@ == rest.insert(at as int, before[from as int]));
        let x = before[from as int];
        vstd::seq_lib::to_multiset_remove(before, from as int);
        vstd::seq_lib::to_multiset_insert(rest, at as int, x);
        vstd::seq_lib::to_multiset_contains(before, x);
        assert(before.contains(x)) by {
            assert(before[from as int] == x);
        }
        broadcast use vstd::multiset::group_multiset_axioms;
        assert(before.to_multiset().remove(x).insert(x) =~= before.to_multiset());
    }
    true
}

/// Removes an item from the pinned list (every copy of it).
/// Returns true if the item was removed.
pub fn unpin_item(pinned: &mut Vec<String>, item_id: &str) -> (removed: bool)
    ensures
        final(pinned)@.map_values(|s: String| s@) == without_item(
            old(pinned)@.map_values(|s: String| s@),
            item_id@,
        ),
        removed == (final(pinned)@.len() < old(pinned)@.len()),
{
    let ghost pv = pinned@.map_values(|s: String| s@);
    let t = trim_vec(&chars_of(item_id));
    let mut kept: Vec<String> = Vec::new();
    let len = pinned.len();
    let mut i: usize = 0;
    while i < len
        invariant
            len == pinned@.len(),
            i <= len,
            pv == pinned@.map_values(|s: String| s@),
            t@ == trim(item_id@),
            kept@.map_values(|s: String| s@) == without_item(pv.take(i as int), item_id@),
            kept@.len() <= i,
        decreases len - i,
    {
        let p = trim_vec(&chars_of(pinned[i].as_str()));
        assert(pv[i as int] == pinned@[i as int]@);
        assert(pv.take(i + 1).drop_last() =~= pv.take(i as int));
        assert(pv.take(i + 1).last() == pv[i as int]);
        if !crate::text::chars_eq(&p, &t) {
            let ghost before = kept@.map_values(|s: String| s@);
            kept.push(pinned[i].clone());
            assert(kept@.map_values(|s: String| s@) =~= before.push(pv[i as int]));
        }
        i += 1;
    }
    assert(pv.take(len as int) =~= pv);
    let removed = kept.len() < len;
    *pinned = kept;
    removed
}

/// The pinned file's text: every non-empty item followed by a newline.
pub open spec fn pinned_text(items: Seq<Seq<char>>) -> Seq<char>
    decreases items.len(),
{
    if items.len() == 0 {
        Seq::empty()
    } else if items.last().len() == 0 {
        pinned_text(items.drop_last())
    } else {
        pinned_text(items.drop_last()) + items.last() + seq!['\n']
    }
}

/// The non-empty trimmed lines of `lines`, in order.
pub open spec fn nonblank_trimmed(lines: Seq<Seq<char>>) -> Seq<Seq<char>>
    decreases lines.len(),
{
    if lines.len() == 0 {
        Seq::empty()
    } else if trim(lines.last()).len() == 0 {
        nonblank_trimmed(lines.drop_last())
    } else {
        nonblank_trimmed(lines.drop_last()).push(trim(lines.last()))
    }
}

/// The pinned items that a pinned file's text holds: its lines, trimmed,
/// blank ones left out.
pub open spec fn pinned_items(text: Seq<char>) -> Seq<Seq<char>> {
    nonblank_trimmed(split(text, '\n'))
}

/// The text written to the pinned file for a pinned list (one item per
/// line, empty items left out).
pub fn pinned_file_content(pinned: &[String]) -> (r: String)
    ensures
        r@ == pinned_text(pinned@.map_values(|s: String| s@)),
{
    let ghost pv = pinned@.map_values(|s: String| s@);
    let mut out = String::new();
    let mut i: usize = 0;
    while i < pinned.len()
        invariant
            i <= pinned@.len(),
            pv == pinned@.map_values(|s: String| s@),
            out@ == pinned_text(pv.take(i as int)),
        decreases pinned@.len() - i,
    {
        let item = chars_of(pinned[i].as_str());
        assert(pv[i as int] == pinned@[i as int]@);
        assert(pv.take(i + 1).drop_last() =~= pv.take(i as int));
        assert(pv.take(i + 1).last() == pv[i as int]);
        if item.len() > 0 {
            let ghost before = out@;
            let mut j: usize = 0;
            while j < item.len()
                invariant
                    j <= item@.len(),
                    out@ == before + item@.take(j as int),
                decreases item@.len() - j,
            {
                push_char(&mut out, item[j]);
                j += 1;
                assert(out@ =~= before + item@.take(j as int));
            }
            push_char(&mut out, '\n');
            assert(item@.take(item@.len() as int) =~= item@);
        }
        i += 1;
    }
    assert(pv.take(pinned@.len() as int) =~= pv);
    out
}

/// The pinned list held by the pinned file's text.
pub fn parse_pinned(content: &str) -> (r: Vec<String>)
    ensures
        r.deep_view() == pinned_items(content@),
{
    let lines = split_exec(&chars_of(content), '\n');
    let ghost lv = lines.deep_view();
    let mut out: Vec<String> = Vec::new();
    let mut i: usize = 0;
    while i < lines.len()
        invariant
            i <= lines@.len(),
            lv == lines.deep_view(),
            lv == split(content@, '\n'),
            out.deep_view() == nonblank_trimmed(lv.take(i as int)),
        decreases lines@.len() - i,
    {
        let t = trim_vec(&chars_of(lines[i].as_str()));
        assert(lv.take(i + 1).drop_last() =~= lv.take(i as int));
        assert(lv.take(i + 1).last() == lines@[i as int]@);
        if t.len() > 0 {
            let ghost before = out.deep_view();
            out.push(string_of(&t));
            assert(out.deep_view() =~= before.push(t@));
        }
        i += 1;
    }
    assert(lv.take(lines@.len() as int) =~= lv);
    out
}


proof fn lemma_split_no_delim(cur: Seq<char>, x: Seq<char>, d: char)
    requires
        !x.contains(d),
    ensures
        split_from(cur, x, d) == seq![cur + x],
    decreases x.len(),
{
    if x.len() == 0 {
        assert(cur + x =~= cur);
    } else {
        assert(x[0] != d) by {
            assert(x.contains(x[0]));
        }
        assert(!x.drop_first().contains(d)) by {
            if x.drop_first().contains(d) {
                let k = choose|k: int| 0 <= k < x.drop_first().len() && x.drop_first()[k] == d;
                assert(x[k + 1] == d);
            }
        }
        lemma_split_no_delim(cur.push(x[0]), x.drop_first(), d);
        assert(cur.push(x[0]) + x.drop_first() =~= cur + x);
    }
}

proof fn lemma_split_at_delim(cur: Seq<char>, a: Seq<char>, b: Seq<char>, d: char)
    ensures
        split_from(cur, a + seq![d] + b, d) == split_from(cur, a, d) + split_from(Seq::empty(), b, d),
    decreases a.len(),
{
    if a.len() == 0 {
        assert(a + seq![d] + b =~= seq![d] + b);
        assert((seq![d] + b).drop_first() =~= b);
    } else {
        assert((a + seq![d] + b)[0] == a[0]);
        assert((a + seq![d] + b).drop_first() =~= a.drop_first() + seq![d] + b);
        if a[0] == d {
            lemma_split_at_delim(Seq::empty(), a.drop_first(), b, d);
            assert(seq![cur] + (split_from(Seq::empty(), a.drop_first(), d) + split_from(
                Seq::empty(),
                b,
                d,
            )) =~= (seq![cur] + split_from(Seq::empty(), a.drop_first(), d)) + split_from(
                Seq::empty(),
                b,
                d,
            ));
        } else {
            lemma_split_at_delim(cur.push(a[0]), a.drop_first(), b, d);
        }
    }
}

/// Items that survive a save and a load unchanged.
pub open spec fn storable_item(x: Seq<char>) -> bool {
    x.len() > 0 && trim(x) == x && !x.contains('\n')
}

proof fn lemma_split_pinned_text(items: Seq<Seq<char>>)
    requires
        forall|k: int| 0 <= k < items.len() ==> storable_item(#[trigger] items[k]),
    ensures
        split(pinned_text(items), '\n') == items.push(Seq::empty()),
    decreases items.len(),
{
    if items.len() == 0 {
        assert(split(Seq::empty(), '\n') =~= seq![Seq::<char>::empty()]);
        assert(items.push(Seq::empty()) =~= seq![Seq::<char>::empty()]);
    } else {
        let init = items.drop_last();
        let x = items.last();
        assert(storable_item(items[items.len() - 1]));
        lemma_split_pinned_text(init);
        let t = pinned_text(init);
        assert(pinned_text(items) == t + x + seq!['\n']);
        assert(t + x + seq!['\n'] =~= (t + x) + seq!['\n'] + Seq::<char>::empty());
        lemma_split_at_delim(Seq::empty(), t + x, Seq::empty(), '\n');
        assert(split_from(Seq::empty(), Seq::empty(), '\n') == seq![Seq::<char>::empty()]);
        // split of t + x is init followed by x
        if init.len() == 0 {
            assert(t =~= Seq::<char>::empty());
            assert(t + x =~= x);
            lemma_split_no_delim(Seq::empty(), x, '\n');
            assert(Seq::<char>::empty() + x =~= x);
            assert(split_from(Seq::empty(), t + x, '\n') =~= init.push(x));
        } else {
            let a = pinned_text(init.drop_last()) + init.last();
            assert(init.last() == init[init.len() - 1]);
            if init.last().len() == 0 {
                assert(storable_item(init[init.len() - 1]));
            }
            assert(t == a + seq!['\n']);
            assert(t + x =~= a + seq!['\n'] + x);
            lemma_split_at_delim(Seq::empty(), a, x, '\n');
            lemma_split_no_delim(Seq::empty(), x, '\n');
            assert(Seq::<char>::empty() + x =~= x);
            assert(t =~= a + seq!['\n'] + Seq::<char>::empty());
            lemma_split_at_delim(Seq::empty(), a, Seq::empty(), '\n');
            assert(split_from(Seq::empty(), a, '\n') + seq![Seq::<char>::empty()] == init.push(
                Seq::empty(),
            ));
            assert(split_from(Seq::empty(), a, '\n') =~= init) by {
                let sa = split_from(Seq::empty(), a, '\n');
                assert(sa.len() + 1 == init.len() + 1);
                assert forall|k: int| 0 <= k < sa.len() implies sa[k] == init[k] by {
                    assert((sa + seq![Seq::<char>::empty()])[k] == init.push(Seq::empty())[k]);
                }
            }
            assert(split_from(Seq::empty(), t + x, '\n') =~= init.push(x));
        }
        assert(items =~= init.push(x));
        assert(split(pinned_text(items), '\n') =~= init.push(x) + seq![Seq::<char>::empty()]);
    }
}

proof fn lemma_nonblank_trimmed_storable(items: Seq<Seq<char>>)
    requires
        forall|k: int| 0 <= k < items.len() ==> storable_item(#[trigger] items[k]),
    ensures
        nonblank_trimmed(items) == items,
    decreases items.len(),
{
    if items.len() > 0 {
        assert(storable_item(items[items.len() - 1]));
        lemma_nonblank_trimmed_storable(items.drop_last());
        assert(items.drop_last().push(items.last()) =~= items);
    }
}

/// Saving a pinned list and loading it back gives the same list, for
/// items that are non-empty, carry no surrounding whitespace and hold no
/// newline.
pub proof fn pinned_roundtrip_law(items: Seq<Seq<char>>)
    requires
        forall|k: int| 0 <= k < items.len() ==> storable_item(#[trigger] items[k]),
    ensures
        pinned_items(pinned_text(items)) == items,
{
    lemma_split_pinned_text(items);
    let s = items.push(Seq::empty());
    assert(s.drop_last() =~= items);
    assert(trim(s.last()).len() == 0);
    lemma_nonblank_trimmed_storable(items);
}

/// An item is pinned right after pinning it, and no longer pinned after
/// unpinning it.
pub proof fn pin_unpin_law(pinned: Seq<Seq<char>>, id: Seq<char>)
    ensures
        pinned_contains(pinned.push(id), id),
        !pinned_contains(without_item(pinned, id), id),
{
    assert(pinned.push(id)[pinned.len() as int] == id);
    lemma_without_item(pinned, id);
}

proof fn lemma_without_item(pinned: Seq<Seq<char>>, id: Seq<char>)
    ensures
        !pinned_contains(without_item(pinned, id), id),
        !pinned_contains(pinned, id) ==> without_item(pinned, id) == pinned,
    decreases pinned.len(),
{
    if pinned.len() > 0 {
        lemma_without_item(pinned.drop_last(), id);
        let w = without_item(pinned.drop_last(), id);
        if trim(pinned.last()) != trim(id) {
            assert forall|i: int| 0 <= i < w.push(pinned.last()).len() implies trim(
                #[trigger] w.push(pinned.last())[i],
            ) != trim(id) by {
                if i < w.len() {
                    assert(w.push(pinned.last())[i] == w[i]);
                }
            }
        }
        if !pinned_contains(pinned, id) {
            assert(!pinned_contains(pinned.drop_last(), id)) by {
                if pinned_contains(pinned.drop_last(), id) {
                    let i = choose|i: int| 0 <= i < pinned.drop_last().len() && trim(
                        #[trigger] pinned.drop_last()[i],
                    ) == trim(id);
                    assert(pinned[i] == pinned.drop_last()[i]);
                }
            }
            assert(trim(pinned[pinned.len() - 1]) != trim(id));
            assert(pinned.drop_last().push(pinned.last()) =~= pinned);
        }
    }
}

/// Unpinning an item that was just pinned restores the list, when the
/// item was not pinned before.
pub proof fn pin_then_unpin_law(pinned: Seq<Seq<char>>, id: Seq<char>)
    requires
        !pinned_contains(pinned, id),
    ensures
        without_item(pinned.push(id), id) == pinned,
{
    assert(pinned.push(id).drop_last() =~= pinned);
    lemma_without_item(pinned, id);
}

} // verus!
