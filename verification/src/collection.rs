//! Lists without repetition.

use vstd::prelude::*;
use crate::text;
use crate::text::same_text;

verus! {

/// The items in the order in which each is first seen, each once.
pub open spec fn first_seen<A>(items: Seq<A>) -> Seq<A>
    decreases items.len(),
{
    if items.len() == 0 {
        items
    } else {
        let before = first_seen(items.drop_last());
        if before.contains(items.last()) {
            before
        } else {
            before.push(items.last())
        }
    }
}

/// Keeping what is first seen drops nothing and repeats nothing.
pub proof fn law_first_seen<A>(items: Seq<A>)
    ensures
        first_seen(items).no_duplicates(),
        forall|x: A| #[trigger] first_seen(items).contains(x) <==> items.contains(x),
        first_seen(items).len() <= items.len(),
    decreases items.len(),
{
    if items.len() > 0 {
        let shorter = items.drop_last();
        law_first_seen(shorter);
        let before = first_seen(shorter);
        let all = first_seen(items);
        assert forall|x: A| #[trigger] all.contains(x) <==> items.contains(x) by {
            if items.contains(x) {
                let k = choose|k: int| 0 <= k < items.len() && items[k] == x;
                if k < shorter.len() {
                    assert(shorter[k] == x);
                    assert(shorter.contains(x));
                    assert(before.contains(x));
                    let p = choose|p: int| 0 <= p < before.len() && before[p] == x;
                    assert(all[p] == x);
                } else if !before.contains(x) {
                    assert(all[before.len() as int] == x);
                }
            }
            if all.contains(x) {
                let p = choose|p: int| 0 <= p < all.len() && all[p] == x;
                if p < before.len() {
                    assert(before[p] == x);
                    assert(before.contains(x));
                    assert(shorter.contains(x));
                    let k = choose|k: int| 0 <= k < shorter.len() && shorter[k] == x;
                    assert(items[k] == x);
                } else {
                    assert(x == items.last());
                    assert(items[items.len() - 1] == x);
                }
            }
        }
    }
}

/// Whether a text is in a list.
pub fn has_text(items: &Vec<String>, item: &str) -> (r: bool)
    ensures
        r == text::texts(items@).contains(item@),
{
    let mut i: usize = 0;
    while i < items.len()
        invariant
            i <= items.len(),
            forall|k: int| 0 <= k < i ==> (#[trigger] items@[k])@ != item@,
        decreases items.len() - i,
    {
        if same_text(items[i].as_str(), item) {
            assert(text::texts(items@)[i as int] == item@);
            return true;
        }
        i = i + 1;
    }
    assert forall|k: int| 0 <= k < text::texts(items@).len() implies text::texts(items@)[k] != item@ by {
        assert(items@[k]@ != item@);
    }
    false
}

/// Adds a text to a list, unless it is there.
pub fn add_text(items: &mut Vec<String>, item: &String)
    ensures
        text::texts(final(items)@) == (if text::texts(old(items)@).contains(item@) {
            text::texts(old(items)@)
        } else {
            text::texts(old(items)@).push(item@)
        }),
{
    if !has_text(items, item.as_str()) {
        let ghost before = items@;
        items.push(item.clone());
        assert(text::texts(items@) =~= text::texts(before).push(item@));
    }
}

/// What is first seen stands in the order in which it is first seen.
///
/// Returned is where each item is first seen.
pub proof fn law_first_seen_keeps_the_order<A>(items: Seq<A>) -> (at: Seq<int>)
    ensures
        at.len() == first_seen(items).len(),
        forall|k: int, l: int| 0 <= k < l < at.len() ==> #[trigger] at[k] < #[trigger] at[l],
        forall|k: int|
            0 <= k < at.len() ==> 0 <= #[trigger] at[k] < items.len() && items[at[k]] == first_seen(items)[k] && forall|
                j: int,
            |
                0 <= j < at[k] ==> #[trigger] items[j] != items[at[k]],
    decreases items.len(),
{
    if items.len() == 0 {
        Seq::empty()
    } else {
        let shorter = items.drop_last();
        let last = items.len() - 1;
        let before = law_first_seen_keeps_the_order(shorter);
        law_first_seen(shorter);
        let seen = first_seen(shorter);
        let at = if seen.contains(items.last()) { before } else { before.push(last) };
        assert(forall|j: int| 0 <= j < last ==> #[trigger] items[j] == shorter[j]);
        assert forall|k: int| 0 <= k < at.len() implies 0 <= #[trigger] at[k] < items.len() && items[at[k]] == first_seen(
            items,
        )[k] && forall|j: int| 0 <= j < at[k] ==> #[trigger] items[j] != items[at[k]] by {
            if k < before.len() {
                assert(0 <= before[k] < shorter.len());
                assert forall|j: int| 0 <= j < at[k] implies #[trigger] items[j] != items[at[k]] by {
                    assert(shorter[j] != shorter[before[k]]);
                }
            } else {
                assert forall|j: int| 0 <= j < at[k] implies #[trigger] items[j] != items[at[k]] by {
                    assert(shorter.contains(shorter[j]));
                    assert(seen.contains(shorter[j]));
                }
            }
        }
        at
    }
}

} // verus!
