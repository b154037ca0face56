//! Collecting items in order, without repetitions.

use vstd::prelude::*;
use crate::exchange::ExchangeId;
use crate::instrument::{Asset, Instrument};
use crate::text;
use crate::text::{is_text_before, same_text};

verus! {

/// Items with an order among them, and with a notion of being the same.
pub trait Ranked: Sized {
    spec fn before(self, other: Self) -> bool;

    spec fn same(self, other: Self) -> bool;

    /// Not coming before another item is reflexive and transitive, and of two items at most one
    /// comes before the other.
    proof fn order_holds(a: Self, b: Self, c: Self)
        ensures
            !a.before(a),
            a.before(b) ==> !b.before(a),
            !b.before(a) && !c.before(b) ==> !c.before(a),
    ;

    /// Being the same is reflexive and symmetric.
    proof fn sameness_holds(a: Self, b: Self)
        ensures
            a.same(a),
            a.same(b) ==> b.same(a),
    ;

    fn is_before(&self, other: &Self) -> (r: bool)
        ensures
            r == self.before(*other),
    ;

    fn is_same(&self, other: &Self) -> (r: bool)
        ensures
            r == self.same(*other),
    ;
}

/// Whether no item comes before one in front of it.
pub open spec fn in_order<T: Ranked>(items: Seq<T>) -> bool {
    forall|i: int, j: int| 0 <= i < j < items.len() ==> !(#[trigger] items[j]).before(#[trigger] items[i])
}

/// Whether no two items are the same.
pub open spec fn without_repetition<T: Ranked>(items: Seq<T>) -> bool {
    forall|i: int, j: int| 0 <= i < j < items.len() ==> !(#[trigger] items[i]).same(#[trigger] items[j])
}

/// Whether one of the items is the same as `item`.
pub open spec fn has_same<T: Ranked>(items: Seq<T>, item: T) -> bool {
    exists|i: int| 0 <= i < items.len() && (#[trigger] items[i]).same(item)
}

/// Whether `items` is what was added, in order and without repetition.
#[verifier::opaque]
pub open spec fn sorted_set_of<T: Ranked>(items: Seq<T>, added: Seq<T>) -> bool {
    &&& in_order(items)
    &&& without_repetition(items)
    &&& forall|i: int| 0 <= i < items.len() ==> added.contains(#[trigger] items[i])
    &&& forall|i: int| 0 <= i < added.len() ==> has_same(items, #[trigger] added[i])
}

/// Where an item was added.
pub proof fn lemma_was_added<T: Ranked>(items: Seq<T>, added: Seq<T>, i: int) -> (at: int)
    requires
        sorted_set_of(items, added),
        0 <= i < items.len(),
    ensures
        0 <= at < added.len(),
        added[at] == items[i],
{
    reveal(sorted_set_of);
    assert(added.contains(items[i]));
    choose|at: int| 0 <= at < added.len() && added[at] == items[i]
}

/// Of two items the later one does not come before the earlier one, and is another.
pub proof fn lemma_are_in_order<T: Ranked>(items: Seq<T>, added: Seq<T>, i: int, j: int)
    requires
        sorted_set_of(items, added),
        0 <= i < j < items.len(),
    ensures
        !items[j].before(items[i]),
        !items[i].same(items[j]),
{
    reveal(sorted_set_of);
}

/// Where what was added is kept.
pub proof fn lemma_is_kept<T: Ranked>(items: Seq<T>, added: Seq<T>, i: int) -> (at: int)
    requires
        sorted_set_of(items, added),
        0 <= i < added.len(),
    ensures
        0 <= at < items.len(),
        items[at].same(added[i]),
{
    reveal(sorted_set_of);
    assert(has_same(items, added[i]));
    choose|at: int| 0 <= at < items.len() && (#[trigger] items[at]).same(added[i])
}

proof fn lemma_insert_in_order<T: Ranked>(items: Seq<T>, item: T, at: int)
    requires
        0 <= at <= items.len(),
        in_order(items),
        forall|k: int| 0 <= k < at ==> !item.before(#[trigger] items[k]),
        at < items.len() ==> item.before(items[at]),
    ensures
        in_order(items.insert(at, item)),
{
    let new = items.insert(at, item);
    assert forall|j: int, k: int| 0 <= j < k < new.len() implies !(#[trigger] new[k]).before(#[trigger] new[j]) by {
        if j == at {
            let next = items[at];
            let other = items[k - 1];
            T::order_holds(item, next, next);
            if k - 1 > at {
                assert(!other.before(next));
                T::order_holds(item, next, other);
            }
        } else if k == at {
            assert(!item.before(items[j]));
        } else {
            let p = if j < at { j } else { j - 1 };
            let q = if k < at { k } else { k - 1 };
            assert(new[j] == items[p] && new[k] == items[q]);
            assert(!items[q].before(items[p]));
        }
    }
}

proof fn lemma_insert_without_repetition<T: Ranked>(items: Seq<T>, item: T, at: int)
    requires
        0 <= at <= items.len(),
        without_repetition(items),
        forall|k: int| 0 <= k < items.len() ==> !(#[trigger] items[k]).same(item),
    ensures
        without_repetition(items.insert(at, item)),
{
    let new = items.insert(at, item);
    assert forall|j: int, k: int| 0 <= j < k < new.len() implies !(#[trigger] new[j]).same(#[trigger] new[k]) by {
        if j == at {
            T::sameness_holds(item, items[k - 1]);
            assert(!items[k - 1].same(item));
        } else if k == at {
            assert(!items[j].same(item));
        } else {
            let p = if j < at { j } else { j - 1 };
            let q = if k < at { k } else { k - 1 };
            assert(new[j] == items[p] && new[k] == items[q]);
            assert(!items[p].same(items[q]));
        }
    }
}

proof fn lemma_insert_members<T: Ranked>(items: Seq<T>, item: T, at: int, added: Seq<T>)
    requires
        0 <= at <= items.len(),
        forall|i: int| 0 <= i < items.len() ==> added.contains(#[trigger] items[i]),
        forall|i: int| 0 <= i < added.len() ==> has_same(items, #[trigger] added[i]),
    ensures
        forall|i: int|
            0 <= i < items.insert(at, item).len() ==> added.push(item).contains(
                #[trigger] items.insert(at, item)[i],
            ),
        forall|i: int| 0 <= i < added.push(item).len() ==> has_same(
            items.insert(at, item),
            #[trigger] added.push(item)[i],
        ),
{
    let new = items.insert(at, item);
    let all = added.push(item);
    assert forall|j: int| 0 <= j < new.len() implies all.contains(#[trigger] new[j]) by {
        if j == at {
            assert(all[added.len() as int] == item);
        } else {
            let p = if j < at { j } else { j - 1 };
            assert(added.contains(items[p]));
            let k = choose|k: int| 0 <= k < added.len() && added[k] == items[p];
            assert(all[k] == new[j]);
        }
    }
    assert forall|k: int| 0 <= k < all.len() implies has_same(new, #[trigger] all[k]) by {
        if k < added.len() {
            assert(has_same(items, added[k]));
            let p = choose|p: int| 0 <= p < items.len() && (#[trigger] items[p]).same(added[k]);
            let q = if p < at { p } else { p + 1 };
            assert(new[q] == items[p]);
            assert(new[q].same(all[k]));
        } else {
            T::sameness_holds(item, item);
            assert(new[at].same(all[k]));
        }
    }
}

proof fn lemma_known_member<T: Ranked>(items: Seq<T>, item: T, at: int, added: Seq<T>)
    requires
        sorted_set_of(items, added),
        0 <= at < items.len(),
        items[at].same(item),
    ensures
        sorted_set_of(items, added.push(item)),
{
    reveal(sorted_set_of);
    let all = added.push(item);
    assert forall|j: int| 0 <= j < items.len() implies all.contains(#[trigger] items[j]) by {
        assert(added.contains(items[j]));
        let k = choose|k: int| 0 <= k < added.len() && added[k] == items[j];
        assert(all[k] == items[j]);
    }
    assert forall|k: int| 0 <= k < all.len() implies has_same(items, #[trigger] all[k]) by {
        if k < added.len() {
            assert(has_same(items, added[k]));
            assert(all[k] == added[k]);
        } else {
            assert(items[at].same(all[k]));
        }
    }
}

/// Puts an item into its place, unless the same one is there.
fn insert<T: Ranked>(items: Vec<T>, item: T, Ghost(added): Ghost<Seq<T>>) -> (r: Vec<T>)
    requires
        sorted_set_of(items@, added),
    ensures
        sorted_set_of(r@, added.push(item)),
{
    let mut items = items;
    let ghost before = items@;
    let mut i: usize = 0;
    while i < items.len()
        invariant
            i <= items.len(),
            items@ == before,
            sorted_set_of(before, added),
            forall|k: int| 0 <= k < i ==> !(#[trigger] before[k]).same(item),
        decreases items.len() - i,
    {
        if items[i].is_same(&item) {
            proof {
                lemma_known_member(before, item, i as int, added);
            }
            return items;
        }
        i = i + 1;
    }
    let mut at: usize = 0;
    while at < items.len() && !item.is_before(&items[at])
        invariant
            at <= items.len(),
            items@ == before,
            forall|k: int| 0 <= k < at ==> !item.before(#[trigger] before[k]),
        decreases items.len() - at,
    {
        at = at + 1;
    }
    proof {
        reveal(sorted_set_of);
        lemma_insert_in_order(before, item, at as int);
        lemma_insert_without_repetition(before, item, at as int);
        lemma_insert_members(before, item, at as int, added);
    }
    items.insert(at, item);
    items
}

/// What was added, in order and without repetition.
pub fn sort_distinct<T: Ranked>(added: Vec<T>) -> (r: Vec<T>)
    ensures
        sorted_set_of(r@, added@),
{
    let mut left = added;
    let ghost all = left@;
    let mut items: Vec<T> = Vec::new();
    let ghost mut taken: Seq<T> = Seq::empty();
    assert(sorted_set_of(items@, taken)) by {
        reveal(sorted_set_of);
    }
    loop
        invariant
            sorted_set_of(items@, taken),
            left@.len() + taken.len() == all.len(),
            forall|i: int| 0 <= i < left@.len() ==> left@[i] == #[trigger] all[i],
            forall|i: int| 0 <= i < taken.len() ==> #[trigger] taken[i] == all[all.len() - 1 - i],
        ensures
            sorted_set_of(items@, taken),
            left@.len() == 0,
            left@.len() + taken.len() == all.len(),
            forall|i: int| 0 <= i < taken.len() ==> #[trigger] taken[i] == all[all.len() - 1 - i],
        decreases left.len(),
    {
        match left.pop() {
            Some(item) => {
                let ghost before = taken;
                proof {
                    taken = taken.push(item);
                }
                items = insert(items, item, Ghost(before));
            },
            None => {
                break;
            },
        }
    }
    proof {
        reveal(sorted_set_of);
        assert forall|i: int| 0 <= i < items@.len() implies all.contains(#[trigger] items@[i]) by {
            assert(taken.contains(items@[i]));
            let k = choose|k: int| 0 <= k < taken.len() && taken[k] == items@[i];
            assert(all[all.len() - 1 - k] == items@[i]);
        }
        assert forall|i: int| 0 <= i < all.len() implies has_same(items@, #[trigger] all[i]) by {
            assert(taken[all.len() - 1 - i] == all[i]);
            assert(has_same(items@, taken[all.len() - 1 - i]));
        }
    }
    items
}

impl Ranked for ExchangeId {
    open spec fn before(self, other: ExchangeId) -> bool {
        self.rank() < other.rank()
    }

    open spec fn same(self, other: ExchangeId) -> bool {
        self == other
    }

    proof fn order_holds(a: ExchangeId, b: ExchangeId, c: ExchangeId) {
    }

    proof fn sameness_holds(a: ExchangeId, b: ExchangeId) {
    }

    fn is_before(&self, other: &ExchangeId) -> (r: bool) {
        self.position() < other.position()
    }

    fn is_same(&self, other: &ExchangeId) -> (r: bool) {
        *self == *other
    }
}

/// An asset on a venue.
#[derive(Debug, PartialEq, Eq, Hash)]
pub struct ExchangeAsset {
    pub exchange: ExchangeId,
    pub asset: Asset,
}

impl ExchangeAsset {
    /// The asset on the venue.
    pub fn new(exchange: ExchangeId, asset: Asset) -> (r: ExchangeAsset)
        ensures
            r == (ExchangeAsset { exchange, asset }),
    {
        ExchangeAsset { exchange, asset }
    }
}

/// Whether a venue and two names come before another venue and two names: the venue counts first,
/// the first name next, the second name last.
pub open spec fn names_before(
    a: (ExchangeId, Seq<char>, Seq<char>),
    b: (ExchangeId, Seq<char>, Seq<char>),
) -> bool {
    ||| a.0.rank() < b.0.rank()
    ||| a.0 == b.0 && text::text_before(a.1, b.1)
    ||| a.0 == b.0 && a.1 == b.1 && text::text_before(a.2, b.2)
}

pub proof fn lemma_names_order(
    a: (ExchangeId, Seq<char>, Seq<char>),
    b: (ExchangeId, Seq<char>, Seq<char>),
    c: (ExchangeId, Seq<char>, Seq<char>),
)
    ensures
        !names_before(a, a),
        names_before(a, b) ==> !names_before(b, a),
        !names_before(b, a) && !names_before(c, b) ==> !names_before(c, a),
        a != b ==> names_before(a, b) || names_before(b, a),
{
    lemma_rank(a.0, b.0);
    text::law_text_order(a.1, b.1);
    text::law_text_order(a.2, b.2);
    text::law_text_order(b.1, c.1);
    text::law_text_order(b.2, c.2);
    text::law_text_order(c.1, a.1);
    text::law_text_order(c.2, a.2);
    text::law_text_order(b.1, a.1);
    text::law_text_order(b.2, a.2);
    if text::text_before(c.1, a.1) && text::text_before(a.1, b.1) {
        text::law_text_order_transitive(c.1, a.1, b.1);
    }
    if text::text_before(c.2, a.2) && text::text_before(a.2, b.2) {
        text::law_text_order_transitive(c.2, a.2, b.2);
    }
}

/// Two venues with the same rank are the same venue.
proof fn lemma_rank(a: ExchangeId, b: ExchangeId)
    ensures
        a.rank() == b.rank() <==> a == b,
{
}

fn are_names_before(
    exchange: ExchangeId,
    first: &String,
    second: &String,
    other_exchange: ExchangeId,
    other_first: &String,
    other_second: &String,
) -> (r: bool)
    ensures
        r == names_before((exchange, first@, second@), (other_exchange, other_first@, other_second@)),
{
    proof {
        lemma_rank(exchange, other_exchange);
        text::law_text_order(first@, other_first@);
    }
    if exchange.position() != other_exchange.position() {
        return exchange.position() < other_exchange.position();
    }
    if !same_text(first.as_str(), other_first.as_str()) {
        return is_text_before(first.as_str(), other_first.as_str());
    }
    is_text_before(second.as_str(), other_second.as_str())
}

impl ExchangeAsset {
    /// By what assets are ordered.
    pub open spec fn key(self) -> (ExchangeId, Seq<char>, Seq<char>) {
        (self.exchange, self.asset.name_internal@, self.asset.name_exchange@)
    }
}

impl Ranked for ExchangeAsset {
    open spec fn before(self, other: ExchangeAsset) -> bool {
        names_before(self.key(), other.key())
    }

    open spec fn same(self, other: ExchangeAsset) -> bool {
        self.key() == other.key()
    }

    proof fn order_holds(a: ExchangeAsset, b: ExchangeAsset, c: ExchangeAsset) {
        lemma_names_order(a.key(), b.key(), c.key());
    }

    proof fn sameness_holds(a: ExchangeAsset, b: ExchangeAsset) {
    }

    fn is_before(&self, other: &ExchangeAsset) -> (r: bool) {
        are_names_before(
            self.exchange,
            &self.asset.name_internal,
            &self.asset.name_exchange,
            other.exchange,
            &other.asset.name_internal,
            &other.asset.name_exchange,
        )
    }

    fn is_same(&self, other: &ExchangeAsset) -> (r: bool) {
        self.exchange == other.exchange && self.asset.is_same_as(&other.asset)
    }
}

impl Instrument<ExchangeId, Asset> {
    /// By what instruments are ordered.
    pub open spec fn key(self) -> (ExchangeId, Seq<char>, Seq<char>) {
        (self.exchange, self.name_internal@, self.name_exchange@)
    }
}

impl Ranked for Instrument<ExchangeId, Asset> {
    open spec fn before(self, other: Instrument<ExchangeId, Asset>) -> bool {
        names_before(self.key(), other.key())
    }

    open spec fn same(self, other: Instrument<ExchangeId, Asset>) -> bool {
        self.same_as(other)
    }

    proof fn order_holds(
        a: Instrument<ExchangeId, Asset>,
        b: Instrument<ExchangeId, Asset>,
        c: Instrument<ExchangeId, Asset>,
    ) {
        lemma_names_order(a.key(), b.key(), c.key());
    }

    proof fn sameness_holds(a: Instrument<ExchangeId, Asset>, b: Instrument<ExchangeId, Asset>) {
    }

    fn is_before(&self, other: &Instrument<ExchangeId, Asset>) -> (r: bool) {
        are_names_before(
            self.exchange,
            &self.name_internal,
            &self.name_exchange,
            other.exchange,
            &other.name_internal,
            &other.name_exchange,
        )
    }

    fn is_same(&self, other: &Instrument<ExchangeId, Asset>) -> (r: bool) {
        self.is_same_as(other)
    }
}

} // verus!
