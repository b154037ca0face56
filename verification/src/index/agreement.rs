//! When two collections of instruments are the same: the order in which instruments were added, and
//! adding one again, make no difference.

use vstd::prelude::*;
use crate::exchange::ExchangeId;
use crate::index::builder;
use crate::index::error::IndexError;
use crate::index::sorting;
use crate::index::sorting::{ExchangeAsset, Ranked};
use crate::index::{AssetIndex, ExchangeIndex, IndexedInstrument, IndexedInstruments, Keyed};
use crate::instrument::data_venue::DataVenue;
use crate::instrument::{Asset, Instrument, InstrumentKind, InstrumentSpec};
use crate::market;
use crate::text;

verus! {

/// Whether two kinds of indexed instruments are the same in every field.
pub open spec fn same_indexed_kind(a: InstrumentKind<AssetIndex>, b: InstrumentKind<AssetIndex>) -> bool {
    match (a, b) {
        (InstrumentKind::Spot, InstrumentKind::Spot) => true,
        (InstrumentKind::Perpetual(x), InstrumentKind::Perpetual(y)) => {
            &&& market::same_number(x.contract_size, y.contract_size)
            &&& x.settlement_asset == y.settlement_asset
        },
        (InstrumentKind::Future(x), InstrumentKind::Future(y)) => {
            &&& market::same_number(x.contract_size, y.contract_size)
            &&& x.settlement_asset == y.settlement_asset
            &&& x.expiry == y.expiry
        },
        (InstrumentKind::OptionContract(x), InstrumentKind::OptionContract(y)) => {
            &&& market::same_number(x.contract_size, y.contract_size)
            &&& x.settlement_asset == y.settlement_asset
            &&& x.kind == y.kind
            &&& x.expiry == y.expiry
            &&& market::same_number(x.strike, y.strike)
        },
        (InstrumentKind::Cfd(x), InstrumentKind::Cfd(y)) => {
            &&& market::same_number(x.contract_size, y.contract_size)
            &&& x.settlement_asset == y.settlement_asset
        },
        _ => false,
    }
}

/// Whether two specs of indexed instruments are the same in every field.
pub open spec fn same_indexed_spec(
    a: Option<InstrumentSpec<AssetIndex>>,
    b: Option<InstrumentSpec<AssetIndex>>,
) -> bool {
    match (a, b) {
        (None, None) => true,
        (Some(x), Some(y)) => {
            &&& market::same_number(x.price.min, y.price.min)
            &&& market::same_number(x.price.tick_size, y.price.tick_size)
            &&& x.quantity.unit == y.quantity.unit
            &&& market::same_number(x.quantity.min, y.quantity.min)
            &&& market::same_number(x.quantity.increment, y.quantity.increment)
            &&& market::same_number(x.notional.min, y.notional.min)
        },
        _ => false,
    }
}

/// Whether two indexed data venues are the same.
pub open spec fn same_indexed_venue(
    a: Option<DataVenue<Keyed<ExchangeIndex, ExchangeId>>>,
    b: Option<DataVenue<Keyed<ExchangeIndex, ExchangeId>>>,
) -> bool {
    match (a, b) {
        (None, None) => true,
        (Some(x), Some(y)) => x.exchange == y.exchange && match (x.name_exchange, y.name_exchange) {
            (None, None) => true,
            (Some(p), Some(q)) => p@ == q@,
            _ => false,
        },
        _ => false,
    }
}

/// Whether two indexed instruments are the same in every field.
pub open spec fn same_indexed(a: IndexedInstrument, b: IndexedInstrument) -> bool {
    &&& a.exchange == b.exchange
    &&& a.name_internal@ == b.name_internal@
    &&& a.name_exchange@ == b.name_exchange@
    &&& a.underlying == b.underlying
    &&& a.quote == b.quote
    &&& same_indexed_kind(a.kind, b.kind)
    &&& same_indexed_spec(a.spec, b.spec)
    &&& same_indexed_venue(a.data_venue, b.data_venue)
}

/// Whether two collections are the same: the same venues, assets and instruments, under the same
/// indexes.
pub open spec fn same_collection(a: IndexedInstruments, b: IndexedInstruments) -> bool {
    &&& a.spec_exchanges() == b.spec_exchanges()
    &&& a.spec_assets().len() == b.spec_assets().len()
    &&& forall|i: int|
        0 <= i < a.spec_assets().len() ==> {
            &&& (#[trigger] a.spec_assets()[i]).key == b.spec_assets()[i].key
            &&& a.spec_assets()[i].value.same(b.spec_assets()[i].value)
        }
    &&& a.spec_instruments().len() == b.spec_instruments().len()
    &&& forall|i: int|
        0 <= i < a.spec_instruments().len() ==> {
            &&& (#[trigger] a.spec_instruments()[i]).key == b.spec_instruments()[i].key
            &&& same_indexed(a.spec_instruments()[i].value, b.spec_instruments()[i].value)
        }
}

/// Whether two lists hold the same instruments, in whatever order and however often each.
#[verifier::opaque]
pub open spec fn same_members(
    a: Seq<Instrument<ExchangeId, Asset>>,
    b: Seq<Instrument<ExchangeId, Asset>>,
) -> bool {
    &&& forall|i: int| 0 <= i < a.len() ==> sorting::has_same(b, #[trigger] a[i])
    &&& forall|i: int| 0 <= i < b.len() ==> sorting::has_same(a, #[trigger] b[i])
}

proof fn lemma_members_either_way(a: Seq<Instrument<ExchangeId, Asset>>, b: Seq<Instrument<ExchangeId, Asset>>)
    requires
        same_members(a, b),
    ensures
        same_members(b, a),
{
    reveal(same_members);
}

/// Whether every key comes before those behind it.
spec fn ascends(keys: Seq<(ExchangeId, Seq<char>, Seq<char>)>) -> bool {
    forall|i: int, j: int| 0 <= i < j < keys.len() ==> sorting::names_before(#[trigger] keys[i], #[trigger] keys[j])
}

/// Ascending keys are told by which they are.
proof fn lemma_ascending_keys(
    a: Seq<(ExchangeId, Seq<char>, Seq<char>)>,
    b: Seq<(ExchangeId, Seq<char>, Seq<char>)>,
)
    requires
        ascends(a),
        ascends(b),
        forall|i: int| 0 <= i < a.len() ==> b.contains(#[trigger] a[i]),
        forall|i: int| 0 <= i < b.len() ==> a.contains(#[trigger] b[i]),
    ensures
        a == b,
    decreases a.len(),
{
    if a.len() == 0 {
        if b.len() > 0 {
            assert(a.contains(b[0]));
        }
        assert(a =~= b);
    } else {
        assert(b.contains(a[0]));
        let x = a.last();
        let y = b.last();
        assert(b.contains(a[a.len() - 1]));
        assert(a.contains(b[b.len() - 1]));
        let i = choose|i: int| 0 <= i < a.len() && a[i] == y;
        let j = choose|j: int| 0 <= j < b.len() && b[j] == x;
        sorting::lemma_names_order(x, y, x);
        assert(x == y) by {
            if i < a.len() - 1 && j < b.len() - 1 {
                assert(sorting::names_before(a[i], a[a.len() - 1]));
                assert(sorting::names_before(b[j], b[b.len() - 1]));
            }
        }
        let shorter = a.drop_last();
        let other = b.drop_last();
        assert forall|k: int| 0 <= k < shorter.len() implies other.contains(#[trigger] shorter[k]) by {
            assert(b.contains(a[k]));
            let p = choose|p: int| 0 <= p < b.len() && b[p] == a[k];
            assert(sorting::names_before(a[k], a[a.len() - 1]));
            assert(other[p] == shorter[k]);
        }
        assert forall|k: int| 0 <= k < other.len() implies shorter.contains(#[trigger] other[k]) by {
            assert(a.contains(b[k]));
            let p = choose|p: int| 0 <= p < a.len() && a[p] == b[k];
            assert(sorting::names_before(b[k], b[b.len() - 1]));
            assert(shorter[p] == other[k]);
        }
        assert(ascends(shorter)) by {
            assert forall|p: int, q: int| 0 <= p < q < shorter.len() implies sorting::names_before(
                #[trigger] shorter[p],
                #[trigger] shorter[q],
            ) by {
                assert(sorting::names_before(a[p], a[q]));
            }
        }
        assert(ascends(other)) by {
            assert forall|p: int, q: int| 0 <= p < q < other.len() implies sorting::names_before(
                #[trigger] other[p],
                #[trigger] other[q],
            ) by {
                assert(sorting::names_before(b[p], b[q]));
            }
        }
        lemma_ascending_keys(shorter, other);
        assert(a =~= shorter.push(x));
        assert(b =~= other.push(y));
    }
}

/// Being the same instrument carries over from one to the next.
proof fn lemma_same_instruments(
    a: Instrument<ExchangeId, Asset>,
    b: Instrument<ExchangeId, Asset>,
    c: Instrument<ExchangeId, Asset>,
)
    requires
        a.same_as(b),
        b.same_as(c),
    ensures
        a.same_as(c),
{
}

proof fn lemma_clash_carries_over(a: Seq<Instrument<ExchangeId, Asset>>, b: Seq<Instrument<ExchangeId, Asset>>)
    requires
        same_members(a, b),
        builder::without_clash(a),
    ensures
        builder::without_clash(b),
{
    reveal(same_members);
    assert forall|i: int, j: int| 0 <= i < b.len() && 0 <= j < b.len() implies !#[trigger] builder::clash(
        b[i],
        b[j],
    ) by {
        assert(sorting::has_same(a, b[i]));
        assert(sorting::has_same(a, b[j]));
        let p = choose|p: int| 0 <= p < a.len() && (#[trigger] a[p]).same(b[i]);
        let q = choose|q: int| 0 <= q < a.len() && (#[trigger] a[q]).same(b[j]);
        if builder::clash(b[i], b[j]) {
            assert(!builder::clash(a[p], a[q]));
            Instrument::sameness_holds(a[p], b[i]);
            lemma_same_instruments(b[i], a[p], a[q]);
            lemma_same_instruments(b[i], a[q], b[j]);
        }
    }
}

/// By what assets are ordered.
spec fn asset_keys(assets: Seq<ExchangeAsset>) -> Seq<(ExchangeId, Seq<char>, Seq<char>)> {
    assets.map_values(|asset: ExchangeAsset| asset.key())
}

/// By what instruments are ordered.
spec fn instrument_keys(list: Seq<Instrument<ExchangeId, Asset>>) -> Seq<(ExchangeId, Seq<char>, Seq<char>)> {
    list.map_values(|instrument: Instrument<ExchangeId, Asset>| instrument.key())
}

/// Whether one of the instruments names an asset.
spec fn names_asset(list: Seq<Instrument<ExchangeId, Asset>>, key: (ExchangeId, Seq<char>, Seq<char>)) -> bool {
    exists|i: int| 0 <= i < list.len() && asset_keys(builder::named_assets(#[trigger] list[i])).contains(key)
}

/// The same instruments name the same venues and assets.
proof fn lemma_named_alike(a: Instrument<ExchangeId, Asset>, b: Instrument<ExchangeId, Asset>)
    requires
        a.same_as(b),
    ensures
        builder::named_exchanges(a) == builder::named_exchanges(b),
        asset_keys(builder::named_assets(a)) == asset_keys(builder::named_assets(b)),
{
    assert(builder::named_exchanges(a) =~= builder::named_exchanges(b));
    assert(asset_keys(builder::named_assets(a)) =~= asset_keys(builder::named_assets(b)));
}

proof fn lemma_assets_of(list: Seq<Instrument<ExchangeId, Asset>>, key: (ExchangeId, Seq<char>, Seq<char>))
    ensures
        asset_keys(builder::assets_of(list)).contains(key) <==> names_asset(list, key),
    decreases list.len(),
{
    if list.len() > 0 {
        let before = list.drop_last();
        let earlier = asset_keys(builder::assets_of(before));
        let named = asset_keys(builder::named_assets(list.last()));
        lemma_assets_of(before, key);
        assert(asset_keys(builder::assets_of(list)) =~= earlier + named);
        if (earlier + named).contains(key) {
            let k = choose|k: int| 0 <= k < (earlier + named).len() && (earlier + named)[k] == key;
            if k < earlier.len() {
                assert(earlier[k] == key);
                let i = choose|i: int|
                    0 <= i < before.len() && asset_keys(builder::named_assets(#[trigger] before[i])).contains(key);
                assert(asset_keys(builder::named_assets(list[i])).contains(key));
            } else {
                assert(named[k - earlier.len()] == key);
                assert(asset_keys(builder::named_assets(list[list.len() - 1])).contains(key));
            }
        }
        if names_asset(list, key) {
            let i = choose|i: int|
                0 <= i < list.len() && asset_keys(builder::named_assets(#[trigger] list[i])).contains(key);
            if i < before.len() {
                assert(asset_keys(builder::named_assets(before[i])).contains(key));
                let k = choose|k: int| 0 <= k < earlier.len() && earlier[k] == key;
                assert((earlier + named)[k] == key);
            } else {
                let k = choose|k: int| 0 <= k < named.len() && named[k] == key;
                assert((earlier + named)[earlier.len() + k] == key);
            }
        }
    }
}

proof fn lemma_names_carry_over(
    a: Seq<Instrument<ExchangeId, Asset>>,
    b: Seq<Instrument<ExchangeId, Asset>>,
    exchange: ExchangeId,
    key: (ExchangeId, Seq<char>, Seq<char>),
)
    requires
        same_members(a, b),
    ensures
        builder::is_named(a, exchange) ==> builder::is_named(b, exchange),
        names_asset(a, key) ==> names_asset(b, key),
{
    reveal(same_members);
    if builder::is_named(a, exchange) {
        let i = choose|i: int|
            0 <= i < a.len() && builder::named_exchanges(#[trigger] a[i]).contains(exchange);
        assert(sorting::has_same(b, a[i]));
        let j = choose|j: int| 0 <= j < b.len() && (#[trigger] b[j]).same(a[i]);
        lemma_named_alike(b[j], a[i]);
        assert(builder::named_exchanges(b[j]).contains(exchange));
    }
    if names_asset(a, key) {
        let i = choose|i: int|
            0 <= i < a.len() && asset_keys(builder::named_assets(#[trigger] a[i])).contains(key);
        assert(sorting::has_same(b, a[i]));
        let j = choose|j: int| 0 <= j < b.len() && (#[trigger] b[j]).same(a[i]);
        lemma_named_alike(b[j], a[i]);
        assert(asset_keys(builder::named_assets(b[j])).contains(key));
    }
}

/// The venues of a collection, by what they are ordered.
spec fn venue_keys(venues: Seq<ExchangeId>) -> Seq<(ExchangeId, Seq<char>, Seq<char>)> {
    venues.map_values(|venue: ExchangeId| (venue, Seq::<char>::empty(), Seq::<char>::empty()))
}

proof fn lemma_venues_ascend(venues: Seq<ExchangeId>, added: Seq<ExchangeId>)
    requires
        sorting::sorted_set_of(venues, added),
    ensures
        ascends(venue_keys(venues)),
        forall|venue: ExchangeId| venues.contains(venue) <==> added.contains(venue),
{
    reveal(sorting::sorted_set_of);
    let keys = venue_keys(venues);
    assert forall|i: int, j: int| 0 <= i < j < keys.len() implies sorting::names_before(
        #[trigger] keys[i],
        #[trigger] keys[j],
    ) by {
        assert(!venues[j].before(venues[i]));
        assert(!venues[i].same(venues[j]));
        sorting::lemma_names_order(keys[i], keys[j], keys[i]);
        text::law_text_order(Seq::<char>::empty(), Seq::<char>::empty());
    }
    assert forall|venue: ExchangeId| venues.contains(venue) <==> added.contains(venue) by {
        if added.contains(venue) {
            let k = choose|k: int| 0 <= k < added.len() && added[k] == venue;
            assert(sorting::has_same(venues, added[k]));
            let p = choose|p: int| 0 <= p < venues.len() && (#[trigger] venues[p]).same(added[k]);
            assert(venues[p] == venue);
        }
        if venues.contains(venue) {
            let k = choose|k: int| 0 <= k < venues.len() && venues[k] == venue;
            assert(added.contains(venues[k]));
        }
    }
}

proof fn lemma_venues_agree(
    x: Seq<ExchangeId>,
    y: Seq<ExchangeId>,
    a: Seq<Instrument<ExchangeId, Asset>>,
    b: Seq<Instrument<ExchangeId, Asset>>,
)
    requires
        same_members(a, b),
        sorting::sorted_set_of(x, builder::exchanges_of(a)),
        sorting::sorted_set_of(y, builder::exchanges_of(b)),
    ensures
        x == y,
{
    lemma_members_either_way(a, b);
    lemma_venues_ascend(x, builder::exchanges_of(a));
    lemma_venues_ascend(y, builder::exchanges_of(b));
    let none = (ExchangeId::Coinbase, Seq::<char>::empty(), Seq::<char>::empty());
    assert forall|i: int| 0 <= i < venue_keys(x).len() implies venue_keys(y).contains(#[trigger] venue_keys(x)[i]) by {
        assert(x.contains(x[i]));
        builder::lemma_exchanges_of(a, x[i]);
        builder::lemma_exchanges_of(b, x[i]);
        lemma_names_carry_over(a, b, x[i], none);
        let k = choose|k: int| 0 <= k < y.len() && y[k] == x[i];
        assert(venue_keys(y)[k] == venue_keys(x)[i]);
    }
    assert forall|i: int| 0 <= i < venue_keys(y).len() implies venue_keys(x).contains(#[trigger] venue_keys(y)[i]) by {
        assert(y.contains(y[i]));
        builder::lemma_exchanges_of(a, y[i]);
        builder::lemma_exchanges_of(b, y[i]);
        lemma_names_carry_over(b, a, y[i], none);
        let k = choose|k: int| 0 <= k < x.len() && x[k] == y[i];
        assert(venue_keys(x)[k] == venue_keys(y)[i]);
    }
    lemma_ascending_keys(venue_keys(x), venue_keys(y));
    assert forall|i: int| 0 <= i < x.len() implies x[i] == y[i] by {
        assert(venue_keys(x)[i] == venue_keys(y)[i]);
    }
    assert(x.len() == venue_keys(x).len() && y.len() == venue_keys(y).len());
    assert(x =~= y);
}

proof fn lemma_assets_ascend(assets: Seq<ExchangeAsset>, added: Seq<ExchangeAsset>)
    requires
        sorting::sorted_set_of(assets, added),
    ensures
        ascends(asset_keys(assets)),
        forall|key: (ExchangeId, Seq<char>, Seq<char>)|
            #[trigger] asset_keys(assets).contains(key) <==> asset_keys(added).contains(key),
{
    reveal(sorting::sorted_set_of);
    let keys = asset_keys(assets);
    assert forall|i: int, j: int| 0 <= i < j < keys.len() implies sorting::names_before(
        #[trigger] keys[i],
        #[trigger] keys[j],
    ) by {
        assert(!assets[j].before(assets[i]));
        assert(!assets[i].same(assets[j]));
        sorting::lemma_names_order(keys[i], keys[j], keys[i]);
    }
    assert forall|key: (ExchangeId, Seq<char>, Seq<char>)|
        #[trigger] keys.contains(key) <==> asset_keys(added).contains(key) by {
        if asset_keys(added).contains(key) {
            let k = choose|k: int| 0 <= k < asset_keys(added).len() && asset_keys(added)[k] == key;
            assert(sorting::has_same(assets, added[k]));
            let p = choose|p: int| 0 <= p < assets.len() && (#[trigger] assets[p]).same(added[k]);
            assert(keys[p] == key);
        }
        if keys.contains(key) {
            let k = choose|k: int| 0 <= k < keys.len() && keys[k] == key;
            assert(added.contains(assets[k]));
            let p = choose|p: int| 0 <= p < added.len() && added[p] == assets[k];
            assert(asset_keys(added)[p] == key);
        }
    }
}

proof fn lemma_assets_agree(
    x: Seq<ExchangeAsset>,
    y: Seq<ExchangeAsset>,
    a: Seq<Instrument<ExchangeId, Asset>>,
    b: Seq<Instrument<ExchangeId, Asset>>,
)
    requires
        same_members(a, b),
        sorting::sorted_set_of(x, builder::assets_of(a)),
        sorting::sorted_set_of(y, builder::assets_of(b)),
    ensures
        x.len() == y.len(),
        forall|i: int| 0 <= i < x.len() ==> (#[trigger] x[i]).same(y[i]),
{
    lemma_members_either_way(a, b);
    lemma_assets_ascend(x, builder::assets_of(a));
    lemma_assets_ascend(y, builder::assets_of(b));
    let p = asset_keys(x);
    let q = asset_keys(y);
    assert forall|i: int| 0 <= i < p.len() implies q.contains(#[trigger] p[i]) by {
        assert(p.contains(p[i]));
        lemma_assets_of(a, p[i]);
        lemma_assets_of(b, p[i]);
        lemma_names_carry_over(a, b, ExchangeId::Coinbase, p[i]);
    }
    assert forall|i: int| 0 <= i < q.len() implies p.contains(#[trigger] q[i]) by {
        assert(q.contains(q[i]));
        lemma_assets_of(a, q[i]);
        lemma_assets_of(b, q[i]);
        lemma_names_carry_over(b, a, ExchangeId::Coinbase, q[i]);
    }
    lemma_ascending_keys(p, q);
    assert(x.len() == p.len() && y.len() == q.len());
    assert forall|i: int| 0 <= i < x.len() implies (#[trigger] x[i]).same(y[i]) by {
        assert(p[i] == q[i]);
    }
}

proof fn lemma_instruments_ascend(
    list: Seq<Instrument<ExchangeId, Asset>>,
    added: Seq<Instrument<ExchangeId, Asset>>,
)
    requires
        sorting::sorted_set_of(list, added),
        builder::unique_names(list),
    ensures
        ascends(instrument_keys(list)),
{
    reveal(sorting::sorted_set_of);
    let keys = instrument_keys(list);
    assert forall|i: int, j: int| 0 <= i < j < keys.len() implies sorting::names_before(
        #[trigger] keys[i],
        #[trigger] keys[j],
    ) by {
        assert(!list[j].before(list[i]));
        assert(list[i].name_internal@ != list[j].name_internal@);
        sorting::lemma_names_order(keys[i], keys[j], keys[i]);
    }
}

/// What was added to one list is the same as something in the sorted list of the other.
proof fn lemma_found_in_other(
    x: Seq<Instrument<ExchangeId, Asset>>,
    y: Seq<Instrument<ExchangeId, Asset>>,
    a: Seq<Instrument<ExchangeId, Asset>>,
    b: Seq<Instrument<ExchangeId, Asset>>,
    i: int,
) -> (found: int)
    requires
        same_members(a, b),
        sorting::sorted_set_of(x, a),
        sorting::sorted_set_of(y, b),
        0 <= i < x.len(),
    ensures
        0 <= found < y.len(),
        y[found].same_as(x[i]),
{
    reveal(same_members);
    let p = sorting::lemma_was_added(x, a, i);
    assert(sorting::has_same(b, a[p]));
    let q = choose|q: int| 0 <= q < b.len() && (#[trigger] b[q]).same(a[p]);
    let found = sorting::lemma_is_kept(y, b, q);
    lemma_same_instruments(y[found], b[q], x[i]);
    found
}

proof fn lemma_instruments_agree(
    x: Seq<Instrument<ExchangeId, Asset>>,
    y: Seq<Instrument<ExchangeId, Asset>>,
    a: Seq<Instrument<ExchangeId, Asset>>,
    b: Seq<Instrument<ExchangeId, Asset>>,
)
    requires
        same_members(a, b),
        sorting::sorted_set_of(x, a),
        sorting::sorted_set_of(y, b),
        builder::unique_names(x),
        builder::unique_names(y),
    ensures
        x.len() == y.len(),
        forall|i: int| 0 <= i < x.len() ==> y[i].same_as(#[trigger] x[i]),
{
    lemma_members_either_way(a, b);
    lemma_instruments_ascend(x, a);
    lemma_instruments_ascend(y, b);
    let p = instrument_keys(x);
    let q = instrument_keys(y);
    assert forall|i: int| 0 <= i < p.len() implies q.contains(#[trigger] p[i]) by {
        let found = lemma_found_in_other(x, y, a, b, i);
        assert(q[found] == p[i]);
    }
    assert forall|i: int| 0 <= i < q.len() implies p.contains(#[trigger] q[i]) by {
        let found = lemma_found_in_other(y, x, b, a, i);
        assert(p[found] == q[i]);
    }
    lemma_ascending_keys(p, q);
    assert(x.len() == p.len() && y.len() == q.len());
    assert forall|i: int| 0 <= i < x.len() implies y[i].same_as(#[trigger] x[i]) by {
        let found = lemma_found_in_other(x, y, a, b, i);
        assert(p[i] == q[i]);
        assert(y[found].name_internal@ == y[i].name_internal@);
        assert(found == i) by {
            if found < i {
                assert(y[found].name_internal@ != y[i].name_internal@);
            } else if i < found {
                assert(y[i].name_internal@ != y[found].name_internal@);
            }
        }
    }
}

proof fn lemma_asset_index_agrees(
    x: Seq<Keyed<AssetIndex, ExchangeAsset>>,
    y: Seq<Keyed<AssetIndex, ExchangeAsset>>,
    exchange: ExchangeId,
    name: Seq<char>,
    a: AssetIndex,
    b: AssetIndex,
)
    requires
        x.len() == y.len(),
        forall|i: int| 0 <= i < x.len() ==> (#[trigger] x[i]).value.same(y[i].value),
        builder::is_index_of_asset(x, exchange, name, a),
        builder::is_index_of_asset(y, exchange, name, b),
    ensures
        a == b,
{
    assert(x[a.0 as int].value.same(y[a.0 as int].value));
    assert(x[b.0 as int].value.same(y[b.0 as int].value));
}

proof fn lemma_indexed_alike(
    plain: Instrument<ExchangeId, Asset>,
    other: Instrument<ExchangeId, Asset>,
    a: IndexedInstrument,
    b: IndexedInstrument,
    exchanges: Seq<Keyed<ExchangeIndex, ExchangeId>>,
    x: Seq<Keyed<AssetIndex, ExchangeAsset>>,
    y: Seq<Keyed<AssetIndex, ExchangeAsset>>,
)
    requires
        other.same_as(plain),
        builder::is_indexed(plain, a, exchanges, x),
        builder::is_indexed(other, b, exchanges, y),
        forall|i: int, j: int|
            0 <= i < j < exchanges.len() ==> (#[trigger] exchanges[i]).value != (#[trigger] exchanges[j]).value,
        x.len() == y.len(),
        forall|i: int| 0 <= i < x.len() ==> (#[trigger] x[i]).value.same(y[i].value),
    ensures
        same_indexed(a, b),
{
    let exchange = plain.exchange;
    lemma_asset_index_agrees(
        x,
        y,
        exchange,
        plain.underlying.base.name_internal@,
        a.underlying.base,
        b.underlying.base,
    );
    lemma_asset_index_agrees(
        x,
        y,
        exchange,
        plain.underlying.quote.name_internal@,
        a.underlying.quote,
        b.underlying.quote,
    );
    if let Some(asset) = plain.kind.settles_in() {
        lemma_asset_index_agrees(
            x,
            y,
            exchange,
            asset.name_internal@,
            a.kind.settles_in()->0,
            b.kind.settles_in()->0,
        );
    }
    if let Some(spec) = plain.spec {
        if let Some(asset) = spec.unit_asset() {
            lemma_asset_index_agrees(
                x,
                y,
                exchange,
                asset.name_internal@,
                a.spec->0.unit_asset()->0,
                b.spec->0.unit_asset()->0,
            );
        }
    }
}

/// Two collections of the same instruments are the same.
proof fn lemma_collections_agree(
    x: IndexedInstruments,
    y: IndexedInstruments,
    a: Seq<Instrument<ExchangeId, Asset>>,
    b: Seq<Instrument<ExchangeId, Asset>>,
)
    requires
        same_members(a, b),
        builder::is_collection_of(x, a),
        builder::is_collection_of(y, b),
    ensures
        same_collection(x, y),
{
    let first = choose|list: Seq<Instrument<ExchangeId, Asset>>|
        {
            &&& #[trigger] sorting::sorted_set_of(list, a)
            &&& builder::unique_names(list)
            &&& builder::is_built_from(x, list, builder::exchanges_of(a), builder::assets_of(a))
        };
    let second = choose|list: Seq<Instrument<ExchangeId, Asset>>|
        {
            &&& #[trigger] sorting::sorted_set_of(list, b)
            &&& builder::unique_names(list)
            &&& builder::is_built_from(y, list, builder::exchanges_of(b), builder::assets_of(b))
        };
    lemma_instruments_agree(first, second, a, b);
    let venues = builder::values(x.spec_exchanges());
    let other_venues = builder::values(y.spec_exchanges());
    lemma_venues_agree(venues, other_venues, a, b);
    assert(x.spec_exchanges() =~= y.spec_exchanges()) by {
        assert(x.spec_exchanges().len() == venues.len() && y.spec_exchanges().len() == other_venues.len());
        assert forall|i: int| 0 <= i < venues.len() implies x.spec_exchanges()[i] == y.spec_exchanges()[i] by {
            assert(venues[i] == other_venues[i]);
            assert(x.spec_exchanges()[i].key.0 == i && y.spec_exchanges()[i].key.0 == i);
        }
    }
    let assets = builder::values(x.spec_assets());
    let other_assets = builder::values(y.spec_assets());
    lemma_assets_agree(assets, other_assets, a, b);
    assert(x.spec_assets().len() == assets.len() && y.spec_assets().len() == other_assets.len());
    assert forall|i: int| 0 <= i < x.spec_assets().len() implies (#[trigger] x.spec_assets()[i]).value.same(
        y.spec_assets()[i].value,
    ) && x.spec_assets()[i].key == y.spec_assets()[i].key by {
        assert(assets[i].same(other_assets[i]));
        assert(y.spec_assets()[i].key.0 == i);
    }
    assert forall|i: int| 0 <= i < x.spec_instruments().len() implies {
        &&& (#[trigger] x.spec_instruments()[i]).key == y.spec_instruments()[i].key
        &&& same_indexed(x.spec_instruments()[i].value, y.spec_instruments()[i].value)
    } by {
        assert(second[i].same_as(first[i]));
        assert(y.spec_instruments()[i].key.0 == i);
        lemma_indexed_alike(
            first[i],
            second[i],
            x.spec_instruments()[i].value,
            y.spec_instruments()[i].value,
            x.spec_exchanges(),
            x.spec_assets(),
            y.spec_assets(),
        );
    }
}

/// The order in which instruments are added, and adding one again, make no difference: building
/// succeeds from both lists or from neither, and gives the same collection.
pub proof fn law_order_and_repeats_do_not_matter(
    a: Seq<Instrument<ExchangeId, Asset>>,
    b: Seq<Instrument<ExchangeId, Asset>>,
    from_a: Result<IndexedInstruments, IndexError>,
    from_b: Result<IndexedInstruments, IndexError>,
)
    requires
        same_members(a, b),
        builder::is_outcome_of(from_a, a),
        builder::is_outcome_of(from_b, b),
    ensures
        from_a is Ok <==> from_b is Ok,
        from_a is Ok && from_b is Ok ==> same_collection(from_a->Ok_0, from_b->Ok_0),
{
    lemma_members_either_way(a, b);
    if builder::without_clash(a) {
        lemma_clash_carries_over(a, b);
    }
    if builder::without_clash(b) {
        lemma_clash_carries_over(b, a);
    }
    if from_a is Ok && from_b is Ok {
        lemma_collections_agree(from_a->Ok_0, from_b->Ok_0, a, b);
    }
}

/// `build` and `try_build` agree: what the one must not be called with is exactly what the other
/// refuses, as a shared internal name, and from everything else both give the same collection.
pub proof fn law_both_ways_of_building_agree(
    added: Seq<Instrument<ExchangeId, Asset>>,
    tried: Result<IndexedInstruments, IndexError>,
    built: IndexedInstruments,
)
    requires
        builder::is_outcome_of(tried, added),
        builder::without_clash(added) ==> builder::is_collection_of(built, added),
    ensures
        tried is Ok <==> builder::without_clash(added),
        tried matches Ok(indexed) ==> same_collection(indexed, built),
        tried matches Err(e) ==> e is DuplicateInstrumentNameInternal,
{
    reveal(same_members);
    assert forall|i: int| 0 <= i < added.len() implies sorting::has_same(added, #[trigger] added[i]) by {
        Instrument::sameness_holds(added[i], added[i]);
        assert(added[i].same(added[i]));
    }
    if let Ok(indexed) = tried {
        lemma_collections_agree(indexed, built, added, added);
    }
}

} // verus!
