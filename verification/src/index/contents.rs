//! What a built collection holds of the instruments that were added to it.

use vstd::prelude::*;
use crate::exchange::ExchangeId;
use crate::index::builder;
use crate::index::error::IndexError;
use crate::index::sorting;
use crate::index::sorting::ExchangeAsset;
use crate::index::{AssetIndex, IndexedInstruments};
use crate::instrument::{Asset, Instrument, InstrumentKind, OrderQuantityUnits};
use crate::text;

verus! {

/// Whether an index of a collection is that of an asset: at its position stands an asset on the venue
/// with that internal name, and at no position before it.
pub open spec fn stands_for(indexed: IndexedInstruments, found: AssetIndex, exchange: ExchangeId, asset: Asset) -> bool {
    &&& found.0 < indexed.spec_assets().len()
    &&& indexed.spec_assets()[found.0 as int].key == found
    &&& indexed.spec_assets()[found.0 as int].value.exchange == exchange
    &&& indexed.spec_assets()[found.0 as int].value.asset.name_internal@ == asset.name_internal@
    &&& forall|k: int|
        0 <= k < found.0 && (#[trigger] indexed.spec_assets()[k]).value.exchange == exchange
            ==> indexed.spec_assets()[k].value.asset.name_internal@ != asset.name_internal@
}

proof fn lemma_list_of(indexed: IndexedInstruments, added: Seq<Instrument<ExchangeId, Asset>>) -> (list: Seq<
    Instrument<ExchangeId, Asset>,
>)
    requires
        builder::is_collection_of(indexed, added),
    ensures
        sorting::sorted_set_of(list, added),
        builder::unique_names(list),
        builder::is_built_from(indexed, list, builder::exchanges_of(added), builder::assets_of(added)),
{
    choose|list: Seq<Instrument<ExchangeId, Asset>>|
        {
            &&& #[trigger] sorting::sorted_set_of(list, added)
            &&& builder::unique_names(list)
            &&& builder::is_built_from(indexed, list, builder::exchanges_of(added), builder::assets_of(added))
        }
}

/// Every instrument of a built collection is one that was added: with its names, its quote, its limits
/// and its pricing venue, and with its venues and assets under their positions.
///
/// Returned is where it was added.
pub proof fn law_built_instruments_were_added(
    indexed: IndexedInstruments,
    added: Seq<Instrument<ExchangeId, Asset>>,
    i: int,
) -> (at: int)
    requires
        builder::is_collection_of(indexed, added),
        0 <= i < indexed.spec_instruments().len(),
    ensures
        0 <= at < added.len(),
        ({
            let plain = added[at];
            let built = indexed.spec_instruments()[i].value;
            let exchanges = indexed.spec_exchanges();
            &&& indexed.spec_instruments()[i].key.0 == i
            &&& built.name_internal@ == plain.name_internal@
            &&& built.name_exchange@ == plain.name_exchange@
            &&& built.quote == plain.quote
            &&& built.exchange.value == plain.exchange
            &&& built.exchange.key.0 < exchanges.len() && exchanges[built.exchange.key.0 as int].value == plain.exchange
            &&& stands_for(indexed, built.underlying.base, plain.exchange, plain.underlying.base)
            &&& stands_for(indexed, built.underlying.quote, plain.exchange, plain.underlying.quote)
            &&& built.data_venue is Some <==> plain.data_venue is Some
            &&& plain.data_venue matches Some(venue) ==> {
                let new = built.data_venue->0.exchange;
                &&& built.data_venue->0.name_exchange == venue.name_exchange
                &&& new.value == venue.exchange
                &&& new.key.0 < exchanges.len() && exchanges[new.key.0 as int].value == venue.exchange
            }
            &&& built.spec is Some <==> plain.spec is Some
            &&& plain.spec matches Some(limits) ==> {
                let new = built.spec->0;
                &&& new.price.min == limits.price.min
                &&& new.price.tick_size == limits.price.tick_size
                &&& new.quantity.min == limits.quantity.min
                &&& new.quantity.increment == limits.quantity.increment
                &&& new.notional.min == limits.notional.min
                &&& new.quantity.unit is Contract <==> limits.quantity.unit is Contract
                &&& new.quantity.unit is Quote <==> limits.quantity.unit is Quote
                &&& limits.quantity.unit matches OrderQuantityUnits::Asset(asset) ==> new.quantity.unit is Asset
                    && stands_for(indexed, new.quantity.unit->Asset_0, plain.exchange, asset)
            }
        }),
{
    let list = lemma_list_of(indexed, added);
    let at = sorting::lemma_was_added(list, added, i);
    assert(builder::is_indexed(
        list[i],
        indexed.spec_instruments()[i].value,
        indexed.spec_exchanges(),
        indexed.spec_assets(),
    ));
    at
}

/// Every instrument of a built collection is of the kind that it was added as: spot stays spot, a
/// perpetual a perpetual, a future a future, an option an option and a contract for difference one. Its
/// contract size, expiry, strike and side are those that were added, and only the asset that it is settled
/// in gives way to its position.
///
/// Returned is where it was added.
pub proof fn law_built_kinds_are_those_added(
    indexed: IndexedInstruments,
    added: Seq<Instrument<ExchangeId, Asset>>,
    i: int,
) -> (at: int)
    requires
        builder::is_collection_of(indexed, added),
        0 <= i < indexed.spec_instruments().len(),
    ensures
        0 <= at < added.len(),
        indexed.spec_instruments()[i].value.name_internal@ == added[at].name_internal@,
        ({
            let plain = added[at].kind;
            let built = indexed.spec_instruments()[i].value.kind;
            let exchange = added[at].exchange;
            &&& built is Spot <==> plain is Spot
            &&& built is Perpetual <==> plain is Perpetual
            &&& built is Future <==> plain is Future
            &&& built is OptionContract <==> plain is OptionContract
            &&& built is Cfd <==> plain is Cfd
            &&& plain matches InstrumentKind::Perpetual(contract) ==> {
                let new = built->Perpetual_0;
                &&& new.contract_size == contract.contract_size
                &&& stands_for(indexed, new.settlement_asset, exchange, contract.settlement_asset)
            }
            &&& plain matches InstrumentKind::Future(contract) ==> {
                let new = built->Future_0;
                &&& new.contract_size == contract.contract_size
                &&& new.expiry == contract.expiry
                &&& stands_for(indexed, new.settlement_asset, exchange, contract.settlement_asset)
            }
            &&& plain matches InstrumentKind::OptionContract(contract) ==> {
                let new = built->OptionContract_0;
                &&& new.contract_size == contract.contract_size
                &&& new.kind == contract.kind
                &&& new.expiry == contract.expiry
                &&& new.strike == contract.strike
                &&& stands_for(indexed, new.settlement_asset, exchange, contract.settlement_asset)
            }
            &&& plain matches InstrumentKind::Cfd(contract) ==> {
                let new = built->Cfd_0;
                &&& new.contract_size == contract.contract_size
                &&& stands_for(indexed, new.settlement_asset, exchange, contract.settlement_asset)
            }
        }),
{
    let list = lemma_list_of(indexed, added);
    let at = sorting::lemma_was_added(list, added, i);
    assert(builder::is_indexed(
        list[i],
        indexed.spec_instruments()[i].value,
        indexed.spec_exchanges(),
        indexed.spec_assets(),
    ));
    at
}

/// Every instrument that was added is in the collection: one with its venue, its names and its kind.
///
/// Returned is its position.
pub proof fn law_added_instruments_are_built(
    indexed: IndexedInstruments,
    added: Seq<Instrument<ExchangeId, Asset>>,
    at: int,
) -> (i: int)
    requires
        builder::is_collection_of(indexed, added),
        0 <= at < added.len(),
    ensures
        0 <= i < indexed.spec_instruments().len(),
        ({
            let plain = added[at];
            let built = indexed.spec_instruments()[i].value;
            &&& built.exchange.value == plain.exchange
            &&& built.name_internal@ == plain.name_internal@
            &&& built.name_exchange@ == plain.name_exchange@
            &&& built.quote == plain.quote
            &&& stands_for(indexed, built.underlying.base, plain.exchange, plain.underlying.base)
            &&& stands_for(indexed, built.underlying.quote, plain.exchange, plain.underlying.quote)
            &&& built.kind is Spot <==> plain.kind is Spot
            &&& built.kind is Perpetual <==> plain.kind is Perpetual
            &&& built.kind is Future <==> plain.kind is Future
            &&& built.kind is OptionContract <==> plain.kind is OptionContract
            &&& built.kind is Cfd <==> plain.kind is Cfd
            &&& built.kind is Future ==> built.kind->Future_0.expiry == plain.kind->Future_0.expiry
            &&& built.kind is OptionContract ==> built.kind->OptionContract_0.expiry
                == plain.kind->OptionContract_0.expiry && built.kind->OptionContract_0.kind
                == plain.kind->OptionContract_0.kind
            &&& built.spec is Some <==> plain.spec is Some
            &&& built.data_venue is Some <==> plain.data_venue is Some
            &&& built.data_venue is Some ==> built.data_venue->0.exchange.value == plain.data_venue->0.exchange
        }),
{
    let list = lemma_list_of(indexed, added);
    let i = sorting::lemma_is_kept(list, added, at);
    assert(builder::is_indexed(
        list[i],
        indexed.spec_instruments()[i].value,
        indexed.spec_exchanges(),
        indexed.spec_assets(),
    ));
    i
}

/// Whether an instrument names an asset, by the venue that executes it and both its names: as its base or
/// its quote, as what it is settled in or as what its quantities are in.
pub open spec fn names_asset(instrument: Instrument<ExchangeId, Asset>, exchange: ExchangeId, asset: Asset) -> bool {
    &&& instrument.exchange == exchange
    &&& {
        ||| instrument.underlying.base == asset
        ||| instrument.underlying.quote == asset
        ||| instrument.kind matches InstrumentKind::Perpetual(contract) && contract.settlement_asset == asset
        ||| instrument.kind matches InstrumentKind::Future(contract) && contract.settlement_asset == asset
        ||| instrument.kind matches InstrumentKind::OptionContract(contract) && contract.settlement_asset == asset
        ||| instrument.kind matches InstrumentKind::Cfd(contract) && contract.settlement_asset == asset
        ||| instrument.spec matches Some(limits) && limits.quantity.unit == OrderQuantityUnits::Asset(asset)
    }
}

proof fn lemma_named_assets(instrument: Instrument<ExchangeId, Asset>, exchange: ExchangeId, asset: Asset)
    ensures
        builder::named_assets(instrument).contains(ExchangeAsset { exchange, asset }) <==> names_asset(
            instrument,
            exchange,
            asset,
        ),
{
    let named = builder::named_assets(instrument);
    let item = ExchangeAsset { exchange, asset };
    let settled: int = if instrument.kind.settles_in() is Some { 1 } else { 0 };
    assert(named[0].asset == instrument.underlying.base);
    assert(named[1].asset == instrument.underlying.quote);
    if settled == 1 {
        assert(named[2].asset == instrument.kind.settles_in()->0);
    }
    if instrument.spec is Some && instrument.spec->0.unit_asset() is Some {
        assert(named[2 + settled].asset == instrument.spec->0.unit_asset()->0);
    }
    if named.contains(item) {
        let k = choose|k: int| 0 <= k < named.len() && named[k] == item;
        assert(k == 0 || k == 1 || k == 2 || k == 3);
    }
    if names_asset(instrument, exchange, asset) {
        if instrument.underlying.base == asset {
            assert(named[0] == item);
        } else if instrument.underlying.quote == asset {
            assert(named[1] == item);
        } else if instrument.kind.settles_in() == Some(asset) {
            assert(named[2] == item);
        } else {
            assert(named[2 + settled] == item);
        }
    }
}

proof fn lemma_assets_of(instruments: Seq<Instrument<ExchangeId, Asset>>, exchange: ExchangeId, asset: Asset)
    ensures
        builder::assets_of(instruments).contains(ExchangeAsset { exchange, asset }) <==> exists|k: int|
            0 <= k < instruments.len() && names_asset(#[trigger] instruments[k], exchange, asset),
    decreases instruments.len(),
{
    if instruments.len() > 0 {
        let item = ExchangeAsset { exchange, asset };
        let before = instruments.drop_last();
        let last = instruments.len() - 1;
        let earlier = builder::assets_of(before);
        let named = builder::named_assets(instruments.last());
        lemma_assets_of(before, exchange, asset);
        lemma_named_assets(instruments.last(), exchange, asset);
        if (earlier + named).contains(item) {
            let k = choose|k: int| 0 <= k < (earlier + named).len() && (earlier + named)[k] == item;
            if k < earlier.len() {
                assert(earlier[k] == item);
                let at = choose|at: int| 0 <= at < before.len() && names_asset(#[trigger] before[at], exchange, asset);
                assert(names_asset(instruments[at], exchange, asset));
            } else {
                assert(named[k - earlier.len()] == item);
                assert(names_asset(instruments[last], exchange, asset));
            }
        }
        if exists|k: int| 0 <= k < instruments.len() && names_asset(#[trigger] instruments[k], exchange, asset) {
            let at = choose|k: int| 0 <= k < instruments.len() && names_asset(#[trigger] instruments[k], exchange, asset);
            if at < last {
                assert(names_asset(before[at], exchange, asset));
                let k = choose|k: int| 0 <= k < earlier.len() && earlier[k] == item;
                assert((earlier + named)[k] == item);
            } else {
                let k = choose|k: int| 0 <= k < named.len() && named[k] == item;
                assert((earlier + named)[earlier.len() + k] == item);
            }
        }
    }
}

/// Every asset of a built collection is one that an added instrument names, on the venue that executes the
/// instrument.
///
/// Returned is such an instrument.
pub proof fn law_built_assets_were_named(
    indexed: IndexedInstruments,
    added: Seq<Instrument<ExchangeId, Asset>>,
    k: int,
) -> (at: int)
    requires
        builder::is_collection_of(indexed, added),
        0 <= k < indexed.spec_assets().len(),
    ensures
        indexed.spec_assets()[k].key.0 == k,
        0 <= at < added.len(),
        names_asset(added[at], indexed.spec_assets()[k].value.exchange, indexed.spec_assets()[k].value.asset),
{
    let list = lemma_list_of(indexed, added);
    let built = builder::values(indexed.spec_assets());
    let item = indexed.spec_assets()[k].value;
    let p = sorting::lemma_was_added(built, builder::assets_of(added), k);
    assert(builder::assets_of(added)[p] == item);
    lemma_assets_of(added, item.exchange, item.asset);
    choose|at: int| 0 <= at < added.len() && names_asset(#[trigger] added[at], item.exchange, item.asset)
}

/// Every asset that an added instrument names is in the collection, on the venue that executes the
/// instrument, under both its names.
///
/// Returned is its position.
pub proof fn law_named_assets_are_built(
    indexed: IndexedInstruments,
    added: Seq<Instrument<ExchangeId, Asset>>,
    at: int,
    exchange: ExchangeId,
    asset: Asset,
) -> (k: int)
    requires
        builder::is_collection_of(indexed, added),
        0 <= at < added.len(),
        names_asset(added[at], exchange, asset),
    ensures
        0 <= k < indexed.spec_assets().len(),
        indexed.spec_assets()[k].key.0 == k,
        indexed.spec_assets()[k].value.exchange == exchange,
        indexed.spec_assets()[k].value.asset.name_internal@ == asset.name_internal@,
        indexed.spec_assets()[k].value.asset.name_exchange@ == asset.name_exchange@,
{
    let list = lemma_list_of(indexed, added);
    let item = ExchangeAsset { exchange, asset };
    lemma_assets_of(added, exchange, asset);
    let all = builder::assets_of(added);
    let p = choose|p: int| 0 <= p < all.len() && all[p] == item;
    sorting::lemma_is_kept(builder::values(indexed.spec_assets()), all, p)
}

/// A built collection is in order. Venues ascend. Assets and instruments ascend by venue, within a venue by
/// internal name, and below that by the name that the venue uses; of no two of them are all three the same.
pub proof fn law_collections_are_in_order(
    indexed: IndexedInstruments,
    added: Seq<Instrument<ExchangeId, Asset>>,
    i: int,
    j: int,
)
    requires
        builder::is_collection_of(indexed, added),
        0 <= i < j,
    ensures
        j < indexed.spec_exchanges().len() ==> indexed.spec_exchanges()[i].value.rank()
            < indexed.spec_exchanges()[j].value.rank(),
        j < indexed.spec_assets().len() ==> {
            let a = indexed.spec_assets()[i].value;
            let b = indexed.spec_assets()[j].value;
            ||| a.exchange.rank() < b.exchange.rank()
            ||| a.exchange == b.exchange && text::text_before(a.asset.name_internal@, b.asset.name_internal@)
            ||| a.exchange == b.exchange && a.asset.name_internal@ == b.asset.name_internal@ && text::text_before(
                a.asset.name_exchange@,
                b.asset.name_exchange@,
            )
        },
        j < indexed.spec_instruments().len() ==> {
            let a = indexed.spec_instruments()[i].value;
            let b = indexed.spec_instruments()[j].value;
            ||| a.exchange.value.rank() < b.exchange.value.rank()
            ||| a.exchange.value == b.exchange.value && text::text_before(a.name_internal@, b.name_internal@)
        },
{
    let list = lemma_list_of(indexed, added);
    if j < indexed.spec_exchanges().len() {
        sorting::lemma_are_in_order(
            builder::values(indexed.spec_exchanges()),
            builder::exchanges_of(added),
            i,
            j,
        );
    }
    if j < indexed.spec_assets().len() {
        sorting::lemma_are_in_order(builder::values(indexed.spec_assets()), builder::assets_of(added), i, j);
        let a = indexed.spec_assets()[i].value.key();
        let b = indexed.spec_assets()[j].value.key();
        sorting::lemma_names_order(a, b, b);
    }
    if j < indexed.spec_instruments().len() {
        sorting::lemma_are_in_order(list, added, i, j);
        sorting::lemma_names_order(list[i].key(), list[j].key(), list[j].key());
        assert(list[i].name_internal@ != list[j].name_internal@);
        assert(builder::is_indexed(
            list[i],
            indexed.spec_instruments()[i].value,
            indexed.spec_exchanges(),
            indexed.spec_assets(),
        ));
        assert(builder::is_indexed(
            list[j],
            indexed.spec_instruments()[j].value,
            indexed.spec_exchanges(),
            indexed.spec_assets(),
        ));
    }
}

/// Building fails where two of the added instruments share an internal name and differ in anything else,
/// and only there.
pub proof fn law_building_fails_for_a_shared_name(
    r: Result<IndexedInstruments, IndexError>,
    added: Seq<Instrument<ExchangeId, Asset>>,
)
    requires
        builder::is_outcome_of(r, added),
    ensures
        r is Err <==> exists|i: int, j: int|
            0 <= i < added.len() && 0 <= j < added.len() && (#[trigger] added[i]).name_internal@ == (
            #[trigger] added[j]).name_internal@ && !added[i].same_as(added[j]),
{
    if r is Err {
        let (i, j) = choose|i: int, j: int|
            0 <= i < added.len() && 0 <= j < added.len() && #[trigger] builder::clash(added[i], added[j]);
        assert(added[i].name_internal@ == added[j].name_internal@ && !added[i].same_as(added[j]));
    } else {
        assert forall|i: int, j: int|
            0 <= i < added.len() && 0 <= j < added.len() && (#[trigger] added[i]).name_internal@ == (
            #[trigger] added[j]).name_internal@ implies added[i].same_as(added[j]) by {
            assert(!builder::clash(added[i], added[j]));
        }
    }
}

/// The error for a shared name is about two of the added instruments that share it and are not the same: it names what they
/// share, and what the venue calls the one and the other.
pub proof fn law_clashes_name_both_instruments(
    e: IndexError,
    added: Seq<Instrument<ExchangeId, Asset>>,
) -> (r: (int, int))
    requires
        builder::is_outcome_of(Err(e), added),
    ensures
        0 <= r.0 < added.len(),
        0 <= r.1 < added.len(),
        added[r.0].name_internal@ == added[r.1].name_internal@,
        !added[r.0].same_as(added[r.1]),
        e matches IndexError::DuplicateInstrumentNameInternal(message) && text::names_in_order(
            message@,
            seq![
                added[r.1].name_internal@,
                added[r.0].name_exchange@,
                added[r.1].name_exchange@,
                added[r.1].exchange.name(),
            ],
        ),
{
    let (list, earlier, at) = choose|list: Seq<Instrument<ExchangeId, Asset>>, earlier: int, at: int|
        {
            &&& #[trigger] sorting::sorted_set_of(list, added)
            &&& #[trigger] builder::first_repeated(list, earlier, at)
            &&& builder::tells_of(e, list[earlier], list[at])
        };
    let i = sorting::lemma_was_added(list, added, earlier);
    let j = sorting::lemma_was_added(list, added, at);
    sorting::lemma_are_in_order(list, added, earlier, at);
    let (a, b) = (added[i], added[j]);
    text::lemma_four_named(
        Seq::empty(),
        b.name_internal@,
        " is shared by the distinct instruments "@,
        a.name_exchange@,
        " and "@,
        b.name_exchange@,
        " on "@,
        b.exchange.name(),
    );
    assert(Seq::<char>::empty() + b.name_internal@ =~= b.name_internal@);
    text::lemma_more_behind(
        b.name_internal@ + " is shared by the distinct instruments "@ + a.name_exchange@ + " and "@ + b.name_exchange@
            + " on "@ + b.exchange.name(),
        " - every Instrument requires a unique name_internal"@,
        seq![b.name_internal@, a.name_exchange@, b.name_exchange@, b.exchange.name()],
    );
    (i, j)
}

} // verus!
