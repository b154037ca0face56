//! Building a collection of instruments.

use vstd::prelude::*;
use vstd::string::*;
use crate::exchange::ExchangeId;
use crate::index;
use crate::index::error::IndexError;
use crate::index::sorting;
use crate::index::sorting::{sort_distinct, ExchangeAsset, Ranked};
use crate::index::{AssetIndex, ExchangeIndex, IndexedInstrument, IndexedInstruments, Keyed};
use crate::instrument::data_venue::DataVenue;
use crate::instrument::{
    Asset,
    CfdContract,
    FutureContract,
    Instrument,
    InstrumentKind,
    InstrumentSpec,
    InstrumentSpecQuantity,
    OptionContract,
    OrderQuantityUnits,
    PerpetualContract,
    Underlying,
};
use crate::market::InstrumentIndex;
use crate::text::same_text;

verus! {

/// The venues that an instrument names: the one that executes it, and the one that prices it where
/// that is stated.
pub open spec fn named_exchanges(instrument: Instrument<ExchangeId, Asset>) -> Seq<ExchangeId> {
    match instrument.data_venue {
        Some(venue) => seq![instrument.exchange, venue.exchange],
        None => seq![instrument.exchange],
    }
}

/// The assets that an instrument names, on the venue that executes it: its base, its quote, the
/// asset that it is settled in, and the asset that its quantities are in.
pub open spec fn named_assets(instrument: Instrument<ExchangeId, Asset>) -> Seq<ExchangeAsset> {
    let exchange = instrument.exchange;
    seq![
        ExchangeAsset { exchange, asset: instrument.underlying.base },
        ExchangeAsset { exchange, asset: instrument.underlying.quote },
    ] + (match instrument.kind.settles_in() {
        Some(asset) => seq![ExchangeAsset { exchange, asset }],
        None => Seq::empty(),
    }) + (match instrument.spec {
        Some(spec) => match spec.unit_asset() {
            Some(asset) => seq![ExchangeAsset { exchange, asset }],
            None => Seq::empty(),
        },
        None => Seq::empty(),
    })
}

/// The venues that instruments name, one instrument behind the other.
pub open spec fn exchanges_of(instruments: Seq<Instrument<ExchangeId, Asset>>) -> Seq<ExchangeId>
    decreases instruments.len(),
{
    if instruments.len() == 0 {
        Seq::empty()
    } else {
        exchanges_of(instruments.drop_last()) + named_exchanges(instruments.last())
    }
}

/// The assets that instruments name, one instrument behind the other.
pub open spec fn assets_of(instruments: Seq<Instrument<ExchangeId, Asset>>) -> Seq<ExchangeAsset>
    decreases instruments.len(),
{
    if instruments.len() == 0 {
        Seq::empty()
    } else {
        assets_of(instruments.drop_last()) + named_assets(instruments.last())
    }
}

/// Whether all that an instrument names is in the lists.
pub open spec fn registered(
    instrument: Instrument<ExchangeId, Asset>,
    exchanges: Seq<ExchangeId>,
    assets: Seq<ExchangeAsset>,
) -> bool {
    &&& forall|k: int|
        0 <= k < named_exchanges(instrument).len() ==> exchanges.contains(
            #[trigger] named_exchanges(instrument)[k],
        )
    &&& forall|k: int|
        0 <= k < named_assets(instrument).len() ==> assets.contains(#[trigger] named_assets(instrument)[k])
}

/// Collects instruments, and what they name.
#[derive(Debug)]
pub struct IndexedInstrumentsBuilder {
    exchanges: Vec<ExchangeId>,
    instruments: Vec<Instrument<ExchangeId, Asset>>,
    assets: Vec<ExchangeAsset>,
}

/// Whether two instruments share an internal name without being the same.
pub open spec fn clash(a: Instrument<ExchangeId, Asset>, b: Instrument<ExchangeId, Asset>) -> bool {
    a.name_internal@ == b.name_internal@ && !a.same_as(b)
}

/// Whether no two of the instruments share an internal name without being the same.
pub open spec fn without_clash(instruments: Seq<Instrument<ExchangeId, Asset>>) -> bool {
    forall|i: int, j: int|
        0 <= i < instruments.len() && 0 <= j < instruments.len() ==> !#[trigger] clash(
            instruments[i],
            instruments[j],
        )
}

/// Whether the internal names are all different.
pub open spec fn unique_names(instruments: Seq<Instrument<ExchangeId, Asset>>) -> bool {
    forall|i: int, j: int|
        0 <= i < j < instruments.len() ==> (#[trigger] instruments[i]).name_internal@ != (
        #[trigger] instruments[j]).name_internal@
}

/// Whether `list[at]` is the first instrument with the internal name of an earlier one, and that is
/// `list[earlier]`.
pub open spec fn first_repeated(list: Seq<Instrument<ExchangeId, Asset>>, earlier: int, at: int) -> bool {
    &&& 0 <= earlier < at < list.len()
    &&& list[earlier].name_internal@ == list[at].name_internal@
    &&& unique_names(list.take(at))
}

/// The message for two instruments that share an internal name.
pub open spec fn clash_message(
    previous: Instrument<ExchangeId, Asset>,
    instrument: Instrument<ExchangeId, Asset>,
) -> Seq<char> {
    instrument.name_internal@ + " is shared by the distinct instruments "@ + previous.name_exchange@ + " and "@
        + instrument.name_exchange@ + " on "@ + instrument.exchange.name()
        + " - every Instrument requires a unique name_internal"@
}

/// The values without their keys.
pub open spec fn values<Key, Value>(items: Seq<Keyed<Key, Value>>) -> Seq<Value> {
    items.map_values(|item: Keyed<Key, Value>| item.value)
}

/// Whether `found` is the position of the first asset on the venue with the internal name.
pub open spec fn is_index_of_asset(
    assets: Seq<Keyed<AssetIndex, ExchangeAsset>>,
    exchange: ExchangeId,
    name_internal: Seq<char>,
    found: AssetIndex,
) -> bool {
    &&& found.0 < assets.len()
    &&& assets[found.0 as int].value.exchange == exchange
    &&& assets[found.0 as int].value.asset.name_internal@ == name_internal
    &&& forall|k: int|
        0 <= k < found.0 ==> !((#[trigger] assets[k]).value.exchange == exchange && assets[k].value.asset.name_internal@
            == name_internal)
}

/// Whether `indexed` is `plain` with its venues and assets replaced by their indexes.
pub open spec fn is_indexed(
    plain: Instrument<ExchangeId, Asset>,
    indexed: IndexedInstrument,
    exchanges: Seq<Keyed<ExchangeIndex, ExchangeId>>,
    assets: Seq<Keyed<AssetIndex, ExchangeAsset>>,
) -> bool {
    &&& indexed.exchange.value == plain.exchange
    &&& index::exchange_resolves(exchanges, indexed.exchange)
    &&& indexed.name_internal@ == plain.name_internal@
    &&& indexed.name_exchange@ == plain.name_exchange@
    &&& is_index_of_asset(assets, plain.exchange, plain.underlying.base.name_internal@, indexed.underlying.base)
    &&& is_index_of_asset(assets, plain.exchange, plain.underlying.quote.name_internal@, indexed.underlying.quote)
    &&& indexed.quote == plain.quote
    &&& indexed.kind == plain.kind.settled_in(indexed.kind.settles_in())
    &&& plain.kind.settles_in() matches Some(asset) ==> is_index_of_asset(
        assets,
        plain.exchange,
        asset.name_internal@,
        indexed.kind.settles_in()->0,
    )
    &&& match (plain.spec, indexed.spec) {
        (None, None) => true,
        (Some(spec), Some(new)) => {
            &&& new == spec.in_units_of(new.unit_asset())
            &&& spec.unit_asset() matches Some(asset) ==> is_index_of_asset(
                assets,
                plain.exchange,
                asset.name_internal@,
                new.unit_asset()->0,
            )
        },
        _ => false,
    }
    &&& match (plain.data_venue, indexed.data_venue) {
        (None, None) => true,
        (Some(venue), Some(new)) => {
            &&& new.exchange.value == venue.exchange
            &&& index::exchange_resolves(exchanges, new.exchange)
            &&& new.name_exchange == venue.name_exchange
        },
        _ => false,
    }
}

/// Whether `indexed` holds what was added: venues and assets in order and without repetition, and
/// the instruments of `list` under their indexes.
pub open spec fn is_built_from(
    indexed: IndexedInstruments,
    list: Seq<Instrument<ExchangeId, Asset>>,
    exchanges: Seq<ExchangeId>,
    assets: Seq<ExchangeAsset>,
) -> bool {
    &&& sorting::sorted_set_of(values(indexed.spec_exchanges()), exchanges)
    &&& sorting::sorted_set_of(values(indexed.spec_assets()), assets)
    &&& indexed.spec_instruments().len() == list.len()
    &&& forall|i: int|
        0 <= i < list.len() ==> is_indexed(
            #[trigger] list[i],
            indexed.spec_instruments()[i].value,
            indexed.spec_exchanges(),
            indexed.spec_assets(),
        )
    &&& index::consistent(indexed.spec_exchanges(), indexed.spec_assets(), indexed.spec_instruments())
}

impl IndexedInstrumentsBuilder {
    #[verifier::type_invariant]
    spec fn is_complete(self) -> bool {
        &&& self.exchanges@ == exchanges_of(self.instruments@)
        &&& self.assets@ == assets_of(self.instruments@)
        &&& forall|i: int|
            0 <= i < self.instruments@.len() ==> registered(
                #[trigger] self.instruments@[i],
                self.exchanges@,
                self.assets@,
            )
    }

    /// The instruments that were added, in the order in which they were.
    pub closed spec fn spec_instruments(self) -> Seq<Instrument<ExchangeId, Asset>> {
        self.instruments@
    }

    /// A builder without instruments.
    pub fn new() -> (r: IndexedInstrumentsBuilder)
        ensures
            r.spec_instruments() == Seq::<Instrument<ExchangeId, Asset>>::empty(),
    {
        IndexedInstrumentsBuilder { exchanges: Vec::new(), instruments: Vec::new(), assets: Vec::new() }
    }

    /// Adds an instrument, and every venue and asset that it names.
    pub fn add_instrument(self, instrument: Instrument<ExchangeId, Asset>) -> (r: IndexedInstrumentsBuilder)
        ensures
            r.spec_instruments() == self.spec_instruments().push(instrument),
    {
        proof {
            use_type_invariant(&self);
        }
        let IndexedInstrumentsBuilder { exchanges, instruments, assets } = self;
        let mut exchanges = exchanges;
        let mut instruments = instruments;
        let mut assets = assets;
        let ghost old_exchanges = exchanges@;
        let ghost old_assets = assets@;
        let ghost old_instruments = instruments@;
        exchanges.push(instrument.exchange);
        if let Some(venue) = &instrument.data_venue {
            exchanges.push(venue.exchange);
        }
        assets.push(ExchangeAsset::new(instrument.exchange, instrument.underlying.base.duplicate()));
        assets.push(ExchangeAsset::new(instrument.exchange, instrument.underlying.quote.duplicate()));
        if let Some(asset) = instrument.kind.settlement_asset() {
            assets.push(ExchangeAsset::new(instrument.exchange, asset.duplicate()));
        }
        if let Some(spec) = &instrument.spec {
            if let OrderQuantityUnits::Asset(asset) = &spec.quantity.unit {
                assets.push(ExchangeAsset::new(instrument.exchange, asset.duplicate()));
            }
        }
        assert(exchanges@ =~= old_exchanges + named_exchanges(instrument));
        assert(assets@ =~= old_assets + named_assets(instrument));
        let ghost added = instrument;
        instruments.push(instrument);
        proof {
            assert(instruments@.drop_last() =~= old_instruments);
            assert(instruments@.last() == added);
            assert forall|i: int| 0 <= i < instruments@.len() implies registered(
                #[trigger] instruments@[i],
                exchanges@,
                assets@,
            ) by {
                let one = instruments@[i];
                assert forall|k: int| 0 <= k < named_exchanges(one).len() implies exchanges@.contains(
                    #[trigger] named_exchanges(one)[k],
                ) by {
                    if i < old_instruments.len() {
                        assert(registered(old_instruments[i], old_exchanges, old_assets));
                        let p = choose|p: int|
                            0 <= p < old_exchanges.len() && old_exchanges[p] == named_exchanges(one)[k];
                        assert(exchanges@[p] == named_exchanges(one)[k]);
                    } else {
                        assert(exchanges@[old_exchanges.len() + k] == named_exchanges(one)[k]);
                    }
                }
                assert forall|k: int| 0 <= k < named_assets(one).len() implies assets@.contains(
                    #[trigger] named_assets(one)[k],
                ) by {
                    if i < old_instruments.len() {
                        assert(registered(old_instruments[i], old_exchanges, old_assets));
                        let p = choose|p: int| 0 <= p < old_assets.len() && old_assets[p] == named_assets(one)[k];
                        assert(assets@[p] == named_assets(one)[k]);
                    } else {
                        assert(assets@[old_assets.len() + k] == named_assets(one)[k]);
                    }
                }
            }
        }
        IndexedInstrumentsBuilder { exchanges, instruments, assets }
    }
}

/// Whether all that an instrument names is among the indexed venues and assets.
spec fn is_known(
    plain: Instrument<ExchangeId, Asset>,
    exchanges: Seq<Keyed<ExchangeIndex, ExchangeId>>,
    assets: Seq<Keyed<AssetIndex, ExchangeAsset>>,
) -> bool {
    &&& forall|k: int|
        0 <= k < named_exchanges(plain).len() ==> sorting::has_same(
            values(exchanges),
            #[trigger] named_exchanges(plain)[k],
        )
    &&& forall|k: int|
        0 <= k < named_assets(plain).len() ==> sorting::has_same(
            values(assets),
            #[trigger] named_assets(plain)[k],
        )
}

fn key_exchanges(list: &Vec<ExchangeId>) -> (r: Vec<Keyed<ExchangeIndex, ExchangeId>>)
    ensures
        values(r@) == list@,
        forall|i: int| 0 <= i < r@.len() ==> (#[trigger] r@[i]).key.0 == i,
{
    let mut keyed: Vec<Keyed<ExchangeIndex, ExchangeId>> = Vec::new();
    let mut i: usize = 0;
    while i < list.len()
        invariant
            i <= list.len(),
            keyed.len() == i,
            forall|k: int| 0 <= k < i ==> (#[trigger] keyed@[k]).key.0 == k && keyed@[k].value == list@[k],
        decreases list.len() - i,
    {
        keyed.push(Keyed { key: ExchangeIndex(i), value: list[i] });
        i = i + 1;
    }
    assert(values(keyed@) =~= list@);
    keyed
}

fn key_assets(list: &Vec<ExchangeAsset>) -> (r: Vec<Keyed<AssetIndex, ExchangeAsset>>)
    ensures
        values(r@) == list@,
        forall|i: int| 0 <= i < r@.len() ==> (#[trigger] r@[i]).key.0 == i,
{
    let mut keyed: Vec<Keyed<AssetIndex, ExchangeAsset>> = Vec::new();
    let mut i: usize = 0;
    while i < list.len()
        invariant
            i <= list.len(),
            keyed.len() == i,
            forall|k: int| 0 <= k < i ==> (#[trigger] keyed@[k]).key.0 == k && keyed@[k].value == list@[k],
        decreases list.len() - i,
    {
        keyed.push(
            Keyed {
                key: AssetIndex(i),
                value: ExchangeAsset::new(list[i].exchange, list[i].asset.duplicate()),
            },
        );
        i = i + 1;
    }
    assert(values(keyed@) =~= list@);
    keyed
}

fn find_exchange(exchanges: &Vec<Keyed<ExchangeIndex, ExchangeId>>, exchange: ExchangeId) -> (r: Keyed<
    ExchangeIndex,
    ExchangeId,
>)
    requires
        sorting::has_same(values(exchanges@), exchange),
        forall|i: int| 0 <= i < exchanges@.len() ==> (#[trigger] exchanges@[i]).key.0 == i,
    ensures
        r.value == exchange,
        index::exchange_resolves(exchanges@, r),
{
    let mut i: usize = 0;
    while i < exchanges.len()
        invariant
            i <= exchanges.len(),
            forall|k: int| 0 <= k < exchanges@.len() ==> (#[trigger] exchanges@[k]).key.0 == k,
            forall|k: int| 0 <= k < i ==> (#[trigger] exchanges@[k]).value != exchange,
        decreases exchanges.len() - i,
    {
        if exchanges[i].value == exchange {
            return Keyed { key: exchanges[i].key, value: exchange };
        }
        i = i + 1;
    }
    proof {
        let k = choose|k: int| 0 <= k < values(exchanges@).len() && (#[trigger] values(exchanges@)[k]).same(exchange);
        assert(exchanges@[k].value == exchange);
        assert(false);
    }
    Keyed { key: ExchangeIndex(0), value: exchange }
}

fn find_asset(assets: &Vec<Keyed<AssetIndex, ExchangeAsset>>, exchange: ExchangeId, asset: &Asset) -> (r: AssetIndex)
    requires
        sorting::has_same(values(assets@), (ExchangeAsset { exchange, asset: *asset })),
        forall|i: int| 0 <= i < assets@.len() ==> (#[trigger] assets@[i]).key.0 == i,
    ensures
        is_index_of_asset(assets@, exchange, asset.name_internal@, r),
{
    let mut i: usize = 0;
    while i < assets.len()
        invariant
            i <= assets.len(),
            forall|k: int| 0 <= k < assets@.len() ==> (#[trigger] assets@[k]).key.0 == k,
            forall|k: int|
                0 <= k < i ==> !((#[trigger] assets@[k]).value.exchange == exchange && assets@[k].value.asset.name_internal@
                    == asset.name_internal@),
        decreases assets.len() - i,
    {
        if assets[i].value.exchange == exchange && same_text(
            assets[i].value.asset.name_internal.as_str(),
            asset.name_internal.as_str(),
        ) {
            return assets[i].key;
        }
        i = i + 1;
    }
    proof {
        let wanted = ExchangeAsset { exchange, asset: *asset };
        let k = choose|k: int| 0 <= k < values(assets@).len() && (#[trigger] values(assets@)[k]).same(wanted);
        assert(assets@[k].value.key() == wanted.key());
        assert(false);
    }
    AssetIndex(0)
}

fn index_kind(
    kind: &InstrumentKind<Asset>,
    exchange: ExchangeId,
    assets: &Vec<Keyed<AssetIndex, ExchangeAsset>>,
) -> (r: InstrumentKind<AssetIndex>)
    requires
        kind.settles_in() matches Some(asset) ==> sorting::has_same(
            values(assets@),
            (ExchangeAsset { exchange, asset }),
        ),
        forall|i: int| 0 <= i < assets@.len() ==> (#[trigger] assets@[i]).key.0 == i,
    ensures
        r == kind.settled_in(r.settles_in()),
        kind.settles_in() matches Some(asset) ==> is_index_of_asset(
            assets@,
            exchange,
            asset.name_internal@,
            r.settles_in()->0,
        ),
{
    match kind {
        InstrumentKind::Spot => InstrumentKind::Spot,
        InstrumentKind::Perpetual(c) => InstrumentKind::Perpetual(
            PerpetualContract {
                contract_size: c.contract_size,
                settlement_asset: find_asset(assets, exchange, &c.settlement_asset),
            },
        ),
        InstrumentKind::Future(c) => InstrumentKind::Future(
            FutureContract {
                contract_size: c.contract_size,
                settlement_asset: find_asset(assets, exchange, &c.settlement_asset),
                expiry: c.expiry,
            },
        ),
        InstrumentKind::OptionContract(c) => InstrumentKind::OptionContract(
            OptionContract {
                contract_size: c.contract_size,
                settlement_asset: find_asset(assets, exchange, &c.settlement_asset),
                kind: c.kind,
                expiry: c.expiry,
                strike: c.strike,
            },
        ),
        InstrumentKind::Cfd(c) => InstrumentKind::Cfd(
            CfdContract {
                contract_size: c.contract_size,
                settlement_asset: find_asset(assets, exchange, &c.settlement_asset),
            },
        ),
    }
}

fn index_instrument(
    plain: &Instrument<ExchangeId, Asset>,
    exchanges: &Vec<Keyed<ExchangeIndex, ExchangeId>>,
    assets: &Vec<Keyed<AssetIndex, ExchangeAsset>>,
) -> (r: IndexedInstrument)
    requires
        is_known(*plain, exchanges@, assets@),
        forall|i: int| 0 <= i < exchanges@.len() ==> (#[trigger] exchanges@[i]).key.0 == i,
        forall|i: int| 0 <= i < assets@.len() ==> (#[trigger] assets@[i]).key.0 == i,
    ensures
        is_indexed(*plain, r, exchanges@, assets@),
        index::instrument_resolves(exchanges@, assets@, r),
{
    let exchange = plain.exchange;
    proof {
        let names = named_assets(*plain);
        let venues = named_exchanges(*plain);
        assert(sorting::has_same(values(exchanges@), venues[0]));
        assert(sorting::has_same(values(assets@), names[0]));
        assert(sorting::has_same(values(assets@), names[1]));
        if plain.data_venue is Some {
            assert(sorting::has_same(values(exchanges@), venues[1]));
        }
        if plain.kind.settles_in() is Some {
            assert(sorting::has_same(values(assets@), names[2]));
        }
        if plain.spec is Some && plain.spec->0.unit_asset() is Some {
            assert(sorting::has_same(values(assets@), names[names.len() - 1]));
        }
    }
    let spec = match &plain.spec {
        Some(spec) => {
            let unit = match &spec.quantity.unit {
                OrderQuantityUnits::Asset(asset) => OrderQuantityUnits::Asset(
                    find_asset(assets, exchange, asset),
                ),
                OrderQuantityUnits::Contract => OrderQuantityUnits::Contract,
                OrderQuantityUnits::Quote => OrderQuantityUnits::Quote,
            };
            Some(
                InstrumentSpec {
                    price: spec.price,
                    quantity: InstrumentSpecQuantity {
                        unit,
                        min: spec.quantity.min,
                        increment: spec.quantity.increment,
                    },
                    notional: spec.notional,
                },
            )
        },
        None => None,
    };
    let data_venue = match &plain.data_venue {
        Some(venue) => {
            let name_exchange = match &venue.name_exchange {
                Some(name) => Some(name.clone()),
                None => None,
            };
            Some(DataVenue { exchange: find_exchange(exchanges, venue.exchange), name_exchange })
        },
        None => None,
    };
    Instrument {
        exchange: find_exchange(exchanges, exchange),
        name_internal: plain.name_internal.clone(),
        name_exchange: plain.name_exchange.clone(),
        underlying: Underlying {
            base: find_asset(assets, exchange, &plain.underlying.base),
            quote: find_asset(assets, exchange, &plain.underlying.quote),
        },
        quote: plain.quote,
        kind: index_kind(&plain.kind, exchange, assets),
        spec,
        data_venue,
    }
}

/// Finds the first instrument that shares its internal name with an earlier one.
fn find_repeated(list: &Vec<Instrument<ExchangeId, Asset>>) -> (r: Option<(usize, usize)>)
    ensures
        match r {
            Some((earlier, at)) => first_repeated(list@, earlier as int, at as int),
            None => unique_names(list@),
        },
{
    let mut at: usize = 0;
    while at < list.len()
        invariant
            at <= list.len(),
            unique_names(list@.take(at as int)),
        decreases list.len() - at,
    {
        let mut earlier: usize = 0;
        while earlier < at
            invariant
                earlier <= at < list.len(),
                unique_names(list@.take(at as int)),
                forall|k: int|
                    0 <= k < earlier ==> (#[trigger] list@[k]).name_internal@ != list@[at as int].name_internal@,
            decreases at - earlier,
        {
            if same_text(list[earlier].name_internal.as_str(), list[at].name_internal.as_str()) {
                return Some((earlier, at));
            }
            earlier = earlier + 1;
        }
        proof {
            let longer = list@.take(at + 1);
            assert forall|i: int, j: int| 0 <= i < j < longer.len() implies (#[trigger] longer[i]).name_internal@ != (
            #[trigger] longer[j]).name_internal@ by {
                if j < at {
                    let shorter = list@.take(at as int);
                    assert(shorter[i] == longer[i] && shorter[j] == longer[j]);
                } else {
                    assert(longer[i] == list@[i]);
                }
            }
        }
        at = at + 1;
    }
    assert(list@.take(at as int) =~= list@);
    None
}

proof fn lemma_known(
    plain: Instrument<ExchangeId, Asset>,
    added_exchanges: Seq<ExchangeId>,
    added_assets: Seq<ExchangeAsset>,
    exchanges: Seq<Keyed<ExchangeIndex, ExchangeId>>,
    assets: Seq<Keyed<AssetIndex, ExchangeAsset>>,
)
    requires
        registered(plain, added_exchanges, added_assets),
        sorting::sorted_set_of(values(exchanges), added_exchanges),
        sorting::sorted_set_of(values(assets), added_assets),
    ensures
        is_known(plain, exchanges, assets),
{
    reveal(sorting::sorted_set_of);
    assert forall|k: int| 0 <= k < named_exchanges(plain).len() implies sorting::has_same(
        values(exchanges),
        #[trigger] named_exchanges(plain)[k],
    ) by {
        let p = choose|p: int|
            0 <= p < added_exchanges.len() && added_exchanges[p] == named_exchanges(plain)[k];
        assert(sorting::has_same(values(exchanges), added_exchanges[p]));
    }
    assert forall|k: int| 0 <= k < named_assets(plain).len() implies sorting::has_same(
        values(assets),
        #[trigger] named_assets(plain)[k],
    ) by {
        let p = choose|p: int| 0 <= p < added_assets.len() && added_assets[p] == named_assets(plain)[k];
        assert(sorting::has_same(values(assets), added_assets[p]));
    }
}

/// Whether `indexed` is the collection of the instruments that were added, with the venues and the
/// assets that they name.
pub open spec fn is_collection_of(
    indexed: IndexedInstruments,
    added: Seq<Instrument<ExchangeId, Asset>>,
) -> bool {
    exists|list: Seq<Instrument<ExchangeId, Asset>>|
        {
            &&& #[trigger] sorting::sorted_set_of(list, added)
            &&& unique_names(list)
            &&& is_built_from(indexed, list, exchanges_of(added), assets_of(added))
        }
}

/// Whether `e` is the error for two instruments that share an internal name.
pub open spec fn tells_of(
    e: IndexError,
    previous: Instrument<ExchangeId, Asset>,
    instrument: Instrument<ExchangeId, Asset>,
) -> bool {
    e matches IndexError::DuplicateInstrumentNameInternal(message) && message@ == clash_message(previous, instrument)
}

/// Whether `e` names two different instruments of those added that share an internal name: the first
/// such pair in the order of instruments.
pub open spec fn reports_clash(e: IndexError, instruments: Seq<Instrument<ExchangeId, Asset>>) -> bool {
    exists|list: Seq<Instrument<ExchangeId, Asset>>, earlier: int, at: int|
        {
            &&& #[trigger] sorting::sorted_set_of(list, instruments)
            &&& #[trigger] first_repeated(list, earlier, at)
            &&& tells_of(e, list[earlier], list[at])
        }
}

/// Whether `r` is what building from the instruments that were added gives: their collection, if and
/// only if no two of them share an internal name without being the same, and otherwise the clash.
pub open spec fn is_outcome_of(
    r: Result<IndexedInstruments, IndexError>,
    added: Seq<Instrument<ExchangeId, Asset>>,
) -> bool {
    &&& match r {
        Ok(indexed) => is_collection_of(indexed, added),
        Err(e) => reports_clash(e, added),
    }
    &&& r is Ok <==> without_clash(added)
}

fn describe_clash(previous: &Instrument<ExchangeId, Asset>, instrument: &Instrument<ExchangeId, Asset>) -> (r: String)
    ensures
        r@ == clash_message(*previous, *instrument),
{
    let mut message = instrument.name_internal.clone();
    message.append(" is shared by the distinct instruments ");
    message.append(previous.name_exchange.as_str());
    message.append(" and ");
    message.append(instrument.name_exchange.as_str());
    message.append(" on ");
    message.append(instrument.exchange.as_str());
    message.append(" - every Instrument requires a unique name_internal");
    message
}

/// Puts sorted venues, assets and instruments under their positions.
fn assemble(
    list: &Vec<Instrument<ExchangeId, Asset>>,
    exchanges: &Vec<ExchangeId>,
    assets: &Vec<ExchangeAsset>,
    Ghost(added_exchanges): Ghost<Seq<ExchangeId>>,
    Ghost(added_assets): Ghost<Seq<ExchangeAsset>>,
) -> (r: IndexedInstruments)
    requires
        sorting::sorted_set_of(exchanges@, added_exchanges),
        sorting::sorted_set_of(assets@, added_assets),
        forall|k: int|
            0 <= k < list@.len() ==> registered(#[trigger] list@[k], added_exchanges, added_assets),
    ensures
        is_built_from(r, list@, added_exchanges, added_assets),
{
    let keyed_exchanges = key_exchanges(exchanges);
    let keyed_assets = key_assets(assets);
    let mut indexed: Vec<Keyed<InstrumentIndex, IndexedInstrument>> = Vec::new();
    let mut i: usize = 0;
    while i < list.len()
        invariant
            i <= list.len(),
            indexed.len() == i,
            sorting::sorted_set_of(values(keyed_exchanges@), added_exchanges),
            sorting::sorted_set_of(values(keyed_assets@), added_assets),
            forall|k: int| 0 <= k < keyed_exchanges@.len() ==> (#[trigger] keyed_exchanges@[k]).key.0 == k,
            forall|k: int| 0 <= k < keyed_assets@.len() ==> (#[trigger] keyed_assets@[k]).key.0 == k,
            forall|k: int|
                0 <= k < list@.len() ==> registered(#[trigger] list@[k], added_exchanges, added_assets),
            forall|k: int| 0 <= k < i ==> (#[trigger] indexed@[k]).key.0 == k,
            forall|k: int|
                0 <= k < i ==> is_indexed(
                    #[trigger] list@[k],
                    indexed@[k].value,
                    keyed_exchanges@,
                    keyed_assets@,
                ),
            forall|k: int|
                0 <= k < i ==> index::instrument_resolves(
                    keyed_exchanges@,
                    keyed_assets@,
                    (#[trigger] indexed@[k]).value,
                ),
        decreases list.len() - i,
    {
        proof {
            assert(registered(list@[i as int], added_exchanges, added_assets));
            lemma_known(list@[i as int], added_exchanges, added_assets, keyed_exchanges@, keyed_assets@);
        }
        let value = index_instrument(&list[i], &keyed_exchanges, &keyed_assets);
        indexed.push(Keyed { key: InstrumentIndex(i), value });
        i = i + 1;
    }
    proof {
        reveal(sorting::sorted_set_of);
        let built = values(keyed_exchanges@);
        assert forall|i: int, j: int| 0 <= i < j < keyed_exchanges@.len() implies (
        #[trigger] keyed_exchanges@[i]).value != (#[trigger] keyed_exchanges@[j]).value by {
            assert(!built[i].same(built[j]));
        }
    }
    IndexedInstruments::new(keyed_exchanges, keyed_assets, indexed)
}

impl IndexedInstrumentsBuilder {
    /// Builds the collection: venues, assets and instruments in order and without repetition, each
    /// under its position.
    ///
    /// Fails where two different instruments share an internal name. An instrument that was added
    /// twice is one instrument, and no reason to fail.
    pub fn try_build(self) -> (r: Result<IndexedInstruments, IndexError>)
        ensures
            is_outcome_of(r, self.spec_instruments()),
    {
        proof {
            use_type_invariant(&self);
        }
        let ghost added_exchanges = self.exchanges@;
        let ghost added_assets = self.assets@;
        let ghost added = self.instruments@;
        let IndexedInstrumentsBuilder { exchanges, instruments, assets } = self;
        let exchanges = sort_distinct(exchanges);
        let list = sort_distinct(instruments);
        let assets = sort_distinct(assets);
        if let Some((earlier, at)) = find_repeated(&list) {
            let message = describe_clash(&list[earlier], &list[at]);
            let error = IndexError::DuplicateInstrumentNameInternal(message);
            proof {
                lemma_repeated_is_clash(list@, added, earlier as int, at as int);
                lemma_repeated_is_reported(error, list@, added, earlier as int, at as int);
            }
            return Err(error);
        }
        proof {
            lemma_all_registered(list@, added, added_exchanges, added_assets);
        }
        let indexed = assemble(&list, &exchanges, &assets, Ghost(added_exchanges), Ghost(added_assets));
        proof {
            lemma_collection_is_outcome(indexed, list@, added);
        }
        Ok(indexed)
    }

    /// Builds the collection from instruments of which no two share an internal name without being
    /// the same.
    pub fn build(self) -> (r: IndexedInstruments)
        requires
            without_clash(self.spec_instruments()),
        ensures
            is_collection_of(r, self.spec_instruments()),
    {
        match self.try_build() {
            Ok(indexed) => indexed,
            Err(_) => {
                assert(false);
                IndexedInstruments::new(Vec::new(), Vec::new(), Vec::new())
            },
        }
    }
}

proof fn lemma_all_registered(
    list: Seq<Instrument<ExchangeId, Asset>>,
    added: Seq<Instrument<ExchangeId, Asset>>,
    exchanges: Seq<ExchangeId>,
    assets: Seq<ExchangeAsset>,
)
    requires
        sorting::sorted_set_of(list, added),
        forall|i: int| 0 <= i < added.len() ==> registered(#[trigger] added[i], exchanges, assets),
    ensures
        forall|k: int| 0 <= k < list.len() ==> registered(#[trigger] list[k], exchanges, assets),
{
    reveal(sorting::sorted_set_of);
    assert forall|k: int| 0 <= k < list.len() implies registered(#[trigger] list[k], exchanges, assets) by {
        assert(added.contains(list[k]));
        let p = choose|p: int| 0 <= p < added.len() && added[p] == list[k];
        assert(registered(added[p], exchanges, assets));
    }
}

proof fn lemma_repeated_is_reported(
    e: IndexError,
    list: Seq<Instrument<ExchangeId, Asset>>,
    added: Seq<Instrument<ExchangeId, Asset>>,
    earlier: int,
    at: int,
)
    requires
        sorting::sorted_set_of(list, added),
        first_repeated(list, earlier, at),
        tells_of(e, list[earlier], list[at]),
    ensures
        reports_clash(e, added),
{
}

proof fn lemma_collection_is_outcome(
    indexed: IndexedInstruments,
    list: Seq<Instrument<ExchangeId, Asset>>,
    added: Seq<Instrument<ExchangeId, Asset>>,
)
    requires
        sorting::sorted_set_of(list, added),
        unique_names(list),
        is_built_from(indexed, list, exchanges_of(added), assets_of(added)),
    ensures
        is_outcome_of(Ok(indexed), added),
{
    lemma_unique_is_without_clash(list, added);
}

proof fn lemma_repeated_is_clash(
    list: Seq<Instrument<ExchangeId, Asset>>,
    added: Seq<Instrument<ExchangeId, Asset>>,
    earlier: int,
    at: int,
)
    requires
        sorting::sorted_set_of(list, added),
        first_repeated(list, earlier, at),
    ensures
        !without_clash(added),
{
    reveal(sorting::sorted_set_of);
    assert(added.contains(list[earlier]));
    assert(added.contains(list[at]));
    let p = choose|p: int| 0 <= p < added.len() && added[p] == list[earlier];
    let q = choose|q: int| 0 <= q < added.len() && added[q] == list[at];
    assert(!list[earlier].same(list[at]));
    assert(clash(added[p], added[q]));
}

proof fn lemma_unique_is_without_clash(
    list: Seq<Instrument<ExchangeId, Asset>>,
    added: Seq<Instrument<ExchangeId, Asset>>,
)
    requires
        sorting::sorted_set_of(list, added),
        unique_names(list),
    ensures
        without_clash(added),
{
    reveal(sorting::sorted_set_of);
    assert forall|i: int, j: int| 0 <= i < added.len() && 0 <= j < added.len() implies !#[trigger] clash(
        added[i],
        added[j],
    ) by {
        assert(sorting::has_same(list, added[i]));
        assert(sorting::has_same(list, added[j]));
        let p = choose|p: int| 0 <= p < list.len() && (#[trigger] list[p]).same(added[i]);
        let q = choose|q: int| 0 <= q < list.len() && (#[trigger] list[q]).same(added[j]);
        if clash(added[i], added[j]) {
            assert(list[p].name_internal@ == list[q].name_internal@);
            assert(p == q);
            assert(added[i].same_as(added[j]));
        }
    }
}

/// Every instrument of a built collection can be told by its internal name, and stands at the
/// position that its key gives: reading by name and reading by position agree.
pub proof fn law_names_and_positions_agree(
    indexed: IndexedInstruments,
    added: Seq<Instrument<ExchangeId, Asset>>,
    i: int,
    j: int,
)
    requires
        is_collection_of(indexed, added),
        0 <= i < indexed.spec_instruments().len(),
        0 <= j < indexed.spec_instruments().len(),
        indexed.spec_instruments()[i].value.name_internal@ == indexed.spec_instruments()[j].value.name_internal@,
    ensures
        i == j,
        indexed.spec_instruments()[i].key.0 == i,
{
    let list = choose|list: Seq<Instrument<ExchangeId, Asset>>|
        {
            &&& #[trigger] sorting::sorted_set_of(list, added)
            &&& unique_names(list)
            &&& is_built_from(indexed, list, exchanges_of(added), assets_of(added))
        };
    assert(is_indexed(
        list[i],
        indexed.spec_instruments()[i].value,
        indexed.spec_exchanges(),
        indexed.spec_assets(),
    ));
    assert(is_indexed(
        list[j],
        indexed.spec_instruments()[j].value,
        indexed.spec_exchanges(),
        indexed.spec_assets(),
    ));
    if i < j {
        assert(list[i].name_internal@ != list[j].name_internal@);
    } else if j < i {
        assert(list[j].name_internal@ != list[i].name_internal@);
    }
}

/// Whether one of the instruments names a venue, for execution or for prices.
pub open spec fn is_named(instruments: Seq<Instrument<ExchangeId, Asset>>, exchange: ExchangeId) -> bool {
    exists|i: int| 0 <= i < instruments.len() && named_exchanges(#[trigger] instruments[i]).contains(exchange)
}

pub proof fn lemma_exchanges_of(instruments: Seq<Instrument<ExchangeId, Asset>>, exchange: ExchangeId)
    ensures
        exchanges_of(instruments).contains(exchange) <==> is_named(instruments, exchange),
    decreases instruments.len(),
{
    if instruments.len() > 0 {
        let before = instruments.drop_last();
        let earlier = exchanges_of(before);
        let named = named_exchanges(instruments.last());
        lemma_exchanges_of(before, exchange);
        if exchanges_of(instruments).contains(exchange) {
            let k = choose|k: int| 0 <= k < (earlier + named).len() && (earlier + named)[k] == exchange;
            if k < earlier.len() {
                assert(earlier[k] == exchange);
                let i = choose|i: int| 0 <= i < before.len() && named_exchanges(#[trigger] before[i]).contains(exchange);
                assert(named_exchanges(instruments[i]).contains(exchange));
            } else {
                assert(named[k - earlier.len()] == exchange);
                assert(named_exchanges(instruments[instruments.len() - 1]).contains(exchange));
            }
        }
        if is_named(instruments, exchange) {
            let i = choose|i: int|
                0 <= i < instruments.len() && named_exchanges(#[trigger] instruments[i]).contains(exchange);
            if i < before.len() {
                assert(named_exchanges(before[i]).contains(exchange));
                let k = choose|k: int| 0 <= k < earlier.len() && earlier[k] == exchange;
                assert((earlier + named)[k] == exchange);
            } else {
                let k = choose|k: int| 0 <= k < named.len() && named[k] == exchange;
                assert((earlier + named)[earlier.len() + k] == exchange);
            }
        }
    }
}

/// The venues of a built collection are exactly those that the instruments name, for execution or
/// for prices.
pub proof fn law_built_venues(
    indexed: IndexedInstruments,
    added: Seq<Instrument<ExchangeId, Asset>>,
    exchange: ExchangeId,
)
    requires
        is_collection_of(indexed, added),
    ensures
        values(indexed.spec_exchanges()).contains(exchange) <==> is_named(added, exchange),
{
    reveal(sorting::sorted_set_of);
    let exchanges = exchanges_of(added);
    let built = values(indexed.spec_exchanges());
    lemma_exchanges_of(added, exchange);
    if built.contains(exchange) {
        let k = choose|k: int| 0 <= k < built.len() && built[k] == exchange;
        assert(exchanges.contains(built[k]));
    }
    if exchanges.contains(exchange) {
        let k = choose|k: int| 0 <= k < exchanges.len() && exchanges[k] == exchange;
        assert(sorting::has_same(built, exchanges[k]));
        let p = choose|p: int| 0 <= p < built.len() && (#[trigger] built[p]).same(exchanges[k]);
        assert(built[p] == exchange);
    }
}

impl Default for IndexedInstrumentsBuilder {
    /// A builder without instruments.
    fn default() -> (r: IndexedInstrumentsBuilder)
        ensures
            r.spec_instruments() == Seq::<Instrument<ExchangeId, Asset>>::empty(),
    {
        IndexedInstrumentsBuilder::new()
    }
}

} // verus!
