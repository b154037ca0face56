//! Which venue executes through which channel, and what a mocked venue knows of its instruments.

use vstd::prelude::*;
use vstd::string::*;
use crate::exchange::ExchangeId;
use crate::index;
use crate::index::error::IndexError;
use crate::index::sorting::ExchangeAsset;
use crate::index::{AssetIndex, ExchangeIndex, IndexedInstrument, IndexedInstruments, Keyed};
use crate::instrument::data_venue::DataVenue;
use crate::instrument::{
    CfdContract,
    Instrument,
    InstrumentKind,
    InstrumentSpec,
    InstrumentSpecQuantity,
    OrderQuantityUnits,
    Underlying,
};
use crate::market::InstrumentIndex;
use crate::text;
use crate::text::same_text;

verus! {

/// An instrument as a mocked venue knows it: under names instead of indexes.
pub type MockInstrument = Instrument<ExchangeId, String>;

/// Whether a mocked venue can fill an instrument of this kind. It models no expiry, no funding and
/// no chain of contracts; a contract for difference is accounted for in cash.
pub open spec fn mockable(kind: InstrumentKind<AssetIndex>) -> bool {
    kind is Spot || kind is Cfd
}

/// The name that the venue uses for an asset.
pub open spec fn venue_name(assets: Seq<Keyed<AssetIndex, ExchangeAsset>>, asset: AssetIndex) -> String {
    assets[asset.0 as int].value.asset.name_exchange
}

/// The name that the venue uses for an asset, where there is one.
pub open spec fn optional_venue_name(
    assets: Seq<Keyed<AssetIndex, ExchangeAsset>>,
    asset: Option<AssetIndex>,
) -> Option<String> {
    match asset {
        Some(asset) => Some(venue_name(assets, asset)),
        None => None,
    }
}

/// An indexed instrument with every index replaced by what the venue calls it.
pub open spec fn projection(
    instrument: IndexedInstrument,
    assets: Seq<Keyed<AssetIndex, ExchangeAsset>>,
) -> MockInstrument {
    Instrument {
        exchange: instrument.exchange.value,
        name_internal: instrument.name_internal,
        name_exchange: instrument.name_exchange,
        underlying: Underlying {
            base: venue_name(assets, instrument.underlying.base),
            quote: venue_name(assets, instrument.underlying.quote),
        },
        quote: instrument.quote,
        kind: instrument.kind.settled_in(optional_venue_name(assets, instrument.kind.settles_in())),
        spec: match instrument.spec {
            Some(spec) => Some(spec.in_units_of(optional_venue_name(assets, spec.unit_asset()))),
            None => None,
        },
        data_venue: match instrument.data_venue {
            Some(venue) => Some(
                DataVenue { exchange: venue.exchange.value, name_exchange: venue.name_exchange },
            ),
            None => None,
        },
    }
}

/// Whether an instrument is executed on the venue.
pub open spec fn executed_on(instrument: Keyed<InstrumentIndex, IndexedInstrument>, exchange: ExchangeId) -> bool {
    instrument.value.exchange.value == exchange
}

/// Whether a mocked venue can fill every instrument that is executed there.
pub open spec fn all_mockable(instruments: IndexedInstruments, exchange: ExchangeId) -> bool {
    forall|i: int|
        0 <= i < instruments.spec_instruments().len() && executed_on(
            #[trigger] instruments.spec_instruments()[i],
            exchange,
        ) ==> mockable(instruments.spec_instruments()[i].value.kind)
}

/// Whether `list[i]` is the last instrument on the venue with its venue name.
pub open spec fn is_last_of_name(
    list: Seq<Keyed<InstrumentIndex, IndexedInstrument>>,
    exchange: ExchangeId,
    i: int,
) -> bool {
    &&& 0 <= i < list.len()
    &&& executed_on(list[i], exchange)
    &&& forall|j: int|
        i < j < list.len() && executed_on(#[trigger] list[j], exchange) ==> list[j].value.name_exchange@
            != list[i].value.name_exchange@
}

/// Whether `one` is the projection of the last instrument on the venue with its venue name.
pub open spec fn projects_last(
    list: Seq<Keyed<InstrumentIndex, IndexedInstrument>>,
    assets: Seq<Keyed<AssetIndex, ExchangeAsset>>,
    exchange: ExchangeId,
    one: MockInstrument,
) -> bool {
    exists|i: int| #[trigger] is_last_of_name(list, exchange, i) && one == projection(list[i].value, assets)
}

/// Whether an instrument of this name is in the list.
pub open spec fn has_name(mocked: Seq<MockInstrument>, name: Seq<char>) -> bool {
    exists|k: int| 0 <= k < mocked.len() && (#[trigger] mocked[k]).name_exchange@ == name
}

/// Whether no two instruments have the same venue name.
pub open spec fn names_differ(mocked: Seq<MockInstrument>) -> bool {
    forall|j: int, k: int|
        0 <= j < k < mocked.len() ==> (#[trigger] mocked[j]).name_exchange@ != (#[trigger] mocked[k]).name_exchange@
}

/// Whether these are the instruments that a mocked venue serves: one for each name on the venue, which is the projection
/// of the last instrument there with that name.
pub open spec fn serves(mocked: Seq<MockInstrument>, instruments: IndexedInstruments, exchange: ExchangeId) -> bool {
    &&& names_differ(mocked)
    &&& forall|k: int|
        0 <= k < mocked.len() ==> projects_last(
            instruments.spec_instruments(),
            instruments.spec_assets(),
            exchange,
            #[trigger] mocked[k],
        )
    &&& forall|i: int|
        0 <= i < instruments.spec_instruments().len() && executed_on(
            #[trigger] instruments.spec_instruments()[i],
            exchange,
        ) ==> has_name(mocked, instruments.spec_instruments()[i].value.name_exchange@)
}

fn name_of(instruments: &IndexedInstruments, asset: AssetIndex) -> (r: String)
    requires
        asset.0 < instruments.spec_assets().len(),
    ensures
        r == venue_name(instruments.spec_assets(), asset),
{
    instruments.assets()[asset.0].value.asset.name_exchange.clone()
}

fn project(instruments: &IndexedInstruments, instrument: &IndexedInstrument) -> (r: MockInstrument)
    requires
        mockable(instrument.kind),
        index::instrument_resolves(instruments.spec_exchanges(), instruments.spec_assets(), *instrument),
    ensures
        r == projection(*instrument, instruments.spec_assets()),
{
    let kind = match &instrument.kind {
        InstrumentKind::Cfd(contract) => InstrumentKind::Cfd(
            CfdContract {
                contract_size: contract.contract_size,
                settlement_asset: name_of(instruments, contract.settlement_asset),
            },
        ),
        _ => InstrumentKind::Spot,
    };
    let spec = match &instrument.spec {
        Some(spec) => {
            let unit = match &spec.quantity.unit {
                OrderQuantityUnits::Asset(asset) => OrderQuantityUnits::Asset(name_of(instruments, *asset)),
                OrderQuantityUnits::Contract => OrderQuantityUnits::Contract,
                OrderQuantityUnits::Quote => OrderQuantityUnits::Quote,
            };
            Some(
                InstrumentSpec {
                    price: spec.price,
                    quantity: InstrumentSpecQuantity {
                        unit,
                        min: spec.quantity.min,
                        increment: spec.quantity.increment,
                    },
                    notional: spec.notional,
                },
            )
        },
        None => None,
    };
    let data_venue = match &instrument.data_venue {
        Some(venue) => {
            let name_exchange = match &venue.name_exchange {
                Some(name) => Some(name.clone()),
                None => None,
            };
            Some(DataVenue { exchange: venue.exchange.value, name_exchange })
        },
        None => None,
    };
    Instrument {
        exchange: instrument.exchange.value,
        name_internal: instrument.name_internal.clone(),
        name_exchange: instrument.name_exchange.clone(),
        underlying: Underlying {
            base: name_of(instruments, instrument.underlying.base),
            quote: name_of(instruments, instrument.underlying.quote),
        },
        quote: instrument.quote,
        kind,
        spec,
        data_venue,
    }
}

fn position_of(mocked: &Vec<MockInstrument>, name: &String) -> (r: Option<usize>)
    ensures
        match r {
            Some(k) => k < mocked.len() && mocked@[k as int].name_exchange@ == name@,
            None => !has_name(mocked@, name@),
        },
{
    let mut k: usize = 0;
    while k < mocked.len()
        invariant
            k <= mocked.len(),
            forall|j: int| 0 <= j < k ==> (#[trigger] mocked@[j]).name_exchange@ != name@,
        decreases mocked.len() - k,
    {
        if same_text(mocked[k].name_exchange.as_str(), name.as_str()) {
            return Some(k);
        }
        k = k + 1;
    }
    None
}

/// The instruments that a mocked venue serves, each under the names that the venue uses.
///
/// Those of other venues are left out before their kind is looked at. There is one instrument for
/// each name on the venue; where several share one, the last counts.
pub fn generate_mock_exchange_instruments(instruments: &IndexedInstruments, exchange: ExchangeId) -> (r: Vec<
    MockInstrument,
>)
    requires
        all_mockable(*instruments, exchange),
    ensures
        serves(r@, *instruments, exchange),
{
    let list = instruments.instruments();
    let ghost assets = instruments.spec_assets();
    let mut mocked: Vec<MockInstrument> = Vec::new();
    let mut i: usize = 0;
    while i < list.len()
        invariant
            i <= list.len(),
            list@ == instruments.spec_instruments(),
            assets == instruments.spec_assets(),
            all_mockable(*instruments, exchange),
            index::consistent(instruments.spec_exchanges(), assets, list@),
            names_differ(mocked@),
            forall|k: int|
                0 <= k < mocked@.len() ==> projects_last(
                    list@.take(i as int),
                    assets,
                    exchange,
                    #[trigger] mocked@[k],
                ),
            forall|j: int|
                0 <= j < i && executed_on(#[trigger] list@[j], exchange) ==> has_name(
                    mocked@,
                    list@[j].value.name_exchange@,
                ),
        decreases list.len() - i,
    {
        let instrument = &list[i].value;
        let ghost seen = list@.take(i as int);
        let ghost more = list@.take(i + 1);
        let ghost before = mocked@;
        if instrument.exchange.value == exchange {
            assert(executed_on(list@[i as int], exchange));
            assert(index::instrument_resolves(instruments.spec_exchanges(), assets, list@[i as int].value));
            let one = project(instruments, instrument);
            let ghost added = one;
            let place = position_of(&mocked, &one.name_exchange);
            match place {
                Some(k) => {
                    mocked.set(k, one);
                },
                None => {
                    mocked.push(one);
                },
            }
            proof {
                lemma_take_in(before, mocked@, place, added, list@, assets, exchange, i as int);
            }
        } else {
            proof {
                assert forall|k: int| 0 <= k < mocked@.len() implies projects_last(
                    more,
                    assets,
                    exchange,
                    #[trigger] mocked@[k],
                ) by {
                    lemma_skip(list@, assets, exchange, mocked@[k], i as int);
                }
            }
        }
        i = i + 1;
    }
    assert(list@.take(i as int) =~= list@);
    mocked
}

/// An instrument that is not on the venue, or has another name, leaves the last of a name the last.
proof fn lemma_skip(
    list: Seq<Keyed<InstrumentIndex, IndexedInstrument>>,
    assets: Seq<Keyed<AssetIndex, ExchangeAsset>>,
    exchange: ExchangeId,
    one: MockInstrument,
    n: int,
)
    requires
        0 <= n < list.len(),
        projects_last(list.take(n), assets, exchange, one),
        !executed_on(list[n], exchange) || list[n].value.name_exchange@ != one.name_exchange@,
    ensures
        projects_last(list.take(n + 1), assets, exchange, one),
{
    let seen = list.take(n);
    let more = list.take(n + 1);
    let s = choose|s: int|
        #[trigger] is_last_of_name(seen, exchange, s) && one == projection(seen[s].value, assets);
    assert(is_last_of_name(more, exchange, s)) by {
        assert(more[s] == seen[s]);
        assert forall|j: int| s < j < more.len() && executed_on(#[trigger] more[j], exchange) implies more[j].value.name_exchange@
            != more[s].value.name_exchange@ by {
            if j < n {
                assert(seen[j] == more[j]);
            } else {
                assert(more[j] == list[n]);
            }
        }
    }
}

proof fn lemma_take_in(
    before: Seq<MockInstrument>,
    after: Seq<MockInstrument>,
    place: Option<usize>,
    one: MockInstrument,
    list: Seq<Keyed<InstrumentIndex, IndexedInstrument>>,
    assets: Seq<Keyed<AssetIndex, ExchangeAsset>>,
    exchange: ExchangeId,
    n: int,
)
    requires
        0 <= n < list.len(),
        executed_on(list[n], exchange),
        one == projection(list[n].value, assets),
        names_differ(before),
        forall|k: int|
            0 <= k < before.len() ==> projects_last(list.take(n), assets, exchange, #[trigger] before[k]),
        forall|j: int|
            0 <= j < n && executed_on(#[trigger] list[j], exchange) ==> has_name(
                before,
                list[j].value.name_exchange@,
            ),
        match place {
            Some(k) => k < before.len() && before[k as int].name_exchange@ == one.name_exchange@ && after
                == before.update(k as int, one),
            None => !has_name(before, one.name_exchange@) && after == before.push(one),
        },
    ensures
        names_differ(after),
        forall|k: int|
            0 <= k < after.len() ==> projects_last(list.take(n + 1), assets, exchange, #[trigger] after[k]),
        forall|j: int|
            0 <= j < n + 1 && executed_on(#[trigger] list[j], exchange) ==> has_name(
                after,
                list[j].value.name_exchange@,
            ),
{
    let more = list.take(n + 1);
    let slot: int = match place {
        Some(k) => k as int,
        None => before.len() as int,
    };
    assert(is_last_of_name(more, exchange, n)) by {
        assert(more[n] == list[n]);
    }
    assert(projects_last(more, assets, exchange, one));
    assert forall|k: int| 0 <= k < before.len() && k != slot implies (#[trigger] before[k]).name_exchange@
        != one.name_exchange@ by {
        if place is Some {
            if k < slot {
                assert(before[k].name_exchange@ != before[slot].name_exchange@);
            } else {
                assert(before[slot].name_exchange@ != before[k].name_exchange@);
            }
        }
    }
    assert forall|k: int| 0 <= k < after.len() implies projects_last(more, assets, exchange, #[trigger] after[k]) by {
        if k != slot {
            assert(after[k] == before[k]);
            lemma_skip(list, assets, exchange, before[k], n);
        } else {
            assert(after[k] == one);
        }
    }
    assert forall|j: int, k: int| 0 <= j < k < after.len() implies (#[trigger] after[j]).name_exchange@ != (
    #[trigger] after[k]).name_exchange@ by {
        if j != slot && k != slot {
            assert(before[j].name_exchange@ != before[k].name_exchange@);
        } else if j == slot {
            assert(before[k].name_exchange@ != one.name_exchange@);
        } else {
            assert(before[j].name_exchange@ != one.name_exchange@);
        }
    }
    assert forall|j: int| 0 <= j < n + 1 && executed_on(#[trigger] list[j], exchange) implies has_name(
        after,
        list[j].value.name_exchange@,
    ) by {
        if j < n {
            assert(has_name(before, list[j].value.name_exchange@));
            let k = choose|k: int|
                0 <= k < before.len() && (#[trigger] before[k]).name_exchange@ == list[j].value.name_exchange@;
            assert(after[k].name_exchange@ == list[j].value.name_exchange@);
        } else {
            assert(after[slot].name_exchange@ == list[n].value.name_exchange@);
        }
    }
}

/// Why execution on a venue cannot be added.
#[derive(Debug)]
pub enum ExecutionBuilderError {
    /// The venue is not among those that the instruments name.
    Index(IndexError),
    /// The venue has been added before. Holds a description.
    ExecutionBuilder(String),
}

/// The channel through which one venue executes.
#[derive(Debug)]
pub struct ExecutionTx<Tx> {
    pub exchange: ExchangeId,
    pub index: ExchangeIndex,
    pub tx: Tx,
}

/// Whether one of the channels is that of the venue.
pub open spec fn executes<Tx>(txs: Seq<ExecutionTx<Tx>>, exchange: ExchangeId) -> bool {
    exists|k: int| 0 <= k < txs.len() && (#[trigger] txs[k]).exchange == exchange
}

/// Collects the channels through which venues execute.
pub struct ExecutionBuilder<'a, Tx> {
    instruments: &'a IndexedInstruments,
    execution_txs: Vec<ExecutionTx<Tx>>,
}

/// The message for a venue that is added again.
pub open spec fn duplicate_message(exchange: ExchangeId) -> Seq<char> {
    "ExecutionBuilder does not support duplicate mocked ExecutionManagers: "@ + exchange.label()
}

/// The message for a venue without instruments.
pub open spec fn unknown_message(exchange: ExchangeId) -> Seq<char> {
    exchange.label() + " is not among the indexed exchanges"@
}

/// Whether the venue is among those that the instruments name.
pub open spec fn names_exchange(instruments: IndexedInstruments, exchange: ExchangeId) -> bool {
    exists|i: int|
        0 <= i < instruments.spec_exchanges().len() && (#[trigger] instruments.spec_exchanges()[i]).value == exchange
}

/// Whether `e` reports why execution on the venue cannot be added.
pub open spec fn cannot_add<Tx>(
    e: ExecutionBuilderError,
    instruments: IndexedInstruments,
    txs: Seq<ExecutionTx<Tx>>,
    exchange: ExchangeId,
) -> bool {
    if !names_exchange(instruments, exchange) {
        &&& e matches ExecutionBuilderError::Index(IndexError::ExchangeIndex(message))
        &&& message@ == unknown_message(exchange)
    } else {
        &&& executes(txs, exchange)
        &&& e matches ExecutionBuilderError::ExecutionBuilder(message)
        &&& message@ == duplicate_message(exchange)
    }
}

/// The channel of a venue, where it has one.
pub open spec fn channel_of<Tx>(txs: Seq<ExecutionTx<Tx>>, exchange: ExchangeId) -> Option<Tx>
    decreases txs.len(),
{
    if txs.len() == 0 {
        None
    } else if txs.last().exchange == exchange {
        Some(txs.last().tx)
    } else {
        channel_of(txs.drop_last(), exchange)
    }
}

/// Whether these are the venues of the instruments, in their order, each with the channel through which it executes.
pub open spec fn routes<Tx>(
    map: Seq<(ExchangeId, Option<Tx>)>,
    instruments: IndexedInstruments,
    txs: Seq<ExecutionTx<Tx>>,
) -> bool {
    &&& map.len() == instruments.spec_exchanges().len()
    &&& forall|i: int|
        0 <= i < map.len() ==> {
            let venue = instruments.spec_exchanges()[i].value;
            (#[trigger] map[i]).0 == venue && map[i].1 == channel_of(txs, venue)
        }
}

impl<'a, Tx> ExecutionBuilder<'a, Tx> {
    #[verifier::type_invariant]
    spec fn channels_are_of_known_venues(self) -> bool {
        &&& forall|k: int|
            0 <= k < self.execution_txs@.len() ==> {
                let one = #[trigger] self.execution_txs@[k];
                one.index.0 < self.instruments.spec_exchanges().len()
                    && self.instruments.spec_exchanges()[one.index.0 as int].value == one.exchange
            }
        &&& forall|j: int, k: int|
            0 <= j < k < self.execution_txs@.len() ==> (#[trigger] self.execution_txs@[j]).exchange != (
            #[trigger] self.execution_txs@[k]).exchange
    }

    pub closed spec fn spec_instruments(self) -> IndexedInstruments {
        *self.instruments
    }

    pub closed spec fn spec_txs(self) -> Seq<ExecutionTx<Tx>> {
        self.execution_txs@
    }

    /// Whether `after` has the channel of a venue in addition, which is one of the instruments' and
    /// had none.
    pub open spec fn extended_by(self, exchange: ExchangeId, tx: Tx, after: ExecutionBuilder<'a, Tx>) -> bool {
        &&& !executes(self.spec_txs(), exchange)
        &&& after.spec_instruments() == self.spec_instruments()
        &&& exists|index: ExchangeIndex|
            {
                &&& index.0 < self.spec_instruments().spec_exchanges().len()
                &&& self.spec_instruments().spec_exchanges()[index.0 as int].value == exchange
                &&& after.spec_txs() == #[trigger] self.spec_txs().push(ExecutionTx { exchange, index, tx })
            }
    }

    /// A builder for these instruments, without channels.
    pub fn new(instruments: &'a IndexedInstruments) -> (r: ExecutionBuilder<'a, Tx>)
        ensures
            r.spec_instruments() == *instruments,
            r.spec_txs() == Seq::<ExecutionTx<Tx>>::empty(),
    {
        ExecutionBuilder { instruments, execution_txs: Vec::new() }
    }

    /// Adds the channel through which a venue executes.
    ///
    /// Fails for a venue that no instrument names, and for one that has been added before.
    fn add_execution(self, exchange: ExchangeId, tx: Tx) -> (r: Result<ExecutionBuilder<'a, Tx>, ExecutionBuilderError>)
        ensures
            match r {
                Ok(builder) => self.extended_by(exchange, tx, builder),
                Err(e) => cannot_add(e, self.spec_instruments(), self.spec_txs(), exchange),
            },
    {
        proof {
            use_type_invariant(&self);
        }
        let ExecutionBuilder { instruments, execution_txs } = self;
        let venues = instruments.exchanges();
        let mut found: Option<usize> = None;
        let mut i: usize = 0;
        while i < venues.len()
            invariant
                i <= venues.len(),
                venues@ == instruments.spec_exchanges(),
                match found {
                    Some(k) => k < venues.len() && venues@[k as int].value == exchange,
                    None => forall|k: int| 0 <= k < i ==> (#[trigger] venues@[k]).value != exchange,
                },
            decreases venues.len() - i,
        {
            if venues[i].value == exchange {
                found = Some(i);
            }
            i = i + 1;
        }
        let at = match found {
            Some(at) => at,
            None => {
                let mut message = String::from_str(exchange.display_name());
                message.append(" is not among the indexed exchanges");
                return Err(ExecutionBuilderError::Index(IndexError::ExchangeIndex(message)));
            },
        };
        assert(names_exchange(*instruments, exchange)) by {
            assert(instruments.spec_exchanges()[at as int].value == exchange);
        }
        let mut k: usize = 0;
        while k < execution_txs.len()
            invariant
                k <= execution_txs.len(),
                execution_txs@ == self.spec_txs(),
                *instruments == self.spec_instruments(),
                names_exchange(*instruments, exchange),
                forall|j: int| 0 <= j < k ==> (#[trigger] execution_txs@[j]).exchange != exchange,
            decreases execution_txs.len() - k,
        {
            if execution_txs[k].exchange == exchange {
                let mut message = String::from_str(
                    "ExecutionBuilder does not support duplicate mocked ExecutionManagers: ",
                );
                message.append(exchange.display_name());
                assert(executes(execution_txs@, exchange));
                return Err(ExecutionBuilderError::ExecutionBuilder(message));
            }
            k = k + 1;
        }
        let mut txs = execution_txs;
        let ghost before = txs@;
        let index = ExchangeIndex(at);
        txs.push(ExecutionTx { exchange, index, tx });
        assert(txs@ == before.push(ExecutionTx { exchange, index, tx }));
        Ok(ExecutionBuilder { instruments, execution_txs: txs })
    }

    /// Adds the channel of a venue that is executed on for real.
    pub fn add_live(self, exchange: ExchangeId, tx: Tx) -> (r: Result<ExecutionBuilder<'a, Tx>, ExecutionBuilderError>)
        ensures
            match r {
                Ok(builder) => self.extended_by(exchange, tx, builder),
                Err(e) => cannot_add(e, self.spec_instruments(), self.spec_txs(), exchange),
            },
    {
        self.add_execution(exchange, tx)
    }

    /// Adds the channel of a mocked venue, and gives the instruments that it serves.
    ///
    /// The instruments of the venue must be of kinds that it can fill.
    pub fn add_mock(self, mocked_exchange: ExchangeId, tx: Tx) -> (r: Result<
        (ExecutionBuilder<'a, Tx>, Vec<MockInstrument>),
        ExecutionBuilderError,
    >)
        requires
            all_mockable(self.spec_instruments(), mocked_exchange),
        ensures
            match r {
                Ok((builder, mocked)) => {
                    &&& self.extended_by(mocked_exchange, tx, builder)
                    &&& serves(mocked@, self.spec_instruments(), mocked_exchange)
                },
                Err(e) => cannot_add(e, self.spec_instruments(), self.spec_txs(), mocked_exchange),
            },
    {
        let mocked = generate_mock_exchange_instruments(self.instruments, mocked_exchange);
        match self.add_execution(mocked_exchange, tx) {
            Ok(builder) => Ok((builder, mocked)),
            Err(e) => Err(e),
        }
    }

    /// Gives every venue of the instruments, in their order, with the channel through which it
    /// executes; a venue that is not executed on has none.
    pub fn build(self) -> (r: Vec<(ExchangeId, Option<Tx>)>)
        ensures
            routes(r@, self.spec_instruments(), self.spec_txs()),
    {
        proof {
            use_type_invariant(&self);
        }
        let ExecutionBuilder { instruments, execution_txs } = self;
        let ghost all = execution_txs@;
        let mut txs = execution_txs;
        let venues = instruments.exchanges();
        let mut map: Vec<(ExchangeId, Option<Tx>)> = Vec::new();
        let mut i: usize = 0;
        while i < venues.len()
            invariant
                i <= venues.len(),
                venues@ == instruments.spec_exchanges(),
                forall|j: int, k: int|
                    0 <= j < k < venues@.len() ==> (#[trigger] venues@[j]).value != (#[trigger] venues@[k]).value,
                forall|j: int, k: int|
                    0 <= j < k < txs@.len() ==> (#[trigger] txs@[j]).exchange != (#[trigger] txs@[k]).exchange,
                map.len() == i,
                forall|j: int|
                    i <= j < venues@.len() ==> channel_of(txs@, (#[trigger] venues@[j]).value) == channel_of(
                        all,
                        venues@[j].value,
                    ),
                forall|j: int|
                    0 <= j < i ==> (#[trigger] map@[j]).0 == venues@[j].value && map@[j].1 == channel_of(
                        all,
                        venues@[j].value,
                    ),
            decreases venues.len() - i,
        {
            let venue = venues[i].value;
            let mut found: Option<usize> = None;
            let mut k: usize = 0;
            while k < txs.len()
                invariant
                    k <= txs.len(),
                    match found {
                        Some(at) => at < k && txs@[at as int].exchange == venue,
                        None => forall|j: int| 0 <= j < k ==> (#[trigger] txs@[j]).exchange != venue,
                    },
                decreases txs.len() - k,
            {
                if txs[k].exchange == venue {
                    found = Some(k);
                }
                k = k + 1;
            }
            assert(channel_of(txs@, venues@[i as int].value) == channel_of(all, venues@[i as int].value));
            match found {
                Some(at) => {
                    let ghost before = txs@;
                    let taken = txs.remove(at);
                    proof {
                        lemma_channel(before, at as int);
                        assert forall|j: int| i + 1 <= j < venues@.len() implies channel_of(
                            txs@,
                            (#[trigger] venues@[j]).value,
                        ) == channel_of(all, venues@[j].value) by {
                            assert(venues@[i as int].value != venues@[j].value);
                            lemma_channel_of_others(before, at as int, venues@[j].value);
                            assert(channel_of(before, venues@[j].value) == channel_of(all, venues@[j].value));
                        }
                    }
                    map.push((venue, Some(taken.tx)));
                },
                None => {
                    proof {
                        lemma_no_channel(txs@, venue);
                    }
                    map.push((venue, None));
                },
            }
            i = i + 1;
        }
        map
    }
}

proof fn lemma_channel<Tx>(txs: Seq<ExecutionTx<Tx>>, at: int)
    requires
        0 <= at < txs.len(),
        forall|j: int, k: int|
            0 <= j < k < txs.len() ==> (#[trigger] txs[j]).exchange != (#[trigger] txs[k]).exchange,
    ensures
        channel_of(txs, txs[at].exchange) == Some(txs[at].tx),
    decreases txs.len(),
{
    let last = txs.len() - 1;
    if at < last {
        assert(txs[at].exchange != txs[last].exchange);
        let shorter = txs.drop_last();
        assert forall|j: int, k: int| 0 <= j < k < shorter.len() implies (#[trigger] shorter[j]).exchange != (
        #[trigger] shorter[k]).exchange by {
            assert(txs[j].exchange != txs[k].exchange);
        }
        lemma_channel(shorter, at);
    }
}

proof fn lemma_channel_of_others<Tx>(txs: Seq<ExecutionTx<Tx>>, at: int, exchange: ExchangeId)
    requires
        0 <= at < txs.len(),
        txs[at].exchange != exchange,
    ensures
        channel_of(txs.remove(at), exchange) == channel_of(txs, exchange),
    decreases txs.len(),
{
    let rest = txs.remove(at);
    if at == txs.len() - 1 {
        assert(rest =~= txs.drop_last());
    } else {
        assert(rest.last() == txs.last());
        assert(rest.drop_last() =~= txs.drop_last().remove(at));
        lemma_channel_of_others(txs.drop_last(), at, exchange);
    }
}

proof fn lemma_no_channel<Tx>(txs: Seq<ExecutionTx<Tx>>, exchange: ExchangeId)
    requires
        forall|j: int| 0 <= j < txs.len() ==> (#[trigger] txs[j]).exchange != exchange,
    ensures
        channel_of(txs, exchange) is None,
    decreases txs.len(),
{
    if txs.len() > 0 {
        assert(txs[txs.len() - 1].exchange != exchange);
        let shorter = txs.drop_last();
        assert forall|j: int| 0 <= j < shorter.len() implies (#[trigger] shorter[j]).exchange != exchange by {
            assert(txs[j].exchange != exchange);
        }
        lemma_no_channel(shorter, exchange);
    }
}

/// A mocked venue knows an instrument as its collection does, with every index replaced by a name that the venue uses:
/// the same names, quote and limits, the same pricing venue, and the same kind of contract of the same size, settled in
/// the asset of that name.
pub proof fn law_mocked_instruments_keep_their_terms(
    instrument: IndexedInstrument,
    assets: Seq<Keyed<AssetIndex, ExchangeAsset>>,
)
    ensures
        ({
            let mocked = projection(instrument, assets);
            &&& mocked.exchange == instrument.exchange.value
            &&& mocked.name_internal == instrument.name_internal
            &&& mocked.name_exchange == instrument.name_exchange
            &&& mocked.underlying.base == assets[instrument.underlying.base.0 as int].value.asset.name_exchange
            &&& mocked.underlying.quote == assets[instrument.underlying.quote.0 as int].value.asset.name_exchange
            &&& mocked.quote == instrument.quote
            &&& mocked.kind is Spot <==> instrument.kind is Spot
            &&& mocked.kind is Cfd <==> instrument.kind is Cfd
            &&& instrument.kind matches InstrumentKind::Cfd(contract) ==> {
                &&& mocked.kind->Cfd_0.contract_size == contract.contract_size
                &&& mocked.kind->Cfd_0.settlement_asset
                    == assets[contract.settlement_asset.0 as int].value.asset.name_exchange
            }
            &&& mocked.spec is Some <==> instrument.spec is Some
            &&& instrument.spec matches Some(limits) ==> {
                let new = mocked.spec->0;
                &&& new.price == limits.price
                &&& new.notional == limits.notional
                &&& new.quantity.min == limits.quantity.min
                &&& new.quantity.increment == limits.quantity.increment
                &&& new.quantity.unit is Contract <==> limits.quantity.unit is Contract
                &&& new.quantity.unit is Quote <==> limits.quantity.unit is Quote
                &&& limits.quantity.unit matches OrderQuantityUnits::Asset(asset) ==> new.quantity.unit
                    == OrderQuantityUnits::Asset(assets[asset.0 as int].value.asset.name_exchange)
            }
            &&& mocked.data_venue is Some <==> instrument.data_venue is Some
            &&& instrument.data_venue matches Some(venue) ==> mocked.data_venue->0.exchange == venue.exchange.value
                && mocked.data_venue->0.name_exchange == venue.name_exchange
        }),
{
}

/// A mocked venue can fill spot and contracts for difference, and nothing that expires, pays funding or is one of a chain.
pub proof fn law_mocked_kinds(kind: InstrumentKind<AssetIndex>)
    ensures
        mockable(kind) <==> !(kind is Perpetual || kind is Future || kind is OptionContract),
{
}

/// What a mocked venue serves is executed there, is served under one name once, and is the last of its name.
///
/// Returned is the instrument that it is.
pub proof fn law_mocked_instruments_are_executed_there(
    mocked: Seq<MockInstrument>,
    instruments: IndexedInstruments,
    exchange: ExchangeId,
    k: int,
) -> (i: int)
    requires
        serves(mocked, instruments, exchange),
        0 <= k < mocked.len(),
    ensures
        0 <= i < instruments.spec_instruments().len(),
        mocked[k].exchange == exchange,
        instruments.spec_instruments()[i].value.exchange.value == exchange,
        mocked[k].name_internal == instruments.spec_instruments()[i].value.name_internal,
        mocked[k].name_exchange == instruments.spec_instruments()[i].value.name_exchange,
        mocked[k] == projection(instruments.spec_instruments()[i].value, instruments.spec_assets()),
        forall|j: int|
            i < j < instruments.spec_instruments().len() && (#[trigger] instruments.spec_instruments()[j]).value.exchange.value
                == exchange ==> instruments.spec_instruments()[j].value.name_exchange@ != mocked[k].name_exchange@,
{
    let list = instruments.spec_instruments();
    assert(projects_last(list, instruments.spec_assets(), exchange, mocked[k]));
    let i = choose|i: int|
        #[trigger] is_last_of_name(list, exchange, i) && mocked[k] == projection(list[i].value, instruments.spec_assets());
    assert forall|j: int|
        i < j < list.len() && (#[trigger] list[j]).value.exchange.value == exchange implies list[j].value.name_exchange@
        != mocked[k].name_exchange@ by {
        assert(executed_on(list[j], exchange));
    }
    i
}

/// Every instrument that is executed on a mocked venue is served there under its name on the venue.
pub proof fn law_executed_instruments_are_served(
    mocked: Seq<MockInstrument>,
    instruments: IndexedInstruments,
    exchange: ExchangeId,
    i: int,
) -> (k: int)
    requires
        serves(mocked, instruments, exchange),
        0 <= i < instruments.spec_instruments().len(),
        instruments.spec_instruments()[i].value.exchange.value == exchange,
    ensures
        0 <= k < mocked.len(),
        mocked[k].name_exchange@ == instruments.spec_instruments()[i].value.name_exchange@,
        forall|j: int|
            0 <= j < mocked.len() && j != k ==> (#[trigger] mocked[j]).name_exchange@ != mocked[k].name_exchange@,
{
    let name = instruments.spec_instruments()[i].value.name_exchange@;
    assert(executed_on(instruments.spec_instruments()[i], exchange));
    assert(has_name(mocked, name));
    let k = choose|k: int| 0 <= k < mocked.len() && (#[trigger] mocked[k]).name_exchange@ == name;
    assert forall|j: int| 0 <= j < mocked.len() && j != k implies (#[trigger] mocked[j]).name_exchange@
        != mocked[k].name_exchange@ by {
        if j < k {
            assert(mocked[j].name_exchange@ != mocked[k].name_exchange@);
        } else {
            assert(mocked[k].name_exchange@ != mocked[j].name_exchange@);
        }
    }
    k
}

/// A venue executes through the channel that was added for it last, and through none where none was.
pub proof fn law_channels_are_those_added<Tx>(txs: Seq<ExecutionTx<Tx>>, added: ExecutionTx<Tx>, exchange: ExchangeId)
    ensures
        channel_of(txs.push(added), added.exchange) == Some(added.tx),
        exchange != added.exchange ==> channel_of(txs.push(added), exchange) == channel_of(txs, exchange),
        channel_of(Seq::<ExecutionTx<Tx>>::empty(), exchange) is None,
{
    assert(txs.push(added).drop_last() =~= txs);
}

/// The built map holds every venue of the instruments once, in their order, with the channel that was added for it, and
/// without one where none was.
pub proof fn law_venues_execute_through_their_channel<Tx>(
    map: Seq<(ExchangeId, Option<Tx>)>,
    instruments: IndexedInstruments,
    txs: Seq<ExecutionTx<Tx>>,
    i: int,
    k: int,
)
    requires
        routes(map, instruments, txs),
        forall|a: int, b: int| 0 <= a < b < txs.len() ==> (#[trigger] txs[a]).exchange != (#[trigger] txs[b]).exchange,
        0 <= i < instruments.spec_exchanges().len(),
    ensures
        map.len() == instruments.spec_exchanges().len(),
        map[i].0 == instruments.spec_exchanges()[i].value,
        0 <= k < txs.len() && txs[k].exchange == map[i].0 ==> map[i].1 == Some(txs[k].tx),
        (forall|j: int| 0 <= j < txs.len() ==> (#[trigger] txs[j]).exchange != map[i].0) ==> map[i].1 is None,
{
    assert(map[i].0 == instruments.spec_exchanges()[i].value);
    if 0 <= k < txs.len() && txs[k].exchange == map[i].0 {
        lemma_channel(txs, k);
    }
    if forall|j: int| 0 <= j < txs.len() ==> (#[trigger] txs[j]).exchange != map[i].0 {
        lemma_no_channel(txs, map[i].0);
    }
}

/// Adding a venue gives it the channel and leaves those of all others; only a venue of the instruments that has no
/// channel yet is added.
pub proof fn law_adding_a_venue_adds_its_channel<'a, Tx>(
    before: ExecutionBuilder<'a, Tx>,
    after: ExecutionBuilder<'a, Tx>,
    exchange: ExchangeId,
    tx: Tx,
    other: ExchangeId,
)
    requires
        before.extended_by(exchange, tx, after),
    ensures
        names_exchange(before.spec_instruments(), exchange),
        !executes(before.spec_txs(), exchange),
        executes(after.spec_txs(), exchange),
        channel_of(after.spec_txs(), exchange) == Some(tx),
        other != exchange ==> channel_of(after.spec_txs(), other) == channel_of(before.spec_txs(), other),
        after.spec_instruments() == before.spec_instruments(),
{
    let index = choose|index: ExchangeIndex|
        {
            &&& index.0 < before.spec_instruments().spec_exchanges().len()
            &&& before.spec_instruments().spec_exchanges()[index.0 as int].value == exchange
            &&& after.spec_txs() == #[trigger] before.spec_txs().push(ExecutionTx { exchange, index, tx })
        };
    let added = ExecutionTx { exchange, index, tx };
    law_channels_are_those_added(before.spec_txs(), added, other);
    assert(after.spec_txs()[before.spec_txs().len() as int].exchange == exchange);
    assert(before.spec_instruments().spec_exchanges()[index.0 as int].value == exchange);
}

/// A refusal says which venue it is about and why: one that is not among those of the instruments, or one that was added
/// before.
pub proof fn law_refusals_name_the_venue<Tx>(
    e: ExecutionBuilderError,
    instruments: IndexedInstruments,
    txs: Seq<ExecutionTx<Tx>>,
    exchange: ExchangeId,
)
    requires
        cannot_add(e, instruments, txs, exchange),
    ensures
        e is Index <==> !names_exchange(instruments, exchange),
        e is ExecutionBuilder ==> executes(txs, exchange),
        e matches ExecutionBuilderError::Index(cause) ==> (cause matches IndexError::ExchangeIndex(message)
            && text::names_in_order(message@, seq![exchange.label()])),
        e matches ExecutionBuilderError::ExecutionBuilder(message) ==> text::names_in_order(
            message@,
            seq![exchange.label()],
        ),
{
    text::lemma_last_named(Seq::empty(), exchange.label());
    assert(Seq::<char>::empty() + exchange.label() =~= exchange.label());
    text::lemma_more_behind(exchange.label(), " is not among the indexed exchanges"@, seq![exchange.label()]);
    text::lemma_last_named(
        "ExecutionBuilder does not support duplicate mocked ExecutionManagers: "@,
        exchange.label(),
    );
}

} // verus!
