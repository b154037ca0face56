//! Instruments under indexes: every venue, asset and instrument has a position.

use vstd::prelude::*;
use crate::exchange::ExchangeId;
use crate::index::sorting::ExchangeAsset;
use crate::instrument::Instrument;
use crate::market::InstrumentIndex;

pub mod agreement;
pub mod builder;
pub mod contents;
pub mod error;
pub mod sorting;

verus! {

/// The position of a venue.
#[derive(Clone, Copy, PartialEq, Eq, Structural, Debug, Hash, PartialOrd, Ord)]
pub struct ExchangeIndex(pub usize);

/// The position of an asset.
#[derive(Clone, Copy, PartialEq, Eq, Structural, Debug, Hash, PartialOrd, Ord)]
pub struct AssetIndex(pub usize);

/// A value with its key.
#[derive(Debug, PartialEq, Eq, Hash)]
pub struct Keyed<Key, Value> {
    pub key: Key,
    pub value: Value,
}

/// An instrument whose venue and assets are indexes.
pub type IndexedInstrument = Instrument<Keyed<ExchangeIndex, ExchangeId>, AssetIndex>;

/// Whether an indexed venue is the one at its position.
pub open spec fn exchange_resolves(
    exchanges: Seq<Keyed<ExchangeIndex, ExchangeId>>,
    exchange: Keyed<ExchangeIndex, ExchangeId>,
) -> bool {
    &&& exchange.key.0 < exchanges.len()
    &&& exchanges[exchange.key.0 as int].value == exchange.value
}

/// Whether an index is that of an asset on the venue.
pub open spec fn asset_resolves(
    assets: Seq<Keyed<AssetIndex, ExchangeAsset>>,
    exchange: ExchangeId,
    asset: AssetIndex,
) -> bool {
    &&& asset.0 < assets.len()
    &&& assets[asset.0 as int].value.exchange == exchange
}

/// Whether every index that an instrument holds is that of its own venue, or of an asset there.
pub open spec fn instrument_resolves(
    exchanges: Seq<Keyed<ExchangeIndex, ExchangeId>>,
    assets: Seq<Keyed<AssetIndex, ExchangeAsset>>,
    instrument: IndexedInstrument,
) -> bool {
    let exchange = instrument.exchange.value;
    &&& exchange_resolves(exchanges, instrument.exchange)
    &&& instrument.data_venue matches Some(venue) ==> exchange_resolves(exchanges, venue.exchange)
    &&& asset_resolves(assets, exchange, instrument.underlying.base)
    &&& asset_resolves(assets, exchange, instrument.underlying.quote)
    &&& instrument.kind.settles_in() matches Some(asset) ==> asset_resolves(assets, exchange, asset)
    &&& instrument.spec matches Some(spec) ==> (spec.unit_asset() matches Some(asset) ==> asset_resolves(
        assets,
        exchange,
        asset,
    ))
}

/// Whether every key is the position of its value, no venue is there twice, and every index that an
/// instrument holds resolves.
pub open spec fn consistent(
    exchanges: Seq<Keyed<ExchangeIndex, ExchangeId>>,
    assets: Seq<Keyed<AssetIndex, ExchangeAsset>>,
    instruments: Seq<Keyed<InstrumentIndex, IndexedInstrument>>,
) -> bool {
    &&& forall|i: int| 0 <= i < exchanges.len() ==> (#[trigger] exchanges[i]).key.0 == i
    &&& forall|i: int, j: int|
        0 <= i < j < exchanges.len() ==> (#[trigger] exchanges[i]).value != (#[trigger] exchanges[j]).value
    &&& forall|i: int| 0 <= i < assets.len() ==> (#[trigger] assets[i]).key.0 == i
    &&& forall|i: int| 0 <= i < instruments.len() ==> (#[trigger] instruments[i]).key.0 == i
    &&& forall|i: int|
        0 <= i < instruments.len() ==> instrument_resolves(
            exchanges,
            assets,
            (#[trigger] instruments[i]).value,
        )
}

/// A collection of instruments under indexes.
#[derive(Debug)]
pub struct IndexedInstruments {
    exchanges: Vec<Keyed<ExchangeIndex, ExchangeId>>,
    instruments: Vec<Keyed<InstrumentIndex, IndexedInstrument>>,
    assets: Vec<Keyed<AssetIndex, ExchangeAsset>>,
}

impl IndexedInstruments {
    #[verifier::type_invariant]
    spec fn is_consistent(self) -> bool {
        consistent(self.exchanges@, self.assets@, self.instruments@)
    }

    pub closed spec fn spec_exchanges(self) -> Seq<Keyed<ExchangeIndex, ExchangeId>> {
        self.exchanges@
    }

    pub closed spec fn spec_assets(self) -> Seq<Keyed<AssetIndex, ExchangeAsset>> {
        self.assets@
    }

    pub closed spec fn spec_instruments(self) -> Seq<Keyed<InstrumentIndex, IndexedInstrument>> {
        self.instruments@
    }

    /// The collection of these, which must agree with each other.
    pub(crate) fn new(
        exchanges: Vec<Keyed<ExchangeIndex, ExchangeId>>,
        assets: Vec<Keyed<AssetIndex, ExchangeAsset>>,
        instruments: Vec<Keyed<InstrumentIndex, IndexedInstrument>>,
    ) -> (r: IndexedInstruments)
        requires
            consistent(exchanges@, assets@, instruments@),
        ensures
            r.spec_exchanges() == exchanges@,
            r.spec_assets() == assets@,
            r.spec_instruments() == instruments@,
    {
        IndexedInstruments { exchanges, instruments, assets }
    }

    /// The venues, each under its position.
    pub fn exchanges(&self) -> (r: &Vec<Keyed<ExchangeIndex, ExchangeId>>)
        ensures
            r@ == self.spec_exchanges(),
            consistent(self.spec_exchanges(), self.spec_assets(), self.spec_instruments()),
    {
        proof {
            use_type_invariant(self);
        }
        &self.exchanges
    }

    /// The assets, each under its position.
    pub fn assets(&self) -> (r: &Vec<Keyed<AssetIndex, ExchangeAsset>>)
        ensures
            r@ == self.spec_assets(),
            consistent(self.spec_exchanges(), self.spec_assets(), self.spec_instruments()),
    {
        proof {
            use_type_invariant(self);
        }
        &self.assets
    }

    /// The instruments, each under its position.
    pub fn instruments(&self) -> (r: &Vec<Keyed<InstrumentIndex, IndexedInstrument>>)
        ensures
            r@ == self.spec_instruments(),
            consistent(self.spec_exchanges(), self.spec_assets(), self.spec_instruments()),
    {
        proof {
            use_type_invariant(self);
        }
        &self.instruments
    }

    /// The asset at a position, where there is one.
    pub fn find_asset(&self, index: AssetIndex) -> (r: Option<&ExchangeAsset>)
        ensures
            match r {
                Some(asset) => index.0 < self.spec_assets().len() && *asset
                    == self.spec_assets()[index.0 as int].value,
                None => index.0 >= self.spec_assets().len(),
            },
    {
        if index.0 < self.assets.len() {
            Some(&self.assets[index.0].value)
        } else {
            None
        }
    }
}

} // verus!
