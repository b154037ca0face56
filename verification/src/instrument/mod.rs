//! Instruments: what is traded, where, and in which units.

use vstd::prelude::*;
use vstd::string::*;
use crate::exchange::ExchangeId;
use crate::instrument::data_venue::DataVenue;
use crate::market;
use crate::market::Decimal;
use crate::text::same_text;
use crate::time::Timestamp;

pub mod data_venue;

verus! {

/// An asset: the name that is used here, and the name that its venue uses.
#[derive(Debug, PartialEq, Eq, Hash)]
pub struct Asset {
    pub name_internal: String,
    pub name_exchange: String,
}

impl Asset {
    /// The asset with these names.
    pub fn new(name_internal: &str, name_exchange: &str) -> (r: Asset)
        ensures
            r.name_internal@ == name_internal@,
            r.name_exchange@ == name_exchange@,
    {
        Asset { name_internal: String::from_str(name_internal), name_exchange: String::from_str(name_exchange) }
    }

    /// Whether both names are the same.
    pub open spec fn same_as(self, other: Asset) -> bool {
        self.name_internal@ == other.name_internal@ && self.name_exchange@ == other.name_exchange@
    }

    /// Whether both names are the same.
    pub fn is_same_as(&self, other: &Asset) -> (r: bool)
        ensures
            r == self.same_as(*other),
    {
        same_text(self.name_internal.as_str(), other.name_internal.as_str()) && same_text(
            self.name_exchange.as_str(),
            other.name_exchange.as_str(),
        )
    }

    /// An asset with the same names.
    pub fn duplicate(&self) -> (r: Asset)
        ensures
            r == *self,
    {
        Asset { name_internal: self.name_internal.clone(), name_exchange: self.name_exchange.clone() }
    }
}

/// What an instrument is about: its base, priced in its quote.
#[derive(Debug, PartialEq, Eq, Hash)]
pub struct Underlying<AssetKey> {
    pub base: AssetKey,
    pub quote: AssetKey,
}

/// The asset that an instrument's price is in.
#[derive(Clone, Copy, PartialEq, Eq, Structural, Debug, Hash)]
pub enum InstrumentQuoteAsset {
    UnderlyingBase,
    UnderlyingQuote,
}

/// A perpetual contract.
#[derive(Debug, PartialEq, Eq, Hash)]
pub struct PerpetualContract<AssetKey> {
    pub contract_size: Decimal,
    pub settlement_asset: AssetKey,
}

/// A contract with an expiry.
#[derive(Debug, PartialEq, Eq, Hash)]
pub struct FutureContract<AssetKey> {
    pub contract_size: Decimal,
    pub settlement_asset: AssetKey,
    pub expiry: Timestamp,
}

/// Whether an option is to buy or to sell.
#[derive(Clone, Copy, PartialEq, Eq, Structural, Debug, Hash)]
pub enum OptionKind {
    Call,
    Put,
}

/// A right to buy or sell.
#[derive(Debug, PartialEq, Eq, Hash)]
pub struct OptionContract<AssetKey> {
    pub contract_size: Decimal,
    pub settlement_asset: AssetKey,
    pub kind: OptionKind,
    pub expiry: Timestamp,
    pub strike: Decimal,
}

/// A contract for difference, settled in cash. The account's currency need not be the quote.
#[derive(Debug, PartialEq, Eq, Hash)]
pub struct CfdContract<AssetKey> {
    pub contract_size: Decimal,
    pub settlement_asset: AssetKey,
}

/// What sort of instrument it is.
#[derive(Debug, PartialEq, Eq, Hash)]
pub enum InstrumentKind<AssetKey> {
    Spot,
    Perpetual(PerpetualContract<AssetKey>),
    Future(FutureContract<AssetKey>),
    OptionContract(OptionContract<AssetKey>),
    Cfd(CfdContract<AssetKey>),
}

impl<AssetKey> InstrumentKind<AssetKey> {
    /// The asset that a contract is settled in. Spot settles in none of its own.
    pub open spec fn settles_in(self) -> Option<AssetKey> {
        match self {
            InstrumentKind::Spot => None,
            InstrumentKind::Perpetual(contract) => Some(contract.settlement_asset),
            InstrumentKind::Future(contract) => Some(contract.settlement_asset),
            InstrumentKind::OptionContract(contract) => Some(contract.settlement_asset),
            InstrumentKind::Cfd(contract) => Some(contract.settlement_asset),
        }
    }

    /// The asset that a contract is settled in.
    pub fn settlement_asset(&self) -> (r: Option<&AssetKey>)
        ensures
            match r {
                Some(asset) => self.settles_in() == Some(*asset),
                None => self.settles_in() is None,
            },
    {
        match self {
            InstrumentKind::Spot => None,
            InstrumentKind::Perpetual(contract) => Some(&contract.settlement_asset),
            InstrumentKind::Future(contract) => Some(&contract.settlement_asset),
            InstrumentKind::OptionContract(contract) => Some(&contract.settlement_asset),
            InstrumentKind::Cfd(contract) => Some(&contract.settlement_asset),
        }
    }

    /// This kind, settled in `asset` in place of its own settlement asset.
    pub open spec fn settled_in<NewKey>(self, asset: Option<NewKey>) -> InstrumentKind<NewKey> {
        match self {
            InstrumentKind::Spot => InstrumentKind::Spot,
            InstrumentKind::Perpetual(c) => InstrumentKind::Perpetual(
                PerpetualContract { contract_size: c.contract_size, settlement_asset: asset->0 },
            ),
            InstrumentKind::Future(c) => InstrumentKind::Future(
                FutureContract { contract_size: c.contract_size, settlement_asset: asset->0, expiry: c.expiry },
            ),
            InstrumentKind::OptionContract(c) => InstrumentKind::OptionContract(
                OptionContract {
                    contract_size: c.contract_size,
                    settlement_asset: asset->0,
                    kind: c.kind,
                    expiry: c.expiry,
                    strike: c.strike,
                },
            ),
            InstrumentKind::Cfd(c) => InstrumentKind::Cfd(
                CfdContract { contract_size: c.contract_size, settlement_asset: asset->0 },
            ),
        }
    }
}

/// The units that an order's quantity is in.
#[derive(Debug, PartialEq, Eq, Hash)]
pub enum OrderQuantityUnits<AssetKey> {
    Asset(AssetKey),
    Contract,
    Quote,
}

/// The limits on an instrument's prices.
#[derive(Clone, Copy, PartialEq, Eq, Structural, Debug, Hash)]
pub struct InstrumentSpecPrice {
    pub min: Decimal,
    pub tick_size: Decimal,
}

/// The limits on an order's quantity.
#[derive(Debug, PartialEq, Eq, Hash)]
pub struct InstrumentSpecQuantity<AssetKey> {
    pub unit: OrderQuantityUnits<AssetKey>,
    pub min: Decimal,
    pub increment: Decimal,
}

/// The limit on an order's value.
#[derive(Clone, Copy, PartialEq, Eq, Structural, Debug, Hash)]
pub struct InstrumentSpecNotional {
    pub min: Decimal,
}

/// What an order on an instrument must keep to.
#[derive(Debug, PartialEq, Eq, Hash)]
pub struct InstrumentSpec<AssetKey> {
    pub price: InstrumentSpecPrice,
    pub quantity: InstrumentSpecQuantity<AssetKey>,
    pub notional: InstrumentSpecNotional,
}

impl<AssetKey> InstrumentSpec<AssetKey> {
    /// The asset that quantities are in, where they are in one.
    pub open spec fn unit_asset(self) -> Option<AssetKey> {
        match self.quantity.unit {
            OrderQuantityUnits::Asset(asset) => Some(asset),
            _ => None,
        }
    }

    /// This spec, with `asset` in place of the asset that quantities are in.
    pub open spec fn in_units_of<NewKey>(self, asset: Option<NewKey>) -> InstrumentSpec<NewKey> {
        InstrumentSpec {
            price: self.price,
            quantity: InstrumentSpecQuantity {
                unit: match self.quantity.unit {
                    OrderQuantityUnits::Asset(_) => OrderQuantityUnits::Asset(asset->0),
                    OrderQuantityUnits::Contract => OrderQuantityUnits::Contract,
                    OrderQuantityUnits::Quote => OrderQuantityUnits::Quote,
                },
                min: self.quantity.min,
                increment: self.quantity.increment,
            },
            notional: self.notional,
        }
    }
}

/// Something that is traded on a venue, and priced there or on another one.
#[derive(Debug, PartialEq, Eq, Hash)]
pub struct Instrument<ExchangeKey, AssetKey> {
    /// The venue that executes it.
    pub exchange: ExchangeKey,
    /// The name that is used here. It is unique in a collection.
    pub name_internal: String,
    /// The name that the executing venue uses.
    pub name_exchange: String,
    pub underlying: Underlying<AssetKey>,
    pub quote: InstrumentQuoteAsset,
    pub kind: InstrumentKind<AssetKey>,
    pub spec: Option<InstrumentSpec<AssetKey>>,
    /// The venue that prices it, where that is another one.
    pub data_venue: Option<DataVenue<ExchangeKey>>,
}

impl<ExchangeKey, AssetKey> Instrument<ExchangeKey, AssetKey> {
    /// An instrument that is priced where it is executed.
    pub fn new(
        exchange: ExchangeKey,
        name_internal: &str,
        name_exchange: &str,
        underlying: Underlying<AssetKey>,
        quote: InstrumentQuoteAsset,
        kind: InstrumentKind<AssetKey>,
        spec: Option<InstrumentSpec<AssetKey>>,
    ) -> (r: Instrument<ExchangeKey, AssetKey>)
        ensures
            r.exchange == exchange,
            r.name_internal@ == name_internal@,
            r.name_exchange@ == name_exchange@,
            r.underlying == underlying,
            r.quote == quote,
            r.kind == kind,
            r.spec == spec,
            r.data_venue is None,
    {
        Instrument {
            exchange,
            name_internal: String::from_str(name_internal),
            name_exchange: String::from_str(name_exchange),
            underlying,
            quote,
            kind,
            spec,
            data_venue: None,
        }
    }

    /// This instrument, priced by `venue`.
    pub fn with_data_venue(self, venue: DataVenue<ExchangeKey>) -> (r: Instrument<ExchangeKey, AssetKey>)
        ensures
            r == (Instrument { data_venue: Some(venue), ..self }),
    {
        Instrument {
            exchange: self.exchange,
            name_internal: self.name_internal,
            name_exchange: self.name_exchange,
            underlying: self.underlying,
            quote: self.quote,
            kind: self.kind,
            spec: self.spec,
            data_venue: Some(venue),
        }
    }

    /// The venue that prices the instrument: its data venue, or else the one that executes it.
    pub open spec fn priced_by(self) -> ExchangeKey {
        match self.data_venue {
            Some(venue) => venue.exchange,
            None => self.exchange,
        }
    }

    /// The name under which the pricing venue lists the instrument: its own, or else the executing
    /// venue's.
    pub open spec fn priced_as(self) -> Seq<char> {
        match self.data_venue {
            Some(venue) => match venue.name_exchange {
                Some(name) => name@,
                None => self.name_exchange@,
            },
            None => self.name_exchange@,
        }
    }

    /// The venue that prices the instrument.
    pub fn data_exchange(&self) -> (r: &ExchangeKey)
        ensures
            *r == self.priced_by(),
    {
        match &self.data_venue {
            Some(venue) => &venue.exchange,
            None => &self.exchange,
        }
    }

    /// The name under which the pricing venue lists the instrument.
    pub fn data_name_exchange(&self) -> (r: &str)
        ensures
            r@ == self.priced_as(),
    {
        match &self.data_venue {
            Some(venue) => match &venue.name_exchange {
                Some(name) => name.as_str(),
                None => self.name_exchange.as_str(),
            },
            None => self.name_exchange.as_str(),
        }
    }
}

/// Whether two kinds are the same in every field.
pub open spec fn same_kind(a: InstrumentKind<Asset>, b: InstrumentKind<Asset>) -> bool {
    match (a, b) {
        (InstrumentKind::Spot, InstrumentKind::Spot) => true,
        (InstrumentKind::Perpetual(x), InstrumentKind::Perpetual(y)) => {
            &&& market::same_number(x.contract_size, y.contract_size)
            &&& x.settlement_asset.same_as(y.settlement_asset)
        },
        (InstrumentKind::Future(x), InstrumentKind::Future(y)) => {
            &&& market::same_number(x.contract_size, y.contract_size)
            &&& x.settlement_asset.same_as(y.settlement_asset)
            &&& x.expiry == y.expiry
        },
        (InstrumentKind::OptionContract(x), InstrumentKind::OptionContract(y)) => {
            &&& market::same_number(x.contract_size, y.contract_size)
            &&& x.settlement_asset.same_as(y.settlement_asset)
            &&& x.kind == y.kind
            &&& x.expiry == y.expiry
            &&& market::same_number(x.strike, y.strike)
        },
        (InstrumentKind::Cfd(x), InstrumentKind::Cfd(y)) => {
            &&& market::same_number(x.contract_size, y.contract_size)
            &&& x.settlement_asset.same_as(y.settlement_asset)
        },
        _ => false,
    }
}

fn is_same_kind(a: &InstrumentKind<Asset>, b: &InstrumentKind<Asset>) -> (r: bool)
    ensures
        r == same_kind(*a, *b),
{
    match (a, b) {
        (InstrumentKind::Spot, InstrumentKind::Spot) => true,
        (InstrumentKind::Perpetual(x), InstrumentKind::Perpetual(y)) => x.contract_size.is_same_number(
            &y.contract_size,
        ) && x.settlement_asset.is_same_as(&y.settlement_asset),
        (InstrumentKind::Future(x), InstrumentKind::Future(y)) => x.contract_size.is_same_number(
            &y.contract_size,
        ) && x.settlement_asset.is_same_as(&y.settlement_asset) && x.expiry == y.expiry,
        (InstrumentKind::OptionContract(x), InstrumentKind::OptionContract(y)) => x.contract_size.is_same_number(
            &y.contract_size,
        ) && x.settlement_asset.is_same_as(&y.settlement_asset) && x.kind == y.kind && x.expiry == y.expiry
            && x.strike.is_same_number(&y.strike),
        (InstrumentKind::Cfd(x), InstrumentKind::Cfd(y)) => x.contract_size.is_same_number(&y.contract_size)
            && x.settlement_asset.is_same_as(&y.settlement_asset),
        _ => false,
    }
}

/// Whether two specs are the same in every field.
pub open spec fn same_spec(a: Option<InstrumentSpec<Asset>>, b: Option<InstrumentSpec<Asset>>) -> bool {
    match (a, b) {
        (None, None) => true,
        (Some(x), Some(y)) => {
            &&& market::same_number(x.price.min, y.price.min)
            &&& market::same_number(x.price.tick_size, y.price.tick_size)
            &&& match (x.quantity.unit, y.quantity.unit) {
                (OrderQuantityUnits::Asset(p), OrderQuantityUnits::Asset(q)) => p.same_as(q),
                (OrderQuantityUnits::Contract, OrderQuantityUnits::Contract) => true,
                (OrderQuantityUnits::Quote, OrderQuantityUnits::Quote) => true,
                _ => false,
            }
            &&& market::same_number(x.quantity.min, y.quantity.min)
            &&& market::same_number(x.quantity.increment, y.quantity.increment)
            &&& market::same_number(x.notional.min, y.notional.min)
        },
        _ => false,
    }
}

fn is_same_spec(a: &Option<InstrumentSpec<Asset>>, b: &Option<InstrumentSpec<Asset>>) -> (r: bool)
    ensures
        r == same_spec(*a, *b),
{
    match (a, b) {
        (None, None) => true,
        (Some(x), Some(y)) => {
            let same_unit = match (&x.quantity.unit, &y.quantity.unit) {
                (OrderQuantityUnits::Asset(p), OrderQuantityUnits::Asset(q)) => p.is_same_as(q),
                (OrderQuantityUnits::Contract, OrderQuantityUnits::Contract) => true,
                (OrderQuantityUnits::Quote, OrderQuantityUnits::Quote) => true,
                _ => false,
            };
            same_unit && x.price.min.is_same_number(&y.price.min) && x.price.tick_size.is_same_number(
                &y.price.tick_size,
            ) && x.quantity.min.is_same_number(&y.quantity.min) && x.quantity.increment.is_same_number(
                &y.quantity.increment,
            ) && x.notional.min.is_same_number(&y.notional.min)
        },
        _ => false,
    }
}

/// Whether two data venues are the same.
pub open spec fn same_venue(a: Option<DataVenue<ExchangeId>>, b: Option<DataVenue<ExchangeId>>) -> bool {
    match (a, b) {
        (None, None) => true,
        (Some(x), Some(y)) => x.exchange == y.exchange && match (x.name_exchange, y.name_exchange) {
            (None, None) => true,
            (Some(p), Some(q)) => p@ == q@,
            _ => false,
        },
        _ => false,
    }
}

fn is_same_venue(a: &Option<DataVenue<ExchangeId>>, b: &Option<DataVenue<ExchangeId>>) -> (r: bool)
    ensures
        r == same_venue(*a, *b),
{
    match (a, b) {
        (None, None) => true,
        (Some(x), Some(y)) => x.exchange == y.exchange && match (&x.name_exchange, &y.name_exchange) {
            (None, None) => true,
            (Some(p), Some(q)) => same_text(p.as_str(), q.as_str()),
            _ => false,
        },
        _ => false,
    }
}

impl Instrument<ExchangeId, Asset> {
    /// Whether two instruments are the same in every field.
    pub open spec fn same_as(self, other: Instrument<ExchangeId, Asset>) -> bool {
        &&& self.exchange == other.exchange
        &&& self.name_internal@ == other.name_internal@
        &&& self.name_exchange@ == other.name_exchange@
        &&& self.underlying.base.same_as(other.underlying.base)
        &&& self.underlying.quote.same_as(other.underlying.quote)
        &&& self.quote == other.quote
        &&& same_kind(self.kind, other.kind)
        &&& same_spec(self.spec, other.spec)
        &&& same_venue(self.data_venue, other.data_venue)
    }

    /// Whether two instruments are the same in every field.
    pub fn is_same_as(&self, other: &Instrument<ExchangeId, Asset>) -> (r: bool)
        ensures
            r == self.same_as(*other),
    {
        self.exchange == other.exchange && same_text(self.name_internal.as_str(), other.name_internal.as_str())
            && same_text(self.name_exchange.as_str(), other.name_exchange.as_str())
            && self.underlying.base.is_same_as(&other.underlying.base)
            && self.underlying.quote.is_same_as(&other.underlying.quote) && self.quote == other.quote
            && is_same_kind(&self.kind, &other.kind) && is_same_spec(&self.spec, &other.spec)
            && is_same_venue(&self.data_venue, &other.data_venue)
    }
}

/// An instrument is priced by its data venue where it has one, under the name that this venue gives it if
/// it gives one; else by the venue that executes it. Where no other name is given, it is the executing
/// venue's.
pub proof fn law_pricing_falls_back_to_execution(instrument: Instrument<ExchangeId, Asset>, venue: DataVenue<ExchangeId>)
    ensures
        (Instrument { data_venue: None, ..instrument }).priced_by() == instrument.exchange,
        (Instrument { data_venue: None, ..instrument }).priced_as() == instrument.name_exchange@,
        (Instrument { data_venue: Some(venue), ..instrument }).priced_by() == venue.exchange,
        venue.name_exchange is None ==> (Instrument { data_venue: Some(venue), ..instrument }).priced_as()
            == instrument.name_exchange@,
        venue.name_exchange matches Some(name) ==> (Instrument { data_venue: Some(venue), ..instrument }).priced_as()
            == name@,
{
}

/// Instruments that count as the same agree in everything: the venue, the names, the underlying, the quote,
/// the sort of contract and all its terms, the limits, and the pricing venue. Numbers agree in value.
pub proof fn law_same_instruments_agree_in_everything(
    a: Instrument<ExchangeId, Asset>,
    b: Instrument<ExchangeId, Asset>,
)
    ensures
        a.same_as(a),
        a.same_as(b) ==> b.same_as(a),
        a.same_as(b) ==> {
            &&& a.exchange == b.exchange
            &&& a.name_internal@ == b.name_internal@ && a.name_exchange@ == b.name_exchange@
            &&& a.underlying.base.name_internal@ == b.underlying.base.name_internal@
            &&& a.underlying.base.name_exchange@ == b.underlying.base.name_exchange@
            &&& a.underlying.quote.name_internal@ == b.underlying.quote.name_internal@
            &&& a.underlying.quote.name_exchange@ == b.underlying.quote.name_exchange@
            &&& a.quote == b.quote
            &&& a.priced_by() == b.priced_by() && a.priced_as() == b.priced_as()
        },
        a.same_as(b) ==> {
            &&& a.kind is Spot <==> b.kind is Spot
            &&& a.kind is Perpetual <==> b.kind is Perpetual
            &&& a.kind is Future <==> b.kind is Future
            &&& a.kind is OptionContract <==> b.kind is OptionContract
            &&& a.kind is Cfd <==> b.kind is Cfd
            &&& a.kind.settles_in() is Some ==> a.kind.settles_in()->0.name_internal@
                == b.kind.settles_in()->0.name_internal@ && a.kind.settles_in()->0.name_exchange@
                == b.kind.settles_in()->0.name_exchange@
            &&& a.kind is Perpetual ==> market::same_number(
                a.kind->Perpetual_0.contract_size,
                b.kind->Perpetual_0.contract_size,
            )
            &&& a.kind is Future ==> market::same_number(
                a.kind->Future_0.contract_size,
                b.kind->Future_0.contract_size,
            ) && a.kind->Future_0.expiry == b.kind->Future_0.expiry
            &&& a.kind is OptionContract ==> market::same_number(
                a.kind->OptionContract_0.contract_size,
                b.kind->OptionContract_0.contract_size,
            ) && market::same_number(a.kind->OptionContract_0.strike, b.kind->OptionContract_0.strike)
                && a.kind->OptionContract_0.expiry == b.kind->OptionContract_0.expiry && a.kind->OptionContract_0.kind
                == b.kind->OptionContract_0.kind
            &&& a.kind is Cfd ==> market::same_number(a.kind->Cfd_0.contract_size, b.kind->Cfd_0.contract_size)
        },
        a.same_as(b) ==> {
            &&& a.spec is Some <==> b.spec is Some
            &&& a.spec is Some ==> {
                let x = a.spec->0;
                let y = b.spec->0;
                &&& market::same_number(x.price.min, y.price.min)
                &&& market::same_number(x.price.tick_size, y.price.tick_size)
                &&& market::same_number(x.quantity.min, y.quantity.min)
                &&& market::same_number(x.quantity.increment, y.quantity.increment)
                &&& market::same_number(x.notional.min, y.notional.min)
                &&& x.quantity.unit is Contract <==> y.quantity.unit is Contract
                &&& x.quantity.unit is Quote <==> y.quantity.unit is Quote
                &&& x.quantity.unit is Asset ==> x.quantity.unit->Asset_0.name_internal@
                    == y.quantity.unit->Asset_0.name_internal@ && x.quantity.unit->Asset_0.name_exchange@
                    == y.quantity.unit->Asset_0.name_exchange@
            }
            &&& a.data_venue is Some <==> b.data_venue is Some
            &&& a.data_venue is Some ==> (a.data_venue->0.name_exchange is Some
                <==> b.data_venue->0.name_exchange is Some)
        },
{
}

/// The asset that a contract is settled in is the one of its own kind of contract; spot has none.
pub proof fn law_contracts_settle_in_their_own_asset<AssetKey>(kind: InstrumentKind<AssetKey>)
    ensures
        kind is Spot <==> kind.settles_in() is None,
        kind matches InstrumentKind::Perpetual(contract) ==> kind.settles_in() == Some(contract.settlement_asset),
        kind matches InstrumentKind::Future(contract) ==> kind.settles_in() == Some(contract.settlement_asset),
        kind matches InstrumentKind::OptionContract(contract) ==> kind.settles_in() == Some(contract.settlement_asset),
        kind matches InstrumentKind::Cfd(contract) ==> kind.settles_in() == Some(contract.settlement_asset),
{
}

} // verus!
