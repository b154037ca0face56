//! Execution channels and the instruments of a mocked venue.

use rustrade::exchange::ExchangeId;
use rustrade::execution::builder::{generate_mock_exchange_instruments, ExecutionBuilder, ExecutionBuilderError};
use rustrade::index::builder::IndexedInstrumentsBuilder;
use rustrade::index::error::IndexError;
use rustrade::index::IndexedInstruments;
use rustrade::instrument::{
    Asset, CfdContract, Instrument, InstrumentKind, InstrumentQuoteAsset, InstrumentSpec, InstrumentSpecNotional,
    InstrumentSpecPrice, InstrumentSpecQuantity, OrderQuantityUnits, Underlying,
};
use rustrade::market::Decimal;

const EXCHANGE: ExchangeId = ExchangeId::LseCfd;

fn asset(symbol: &str) -> Asset {
    Asset::new(symbol, symbol)
}

fn dec(mantissa: i128) -> Decimal {
    Decimal { mantissa, scale: 0 }
}

fn instrument(
    exchange: ExchangeId,
    name: &str,
    kind: InstrumentKind<Asset>,
    spec: Option<InstrumentSpec<Asset>>,
) -> Instrument<ExchangeId, Asset> {
    Instrument::new(
        exchange,
        name,
        name,
        Underlying { base: asset("spx500"), quote: asset("usd") },
        InstrumentQuoteAsset::UnderlyingQuote,
        kind,
        spec,
    )
}

fn instruments(kind: InstrumentKind<Asset>) -> IndexedInstruments {
    IndexedInstrumentsBuilder::default().add_instrument(instrument(EXCHANGE, "spx500_usd", kind, None)).build()
}

/// Settles in an asset that is not the quote.
fn cfd() -> InstrumentKind<Asset> {
    InstrumentKind::Cfd(CfdContract { contract_size: dec(25), settlement_asset: asset("gbp") })
}

fn text(error: ExecutionBuilderError) -> String {
    match error {
        ExecutionBuilderError::ExecutionBuilder(message) => message,
        ExecutionBuilderError::Index(error) => error.message(),
    }
}

#[test]
fn mock_instruments_map_a_cfd_preserving_contract_size_and_settlement_asset() {
    let instruments = instruments(cfd());

    let mocked = generate_mock_exchange_instruments(&instruments, EXCHANGE);

    let instrument = mocked
        .iter()
        .find(|instrument| instrument.name_exchange == "spx500_usd")
        .expect("the CFD instrument must be projected onto the mock exchange");

    let InstrumentKind::Cfd(contract) = &instrument.kind else {
        panic!("expected a Cfd kind, got {:?}", instrument.kind)
    };
    assert_eq!(contract.contract_size, dec(25));
    assert_eq!(contract.settlement_asset, "gbp", "settlement is the account currency, not the quote asset");
    assert_eq!(instrument.underlying.quote, "usd");
    assert_eq!(instrument.underlying.base, "spx500");
    assert_eq!(instrument.exchange, EXCHANGE);
}

#[test]
fn add_mock_accepts_a_cfd_instrument() {
    let instruments = instruments(cfd());

    let Ok((_, mocked)) = ExecutionBuilder::new(&instruments).add_mock(EXCHANGE, "channel") else {
        panic!("building mock execution over a CFD instrument must succeed")
    };
    assert_eq!(mocked.len(), 1);
}

#[test]
fn mock_instruments_map_spot_unchanged() {
    let instruments = instruments(InstrumentKind::Spot);

    let mocked = generate_mock_exchange_instruments(&instruments, EXCHANGE);

    let instrument = mocked.iter().find(|instrument| instrument.name_exchange == "spx500_usd").unwrap();
    assert_eq!(instrument.kind, InstrumentKind::Spot);
}

#[test]
fn mock_instruments_exclude_other_exchanges() {
    let instruments = instruments(cfd());

    let mocked = generate_mock_exchange_instruments(&instruments, ExchangeId::BinanceSpot);

    assert!(mocked.is_empty());
}

#[test]
fn mock_instruments_resolve_the_unit_of_a_specification() {
    let spec = InstrumentSpec {
        price: InstrumentSpecPrice { min: dec(1), tick_size: dec(2) },
        quantity: InstrumentSpecQuantity {
            unit: OrderQuantityUnits::Asset(asset("usd")),
            min: dec(3),
            increment: dec(4),
        },
        notional: InstrumentSpecNotional { min: dec(5) },
    };
    let instruments = IndexedInstrumentsBuilder::default()
        .add_instrument(instrument(EXCHANGE, "spx500_usd", InstrumentKind::Spot, Some(spec)))
        .build();
    let mocked = generate_mock_exchange_instruments(&instruments, EXCHANGE);
    let spec = mocked[0].spec.as_ref().unwrap();
    assert_eq!(spec.quantity.unit, OrderQuantityUnits::Asset("usd".to_string()));
    assert_eq!((spec.quantity.min, spec.quantity.increment), (dec(3), dec(4)));
    assert_eq!((spec.price.min, spec.price.tick_size, spec.notional.min), (dec(1), dec(2), dec(5)));
}

#[test]
fn a_venue_is_added_once_and_only_where_instruments_name_it() {
    let instruments = instruments(InstrumentKind::Spot);
    let Ok(builder) = ExecutionBuilder::new(&instruments).add_live(EXCHANGE, 1) else {
        panic!("the venue is named")
    };
    let Err(error) = builder.add_live(EXCHANGE, 2) else { panic!("the venue has a channel") };
    assert!(matches!(error, ExecutionBuilderError::ExecutionBuilder(_)));
    assert_eq!(text(error), "ExecutionBuilder does not support duplicate mocked ExecutionManagers: LseCfd");

    let Err(error) = ExecutionBuilder::new(&instruments).add_live(ExchangeId::BinanceSpot, 1) else {
        panic!("no instrument names the venue")
    };
    assert!(matches!(error, ExecutionBuilderError::Index(IndexError::ExchangeIndex(_))));
    assert!(text(error).contains("BinanceSpot"));
}

#[test]
fn every_venue_is_built_in_order_with_its_channel_or_none() {
    let instruments = IndexedInstrumentsBuilder::default()
        .add_instrument(instrument(ExchangeId::LseFx, "a", InstrumentKind::Spot, None))
        .add_instrument(instrument(ExchangeId::BinanceSpot, "b", InstrumentKind::Spot, None))
        .add_instrument(instrument(EXCHANGE, "c", cfd(), None))
        .build();
    let venues: Vec<ExchangeId> = instruments.exchanges().iter().map(|venue| venue.value).collect();
    let Ok(builder) = ExecutionBuilder::new(&instruments).add_live(ExchangeId::LseFx, "fx") else {
        panic!("the venue is named")
    };
    let Ok((builder, _)) = builder.add_mock(EXCHANGE, "cfd") else { panic!("the venue is named") };
    let built = builder.build();
    assert_eq!(built.iter().map(|(venue, _)| *venue).collect::<Vec<_>>(), venues);
    for (venue, channel) in built {
        let expected = match venue {
            ExchangeId::LseFx => Some("fx"),
            EXCHANGE => Some("cfd"),
            _ => None,
        };
        assert_eq!(channel, expected);
    }
}
