//! Building a collection of instruments.

use rustrade::exchange::ExchangeId;
use rustrade::index::builder::IndexedInstrumentsBuilder;
use rustrade::index::error::IndexError;
use rustrade::index::sorting::ExchangeAsset;
use rustrade::index::{AssetIndex, ExchangeIndex, Keyed};
use rustrade::instrument::data_venue::DataVenue;
use rustrade::instrument::{
    Asset, Instrument, InstrumentKind, InstrumentQuoteAsset, InstrumentSpec, InstrumentSpecNotional,
    InstrumentSpecPrice, InstrumentSpecQuantity, OrderQuantityUnits, Underlying,
};
use rustrade::market::Decimal;

fn asset(symbol: &str) -> Asset {
    Asset::new(&symbol.to_lowercase(), symbol)
}

fn exchange_asset(exchange: ExchangeId, symbol: &str) -> ExchangeAsset {
    ExchangeAsset { exchange, asset: asset(symbol) }
}

fn instrument(exchange: ExchangeId, base: &str, quote: &str) -> Instrument<ExchangeId, Asset> {
    let name_exchange = format!("{base}_{quote}");
    let name_internal = format!("{}-{}", exchange.as_str(), name_exchange.to_lowercase());
    Instrument::new(
        exchange,
        &name_internal,
        &name_exchange,
        Underlying { base: asset(base), quote: asset(quote) },
        InstrumentQuoteAsset::UnderlyingQuote,
        InstrumentKind::Spot,
        None,
    )
}

fn named(name_exchange: &str) -> Instrument<ExchangeId, Asset> {
    Instrument::new(
        ExchangeId::BinanceSpot,
        "binance_spot-btc_usdt",
        name_exchange,
        Underlying { base: asset("btc"), quote: asset("usdt") },
        InstrumentQuoteAsset::UnderlyingQuote,
        InstrumentKind::Spot,
        None,
    )
}

fn tenths(mantissa: i128) -> Decimal {
    Decimal { mantissa, scale: 1 }
}

#[test]
fn test_builder_basic_spot() {
    let indexed = IndexedInstrumentsBuilder::default()
        .add_instrument(instrument(ExchangeId::BinanceSpot, "btc", "usdt"))
        .build();

    assert_eq!(indexed.exchanges().len(), 1);
    assert_eq!(indexed.assets().len(), 2);
    assert_eq!(indexed.instruments().len(), 1);
    assert_eq!(indexed.exchanges()[0].value, ExchangeId::BinanceSpot);
    assert_eq!(indexed.assets()[0].value, exchange_asset(ExchangeId::BinanceSpot, "btc"));
    assert_eq!(indexed.assets()[1].value, exchange_asset(ExchangeId::BinanceSpot, "usdt"));
    assert_eq!(
        indexed.instruments()[0].value,
        Instrument {
            exchange: Keyed { key: ExchangeIndex(0), value: ExchangeId::BinanceSpot },
            name_exchange: "btc_usdt".to_string(),
            name_internal: "binance_spot-btc_usdt".to_string(),
            underlying: Underlying { base: AssetIndex(0), quote: AssetIndex(1) },
            quote: InstrumentQuoteAsset::UnderlyingQuote,
            kind: InstrumentKind::Spot,
            spec: None,
            data_venue: None,
        }
    );
}

#[test]
fn test_builder_deduplication() {
    let indexed = IndexedInstrumentsBuilder::default()
        .add_instrument(instrument(ExchangeId::BinanceSpot, "BTC", "USDT"))
        .add_instrument(instrument(ExchangeId::BinanceSpot, "BTC", "USDT"))
        .build();

    assert_eq!(indexed.exchanges().len(), 1);
    assert_eq!(indexed.assets().len(), 2);
    assert_eq!(indexed.instruments().len(), 1);
}

#[test]
fn test_builder_rejects_duplicate_name_internal() {
    let shared_name = "binance_spot-btc_usdt";
    let error = IndexedInstrumentsBuilder::default()
        .add_instrument(named("BTCUSDT"))
        .add_instrument(named("BTC-USDT"))
        .try_build()
        .expect_err("duplicate name_internal must be rejected");

    let IndexError::DuplicateInstrumentNameInternal(message) = &error else {
        panic!("unexpected error variant: {error:?}")
    };
    assert!(message.contains(shared_name), "{message}");
    assert!(message.contains("BTCUSDT"), "{message}");
    assert!(message.contains("BTC-USDT"), "{message}");
    assert!(message.contains("binance_spot"), "{message}");
    assert!(error.message().starts_with("duplicate InstrumentNameInternal: "));
}

#[test]
fn test_builder_exact_duplicate_instruments_are_not_a_name_collision() {
    let indexed = IndexedInstrumentsBuilder::default()
        .add_instrument(instrument(ExchangeId::BinanceSpot, "btc", "usdt"))
        .add_instrument(instrument(ExchangeId::BinanceSpot, "btc", "usdt"))
        .try_build()
        .expect("exact duplicates are deduped, not a name collision");

    assert_eq!(indexed.instruments().len(), 1);
}

#[test]
fn test_builder_multiple_exchanges() {
    let indexed = IndexedInstrumentsBuilder::default()
        .add_instrument(instrument(ExchangeId::BinanceSpot, "BTC", "USDT"))
        .add_instrument(instrument(ExchangeId::Coinbase, "BTC", "USD"))
        .build();

    assert_eq!(indexed.exchanges().len(), 2);
    assert_eq!(indexed.assets().len(), 4);
    assert_eq!(indexed.instruments().len(), 2);
}

#[test]
fn test_builder_asset_unit_handling() {
    let instrument = Instrument::new(
        ExchangeId::BinanceSpot,
        "binance_spot_btc_usdt",
        "BTC-USDT",
        Underlying { base: asset("BTC"), quote: asset("USDT") },
        InstrumentQuoteAsset::UnderlyingQuote,
        InstrumentKind::Spot,
        Some(InstrumentSpec {
            price: InstrumentSpecPrice { min: tenths(1), tick_size: tenths(1) },
            quantity: InstrumentSpecQuantity {
                unit: OrderQuantityUnits::Asset(asset("BTC")),
                min: Decimal { mantissa: 1, scale: 3 },
                increment: Decimal { mantissa: 1, scale: 3 },
            },
            notional: InstrumentSpecNotional { min: Decimal { mantissa: 10, scale: 0 } },
        }),
    );
    let indexed = IndexedInstrumentsBuilder::default().add_instrument(instrument).build();

    assert_eq!(indexed.assets().len(), 2);
    assert_eq!(indexed.assets()[0].value, exchange_asset(ExchangeId::BinanceSpot, "BTC"));
    // The unit is the index of the asset that the quantity is in.
    let spec = indexed.instruments()[0].value.spec.as_ref().unwrap();
    assert_eq!(spec.quantity.unit, OrderQuantityUnits::Asset(AssetIndex(0)));
    assert_eq!(spec.price.tick_size, tenths(1));
}

#[test]
fn test_builder_ordering() {
    let indexed = IndexedInstrumentsBuilder::default()
        .add_instrument(instrument(ExchangeId::BinanceSpot, "BTC", "USDT"))
        .add_instrument(instrument(ExchangeId::Coinbase, "ETH", "USD"))
        .build();

    assert_eq!(indexed.exchanges()[0].value, ExchangeId::BinanceSpot);
    assert_eq!(indexed.exchanges()[1].value, ExchangeId::Coinbase);
    assert_eq!(indexed.assets()[0].value, exchange_asset(ExchangeId::BinanceSpot, "BTC"));
    assert_eq!(indexed.assets()[1].value, exchange_asset(ExchangeId::BinanceSpot, "USDT"));
    assert_eq!(indexed.assets()[2].value, exchange_asset(ExchangeId::Coinbase, "ETH"));
    assert_eq!(indexed.assets()[3].value, exchange_asset(ExchangeId::Coinbase, "USD"));
    assert_eq!(
        indexed.instruments()[0].value,
        Instrument {
            exchange: Keyed { key: ExchangeIndex(0), value: ExchangeId::BinanceSpot },
            name_exchange: "BTC_USDT".to_string(),
            name_internal: "binance_spot-btc_usdt".to_string(),
            underlying: Underlying { base: AssetIndex(0), quote: AssetIndex(1) },
            quote: InstrumentQuoteAsset::UnderlyingQuote,
            kind: InstrumentKind::Spot,
            spec: None,
            data_venue: None,
        }
    );
    assert_eq!(
        indexed.instruments()[1].value,
        Instrument {
            exchange: Keyed { key: ExchangeIndex(1), value: ExchangeId::Coinbase },
            name_exchange: "ETH_USD".to_string(),
            name_internal: "coinbase-eth_usd".to_string(),
            underlying: Underlying { base: AssetIndex(2), quote: AssetIndex(3) },
            quote: InstrumentQuoteAsset::UnderlyingQuote,
            kind: InstrumentKind::Spot,
            spec: None,
            data_venue: None,
        }
    );
}

/// Venues, assets and instruments are sorted, whatever the order in which they were added.
#[test]
fn what_was_added_last_can_come_first() {
    let indexed = IndexedInstrumentsBuilder::new()
        .add_instrument(instrument(ExchangeId::Coinbase, "eth", "usd"))
        .add_instrument(instrument(ExchangeId::BinanceSpot, "btc", "usdt"))
        .build();

    assert_eq!(indexed.exchanges()[0].value, ExchangeId::BinanceSpot);
    assert_eq!(indexed.exchanges()[1].value, ExchangeId::Coinbase);
    assert_eq!(indexed.instruments()[0].value.name_internal, "binance_spot-btc_usdt");
    assert_eq!(indexed.instruments()[1].value.name_internal, "coinbase-eth_usd");
    assert_eq!(indexed.instruments()[1].value.underlying, Underlying { base: AssetIndex(2), quote: AssetIndex(3) });
    for (position, exchange) in indexed.exchanges().iter().enumerate() {
        assert_eq!(exchange.key, ExchangeIndex(position));
    }
    for (position, asset) in indexed.assets().iter().enumerate() {
        assert_eq!(asset.key, AssetIndex(position));
    }
    assert_eq!(indexed.find_asset(AssetIndex(3)), Some(&exchange_asset(ExchangeId::Coinbase, "usd")));
    assert_eq!(indexed.find_asset(AssetIndex(4)), None);
}

/// A data venue is a venue of the collection, and brings no assets of its own.
#[test]
fn a_data_venue_is_registered_without_assets() {
    let indexed = IndexedInstrumentsBuilder::new()
        .add_instrument(
            instrument(ExchangeId::Coinbase, "btc", "usdt")
                .with_data_venue(DataVenue::new(ExchangeId::LseCrypto, Some("BTC/USDT".to_string()))),
        )
        .build();

    assert_eq!(indexed.exchanges().len(), 2);
    assert_eq!(indexed.assets().len(), 2);
    let instrument = &indexed.instruments()[0].value;
    assert_eq!(instrument.exchange.key, ExchangeIndex(0));
    assert_eq!(instrument.data_exchange().value, ExchangeId::LseCrypto);
    assert_eq!(instrument.data_exchange().key, ExchangeIndex(1));
    assert_eq!(instrument.data_name_exchange(), "BTC/USDT");
}

#[test]
fn a_data_venue_without_a_name_uses_that_of_the_executing_venue() {
    let plain = instrument(ExchangeId::Coinbase, "btc", "usdt");
    assert_eq!(*plain.data_exchange(), ExchangeId::Coinbase);
    assert_eq!(plain.data_name_exchange(), "btc_usdt");

    let split = plain.with_data_venue(DataVenue::new_same_name(ExchangeId::LseCrypto));
    assert_eq!(*split.data_exchange(), ExchangeId::LseCrypto);
    assert_eq!(split.data_name_exchange(), "btc_usdt");
    assert_eq!(split.exchange, ExchangeId::Coinbase);

    let mapped = DataVenue::new(ExchangeId::LseFx, Some("EUR/USD".to_string())).map_exchange_key(|id| id.as_str());
    assert_eq!(mapped.exchange, "lse_fx");
    assert_eq!(mapped.name_exchange.as_deref(), Some("EUR/USD"));
}

/// Prices that differ only in zeros at the end of their fraction make no other instrument.
#[test]
fn instruments_are_the_same_by_the_value_of_their_numbers() {
    let with_tick = |tick_size: Decimal| {
        Instrument::new(
            ExchangeId::BinanceSpot,
            "binance_spot_btc_usdt",
            "BTC-USDT",
            Underlying { base: asset("BTC"), quote: asset("USDT") },
            InstrumentQuoteAsset::UnderlyingQuote,
            InstrumentKind::Spot,
            Some(InstrumentSpec {
                price: InstrumentSpecPrice { min: tenths(1), tick_size },
                quantity: InstrumentSpecQuantity {
                    unit: OrderQuantityUnits::Contract,
                    min: tenths(1),
                    increment: tenths(1),
                },
                notional: InstrumentSpecNotional { min: tenths(1) },
            }),
        )
    };
    let same = IndexedInstrumentsBuilder::new()
        .add_instrument(with_tick(Decimal { mantissa: 1, scale: 1 }))
        .add_instrument(with_tick(Decimal { mantissa: 10, scale: 2 }))
        .try_build();
    assert_eq!(same.unwrap().instruments().len(), 1);

    let other = IndexedInstrumentsBuilder::new()
        .add_instrument(with_tick(Decimal { mantissa: 1, scale: 1 }))
        .add_instrument(with_tick(Decimal { mantissa: 1, scale: 2 }))
        .try_build();
    assert!(matches!(other, Err(IndexError::DuplicateInstrumentNameInternal(_))));
}

#[test]
fn the_order_and_repeats_of_adding_make_no_difference() {
    let btc = || instrument(ExchangeId::BinanceSpot, "btc", "usdt");
    let eth = || instrument(ExchangeId::Coinbase, "eth", "usd").with_data_venue(DataVenue::new_same_name(ExchangeId::LseFx));
    let sol = || instrument(ExchangeId::BinanceSpot, "sol", "btc");
    let build = |list: Vec<Instrument<ExchangeId, Asset>>| {
        list.into_iter().fold(IndexedInstrumentsBuilder::new(), |builder, one| builder.add_instrument(one)).try_build()
    };
    let shown = |list: Vec<Instrument<ExchangeId, Asset>>| format!("{:?}", build(list).unwrap());

    let expected = shown(vec![btc(), eth(), sol()]);
    assert_eq!(shown(vec![sol(), eth(), btc()]), expected);
    assert_eq!(shown(vec![eth(), sol(), eth(), btc(), btc(), eth()]), expected);

    assert!(build(vec![named("a"), named("b")]).is_err());
    assert!(build(vec![named("b"), named("a"), named("b")]).is_err());
}

#[test]
fn both_ways_of_building_agree() {
    let builder = || {
        IndexedInstrumentsBuilder::new()
            .add_instrument(instrument(ExchangeId::Coinbase, "eth", "usd"))
            .add_instrument(instrument(ExchangeId::BinanceSpot, "btc", "usdt"))
    };
    assert_eq!(format!("{:?}", builder().build()), format!("{:?}", builder().try_build().unwrap()));
    let error = builder().add_instrument(named("other")).try_build().unwrap_err();
    assert!(error.message().contains("duplicate InstrumentNameInternal"), "{}", error.message());
}
