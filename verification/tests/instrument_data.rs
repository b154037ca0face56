//! The market data of an instrument, and its price.

use rustrade::engine::action::{ActionOutput, NoneOneOrMany, OneOrMany};
use rustrade::engine::instrument_data::DefaultInstrumentMarketData;
use rustrade::exchange::ExchangeId;
use rustrade::market::{
    Candle, DataKind, Decimal, InstrumentIndex, Level, Liquidation, MarketEvent, MidPrice, OrderBookL1, PublicTrade,
    Side,
};
use rustrade::time::Timestamp;

fn at(secs: i64) -> Timestamp {
    Timestamp::new(secs, 0).unwrap()
}

fn dec(mantissa: i128) -> Decimal {
    Decimal { mantissa, scale: 0 }
}

fn event(time: Timestamp, kind: DataKind) -> MarketEvent<InstrumentIndex, DataKind> {
    MarketEvent {
        time_exchange: time,
        time_received: time,
        exchange: ExchangeId::BinanceSpot,
        instrument: InstrumentIndex(0),
        kind,
    }
}

fn trade(price: Decimal) -> DataKind {
    DataKind::Trade(PublicTrade { id: "1".to_string(), price, amount: dec(1), side: Some(Side::Buy) })
}

fn candle(close_time: Timestamp, close: Decimal) -> DataKind {
    DataKind::Candle(Candle {
        close_time,
        open: close,
        high: close,
        low: close,
        close,
        volume: Some(dec(1)),
        trade_count: Some(1),
    })
}

fn level(price: Decimal, amount: Decimal) -> Option<Level> {
    Some(Level { price, amount })
}

fn l1(last_update_time: Timestamp, price: Decimal) -> DataKind {
    DataKind::OrderBookL1(OrderBookL1 {
        last_update_time,
        best_bid: level(price, dec(1)),
        best_ask: level(price, dec(1)),
    })
}

fn l1_without_sizes(last_update_time: Timestamp, bid: Decimal, ask: Decimal) -> DataKind {
    DataKind::OrderBookL1(OrderBookL1 {
        last_update_time,
        best_bid: level(bid, dec(0)),
        best_ask: level(ask, dec(0)),
    })
}

fn assert_price(data: &DefaultInstrumentMarketData, expected: Option<Decimal>) {
    let price = data.try_price().expect("the mid fits");
    assert_eq!(price, data.price());
    match (price, expected) {
        (Some(price), Some(expected)) => {
            assert!(price.is_same_number(&expected), "{price:?} should be {expected:?}")
        }
        (price, expected) => assert_eq!(price, expected),
    }
}

#[test]
fn price_is_none_without_any_input() {
    assert_price(&DefaultInstrumentMarketData::default(), None);
}

#[test]
fn newest_l1_beats_older_candle_and_trade() {
    let mut data = DefaultInstrumentMarketData::default();
    data.process(&event(at(10), trade(dec(200))));
    data.process(&event(at(20), candle(at(20), dec(300))));
    data.process(&event(at(30), l1(at(30), dec(100))));

    assert_price(&data, Some(dec(100)));
}

#[test]
fn stale_l1_does_not_shadow_fresh_candle() {
    let mut data = DefaultInstrumentMarketData::default();
    data.process(&event(at(100), l1(at(100), dec(100))));
    data.process(&event(at(86_500), candle(at(86_500), dec(300))));

    assert_price(&data, Some(dec(300)));
}

#[test]
fn l1_wins_exact_tie_with_candle_and_trade() {
    let mut data = DefaultInstrumentMarketData::default();
    data.process(&event(at(20), candle(at(20), dec(300))));
    data.process(&event(at(20), trade(dec(200))));
    data.process(&event(at(20), l1(at(20), dec(100))));

    assert_price(&data, Some(dec(100)));
}

#[test]
fn two_sided_l1_without_sizes_falls_back_to_plain_mid() {
    let mut data = DefaultInstrumentMarketData::default();
    data.process(&event(at(10), l1_without_sizes(at(10), dec(100), dec(200))));

    assert_price(&data, Some(dec(150)));
}

#[test]
fn one_sided_l1_contributes_no_price() {
    let mut data = DefaultInstrumentMarketData::default();
    data.process(&event(at(10), trade(dec(200))));
    data.process(&event(
        at(20),
        DataKind::OrderBookL1(OrderBookL1 {
            last_update_time: at(20),
            best_bid: level(dec(100), dec(0)),
            best_ask: None,
        }),
    ));

    assert_price(&data, Some(dec(200)));
}

#[test]
fn stale_l1_does_not_replace_newer_stored_l1() {
    let mut data = DefaultInstrumentMarketData::default();
    data.process(&event(at(30), l1(at(30), dec(300))));
    data.process(&event(at(20), l1(at(20), dec(999))));

    assert_eq!(data.l1.last_update_time, at(30));
    assert_price(&data, Some(dec(300)));
}

#[test]
fn newer_candle_beats_older_trade() {
    let mut data = DefaultInstrumentMarketData::default();
    data.process(&event(at(10), trade(dec(200))));
    data.process(&event(at(20), candle(at(20), dec(300))));

    assert_price(&data, Some(dec(300)));
}

#[test]
fn newer_trade_beats_older_candle() {
    let mut data = DefaultInstrumentMarketData::default();
    data.process(&event(at(20), candle(at(20), dec(300))));
    data.process(&event(at(30), trade(dec(200))));

    assert_price(&data, Some(dec(200)));
}

#[test]
fn stale_coarse_candle_does_not_shadow_fresh_trade() {
    let mut data = DefaultInstrumentMarketData::default();
    data.process(&event(at(100), candle(at(100), dec(300))));
    data.process(&event(at(86_500), trade(dec(200))));

    assert_price(&data, Some(dec(200)));
}

#[test]
fn trade_wins_exact_tie_with_candle_close_time() {
    let mut data = DefaultInstrumentMarketData::default();
    data.process(&event(at(20), candle(at(20), dec(300))));
    data.process(&event(at(20), trade(dec(200))));

    assert_price(&data, Some(dec(200)));
}

#[test]
fn candle_closing_after_its_own_time_exchange_is_dropped_as_lookahead() {
    let mut data = DefaultInstrumentMarketData::default();
    data.process(&event(at(20), candle(at(80), dec(300))));

    assert_eq!(data.candle, None, "the lookahead candle must not be stored");
    assert_price(&data, None);
}

#[test]
fn candle_closing_before_its_time_exchange_is_retained() {
    let mut data = DefaultInstrumentMarketData::default();
    data.process(&event(at(85), candle(at(80), dec(300))));

    assert_eq!(data.candle.unwrap().close_time, at(80));
    assert_price(&data, Some(dec(300)));
}

#[test]
fn a_dropped_lookahead_candle_leaves_the_stored_candle_intact() {
    let mut data = DefaultInstrumentMarketData::default();
    data.process(&event(at(30), candle(at(30), dec(300))));
    data.process(&event(at(40), candle(at(90), dec(999))));

    assert_eq!(data.candle.unwrap().close_time, at(30));
    assert_price(&data, Some(dec(300)));
}

#[test]
fn stale_candle_does_not_replace_newer_stored_candle() {
    let mut data = DefaultInstrumentMarketData::default();
    data.process(&event(at(30), candle(at(30), dec(300))));
    data.process(&event(at(20), candle(at(20), dec(999))));

    assert_eq!(data.candle.unwrap().close_time, at(30));
    assert_price(&data, Some(dec(300)));
}

#[test]
fn stale_trade_does_not_replace_newer_stored_trade() {
    let mut data = DefaultInstrumentMarketData::default();
    data.process(&event(at(30), trade(dec(300))));
    data.process(&event(at(20), trade(dec(999))));

    assert_price(&data, Some(dec(300)));
}

#[test]
fn excluded_variants_do_not_move_price() {
    let mut data = DefaultInstrumentMarketData::default();
    data.process(&event(at(10), trade(dec(200))));

    data.process(&event(
        at(20),
        DataKind::Liquidation(Liquidation { side: Side::Buy, price: dec(999), quantity: dec(1), time: at(20) }),
    ));

    assert_price(&data, Some(dec(200)));
    assert_eq!(data.candle, None);
}

#[test]
fn the_mid_is_weighted_with_the_sizes_of_the_other_side() {
    let book = OrderBookL1 {
        last_update_time: at(10),
        best_bid: level(dec(100), dec(3)),
        best_ask: level(dec(200), dec(1)),
    };
    let MidPrice::Price(mid) = book.mid_price() else { panic!("expected a price") };
    // (100 * 1 + 200 * 3) / (3 + 1)
    assert!(mid.is_same_number(&dec(175)));
    assert_eq!(OrderBookL1 { best_bid: None, ..book }.mid_price(), MidPrice::OneSided);
}

#[test]
fn a_mid_that_does_not_fit_is_no_price() {
    let huge = dec((1 << 96) - 1);
    let book = OrderBookL1 {
        last_update_time: at(10),
        best_bid: level(huge, dec(0)),
        best_ask: level(huge, dec(0)),
    };
    assert_eq!(book.mid_price(), MidPrice::Overflow);
    let data = DefaultInstrumentMarketData { l1: book, ..DefaultInstrumentMarketData::default() };
    assert_eq!(data.try_price(), None);
    // One side without a size leaves the weights defined.
    let lopsided = OrderBookL1 { best_bid: level(dec(100), dec(0)), best_ask: level(dec(200), dec(1)), ..book };
    let MidPrice::Price(mid) = lopsided.mid_price() else { panic!("expected a price") };
    assert!(mid.is_same_number(&dec(100)));
}

#[test]
fn unrecoverable_errors_are_those_of_the_action() {
    assert!(ActionOutput::CancelOrders(NoneOneOrMany::<u8>::Nothing).unrecoverable_errors().is_none());
    assert!(matches!(
        ActionOutput::OpenOrders(NoneOneOrMany::One(1)).unrecoverable_errors(),
        Some(OneOrMany::One(1))
    ));
    let Some(OneOrMany::Many(errors)) =
        ActionOutput::ClosePositions(NoneOneOrMany::Many(vec![1, 2])).unrecoverable_errors()
    else {
        panic!("expected several")
    };
    assert_eq!(errors, vec![1, 2]);
}
