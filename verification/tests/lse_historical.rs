//! Historical candles, page by page.

use rustrade::lse::error::LseError;
use rustrade::lse::historical::{CandleFetch, LseCandleRow, PageNext};
use rustrade::market::{Candle, Decimal};
use rustrade::time::{close_time_from_open, open_time_from_close, parse_rfc3339, CandleInterval, CandleStep, Timestamp, MAX_SECS};

fn at(spelling: &str) -> Timestamp {
    parse_rfc3339(spelling).unwrap()
}

fn dec(text: &str) -> Decimal {
    let number: rust_decimal::Decimal = text.parse().unwrap();
    Decimal { mantissa: number.mantissa(), scale: number.scale() }
}

fn row(ts: &str, volume: Option<Decimal>) -> LseCandleRow {
    LseCandleRow {
        ts: ts.to_owned(),
        open: dec("1"),
        high: dec("2"),
        low: dec("0.5"),
        close: dec("1.5"),
        volume,
    }
}

/// The row of a JSON object, as the vault serves it.
fn decode(json: &str) -> LseCandleRow {
    let value: serde_json::Value = serde_json::from_str(json).unwrap();
    let number = |key: &str| value.get(key).map(|number| dec(&number.to_string()));
    LseCandleRow {
        ts: value["ts"].as_str().unwrap().to_string(),
        open: number("open").unwrap(),
        high: number("high").unwrap(),
        low: number("low").unwrap(),
        close: number("close").unwrap(),
        volume: number("volume"),
    }
}

#[test]
fn an_equity_row_deserializes_float_prices_and_an_integer_volume() {
    let json = r#"{"ts":"2003-09-10 00:00:00.000000","symbol":"AAPL","open":0.4,
                   "high":0.402321428571429,"low":0.4,"close":0.4,"volume":3428513}"#;

    let row = decode(json);

    assert!(row.open.is_same_number(&dec("0.4")));
    assert!(row.high.is_same_number(&dec("0.402321428571429")));
    assert!(row.volume.unwrap().is_same_number(&dec("3428513")));
    // The candle has what the row has.
    let candle = row.into_candle(at("2003-09-11T00:00:00Z"));
    assert!(candle.high.is_same_number(&dec("0.402321428571429")));
    assert!(candle.volume.unwrap().is_same_number(&dec("3428513")));
}

#[test]
fn an_fx_row_omitting_volume_deserializes_as_none() {
    let json = r#"{"ts":"2003-01-01 00:00:00.000000","symbol":"EUR/USD","open":1.0493,
                   "high":1.0493,"low":1.0493,"close":1.0493}"#;

    let row = decode(json);

    assert_eq!(row.volume, None);
    assert_eq!(row.into_candle(at("2003-01-02T00:00:00Z")).volume, None);
}

#[test]
fn timestamps_parse_as_utc() {
    let open = row("2024-01-02 09:09:00.000000", None).open_time().unwrap();

    assert_eq!(open, at("2024-01-02T09:09:00Z"));
}

#[test]
fn a_timestamp_without_a_fractional_part_still_parses() {
    assert!(row("2024-01-02 09:09:00", None).open_time().is_ok());
}

#[test]
fn a_malformed_timestamp_is_a_typed_error() {
    let error = row("not-a-timestamp", None).open_time().unwrap_err();

    assert!(matches!(error, LseError::Deserialize { .. }));
    assert!(error.message().contains("not-a-timestamp"));
}

#[test]
fn trade_count_is_always_none() {
    let candle = row("2024-01-02 09:09:00.000000", Some(dec("5"))).into_candle(at("2026-01-01T00:00:00Z"));

    assert_eq!(candle.trade_count, None);
}

#[test]
fn a_daily_bars_close_is_the_next_midnight_not_its_own_label() {
    let open = row("2024-01-02 00:00:00.000000", None).open_time().unwrap();

    let close = close_time_from_open(open, CandleInterval::Day1.to_step()).unwrap();

    assert_eq!(close, at("2024-01-03T00:00:00Z"));
}

#[test]
fn a_monthly_bars_close_uses_calendar_arithmetic() {
    let open = row("2024-02-01 00:00:00.000000", None).open_time().unwrap();

    let close = close_time_from_open(open, CandleInterval::Month1.to_step()).unwrap();

    assert_eq!(close, at("2024-03-01T00:00:00Z"));
    assert_eq!(open_time_from_close(close, CandleInterval::Month1.to_step()), Some(open));
    assert_eq!(
        open_time_from_close(at("2024-03-31T00:00:00Z"), CandleStep::Months(1)),
        Some(at("2024-02-29T00:00:00Z"))
    );
}

#[test]
fn a_monthly_window_is_widened_by_a_month() {
    let fetch =
        CandleFetch::new("ES.F", CandleInterval::Month1, at("2024-03-01T00:00:00Z"), at("2024-05-01T00:00:00Z"))
            .unwrap();

    let query = fetch.query();

    assert_eq!(query.start, "2024-02-01 00:00:00");
    assert_eq!(query.end, "2024-04-01 00:00:01");
}

fn fetch() -> CandleFetch {
    CandleFetch::new(
        "AAPL",
        CandleInterval::Min1,
        at("2024-01-02T09:01:00Z"),
        at("2024-01-02T09:04:00Z"),
    )
    .unwrap()
}

fn closes(candles: &[Candle]) -> Vec<Timestamp> {
    candles.iter().map(|candle| candle.close_time).collect()
}

#[test]
fn the_window_is_widened_by_one_bar_and_ends_past_the_last_open() {
    let query = fetch().query();
    assert_eq!(query.symbol, "AAPL");
    assert_eq!(query.timeframe, "1m");
    assert_eq!(query.start, "2024-01-02 09:00:00");
    assert_eq!(query.end, "2024-01-02 09:03:01");
    assert_eq!(query.limit, "5000");
}

#[test]
fn a_fetch_gives_exactly_the_bars_that_are_complete_within_the_bounds() {
    let mut fetch = fetch();
    let (candles, next) = fetch.on_page(&vec![
        row("2024-01-02 08:59:00.000000", None),
        row("2024-01-02 09:00:00.000000", None),
        row("2024-01-02 09:01:00.000000", None),
    ]);
    assert_eq!(closes(&candles), vec![at("2024-01-02T09:01:00Z"), at("2024-01-02T09:02:00Z")]);
    assert!(matches!(next, PageNext::Fetch));
    assert_eq!(fetch.query().start, "2024-01-02 09:01:01");

    let (candles, next) = fetch.on_page(&vec![
        row("2024-01-02 09:02:00.000000", None),
        row("2024-01-02 09:03:00.000000", None),
    ]);
    assert_eq!(closes(&candles), vec![at("2024-01-02T09:03:00Z"), at("2024-01-02T09:04:00Z")]);
    // The cursor has reached the end of the window, so there is nothing left to request.
    assert!(matches!(next, PageNext::Done));
}

#[test]
fn an_empty_page_ends_a_fetch_and_a_short_one_does_not() {
    let mut fetch = fetch();
    let (candles, next) = fetch.on_page(&vec![row("2024-01-02 09:00:00.000000", None)]);
    assert_eq!(candles.len(), 1);
    assert!(matches!(next, PageNext::Fetch));
    let (candles, next) = fetch.on_page(&Vec::new());
    assert!(candles.is_empty());
    assert!(matches!(next, PageNext::Done));
}

#[test]
fn a_bar_past_the_end_means_that_the_range_was_ignored() {
    let mut fetch = fetch();
    let (candles, next) = fetch.on_page(&vec![
        row("2024-01-02 09:03:00.000000", None),
        row("2024-01-02 09:04:00.000000", None),
    ]);
    assert_eq!(closes(&candles), vec![at("2024-01-02T09:04:00Z")]);
    assert!(matches!(next, PageNext::Failed(LseError::UnexpectedCandleRange { page: 1, .. })));
}

#[test]
fn a_page_that_does_not_move_the_cursor_is_an_error() {
    let mut fetch = fetch();
    fetch.on_page(&vec![row("2024-01-02 09:01:00.000000", None)]);
    let (_, next) = fetch.on_page(&vec![row("2024-01-02 09:00:00.000000", None)]);
    let PageNext::Failed(error) = next else { panic!("expected a failure") };
    assert!(error.message().contains("did not advance"), "{}", error.message());
}

#[test]
fn a_row_that_cannot_be_read_ends_the_fetch_behind_the_rows_before_it() {
    let mut fetch = fetch();
    let (candles, next) = fetch.on_page(&vec![
        row("2024-01-02 09:00:00.000000", None),
        row("yesterday", None),
        row("2024-01-02 09:01:00.000000", None),
    ]);
    assert_eq!(candles.len(), 1);
    assert!(matches!(next, PageNext::Failed(LseError::Deserialize { .. })));
}

#[test]
fn bounds_in_the_wrong_order_and_unserved_resolutions_are_refused() {
    let start = at("2024-01-02T00:00:00Z");
    let end = at("2024-01-01T00:00:00Z");
    let error = CandleFetch::new("AAPL", CandleInterval::Min1, start, end).unwrap_err();
    assert!(matches!(error, LseError::InvalidInput { .. }));
    assert!(error.message().contains("2024-01-02 00:00:00 UTC"), "{}", error.message());
    assert!(matches!(
        CandleFetch::new("AAPL", CandleInterval::Hour2, end, start),
        Err(LseError::UnsupportedInterval { interval: CandleInterval::Hour2 })
    ));
    assert!(CandleFetch::new("AAPL", CandleInterval::Min1, start, start).is_ok());
}

#[test]
fn a_bar_whose_end_is_not_representable_is_an_error() {
    let last = Timestamp::new(MAX_SECS, 0).unwrap();
    assert_eq!(close_time_from_open(last, CandleStep::Seconds(1)), None);
    assert_eq!(close_time_from_open(last, CandleStep::Months(1)), None);
    assert!(open_time_from_close(last, CandleStep::Seconds(1)).is_some());
}
