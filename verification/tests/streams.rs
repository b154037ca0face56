//! Merging streams in the order of time.

use std::collections::VecDeque;

use rustrade::exchange::ExchangeId;
use rustrade::lse::backtest::LseCandleSource;
use rustrade::market::{Candle, DataKind, Decimal, InstrumentIndex, MarketEvent, MarketStreamEvent, PublicTrade};
use rustrade::streams::merge::{poll_next, tag_event, Head, MergeStep};
use rustrade::time::{close_time_from_open, parse_plain, CandleInterval, Timestamp};

type Item = Result<MarketStreamEvent<InstrumentIndex, DataKind>, &'static str>;

fn at(secs: i64) -> Timestamp {
    Timestamp::new(secs, 0).unwrap()
}

fn dec(mantissa: i128) -> Decimal {
    Decimal { mantissa, scale: 0 }
}

fn trade() -> DataKind {
    DataKind::Trade(PublicTrade { id: "1".to_string(), price: dec(100), amount: dec(1), side: None })
}

fn item(instrument: usize, secs: i64) -> Item {
    Ok(tag_event(ExchangeId::BinanceSpot, InstrumentIndex(instrument), at(secs), trade()))
}

fn head(next: Option<&Item>) -> Head {
    match next {
        None => Head::Ended,
        Some(Err(_)) => Head::Failed,
        Some(Ok(MarketStreamEvent::Reconnecting(_))) => Head::Reconnecting,
        Some(Ok(MarketStreamEvent::Item(event))) => Head::Item(event.time_exchange),
    }
}

/// Merges inputs. An input is pending for as many looks at it as `delays` says, before each item.
fn merge_delayed(inputs: Vec<Vec<Item>>, delays: &[u32]) -> Vec<Item> {
    let mut inputs: Vec<VecDeque<Item>> = inputs.into_iter().map(VecDeque::from).collect();
    let mut waits: Vec<u32> = delays.to_vec();
    let mut merged = Vec::new();
    loop {
        let mut heads = Vec::new();
        for (index, input) in inputs.iter().enumerate() {
            if waits[index] > 0 && !input.is_empty() {
                waits[index] -= 1;
                heads.push(Head::Pending);
            } else {
                heads.push(head(input.front()));
            }
        }
        match poll_next(&heads) {
            MergeStep::Take(index) => {
                merged.push(inputs[index].pop_front().unwrap());
                waits[index] = delays[index];
            }
            MergeStep::Wait => {}
            MergeStep::Done => return merged,
        }
    }
}

fn merge(inputs: Vec<Vec<Item>>) -> Vec<Item> {
    let delays = vec![0; inputs.len()];
    merge_delayed(inputs, &delays)
}

/// The instrument and the instant of each event.
fn observed(events: &[Item]) -> Vec<(usize, i64)> {
    events
        .iter()
        .filter_map(|event| match event {
            Ok(MarketStreamEvent::Item(event)) => Some((event.instrument.0, event.time_exchange.secs)),
            _ => None,
        })
        .collect()
}

#[test]
fn interleaves_three_streams_by_time() {
    let merged =
        merge(vec![vec![item(0, 10), item(0, 40)], vec![item(1, 20), item(1, 50)], vec![item(2, 30)]]);

    assert_eq!(observed(&merged), vec![(0, 10), (1, 20), (2, 30), (0, 40), (1, 50)]);
}

#[test]
fn ties_resolve_to_the_earliest_listed_input() {
    let merged = merge(vec![vec![item(0, 10)], vec![item(1, 10)], vec![item(2, 10)]]);

    assert_eq!(observed(&merged), vec![(0, 10), (1, 10), (2, 10)]);
}

#[test]
fn drains_remaining_inputs_after_others_end() {
    let merged = merge(vec![vec![item(0, 10)], vec![item(1, 20), item(1, 30), item(1, 40)]]);

    assert_eq!(observed(&merged), vec![(0, 10), (1, 20), (1, 30), (1, 40)]);
}

#[test]
fn a_slow_input_is_not_overtaken_by_a_ready_one() {
    let merged =
        merge_delayed(vec![vec![item(0, 20), item(0, 40)], vec![item(1, 10), item(1, 30)]], &[0, 4]);

    assert_eq!(
        observed(&merged),
        vec![(1, 10), (0, 20), (1, 30), (0, 40)],
        "merge must wait for a pending input rather than emitting a later buffered event"
    );
}

#[test]
fn empty_input_set_ends_immediately() {
    assert!(merge(vec![]).is_empty());
}

#[test]
fn empty_inputs_are_skipped() {
    let merged = merge(vec![vec![], vec![item(1, 20)], vec![]]);

    assert_eq!(observed(&merged), vec![(1, 20)]);
}

#[test]
fn error_is_forwarded_ahead_of_buffered_items() {
    let merged = merge(vec![vec![item(0, 10)], vec![Err("boom"), item(1, 20)]]);

    let Some(Err(error)) = merged.first() else { panic!("expected a failure") };
    assert_eq!(*error, "boom");
}

#[test]
fn reconnecting_is_emitted_where_it_occurs() {
    let merged = merge(vec![
        vec![item(0, 10), item(0, 90)],
        vec![Ok(MarketStreamEvent::Reconnecting(ExchangeId::BinanceSpot)), item(1, 20)],
    ]);

    assert!(matches!(merged.first(), Some(Ok(MarketStreamEvent::Reconnecting(_)))));
    assert_eq!(observed(&merged), vec![(0, 10), (1, 20), (0, 90)]);
}

#[test]
fn what_is_urgent_goes_before_a_wait() {
    assert_eq!(poll_next(&vec![Head::Pending, Head::Item(at(1)), Head::Failed]), MergeStep::Take(2));
    assert_eq!(poll_next(&vec![Head::Item(at(1)), Head::Pending]), MergeStep::Wait);
    assert_eq!(poll_next(&vec![Head::Item(at(2)), Head::Ended, Head::Item(at(1))]), MergeStep::Take(2));
    assert_eq!(poll_next(&vec![Head::Ended, Head::Ended]), MergeStep::Done);
}

#[test]
fn tag_events_stamps_exchange_instrument_and_time() {
    let MarketStreamEvent::Item(event) =
        tag_event(ExchangeId::BinanceSpot, InstrumentIndex(7), at(42), trade())
    else {
        panic!("expected a tagged Item")
    };
    assert_eq!(event.time_exchange, at(42));
    assert_eq!(event.time_received, at(42));
    assert_eq!(event.instrument, InstrumentIndex(7));
    assert_eq!(event.exchange, ExchangeId::BinanceSpot);
}

fn candle(open: &str) -> Candle {
    let open = parse_plain(open).unwrap();
    Candle {
        close_time: close_time_from_open(open, CandleInterval::Min1.to_step()).unwrap(),
        open: dec(1),
        high: dec(1),
        low: dec(1),
        close: dec(1),
        volume: Some(dec(1)),
        trade_count: None,
    }
}

fn replayed(source: &LseCandleSource, opens: &[&str]) -> Vec<Item> {
    opens.iter().map(|open| Ok(source.replay(candle(open)))).collect()
}

#[test]
fn replay_merges_two_symbols_into_one_time_ordered_stream() {
    let apple = LseCandleSource::new("AAPL", InstrumentIndex(0), ExchangeId::LseEquities);
    let microsoft = LseCandleSource::new("MSFT", InstrumentIndex(1), ExchangeId::LseEquities);
    let events = merge(vec![
        replayed(&apple, &["2024-01-02 00:00:00", "2024-01-02 00:02:00"]),
        replayed(&microsoft, &["2024-01-02 00:01:00", "2024-01-02 00:03:00"]),
    ]);

    let observed = observed(&events);
    assert!(
        observed.windows(2).all(|pair| pair[0].1 <= pair[1].1),
        "merged replay must be time-ordered: {observed:?}"
    );
    assert_eq!(observed.iter().map(|(index, _)| *index).collect::<Vec<_>>(), vec![0, 1, 0, 1]);
    assert_eq!(apple.symbol, "AAPL");
}

#[test]
fn replay_of_no_sources_is_empty() {
    assert!(merge(Vec::new()).is_empty());
}

#[test]
fn replay_surfaces_a_source_failure() {
    let events = merge(vec![vec![Err("upstream unavailable")]]);
    assert!(matches!(events.first(), Some(Err(_))));
}

#[test]
fn a_replayed_candle_enters_the_timeline_when_it_ends() {
    let source = LseCandleSource::new("AAPL", InstrumentIndex(3), ExchangeId::LseEquities);
    let MarketStreamEvent::Item(MarketEvent { time_exchange, time_received, exchange, instrument, kind }) =
        source.replay(candle("2024-01-02 00:00:00"))
    else {
        panic!("expected an Item")
    };
    assert_eq!(time_exchange, parse_plain("2024-01-02 00:01:00").unwrap());
    assert_eq!(time_received, time_exchange);
    assert_eq!((exchange, instrument), (ExchangeId::LseEquities, InstrumentIndex(3)));
    assert!(matches!(kind, DataKind::Candle(_)));
}
