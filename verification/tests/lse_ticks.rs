//! Ticks, quotes, subscriptions and resumption of the live feed.

use rustrade::error::DataError;
use rustrade::exchange::ExchangeId;
use rustrade::lse::quote::quotes;
use rustrade::lse::resume::{LseResumeState, LseWatermark, ResumeTracker};
use rustrade::lse::subscription::{LseReplayFrame, LseSubResponse, SocketError};
use rustrade::lse::tick::{
    parse_timestamp, rfc3339_spelling, subscription_id, time_from_signed_seconds, time_from_unsigned_seconds, LseMessage,
    LseTick,
};
use rustrade::lse::transformer::LseTransformer;
use rustrade::market::{Decimal, MarketEvent, OrderBookL1};
use rustrade::time::{parse_rfc3339, Timestamp, MAX_SECS};

const LIVE_T_SEPARATED: &str = r#"{"type":"tick","symbol":"BTC/USD",
    "ts":"2026-01-02T09:37:24.760146+00:00","price":42000.5,"bid":42000.5,
    "ask":42001.0,"volume":0.00155}"#;

const LIVE_SPACE_SEPARATED: &str = r#"{"type":"tick","symbol":"EUR/USD",
    "ts":"2026-01-02 09:37:21.690159+00:00","price":1.1,"bid":1.1,"ask":1.1001,
    "volume":1.0}"#;

fn at(spelling: &str) -> Timestamp {
    parse_rfc3339(spelling).unwrap()
}

fn dec(text: &str) -> Decimal {
    let number: rust_decimal::Decimal = text.parse().unwrap();
    Decimal { mantissa: number.mantissa(), scale: number.scale() }
}

fn same(a: Decimal, b: Decimal) -> bool {
    a.is_same_number(&b)
}

/// A timestamp of the feed, as text or as seconds since 1970.
fn time(value: &serde_json::Value) -> Option<Timestamp> {
    if let Some(text) = value.as_str() {
        parse_timestamp(text)
    } else if let Some(seconds) = value.as_u64() {
        time_from_unsigned_seconds(seconds)
    } else if let Some(seconds) = value.as_i64() {
        time_from_signed_seconds(seconds)
    } else {
        Timestamp::from_micros((value.as_f64()? * 1_000_000.0).round() as i64)
    }
}

fn decode_tick(json: &str) -> LseTick {
    let value: serde_json::Value = serde_json::from_str(json).unwrap();
    let number = |key: &str| dec(&value[key].to_string());
    LseTick {
        subscription_id: subscription_id(value["symbol"].as_str().unwrap()),
        time_exchange: time(&value["ts"]).unwrap(),
        price: number("price"),
        bid: number("bid"),
        ask: number("ask"),
        volume: number("volume"),
        replay: value.get("replay").map(|replay| replay.as_bool().unwrap()).unwrap_or(false),
    }
}

fn decode_message(json: &str) -> LseMessage {
    let value: serde_json::Value = serde_json::from_str(json).unwrap();
    if value["type"] == "tick" {
        LseMessage::Tick(decode_tick(json))
    } else {
        LseMessage::Other
    }
}

fn text(error: SocketError) -> String {
    let SocketError::Subscribe(text) = error;
    text
}

#[test]
fn a_t_separated_timestamp_decodes() {
    let tick = decode_tick(LIVE_T_SEPARATED);

    assert_eq!(tick.time_exchange, at("2026-01-02T09:37:24.760146Z"));
    assert!(same(tick.price, dec("42000.5")));
    assert!(same(tick.volume, dec("0.00155")));
}

#[test]
fn a_space_separated_timestamp_decodes_to_the_same_instant_as_the_t_form() {
    let tick = decode_tick(LIVE_SPACE_SEPARATED);

    assert_eq!(tick.time_exchange, at("2026-01-02T09:37:21.690159Z"));
    assert_eq!(rfc3339_spelling("a b c").as_deref(), Some("aTb c"));
    assert_eq!(rfc3339_spelling("abc"), None);
}

#[test]
fn a_timestamp_without_a_subsecond_component_decodes() {
    let input = r#"{"type":"tick","symbol":"VIX/USD","ts":"2026-01-02T19:59:46+00:00",
        "price":16.9,"bid":16.9,"ask":16.93,"volume":0.0}"#;

    assert_eq!(decode_tick(input).time_exchange, at("2026-01-02T19:59:46Z"));
}

#[test]
fn a_float_epoch_timestamp_decodes() {
    let input = r#"{"type":"tick","symbol":"BTC/USD","ts":1767346644.592,"name":"Bitcoin",
        "replay":true,"price":42000.5,"bid":42000.5,"ask":42001.0,"volume":0.00155}"#;
    let tick = decode_tick(input);

    assert_eq!(Some(tick.time_exchange), Timestamp::from_micros(1_767_346_644_592_000));
    assert_eq!(tick.time_exchange, at("2026-01-02T09:37:24.592Z"));
    assert!(tick.replay);
}

#[test]
fn the_string_and_float_spellings_of_one_instant_decode_equal() {
    let as_string = parse_timestamp("2026-01-02T09:37:24.760146+00:00").unwrap();
    let as_float = time(&serde_json::Value::from(1_767_346_644.760_146)).unwrap();

    assert_eq!(as_string, as_float);
}

#[test]
fn an_integer_epoch_timestamp_decodes() {
    let input = r#"{"type":"tick","symbol":"BTC/USD","ts":1767346644,"replay":true,
        "price":42000.5,"bid":42000.5,"ask":42001.0,"volume":0.00155}"#;

    assert_eq!(Some(decode_tick(input).time_exchange), Timestamp::new(1_767_346_644, 0));
    assert_eq!(time_from_unsigned_seconds(u64::MAX), None);
    assert_eq!(time_from_signed_seconds(-1), Timestamp::new(-1, 0));
    assert_eq!(time_from_signed_seconds(MAX_SECS + 1), None);
}

#[test]
fn replay_defaults_to_false_when_the_key_is_absent() {
    assert!(!decode_tick(LIVE_T_SEPARATED).replay);
}

#[test]
fn the_subscription_id_is_built_from_the_symbol() {
    assert_eq!(decode_tick(LIVE_T_SEPARATED).subscription_id, "tick|BTC/USD");
}

#[test]
fn a_timestamp_without_an_offset_is_rejected() {
    assert!(parse_timestamp("2026-01-02 09:37:21.690159").is_none());
    assert!(parse_timestamp("2026-01-02T09:37:21.690159").is_none());
}

#[test]
fn a_non_timestamp_string_is_rejected() {
    assert!(parse_timestamp("").is_none());
    assert!(parse_timestamp("not a timestamp").is_none());
}

#[test]
fn a_tick_identifies_itself_by_its_subscription() {
    let message = decode_message(LIVE_T_SEPARATED);
    assert_eq!(
        message.id().map(String::as_str),
        Some("tick|BTC/USD"),
        "a tick must resolve to the subscription it was registered under"
    );
}

#[test]
fn a_control_frame_identifies_no_subscription() {
    let message = decode_message(r#"{"type":"replay_complete","symbol":"BTC/USD","rows":41}"#);
    assert_eq!(message.id(), None);
}

fn decode(json: &str) -> Vec<MarketEvent<u8, OrderBookL1>> {
    quotes(ExchangeId::LseCrypto, 1_u8, &decode_message(json), at("2026-01-02T09:37:25Z"))
}

#[test]
fn a_tick_decodes_to_a_two_sided_book() {
    let events = decode(LIVE_T_SEPARATED);

    assert_eq!(events.len(), 1);
    assert!(same(events[0].kind.best_bid.unwrap().price, dec("42000.5")));
    assert!(same(events[0].kind.best_ask.unwrap().price, dec("42001.0")));
    assert_eq!(events[0].exchange, ExchangeId::LseCrypto);
    assert_eq!(events[0].instrument, 1);
    assert_eq!(events[0].time_received, at("2026-01-02T09:37:25Z"));
}

#[test]
fn the_book_instant_equals_the_events_instant() {
    let events = decode(LIVE_T_SEPARATED);
    assert_eq!(events[0].kind.last_update_time, events[0].time_exchange);
}

#[test]
fn both_levels_carry_a_zero_size_because_none_is_published() {
    let events = decode(LIVE_T_SEPARATED);

    assert!(same(events[0].kind.best_bid.unwrap().amount, Decimal::zero()));
    assert!(same(events[0].kind.best_ask.unwrap().amount, Decimal::zero()));
}

#[test]
fn the_tick_volume_is_not_used_as_a_level_size() {
    let events = decode(LIVE_T_SEPARATED);
    assert!(!same(events[0].kind.best_bid.unwrap().amount, dec("0.00155")));
}

#[test]
fn a_control_frame_yields_no_books() {
    assert!(decode(r#"{"type":"replay_complete","symbol":"BTC/USD","rows":41}"#).is_empty());
}

/// The answer to a subscription that a frame holds.
fn response(json: &str) -> Option<LseSubResponse> {
    let value: serde_json::Value = serde_json::from_str(json).unwrap();
    let optional = |key: &str| value.get(key).and_then(|text| text.as_str()).map(str::to_string);
    match value["type"].as_str()? {
        "subscribed" => Some(LseSubResponse::Subscribed {
            symbol: optional("symbol")?,
            count: value["count"].as_u64()? as u32,
            max: value["max"].as_u64()? as u32,
        }),
        "error" => Some(LseSubResponse::Error { code: optional("code"), message: optional("message") }),
        _ => None,
    }
}

#[test]
fn a_subscription_confirmation_deserialises_and_validates() {
    let input = r#"{"type":"subscribed","symbol":"EUR/USD","count":1,"max":16}"#;
    let accepted = response(input).unwrap().validate();

    let Ok(LseSubResponse::Subscribed { symbol, count, max }) = accepted else {
        panic!("expected a confirmation");
    };
    assert_eq!((symbol.as_str(), count, max), ("EUR/USD", 1, 16));
}

#[test]
fn a_subscription_rejection_fails_validation() {
    let input = r#"{"type":"error","code":"LIMIT_REACHED",
        "message":"Max 16 symbols on registered plan"}"#;

    let error = text(response(input).unwrap().validate().unwrap_err());
    assert!(error.contains("LIMIT_REACHED"), "{error}");
    assert!(error.contains("Max 16 symbols"), "{error}");
}

#[test]
fn a_rejected_replay_start_fails_validation() {
    let input = r#"{"type":"error","code":"INVALID_START",
        "message":"Invalid start: could not convert string to float"}"#;

    assert!(response(input).unwrap().validate().is_err());
}

#[test]
fn a_rejection_missing_its_fields_still_fails_validation() {
    let error = text(response(r#"{"type":"error"}"#).unwrap().validate().unwrap_err());
    assert!(error.contains("(unknown): no message"), "{error}");
}

#[test]
fn a_replay_start_accepts_every_timestamp_spelling() {
    for raw in [
        r#""2026-01-02 09:39:31.716622+00:00""#,
        r#""2026-01-02T09:39:31.716622+00:00""#,
        "1767346771.716622",
    ] {
        let value: serde_json::Value = serde_json::from_str(raw).unwrap();
        let frame =
            LseReplayFrame::ReplayStarted { symbol: "BTC/USD".to_string(), from: time(&value).unwrap() };
        let LseReplayFrame::ReplayStarted { from, .. } = frame else {
            panic!("expected a replay start");
        };
        assert_eq!(from, at("2026-01-02T09:39:31.716622Z"));
    }
}

fn id() -> String {
    subscription_id("BTC/USD")
}

#[test]
fn the_first_event_seeds_the_watermark_with_a_count_of_one() {
    let mut state = LseResumeState::new();
    state.record(&id(), at("2026-01-02T09:37:24.760146Z"));

    assert_eq!(
        state.watermark(&id()),
        Some(LseWatermark { time_exchange: at("2026-01-02T09:37:24.760146Z"), count_at_time: 1 })
    );
}

#[test]
fn events_sharing_an_instant_accumulate_a_count() {
    let mut state = LseResumeState::new();
    for _ in 0..141 {
        state.record(&id(), at("2026-01-02T09:37:24.760Z"));
    }

    assert_eq!(state.watermark(&id()).unwrap().count_at_time, 141);
}

#[test]
fn a_newer_instant_advances_the_watermark_and_resets_the_count() {
    let mut state = LseResumeState::new();
    state.record(&id(), at("2026-01-02T09:37:24.760146Z"));
    state.record(&id(), at("2026-01-02T09:37:24.760146Z"));
    state.record(&id(), at("2026-01-02T09:37:24.760147Z"));

    assert_eq!(
        state.watermark(&id()),
        Some(LseWatermark { time_exchange: at("2026-01-02T09:37:24.760147Z"), count_at_time: 1 })
    );
}

#[test]
fn an_older_instant_leaves_the_watermark_untouched() {
    let mut state = LseResumeState::new();
    state.record(&id(), at("2026-01-02T09:37:24.760147Z"));
    state.record(&id(), at("2026-01-02T09:37:24.760146Z"));

    assert_eq!(
        state.watermark(&id()),
        Some(LseWatermark { time_exchange: at("2026-01-02T09:37:24.760147Z"), count_at_time: 1 })
    );
}

#[test]
fn subscriptions_are_tracked_independently() {
    let mut state = LseResumeState::new();
    state.record(&subscription_id("BTC/USD"), at("2026-01-02T09:00:00Z"));
    state.record(&subscription_id("ETH/USD"), at("2026-01-02T10:00:00Z"));

    assert_eq!(
        state.watermark(&subscription_id("BTC/USD")).unwrap().time_exchange,
        at("2026-01-02T09:00:00Z")
    );
    assert_eq!(
        state.watermark(&subscription_id("ETH/USD")).unwrap().time_exchange,
        at("2026-01-02T10:00:00Z")
    );
    assert_eq!(state.snapshot().len(), 2);
    assert_eq!(state.duplicate().watermark(&id()), state.watermark(&id()));
}

#[test]
fn a_snapshot_holds_each_subscription_once() {
    let mut state = LseResumeState::new();
    for symbol in ["BTC/USD", "ETH/USD", "BTC/USD", "ETH/USD", "BTC/USD"] {
        state.record(&subscription_id(symbol), at("2026-01-02T09:00:00Z"));
    }
    let mut held: Vec<(String, u64)> =
        state.snapshot().into_iter().map(|(id, mark)| (id, mark.count_at_time)).collect();
    held.sort();
    assert_eq!(held, vec![(subscription_id("BTC/USD"), 3), (subscription_id("ETH/USD"), 2)]);
}

#[test]
fn an_untracked_subscription_has_no_watermark() {
    assert_eq!(LseResumeState::new().watermark(&id()), None);
}

#[test]
fn the_subscription_id_matches_the_one_the_tick_decoder_builds() {
    let LseMessage::Tick(tick) = decode_message(LIVE_T_SEPARATED) else {
        panic!("expected a tick");
    };

    assert_eq!(tick.subscription_id, subscription_id("BTC/USD"));
}

fn tick(ts: &str, price: &str) -> LseMessage {
    decode_message(&format!(
        r#"{{"type":"tick","symbol":"BTC/USD","ts":"{ts}","price":{price},
            "bid":{price},"ask":42001.0,"volume":0.00155}}"#
    ))
}

fn subject(state: Option<&LseResumeState>) -> LseTransformer<u8> {
    LseTransformer::new(ExchangeId::LseCrypto, vec![(id(), 1_u8)], state)
}

fn received() -> Timestamp {
    at("2026-01-02T12:00:00Z")
}

#[test]
fn without_resume_every_tick_is_emitted() {
    let mut state = LseResumeState::new();
    let mut subject = subject(None);

    assert_eq!(subject.transform(&tick("2026-01-02T09:00:00Z", "1.0"), received(), &mut state).len(), 1);
    assert_eq!(subject.transform(&tick("2026-01-02T09:00:00Z", "1.0"), received(), &mut state).len(), 1);
    assert_eq!(state.watermark(&id()), None);
}

#[test]
fn with_resume_the_watermark_advances_on_emitted_ticks() {
    let mut state = LseResumeState::new();
    let mut subject = subject(Some(&state));

    subject.transform(&tick("2026-01-02T09:00:00.000001Z", "1.0"), received(), &mut state);
    subject.transform(&tick("2026-01-02T09:00:00.000001Z", "2.0"), received(), &mut state);

    let watermark = state.watermark(&id()).unwrap();
    assert_eq!(watermark.time_exchange, at("2026-01-02T09:00:00.000001Z"));
    assert_eq!(watermark.count_at_time, 2);
}

#[test]
fn a_replay_skips_exactly_the_ticks_already_delivered_at_the_resume_instant() {
    let mut state = LseResumeState::new();

    let mut first = subject(Some(&state));
    for price in ["1.0", "2.0", "3.0"] {
        first.transform(&tick("2026-01-02T09:00:00.000001Z", price), received(), &mut state);
    }
    assert_eq!(state.watermark(&id()).unwrap().count_at_time, 3);

    let mut second = subject(Some(&state));
    for price in ["1.0", "2.0", "3.0"] {
        assert!(
            second.transform(&tick("2026-01-02T09:00:00.000001Z", price), received(), &mut state).is_empty(),
            "an already-delivered tick must not be emitted twice"
        );
    }

    assert_eq!(
        second.transform(&tick("2026-01-02T09:00:00.000001Z", "4.0"), received(), &mut state).len(),
        1,
        "a fourth tick at the same instant is new and must be emitted"
    );
    assert_eq!(state.watermark(&id()).unwrap().count_at_time, 4);
}

#[test]
fn a_replay_emits_every_tick_past_the_resume_instant() {
    let mut state = LseResumeState::new();

    let mut first = subject(Some(&state));
    first.transform(&tick("2026-01-02T09:00:00.000001Z", "1.0"), received(), &mut state);

    let mut second = subject(Some(&state));
    assert!(
        second.transform(&tick("2026-01-02T09:00:00.000001Z", "1.0"), received(), &mut state).is_empty()
    );
    assert_eq!(
        second.transform(&tick("2026-01-02T09:00:00.000002Z", "2.0"), received(), &mut state).len(),
        1,
        "one microsecond later is past the resume instant and must be emitted"
    );
}

#[test]
fn the_drop_window_does_not_reopen_after_the_resume_instant_is_passed() {
    let mut state = LseResumeState::new();

    let mut first = subject(Some(&state));
    first.transform(&tick("2026-01-02T09:00:00.000001Z", "1.0"), received(), &mut state);
    first.transform(&tick("2026-01-02T09:00:00.000001Z", "2.0"), received(), &mut state);

    let mut second = subject(Some(&state));
    assert!(
        second.transform(&tick("2026-01-02T09:00:00.000001Z", "1.0"), received(), &mut state).is_empty()
    );
    assert_eq!(
        second.transform(&tick("2026-01-02T09:00:00.000002Z", "2.0"), received(), &mut state).len(),
        1
    );
    assert_eq!(
        second.transform(&tick("2026-01-02T09:00:00.000001Z", "3.0"), received(), &mut state).len(),
        1,
        "the window is closed; a tick at the old instant must be emitted, not dropped"
    );
}

#[test]
fn a_subscription_with_no_watermark_drops_nothing() {
    let mut state = LseResumeState::new();
    let mut subject = subject(Some(&state));

    assert_eq!(subject.transform(&tick("2026-01-02T09:00:00Z", "1.0"), received(), &mut state).len(), 1);
}

#[test]
fn a_control_frame_is_neither_emitted_nor_recorded() {
    let mut state = LseResumeState::new();
    let mut subject = subject(Some(&state));
    let frame = decode_message(r#"{"type":"replay_complete","symbol":"BTC/USD","rows":41}"#);

    assert!(subject.transform(&frame, received(), &mut state).is_empty());
    assert_eq!(state.watermark(&id()), None);
}

#[test]
fn identical_live_ticks_are_never_deduplicated() {
    let mut state = LseResumeState::new();
    let mut subject = subject(Some(&state));

    let first = subject.transform(&tick("2026-01-02T09:00:00.000001Z", "1.0"), received(), &mut state);
    let second = subject.transform(&tick("2026-01-02T09:00:00.000001Z", "1.0"), received(), &mut state);

    assert_eq!(first.len(), 1);
    assert_eq!(second.len(), 1, "an identical repeat is a distinct print");
}

#[test]
fn a_tick_of_an_unknown_subscription_is_an_error_and_is_not_recorded() {
    let mut state = LseResumeState::new();
    let mut subject = LseTransformer::new(ExchangeId::LseCrypto, vec![("tick|ETH/USD".to_string(), 2_u8)], Some(&state));
    let out = subject.transform(&tick("2026-01-02T09:00:00Z", "1.0"), received(), &mut state);
    assert_eq!(out.len(), 1);
    let Err(DataError::Unidentifiable(unknown)) = &out[0] else { panic!("expected an error") };
    assert_eq!(unknown, "tick|BTC/USD");
    assert_eq!(state.watermark(&id()), None);
}

/// Wherever a tape is interrupted, the replay gives exactly what was not delivered.
#[test]
fn resuming_is_exact_at_every_point_of_a_tape() {
    let tape: Vec<Timestamp> =
        [1, 1, 2, 3, 3, 3, 4].into_iter().map(|secs| Timestamp::new(secs, 0).unwrap()).collect();
    for delivered in 1..=tape.len() {
        let mut state = LseResumeState::new();
        for time in &tape[..delivered] {
            state.record("id", *time);
        }
        let mut tracker = ResumeTracker::new(&state);
        let resumed = state.watermark("id").unwrap().time_exchange;
        let served = tape.iter().filter(|time| **time >= resumed);
        let passed: Vec<Timestamp> = served.copied().filter(|time| !tracker.should_drop("id", *time)).collect();
        assert_eq!(passed, tape[delivered..].to_vec(), "interrupted behind {delivered}");
    }
}
