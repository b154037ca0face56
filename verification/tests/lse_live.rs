//! Subscribing to the live feed.

use rustrade::exchange::ExchangeId;
use rustrade::lse::live::{
    authenticate, check_subscription_cap, check_symbols_are_offered, clamped_replays, expected_categories,
    read_auth_frame, requested_markets, subscribe_message, AuthEvent, AuthStep, LseAuthFrame, LseAuthenticated,
    LseCredentials, LseSubscriber, LseSymbol,
};
use rustrade::lse::resume::LseResumeState;
use rustrade::lse::subscription::{LseReplayFrame, SocketError};
use rustrade::lse::tick::{parse_timestamp, subscription_id};
use rustrade::time::{parse_rfc3339, Timestamp};

fn at(spelling: &str) -> Timestamp {
    parse_rfc3339(spelling).unwrap()
}

fn authenticated(symbols: &[(&str, Option<&str>)], max: Option<u32>) -> LseAuthenticated {
    LseAuthenticated {
        tier: Some("registered".into()),
        max_subscriptions: max,
        symbols: symbols
            .iter()
            .map(|(symbol, category)| LseSymbol {
                symbol: symbol.to_string(),
                name: None,
                category: category.map(str::to_string),
            })
            .collect(),
    }
}

fn markets(symbols: &[&str]) -> Vec<String> {
    symbols.iter().map(|symbol| symbol.to_string()).collect()
}

fn text(error: SocketError) -> String {
    let SocketError::Subscribe(text) = error;
    text
}

fn optional(value: &serde_json::Value, key: &str) -> Option<String> {
    value.get(key).and_then(|text| text.as_str()).map(str::to_string)
}

/// A frame that came while an authentication is awaited.
fn auth_frame(json: &str) -> Option<LseAuthFrame> {
    let value: serde_json::Value = serde_json::from_str(json).ok()?;
    match value.get("type")?.as_str()? {
        "authenticated" => Some(LseAuthFrame::Authenticated(LseAuthenticated {
            tier: optional(&value, "tier"),
            max_subscriptions: value.get("max_subscriptions").and_then(|max| max.as_u64()).map(|max| max as u32),
            symbols: value["symbols"]
                .as_array()?
                .iter()
                .map(|entry| LseSymbol {
                    symbol: optional(entry, "symbol").unwrap(),
                    name: optional(entry, "name"),
                    category: optional(entry, "category"),
                })
                .collect(),
        })),
        "error" => {
            Some(LseAuthFrame::Error { code: optional(&value, "code"), message: optional(&value, "message") })
        }
        _ => Some(LseAuthFrame::Other),
    }
}

/// The frames round a replay among texts that came.
fn replay_frames(texts: &[String]) -> Vec<LseReplayFrame> {
    texts
        .iter()
        .filter_map(|text| {
            let value: serde_json::Value = serde_json::from_str(text).ok()?;
            match value.get("type")?.as_str()? {
                "replay_started" => Some(LseReplayFrame::ReplayStarted {
                    symbol: optional(&value, "symbol")?,
                    from: parse_timestamp(value["from"].as_str()?)?,
                }),
                "replay_complete" => Some(LseReplayFrame::ReplayComplete {
                    symbol: optional(&value, "symbol")?,
                    rows: value["rows"].as_u64()?,
                    buffered_drained: value.get("buffered_drained").and_then(|n| n.as_u64()).unwrap_or(0),
                }),
                _ => None,
            }
        })
        .collect()
}

fn replay_started(symbol: &str, from: &str) -> String {
    format!("{{\"type\":\"replay_started\",\"symbol\":\"{symbol}\",\"from\":\"{from}\"}}")
}

#[test]
fn a_subscribe_payload_names_the_symbol_and_nothing_else() {
    let payload: serde_json::Value = serde_json::from_str(&subscribe_message("EUR/USD", &None)).unwrap();
    let expected: serde_json::Value =
        serde_json::from_str(r#"{"action": "subscribe", "symbol": "EUR/USD"}"#).unwrap();

    assert_eq!(payload, expected);
}

#[test]
fn a_subscribe_payload_carrying_a_resume_point_sends_it_as_epoch_seconds() {
    let start = at("2026-08-14T10:16:55.161234Z");
    let micros = start.secs * 1_000_000 + i64::from(start.nanos / 1_000);
    let number = serde_json::Value::from(micros as f64 / 1_000_000.0).to_string();

    let payload: serde_json::Value =
        serde_json::from_str(&subscribe_message("BTC/USD", &Some(number))).unwrap();
    let payload = payload.as_object().unwrap();

    assert_eq!(payload.len(), 3, "{payload:?}");
    assert_eq!(payload["action"], "subscribe");
    assert_eq!(payload["symbol"], "BTC/USD");

    let seconds = payload["start"]
        .as_f64()
        .unwrap_or_else(|| panic!("start must be a JSON number, not {:?}", payload["start"]));
    let drift = seconds * 1_000_000.0 - micros as f64;
    assert!(drift.abs() < 0.5, "start drifted {drift} microseconds");
}

#[test]
fn a_subscriber_without_resume_asks_for_no_replay_window() {
    let subscriber = LseSubscriber::new(LseCredentials::new("key"));

    assert_eq!(subscriber.resume_start("BTC/USD"), None);
    assert!(subscriber.resume_state().is_none());
}

#[test]
fn a_resuming_subscriber_asks_for_a_window_only_where_it_has_delivered() {
    let mut state = LseResumeState::new();
    state.record(&subscription_id("BTC/USD"), at("2026-08-14T10:16:55.161234Z"));

    let subscriber = LseSubscriber::new(LseCredentials::new("key")).with_resume(state);

    assert_eq!(subscriber.resume_start("BTC/USD"), Some(at("2026-08-14T10:16:55.161234Z")));
    assert_eq!(subscriber.resume_start("ETH/USD"), None);
    assert!(subscriber.resume_state().is_some());
    assert!(subscriber.credentials().auth_message().contains("\"key\""));
}

#[test]
fn a_replay_window_opened_later_than_requested_is_reported() {
    let requested = vec![("BTC/USD".to_string(), at("2026-08-12T10:00:00Z"))];
    let buffered = replay_frames(&[replay_started("BTC/USD", "2026-08-13T10:00:00+00:00")]);

    assert_eq!(
        clamped_replays(&requested, &buffered),
        vec![("BTC/USD".to_string(), at("2026-08-12T10:00:00Z"), at("2026-08-13T10:00:00Z"))],
    );
}

#[test]
fn a_replay_window_opened_where_requested_is_not_a_clamp() {
    let requested = vec![("BTC/USD".to_string(), at("2026-08-14T10:16:55.161234Z"))];
    let buffered = replay_frames(&[replay_started("BTC/USD", "2026-08-14T10:16:55.161234+00:00")]);

    assert!(clamped_replays(&requested, &buffered).is_empty());
}

#[test]
fn a_replay_for_a_symbol_no_window_was_requested_for_is_ignored() {
    let requested = vec![("BTC/USD".to_string(), at("2026-08-12T10:00:00Z"))];
    let buffered = replay_frames(&[
        replay_started("ETH/USD", "2026-08-13T10:00:00+00:00"),
        r#"{"type":"subscribed","symbol":"BTC/USD","count":1,"max":16}"#.to_string(),
        "not json at all".to_string(),
    ]);

    assert!(clamped_replays(&requested, &buffered).is_empty());
}

#[test]
fn repeated_symbols_produce_one_subscribe_each() {
    let symbols = markets(&["EUR/USD", "GBP/USD", "EUR/USD"]);

    assert_eq!(requested_markets(&symbols), markets(&["EUR/USD", "GBP/USD"]));
}

#[test]
fn a_batch_within_the_cap_is_accepted() {
    let requested = markets(&["EUR/USD", "GBP/USD"]);
    assert!(check_subscription_cap(ExchangeId::LseFx, &requested, Some(2)).is_ok());
}

#[test]
fn a_batch_over_the_cap_is_rejected_before_it_is_sent() {
    let requested = markets(&["EUR/USD", "GBP/USD", "XAU/USD"]);
    let error = text(check_subscription_cap(ExchangeId::LseFx, &requested, Some(2)).unwrap_err());

    assert!(error.contains("at most 2"), "{error}");
    assert!(error.starts_with("3 symbols requested on LseFx but "), "{error}");
}

#[test]
fn an_unreported_cap_does_not_reject_the_batch() {
    let requested = markets(&["EUR/USD"]);
    assert!(check_subscription_cap(ExchangeId::LseFx, &requested, None).is_ok());
}

#[test]
fn an_offered_symbol_passes_the_guard() {
    let frame = authenticated(&[("EUR/USD", Some("Forex"))], Some(16));
    let requested = markets(&["EUR/USD"]);

    assert!(check_symbols_are_offered(ExchangeId::LseFx, &requested, &frame).is_ok());
}

#[test]
fn a_symbol_the_provider_does_not_offer_fails_the_batch() {
    let frame = authenticated(&[("EUR/USD", Some("Forex"))], Some(16));
    let requested = markets(&["EUR/USD", "NOPE_XYZ"]);

    let error = text(check_symbols_are_offered(ExchangeId::LseFx, &requested, &frame).unwrap_err());
    assert!(error.contains("NOPE_XYZ"), "{error}");
    assert!(error.starts_with("London Strategic Edge does not offer [\"NOPE_XYZ\"] on its WebSocket - "), "{error}");
}

#[test]
fn a_contradicting_category_fails_the_batch() {
    let frame = authenticated(&[("AAPL", Some("Stocks"))], Some(16));
    let requested = markets(&["AAPL"]);

    let error = text(check_symbols_are_offered(ExchangeId::LseFx, &requested, &frame).unwrap_err());
    assert!(error.contains("AAPL is Stocks"), "{error}");
    assert!(error.contains("does not match LseFx (expected [\"Forex\"])"), "{error}");
}

#[test]
fn a_missing_category_is_not_a_contradiction() {
    let frame = authenticated(&[("EUR/USD", None)], Some(16));
    let requested = markets(&["EUR/USD"]);

    assert!(check_symbols_are_offered(ExchangeId::LseFx, &requested, &frame).is_ok());
}

#[test]
fn a_dataset_with_no_published_category_accepts_whatever_is_reported() {
    assert!(expected_categories(ExchangeId::LseFutures).is_empty());

    let frame = authenticated(&[("ES.F", Some("Anything"))], Some(16));
    let requested = markets(&["ES.F"]);

    assert!(check_symbols_are_offered(ExchangeId::LseFutures, &requested, &frame).is_ok());
}

#[test]
fn stocks_and_etfs_both_satisfy_the_equities_identifier() {
    let expected = expected_categories(ExchangeId::LseEquities);
    assert!(expected.contains(&"Stocks"), "{expected:?}");
    assert!(expected.contains(&"ETFs"), "{expected:?}");

    let frame = authenticated(&[("AAPL", Some("Stocks")), ("SPY", Some("ETFs"))], Some(16));
    let requested = markets(&["AAPL", "SPY"]);

    assert!(check_symbols_are_offered(ExchangeId::LseEquities, &requested, &frame).is_ok());
}

#[test]
fn an_empty_list_of_symbols_checks_nothing() {
    let frame = authenticated(&[], None);
    assert!(check_symbols_are_offered(ExchangeId::LseFx, &markets(&["NOPE_XYZ"]), &frame).is_ok());
}

#[test]
fn the_last_entry_of_a_symbol_counts() {
    let frame = authenticated(&[("AAPL", Some("Stocks")), ("AAPL", Some("Forex"))], None);
    assert!(check_symbols_are_offered(ExchangeId::LseFx, &markets(&["AAPL"]), &frame).is_ok());
    assert!(check_symbols_are_offered(ExchangeId::LseEquities, &markets(&["AAPL"]), &frame).is_err());
}

#[test]
fn the_welcome_frame_is_not_mistaken_for_an_auth_response() {
    let welcome = r#"{"type":"welcome","message":"hello","symbols_available":8516}"#;
    assert!(read_auth_frame(auth_frame(welcome)).is_none());
    assert!(read_auth_frame(auth_frame("not json")).is_none());
}

#[test]
fn an_auth_response_yields_the_symbol_list_and_the_cap() {
    let input = r#"{"type":"authenticated","tier":"registered","key_type":"main",
        "max_subscriptions":16,"symbols":[
            {"symbol":"BTC/USD","name":"Bitcoin","category":"Crypto"},
            {"symbol":"ES.F"}
        ]}"#;
    let Some(Ok(frame)) = read_auth_frame(auth_frame(input)) else { panic!("expected an answer") };

    assert_eq!(frame.tier.as_deref(), Some("registered"));
    assert_eq!(frame.max_subscriptions, Some(16));
    assert_eq!(frame.symbols.len(), 2);
    assert_eq!(frame.symbols[1].symbol, "ES.F");
    assert!(frame.symbols[1].name.is_none());
    assert!(frame.symbols[1].category.is_none());
}

#[test]
fn a_rejected_key_is_reported_rather_than_awaited() {
    let input = r#"{"type":"error","code":"INVALID_KEY","message":"invalid api key"}"#;
    let Some(Err(error)) = read_auth_frame(auth_frame(input)) else { panic!("expected a refusal") };
    let error = text(error);

    assert!(error.contains("INVALID_KEY"), "{error}");
    assert_eq!(error, "London Strategic Edge rejected authentication (INVALID_KEY): invalid api key");

    let Some(Err(error)) = read_auth_frame(auth_frame(r#"{"type":"error"}"#)) else { panic!("expected a refusal") };
    assert_eq!(text(error), "London Strategic Edge rejected authentication (unknown): no message");
}

#[test]
fn the_auth_frame_summarises_its_symbol_list_when_printed() {
    let frame = authenticated(&[("BTC/USD", Some("Crypto")), ("ETH/USD", None)], Some(16));
    let printed = frame.describe();

    assert!(printed.contains("<2 offered>"), "{printed}");
    assert!(!printed.contains("BTC/USD"), "{printed}");
    assert_eq!(
        printed,
        "LseAuthenticated { tier: Some(\"registered\"), max_subscriptions: Some(16), symbols: <2 offered> }"
    );
    let bare = LseAuthenticated { tier: None, max_subscriptions: None, symbols: Vec::new() };
    assert_eq!(bare.describe(), "LseAuthenticated { tier: None, max_subscriptions: None, symbols: <0 offered> }");
}

#[test]
fn authentication_waits_for_its_answer_and_reports_an_end() {
    assert!(matches!(authenticate(AuthEvent::Frame(Some(LseAuthFrame::Other))), AuthStep::Wait));
    assert!(matches!(authenticate(AuthEvent::Frame(None)), AuthStep::Wait));
    assert!(matches!(authenticate(AuthEvent::NoText), AuthStep::Wait));
    let accepted = AuthEvent::Frame(Some(LseAuthFrame::Authenticated(authenticated(&[], Some(3)))));
    let AuthStep::Done(answer) = authenticate(accepted) else { panic!("expected an answer") };
    assert_eq!(answer.max_subscriptions, Some(3));

    let fails = |event: AuthEvent| match authenticate(event) {
        AuthStep::Fail(error) => text(error),
        _ => panic!("expected a failure"),
    };
    assert_eq!(
        fails(AuthEvent::Closed("None".to_string())),
        "WebSocket closed during London Strategic Edge authentication: None"
    );
    assert_eq!(
        fails(AuthEvent::Ended),
        "WebSocket closed before London Strategic Edge authentication completed"
    );
    assert_eq!(fails(AuthEvent::TimedOut), "London Strategic Edge authentication timed out after 15s");
    assert_eq!(
        fails(AuthEvent::Frame(Some(LseAuthFrame::Error { code: None, message: None }))),
        "London Strategic Edge rejected authentication (unknown): no message"
    );
}

#[test]
fn a_full_handshake_subscribes_each_distinct_symbol_exactly_once() {
    let mut state = LseResumeState::new();
    state.record(&subscription_id("BTC/USD"), at("2026-08-14T10:16:55Z"));
    let subscriber = LseSubscriber::new(LseCredentials::new("key")).with_resume(state);
    let frame = authenticated(&[("BTC/USD", Some("Crypto")), ("ETH/USD", None)], Some(2));
    let requests = subscriber
        .subscribe(ExchangeId::LseCrypto, &markets(&["BTC/USD", "ETH/USD", "BTC/USD"]), &frame)
        .unwrap();

    assert_eq!(requests.len(), 2);
    assert_eq!(requests[0].symbol, "BTC/USD");
    assert_eq!(requests[0].start, Some(at("2026-08-14T10:16:55Z")));
    assert_eq!(requests[1].symbol, "ETH/USD");
    assert_eq!(requests[1].start, None);
}

#[test]
fn a_batch_that_fails_a_guard_sends_nothing() {
    let subscriber = LseSubscriber::new(LseCredentials::new("key"));
    let frame = authenticated(&[("BTC/USD", Some("Crypto"))], Some(1));
    let fails = |symbols: &[&str]| {
        text(subscriber.subscribe(ExchangeId::LseCrypto, &markets(symbols), &frame).unwrap_err())
    };
    assert!(fails(&["NOPE_XYZ"]).contains("NOPE_XYZ"));
    // The cap is looked at first.
    assert!(fails(&["NOPE_XYZ", "BTC/USD"]).contains("at most 1"));
    assert!(subscriber.subscribe(ExchangeId::LseCrypto, &Vec::new(), &frame).unwrap().is_empty());
}

#[test]
fn a_subscriber_without_resume_opens_no_replay_window_on_the_wire() {
    let subscriber = LseSubscriber::new(LseCredentials::new("key"));
    let frame = authenticated(&[("BTC/USD", Some("Crypto"))], Some(16));
    let sent = subscriber.subscribe(ExchangeId::LseCrypto, &markets(&["BTC/USD"]), &frame).unwrap();

    assert_eq!(sent.len(), 1);
    assert_eq!(sent[0].start, None);
    assert_eq!(subscribe_message(&sent[0].symbol, &None), r#"{"action":"subscribe","symbol":"BTC/USD"}"#);
}

#[test]
fn a_symbol_the_provider_does_not_offer_costs_no_subscription_slot() {
    let subscriber = LseSubscriber::new(LseCredentials::new("key"));
    let frame = authenticated(&[("BTC/USD", Some("Crypto"))], Some(16));
    let sent = subscriber.subscribe(ExchangeId::LseCrypto, &markets(&["BTC/USD", "NOPE/USD"]), &frame);

    let error = text(sent.unwrap_err());
    assert!(error.contains("NOPE/USD"), "{error}");
}

#[test]
fn an_over_cap_batch_costs_no_subscription_slot() {
    let subscriber = LseSubscriber::new(LseCredentials::new("key"));
    let frame = authenticated(&[("BTC/USD", Some("Crypto")), ("ETH/USD", Some("Crypto"))], Some(1));
    let sent = subscriber.subscribe(ExchangeId::LseCrypto, &markets(&["BTC/USD", "ETH/USD"]), &frame);

    let error = text(sent.unwrap_err());
    assert!(error.contains("at most 1"), "{error}");
}

#[test]
fn a_rejected_key_is_reported_rather_than_read_past() {
    let input = r#"{"type":"error","code":"INVALID_KEY","message":"invalid api key"}"#;
    let AuthStep::Fail(error) = authenticate(AuthEvent::Frame(auth_frame(input))) else {
        panic!("expected a failure")
    };
    let error = text(error);
    assert!(error.contains("INVALID_KEY"), "{error}");
}

#[test]
fn a_connection_closed_during_authentication_is_reported() {
    let AuthStep::Fail(error) = authenticate(AuthEvent::Ended) else { panic!("expected a failure") };
    let error = text(error);
    assert!(error.contains("closed"), "a closed connection should say so: {error}");
}
