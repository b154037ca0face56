//! The Massive REST client.

use rustrade::error::DataError;
use rustrade::market::{Candle, Decimal};
use rustrade::massive::error::MassiveError;
use rustrade::massive::rest::{judge_next_url, truncate_body, AggregateFetch, MassiveRestClient, PageStep, Pages};
use rustrade::time::{close_time_from_open, open_time_from_close, parse_rfc3339, CandleStep, Timestamp};

const BASE: &str = "https://api.massive.com";

fn at(spelling: &str) -> Timestamp {
    parse_rfc3339(spelling).unwrap()
}

fn client() -> MassiveRestClient {
    match MassiveRestClient::new("test_api_key") {
        Ok(client) => client,
        Err(error) => panic!("{error:?}"),
    }
}

fn assert_untrusted(next_url: &str) {
    match MassiveRestClient::validate_next_url(next_url, BASE) {
        Err(MassiveError::UntrustedNextUrl { next_url: got, expected_origin }) => {
            assert_eq!(got, next_url);
            assert_eq!(expected_origin, "https://api.massive.com");
        }
        other => panic!("expected UntrustedNextUrl for {next_url:?}, got {other:?}"),
    }
}

#[test]
fn test_client_creation() {
    let client = MassiveRestClient::new("test_api_key");
    assert!(client.is_ok());
}

#[test]
fn test_from_env_missing() {
    let result = MassiveRestClient::from_env(None);
    assert!(matches!(result, Err(MassiveError::EnvVar { .. })));
    let Err(error) = result else { panic!("expected an error") };
    assert_eq!(error.message(), "Massive environment variable not set: MASSIVE_API_KEY");
    assert!(MassiveRestClient::from_env(Some("key".to_string())).is_ok());
}

#[test]
fn validate_next_url_accepts_same_origin_different_path() {
    assert!(
        MassiveRestClient::validate_next_url(
            "https://api.massive.com/v3/reference/tickers?cursor=YWN0aXZlPXRydWU",
            BASE,
        )
        .is_ok()
    );
}

#[test]
fn validate_next_url_accepts_explicit_default_port() {
    assert!(MassiveRestClient::validate_next_url("https://api.massive.com:443/v2/aggs", BASE).is_ok());
}

#[test]
fn validate_next_url_rejects_lookalike_subdomain() {
    assert_untrusted("https://api.massive.com.attacker.example/v2/aggs?cursor=abc");
}

#[test]
fn validate_next_url_rejects_no_dot_suffix_host() {
    assert_untrusted("https://api.massive.comevil.example/v2/aggs");
}

#[test]
fn validate_next_url_rejects_scheme_downgrade() {
    assert_untrusted("http://api.massive.com/v2/aggs");
}

#[test]
fn validate_next_url_rejects_port_mismatch() {
    assert_untrusted("https://api.massive.com:8443/v2/aggs");
}

#[test]
fn validate_next_url_rejects_userinfo_confusion() {
    assert_untrusted("https://api.massive.com@attacker.example/v2/aggs");
}

#[test]
fn validate_next_url_rejects_unparseable_next_url() {
    assert_untrusted("not a url");
}

#[test]
fn validate_next_url_rejects_non_http_scheme() {
    assert_untrusted("file:///etc/passwd");
}

#[test]
fn validate_next_url_unparseable_base_is_invalid_input_not_security() {
    assert!(matches!(
        MassiveRestClient::validate_next_url("https://api.massive.com/v2/aggs", "not a url"),
        Err(MassiveError::InvalidInput { .. })
    ));
}

#[test]
fn the_origin_that_is_trusted_shows_its_port() {
    let Err(MassiveError::UntrustedNextUrl { expected_origin, .. }) =
        MassiveRestClient::validate_next_url("https://api.massive.com/x", "http://localhost:8080/base")
    else {
        panic!("expected UntrustedNextUrl")
    };
    assert_eq!(expected_origin, "http://localhost:8080");
    let Err(MassiveError::InvalidInput { message }) =
        MassiveRestClient::validate_next_url("https://api.massive.com/x", "not a url")
    else {
        panic!("expected InvalidInput")
    };
    assert_eq!(message, "base_url is not a valid URL (relative URL without a base): not a url");
    // An origin that is not of scheme, host and port equals none, not even its own.
    assert!(MassiveRestClient::validate_next_url("file:///a", "file:///a").is_err());
}

#[test]
fn a_next_page_is_judged_by_both_origins() {
    assert!(judge_next_url("next", "base", Ok("https://host".to_string()), true).is_ok());
    assert_eq!(
        judge_next_url("next", "base", Ok("https://host".to_string()), false),
        Err(MassiveError::UntrustedNextUrl {
            next_url: "next".to_string(),
            expected_origin: "https://host".to_string()
        })
    );
    assert_eq!(
        judge_next_url("next", "base", Err("empty host".to_string()), true),
        Err(MassiveError::InvalidInput { message: "base_url is not a valid URL (empty host): base".to_string() })
    );
}

#[test]
fn a_ticker_must_not_break_a_url() {
    assert!(MassiveRestClient::validate_ticker("X:BTCUSD").is_ok());
    assert_eq!(
        MassiveRestClient::validate_ticker(""),
        Err(MassiveError::InvalidInput { message: "ticker must not be empty".to_string() })
    );
    for ticker in ["A/B", "A?B", "A#B", "A B", "A%B"] {
        assert_eq!(
            MassiveRestClient::validate_ticker(ticker),
            Err(MassiveError::InvalidInput { message: "ticker contains invalid URL characters".to_string() })
        );
    }
}

#[test]
fn the_key_is_not_described() {
    let client = client();
    assert_eq!(
        client.describe(),
        "MassiveRestClient { base_url: \"https://api.massive.com\", api_key: \"[REDACTED]\" }"
    );
    assert_eq!(client.authorization(), "Bearer test_api_key");
    let Err(MassiveError::Auth { message }) = MassiveRestClient::new("a\nb") else { panic!("expected Auth") };
    assert_eq!(message, "Invalid API key format: failed to parse header value");
}

fn next_url(pages: Pages) -> (Pages, String) {
    match pages.next() {
        (pages, PageStep::Fetch(url)) => (pages, url),
        (_, other) => panic!("expected a page, got {other:?}"),
    }
}

#[test]
fn aggregates_are_requested_by_the_open_of_their_bars() {
    let fetch = client()
        .fetch_aggregates(
            "X:BTCUSD",
            1,
            "minute",
            CandleStep::Seconds(60),
            at("2024-01-02T09:01:00Z"),
            at("2024-01-02T09:03:00.5Z"),
        )
        .unwrap();
    let (_, url) = next_url(fetch.pages);
    assert_eq!(
        url,
        "https://api.massive.com/v2/aggs/ticker/X:BTCUSD/range/1/minute/1704186000000/1704186180500?adjusted=true&sort=asc&limit=50000"
    );
    assert!(matches!(
        client().fetch_aggregates(
            "",
            1,
            "minute",
            CandleStep::Seconds(60),
            at("2024-01-02T09:01:00Z"),
            at("2024-01-02T09:03:00Z"),
        ),
        Err(MassiveError::InvalidInput { .. })
    ));
}

fn candle(close_time: Timestamp) -> Candle {
    let price = Decimal { mantissa: 1, scale: 0 };
    Candle { close_time, open: price, high: price, low: price, close: price, volume: None, trade_count: None }
}

#[test]
fn aggregates_are_given_by_their_end_up_to_the_first_fault() {
    let start = || {
        client()
            .fetch_aggregates(
                "X:BTCUSD",
                1,
                "minute",
                CandleStep::Seconds(60),
                at("2024-01-02T09:01:00Z"),
                at("2024-01-02T09:03:00Z"),
            )
            .unwrap()
    };
    let (candles, fetch) = start().on_page(
        vec![
            Ok(candle(at("2024-01-02T09:00:59Z"))),
            Ok(candle(at("2024-01-02T09:01:00Z"))),
            Ok(candle(at("2024-01-02T09:03:00Z"))),
            Ok(candle(at("2024-01-02T09:03:01Z"))),
        ],
        Some("https://api.massive.com/next".to_string()),
    );
    let ends: Vec<Timestamp> = candles.iter().map(|candle| candle.close_time).collect();
    assert_eq!(ends, vec![at("2024-01-02T09:01:00Z"), at("2024-01-02T09:03:00Z")]);
    let (_, url) = next_url(fetch.unwrap().pages);
    assert_eq!(url, "https://api.massive.com/next");

    let fault = || MassiveError::Deserialize { message: "bad bar".to_string(), payload: String::new() };
    let (candles, fetch) = start().on_page(
        vec![Ok(candle(at("2024-01-02T09:01:00Z"))), Err(fault()), Ok(candle(at("2024-01-02T09:02:00Z")))],
        None,
    );
    assert_eq!(candles.len(), 1);
    assert_eq!(fetch.unwrap_err(), fault());
}

/// Monthly bars by their opens, in pages of two.
#[test]
fn a_run_over_pages_gives_exactly_what_ends_within_the_bounds() {
    let opens = ["2023-12-01", "2024-01-01", "2024-02-01", "2024-03-01", "2024-04-01", "2024-05-01"];
    let bars: Vec<(Timestamp, Candle)> = opens
        .iter()
        .map(|day| at(&format!("{day}T00:00:00Z")))
        .map(|open| (open, candle(close_time_from_open(open, CandleStep::Months(1)).unwrap())))
        .collect();
    let (from, to) = (at("2024-02-01T00:00:00Z"), at("2024-04-01T00:00:00Z"));
    let mut fetch = client().fetch_aggregates("AAPL", 1, "month", CandleStep::Months(1), from, to).unwrap();
    let first = open_time_from_close(from, CandleStep::Months(1)).unwrap();
    let asked: Vec<(Timestamp, Candle)> =
        bars.into_iter().filter(|(open, _)| (first.to_millis()..=to.to_millis()).contains(&open.to_millis())).collect();
    assert_eq!(asked.len(), 4);

    let mut given = Vec::new();
    let mut urls = Vec::new();
    let mut left = asked.into_iter().map(|(_, candle)| Ok(candle)).peekable();
    loop {
        let (pages, step) = fetch.pages.next();
        fetch = AggregateFetch { pages, from: fetch.from, to: fetch.to };
        match step {
            PageStep::Fetch(url) => urls.push(url),
            PageStep::Done => break,
            PageStep::Fail(error) => panic!("{error:?}"),
        }
        let page: Vec<_> = left.by_ref().take(2).collect();
        let next = left.peek().map(|_| format!("https://api.massive.com/page{}", urls.len()));
        let (candles, after) = fetch.on_page(page, next);
        given.extend(candles);
        fetch = after.unwrap();
    }
    assert_eq!(urls.len(), 2);
    let ends: Vec<Timestamp> = given.iter().map(|candle| candle.close_time).collect();
    assert_eq!(ends, vec![from, at("2024-03-01T00:00:00Z"), to]);
}

#[test]
fn trades_and_quotes_are_requested_in_nanoseconds() {
    let from = at("2024-01-02T09:01:00.000000001Z");
    let to = at("2024-01-02T09:03:00Z");
    let (_, url) = next_url(client().fetch_trades("AAPL", from, to).unwrap());
    assert_eq!(
        url,
        "https://api.massive.com/v3/trades/AAPL?timestamp.gte=1704186060000000001&timestamp.lte=1704186180000000000&limit=50000&sort=timestamp&order=asc"
    );
    let (_, url) = next_url(client().fetch_quotes("AAPL", from, to).unwrap());
    assert!(url.starts_with("https://api.massive.com/v3/quotes/AAPL?timestamp.gte=1704186060000000001"));

    let far = Timestamp::new(10_000_000_000, 0).unwrap();
    let early = Timestamp::new(-10_000_000_000, 0).unwrap();
    let Err(MassiveError::InvalidInput { message }) = client().fetch_trades("AAPL", early, to) else {
        panic!("expected InvalidInput")
    };
    assert_eq!(message, "from timestamp out of nanosecond range (~1678-2262)");
    let Err(MassiveError::InvalidInput { message }) = client().fetch_quotes("AAPL", from, far) else {
        panic!("expected InvalidInput")
    };
    assert_eq!(message, "to timestamp out of nanosecond range (~1678-2262)");
}

/// Every page names the same next page.
#[test]
fn aggregates_stream_detects_next_url_cycle() {
    let mut pages = Pages::new("http://localhost:1", "http://localhost:1/first".to_string());
    let mut terminal = None;
    for _ in 0..10 {
        let (after, step) = pages.next();
        pages = after;
        match step {
            PageStep::Fetch(_) => pages = pages.follow(Some("http://localhost:1/loop".to_string())),
            PageStep::Fail(error) => {
                terminal = Some(error);
                break;
            }
            PageStep::Done => break,
        }
    }
    assert_eq!(terminal, Some(MassiveError::CyclicPagination { url: "http://localhost:1/loop".to_string() }));
    // There is nothing behind an error.
    assert!(matches!(pages.next().1, PageStep::Done));
}

#[test]
fn a_finite_chain_of_pages_is_followed_to_its_end() {
    let pages = Pages::new(BASE, "https://api.massive.com/v3/reference/tickers".to_string());
    let (pages, first) = next_url(pages);
    assert_eq!(first, "https://api.massive.com/v3/reference/tickers");
    let (pages, second) =
        next_url(pages.follow(Some("https://api.massive.com/v3/reference/tickers?cursor=page2".to_string())));
    assert_eq!(second, "https://api.massive.com/v3/reference/tickers?cursor=page2");
    assert!(matches!(pages.follow(None).next().1, PageStep::Done));
}

#[test]
fn an_untrusted_page_is_refused_before_it_is_requested() {
    let pages = Pages::new(BASE, "https://api.massive.com/v3/trades/A".to_string());
    let (pages, _) = next_url(pages);
    let (_, step) = pages.follow(Some("https://api.massive.com.attacker.example/x".to_string())).next();
    assert!(matches!(step, PageStep::Fail(MassiveError::UntrustedNextUrl { .. })));
}

#[test]
fn a_response_is_read_by_its_status() {
    assert!(MassiveRestClient::check_rate_limit(200, None).is_ok());
    assert_eq!(
        MassiveRestClient::check_rate_limit(429, Some("3")),
        Err(MassiveError::RateLimited { retry_after: Some(3) })
    );
    // The header is not trimmed.
    assert_eq!(
        MassiveRestClient::check_rate_limit(429, Some(" 3")),
        Err(MassiveError::RateLimited { retry_after: None })
    );
    assert_eq!(MassiveRestClient::page_body(200, "body".to_string()), Ok("body".to_string()));
    for status in [401, 403] {
        assert_eq!(
            MassiveRestClient::page_body(status, "no".to_string()),
            Err(MassiveError::Auth { message: "no".to_string() })
        );
    }
    for status in [302, 404, 500] {
        assert_eq!(
            MassiveRestClient::page_body(status, "no".to_string()),
            Err(MassiveError::Api { status, message: "no".to_string() })
        );
    }
}

#[test]
fn a_body_is_cut_between_characters() {
    assert_eq!(truncate_body("short"), "short");
    assert_eq!(truncate_body(&"a".repeat(600)).len(), 512);
    assert_eq!(truncate_body(&format!("a{}", "é".repeat(300))).len(), 511);
}

#[test]
fn messages_are_those_of_the_errors() {
    let message = |error: MassiveError| error.message();
    assert_eq!(message(MassiveError::RateLimited { retry_after: None }), "Massive rate limited");
    assert_eq!(
        message(MassiveError::RateLimited { retry_after: Some(42) }),
        "Massive rate limited (retry after 42s)"
    );
    assert_eq!(message(MassiveError::Disconnected { reason: "eof".to_string() }), "Massive disconnected: eof");
    assert_eq!(message(MassiveError::Auth { message: "no".to_string() }), "Massive auth failed: no");
    assert_eq!(
        message(MassiveError::Api { status: 404, message: "no".to_string() }),
        "Massive API error (404): no"
    );
    assert_eq!(message(MassiveError::Http { message: "dns".to_string() }), "Massive HTTP error: dns");
    assert_eq!(
        message(MassiveError::Deserialize { message: "bad".to_string(), payload: "{}".to_string() }),
        "Massive deserialize error: bad (payload: {})"
    );
    assert_eq!(
        message(MassiveError::Deserialize { message: "bad".to_string(), payload: "x".repeat(101) }),
        format!("Massive deserialize error: bad (payload: {}...)", "x".repeat(100))
    );
    assert_eq!(message(MassiveError::InvalidInput { message: "no".to_string() }), "Massive invalid input: no");
    assert_eq!(
        message(MassiveError::CyclicPagination { url: "u".to_string() }),
        "Massive pagination cycle detected: next_url revisits u"
    );
    assert_eq!(
        message(MassiveError::UntrustedNextUrl {
            next_url: "u".to_string(),
            expected_origin: "https://o".to_string()
        }),
        "Massive rejected next_url outside trusted origin https://o: u"
    );
}

#[test]
fn an_error_of_the_api_is_a_failure_of_the_connection() {
    let error = MassiveError::Api { status: 500, message: "down".to_string() };
    let message = error.message();
    assert!(message.contains("500") && message.contains("down"), "{message}");
    assert_eq!(DataError::from(error), DataError::Socket(message));
}
