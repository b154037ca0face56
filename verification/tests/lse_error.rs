//! The provider's diagnostics, and the messages of errors.

use rustrade::exchange::ExchangeId;
use rustrade::lse::error::{diagnostic, extract_detail, LseError, MAX_DETAIL_BYTES};
use rustrade::lse::quota::QuotaStatus;
use rustrade::time::{parse_rfc3339, CandleInterval, Timestamp};

fn at(spelling: &str) -> Timestamp {
    parse_rfc3339(spelling).unwrap()
}

#[test]
fn single_encoded_detail_is_read_directly() {
    assert_eq!(extract_detail(r#"{"detail":"invalid api key"}"#), "invalid api key");
}

#[test]
fn double_encoded_detail_is_unwrapped_to_the_message() {
    let body = r#"{"detail":"{\"detail\":\"invalid timeframe '7q'; valid: 1s, 5s, 15s\"}"}"#;

    assert_eq!(extract_detail(body), "invalid timeframe '7q'; valid: 1s, 5s, 15s");
}

#[test]
fn double_encoded_not_found_is_unwrapped() {
    let body = r#"{"detail":"{\"detail\":\"'NOPE_XYZ' has no candle data; browse /catalog\"}"}"#;

    assert_eq!(extract_detail(body), "'NOPE_XYZ' has no candle data; browse /catalog");
}

#[test]
fn a_non_json_body_is_returned_as_is() {
    assert_eq!(extract_detail("<html>502 Bad Gateway</html>"), "<html>502 Bad Gateway</html>");
}

#[test]
fn json_without_a_detail_field_is_returned_whole() {
    assert_eq!(extract_detail(r#"{"error":"nope"}"#), r#"{"error":"nope"}"#);
}

#[test]
fn a_non_string_detail_is_not_unwrapped() {
    assert_eq!(extract_detail(r#"{"detail":{"code":7}}"#), r#"{"detail":{"code":7}}"#);
}

#[test]
fn an_oversized_diagnostic_is_truncated() {
    let body = format!(r#"{{"detail":"{}"}}"#, "a".repeat(MAX_DETAIL_BYTES * 3));

    assert_eq!(extract_detail(&body).len(), MAX_DETAIL_BYTES);
}

#[test]
fn nesting_deeper_than_the_budget_stops_exactly_at_the_budget() {
    let wrap = |inner: &str| {
        let mut object = serde_json::Map::new();
        object.insert("detail".to_string(), serde_json::Value::from(inner));
        serde_json::to_string(&serde_json::Value::Object(object)).unwrap()
    };

    let mut body = r#"{"detail":"bottom"}"#.to_owned();
    for _ in 0..6 {
        body = wrap(&body);
    }

    let mut expected = r#"{"detail":"bottom"}"#.to_owned();
    for _ in 0..2 {
        expected = wrap(&expected);
    }

    assert_eq!(extract_detail(&body), expected);
}

#[test]
fn an_empty_body_yields_an_empty_diagnostic() {
    assert_eq!(extract_detail(""), "");
}

#[test]
fn a_diagnostic_is_trimmed_and_comes_from_the_innermost_envelope() {
    assert_eq!(extract_detail(" \n {\"detail\":\"  spaced \"} \n"), "spaced");
    assert_eq!(diagnostic(" body ", &Vec::new()), "body");
    assert_eq!(diagnostic("body", &vec!["outer".to_string(), " inner ".to_string()]), "inner");
}

#[test]
fn a_truncated_diagnostic_does_not_split_a_character() {
    let body = format!("a{}", "é".repeat(MAX_DETAIL_BYTES));
    let cut = extract_detail(&body);
    // The limit falls inside a character of two bytes.
    assert_eq!(cut.len(), MAX_DETAIL_BYTES - 1);
    assert!(body.starts_with(&cut));
}

#[test]
fn messages_name_what_went_wrong() {
    let symbol = || "EUR/USD".to_string();
    let cases: Vec<(LseError, Vec<&str>)> = vec![
        (LseError::AmbiguousSlug { symbol: symbol(), slug: "eurusd".to_string() }, vec!["EUR/USD", "eurusd"]),
        (LseError::UnknownDataset { name: "bonds".to_string() }, vec!["bonds"]),
        (LseError::EnvVar { message: "LSE_API_KEY is not set".to_string() }, vec!["LSE_API_KEY is not set"]),
        (LseError::InvalidCredential { message: "invalid API key".to_string() }, vec!["invalid API key"]),
        (LseError::Api { status: 404, message: "no data".to_string() }, vec!["404", "no data"]),
        (LseError::RateLimited { retry_after: Some(42) }, vec!["42"]),
        (LseError::RateLimited { retry_after: None }, vec!["rate limit"]),
        (LseError::Deserialize { message: "usage: eof".to_string() }, vec!["usage: eof"]),
        (LseError::InvalidInput { message: "blank symbol".to_string() }, vec!["blank symbol"]),
        (LseError::UnsupportedInterval { interval: CandleInterval::Hour2 }, vec!["2h"]),
        (
            LseError::TimestampOverflow { open: at("2024-01-02T00:00:00Z"), interval: CandleInterval::Day1 },
            vec!["2024-01-02 00:00:00 UTC"],
        ),
        (LseError::CursorOverflow { last_open: at("2024-01-02T00:00:00Z") }, vec!["2024-01-02 00:00:00 UTC"]),
        (
            LseError::UnexpectedCandleRange {
                symbol: symbol(),
                cursor: at("2024-01-02T00:00:00Z"),
                page: 3,
                end: at("2024-01-03T00:00:00Z"),
            },
            vec!["EUR/USD", "3", "2024-01-03 00:00:00 UTC"],
        ),
        (
            LseError::ExportFailed {
                job_id: "job1".to_string(),
                status: "failed".to_string(),
                message: "upstream table unavailable".to_string(),
            },
            vec!["job1", "failed", "upstream table unavailable"],
        ),
        (
            LseError::ExportTimeout { job_id: "job1".to_string(), status: "queued".to_string() },
            vec!["job1", "queued", "poll it again"],
        ),
        (
            LseError::IntegrityMismatch {
                path: "out.parquet.part".to_string(),
                expected: "16 bytes".to_string(),
                actual: "11 bytes".to_string(),
                discarded: false,
            },
            vec!["out.parquet.part", "16 bytes", "11 bytes"],
        ),
        (
            LseError::ExportJobMismatch {
                job_id: "job1".to_string(),
                field: "symbol".to_string(),
                requested: symbol(),
                reported: "GBP/USD".to_string(),
            },
            vec!["job1", "symbol", "EUR/USD", "GBP/USD"],
        ),
        (LseError::UnsupportedSchema { columns: "ts, symbol".to_string() }, vec!["ts, symbol"]),
        (
            LseError::UnsupportedColumnType {
                column: "price".to_string(),
                required: "DOUBLE",
                found: "INT64".to_string(),
            },
            vec!["price", "DOUBLE", "INT64"],
        ),
        (LseError::NullValue { column: "price" }, vec!["price"]),
        (
            LseError::SymbolMismatch { expected: "BP.L".to_string(), found: "BP".to_string() },
            vec!["BP.L", "BP"],
        ),
        (
            LseError::NonMonotonicTimestamps {
                previous: at("2024-01-02T00:00:00Z"),
                found: at("2024-01-01T00:00:00Z"),
            },
            vec!["2024-01-02 00:00:00 UTC", "2024-01-01 00:00:00 UTC"],
        ),
        (LseError::TimestampNotRepresentable { micros: i64::MAX }, vec!["9223372036854775807"]),
        (
            LseError::PriceNotRepresentable { value: "NaN".to_string(), message: "no decimal".to_string() },
            vec!["NaN", "no decimal"],
        ),
        (
            LseError::UnknownInstrument {
                symbol: "BP".to_string(),
                exchange: ExchangeId::LseEquities,
                registered: "BP.L".to_string(),
            },
            vec!["BP", "registered on LseEquities with", "BP.L"],
        ),
        (LseError::Parquet { message: "not a parquet file".to_string() }, vec!["not a parquet file"]),
    ];
    for (error, parts) in cases {
        let message = error.message();
        for part in parts {
            assert!(message.contains(part), "{message:?} should contain {part:?}");
        }
    }
}

#[test]
fn an_exhausted_allowance_shows_its_position() {
    let status = QuotaStatus {
        bytes_used_month: 1,
        bytes_cap_month: 2,
        bytes_used_week: 1,
        bytes_cap_week: 2,
        exports_this_hour: 5,
        exports_cap_hour: 5,
        historical_data_months: -1,
        calls_per_minute: 200,
        max_rows_per_request: 5000,
        vault_concurrency: 2,
    };
    assert!(status.describe().contains("exports_this_hour: 5, exports_cap_hour: 5, historical_data_months: -1"));
    assert!(LseError::QuotaExceeded { status }.message().contains("exports_cap_hour: 5"));
}
