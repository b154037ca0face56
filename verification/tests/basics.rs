//! Texts, instants, dates and names.

use rustrade::collection::{add_text, has_text};
use rustrade::exchange::{exchange_at, ExchangeId};
use rustrade::lse::dataset::{candle_interval_str, LseDataset};
use rustrade::lse::live::{subscribe_message, LseCredentials};
use rustrade::market::Decimal;
use rustrade::text::{
    exceeds, has_char, is_text_before, join, number_text, parse_u64, quote_list, same_ignoring_ascii_case, same_text,
    signed_number_text, split_before, split_once, strip_prefix, text_of, to_chars, trim, truncate,
};
use rustrade::time::{
    close_time_from_open, open_time_from_close, parse_plain, parse_rfc3339, CandleInterval, CandleStep, Date, Timestamp,
    MAX_SECS, MIN_SECS,
};

fn at(secs: i64, nanos: u32) -> Timestamp {
    Timestamp::new(secs, nanos).unwrap()
}

fn chrono_of(t: Timestamp) -> chrono::DateTime<chrono::Utc> {
    chrono::DateTime::from_timestamp(t.secs, t.nanos).unwrap()
}

#[test]
fn texts_are_taken_apart() {
    assert!(same_text("a", "a") && !same_text("a", "b"));
    assert_eq!(to_chars("a\u{e9}b"), vec!['a', '\u{e9}', 'b']);
    assert_eq!(text_of(&vec!['a', 'b', 'c'], 1, 3), "bc");
    assert_eq!(trim(" \t a b \n"), "a b");
    assert_eq!(trim("\u{a0}\u{3000}x\u{2028}"), "\u{a0}\u{3000}x\u{2028}".trim());
    assert_eq!(trim("   "), "");
    assert!(has_char("a-b", '-') && !has_char("ab", '-'));
    assert_eq!(split_before("a-b-c", '-').as_deref(), Some("a"));
    assert_eq!(split_before("abc", '-'), None);
    assert_eq!(split_once("a b c", ' '), Some(("a".to_string(), "b c".to_string())));
    assert_eq!(split_once("abc", ' '), None);
    assert_eq!(strip_prefix("bytes 1-2", "bytes ").as_deref(), Some("1-2"));
    assert_eq!(strip_prefix("byte 1-2", "bytes "), None);
}

#[test]
fn numbers_are_read_and_written() {
    for text in ["0", "42", "+7", "18446744073709551615", "18446744073709551616", "", "+", "-1", " 1", "1 ", "0x1"] {
        assert_eq!(parse_u64(text), text.parse::<u64>().ok(), "{text:?}");
    }
    for number in [0_u64, 9, 10, 12_345, u64::MAX] {
        assert_eq!(number_text(number), number.to_string());
    }
    for number in [0_i64, -1, 10, i64::MAX, i64::MIN] {
        assert_eq!(signed_number_text(number), number.to_string());
    }
}

#[test]
fn a_text_is_cut_between_characters() {
    let text = "a\u{e9}\u{20ac}\u{1f600}";
    assert_eq!(text.len(), 10);
    let expected = ["", "a", "a", "a\u{e9}", "a\u{e9}", "a\u{e9}", "a\u{e9}\u{20ac}"];
    for (max, kept) in expected.iter().enumerate() {
        assert_eq!(truncate(text, max), *kept);
        assert!(exceeds(text, max));
    }
    assert_eq!(truncate(text, 9), "a\u{e9}\u{20ac}");
    assert_eq!(truncate(text, 10), text);
    assert!(!exceeds(text, 10));
}

#[test]
fn texts_are_compared() {
    assert!(same_ignoring_ascii_case("aBc1", "AbC1"));
    assert!(!same_ignoring_ascii_case("\u{e9}", "\u{c9}"));
    assert!(!same_ignoring_ascii_case("ab", "abc"));
    for (a, b) in [("a", "b"), ("a", "ab"), ("", "a"), ("Z", "a"), ("\u{e9}", "\u{20ac}")] {
        assert_eq!(is_text_before(a, b), a < b);
        assert_eq!(is_text_before(b, a), b < a);
    }
    assert!(!is_text_before("a", "a"));
}

#[test]
fn texts_are_listed() {
    let list = vec!["a".to_string(), "b\"c".to_string()];
    assert_eq!(join(&list, ", "), "a, b\"c");
    assert_eq!(join(&Vec::new(), ", "), "");
    assert_eq!(quote_list(&list), format!("{list:?}"));
    assert_eq!(quote_list(&Vec::new()), "[]");
}

#[test]
fn a_text_is_listed_once() {
    let mut list = Vec::new();
    for text in ["b", "a", "b", "c", "a"] {
        add_text(&mut list, &text.to_string());
    }
    assert_eq!(list, vec!["b".to_string(), "a".to_string(), "c".to_string()]);
    assert!(has_text(&list, "a") && !has_text(&list, "d"));
}

#[test]
fn texts_are_sent_as_json_strings() {
    for text in ["plain", "a\"b\\c", "tab\tline\nbell\u{7}del\u{7f}", "\u{8}\u{c}\r", "\u{e9}\u{2028}", ""] {
        let payload: serde_json::Value = serde_json::from_str(&subscribe_message(text, &None)).unwrap();
        assert_eq!(payload["symbol"], *text);
        let payload: serde_json::Value = serde_json::from_str(&LseCredentials::new(text).auth_message()).unwrap();
        assert_eq!(payload["api_key"], *text);
    }
}

#[test]
fn the_range_of_instants_is_that_of_the_calendar() {
    let least = chrono::DateTime::<chrono::Utc>::MIN_UTC.timestamp();
    let greatest = chrono::DateTime::<chrono::Utc>::MAX_UTC.timestamp();
    assert_eq!((MIN_SECS, MAX_SECS), (least, greatest));
    assert_eq!(Timestamp::new(MAX_SECS + 1, 0), None);
    assert_eq!(Timestamp::new(MIN_SECS - 1, 0), None);
    // Nanoseconds past a second stand for a leap second, at the end of a minute alone.
    for (secs, nanos) in [(59, 1_500_000_000), (58, 1_500_000_000), (-1, 1_000_000_000), (59, 2_000_000_000)] {
        assert_eq!(
            Timestamp::new(secs, nanos).is_some(),
            chrono::DateTime::from_timestamp(secs, nanos).is_some(),
            "{secs} {nanos}"
        );
    }
}

#[test]
fn instants_are_converted() {
    assert_eq!(Timestamp::from_micros(-1), Timestamp::new(-1, 999_999_000));
    assert_eq!(Timestamp::from_micros(i64::MAX), None);
    for t in [at(0, 0), at(1_767_346_644, 760_146_999), at(-1, 999_999_999), at(-5, 1), at(59, 1_500_000_000)] {
        assert_eq!(t.to_millis(), chrono_of(t).timestamp_millis());
        assert_eq!(t.to_nanos(), chrono_of(t).timestamp_nanos_opt());
        assert_eq!(t.text(), chrono_of(t).to_string());
        assert_eq!(t.cursor_text(), chrono_of(t).format("%Y-%m-%d %H:%M:%S").to_string());
    }
    for t in [at(MAX_SECS, 0), at(MIN_SECS, 0), at(9_223_372_036, 854_775_807), at(9_223_372_036, 854_775_808)] {
        assert_eq!(t.to_nanos(), chrono_of(t).timestamp_nanos_opt());
    }
}

#[test]
fn instants_are_read() {
    assert_eq!(parse_rfc3339("1970-01-01T01:00:00.5+01:00"), Timestamp::new(0, 500_000_000));
    assert_eq!(parse_rfc3339("1970-01-01T00:00:00"), None);
    assert_eq!(parse_plain("1970-01-01 00:00:01.25"), Ok(at(1, 250_000_000)));
    assert!(parse_plain("1970-01-01T00:00:01").is_err());
}

#[test]
fn a_bar_ends_where_the_next_one_opens() {
    let open = parse_plain("2024-01-31 00:00:00").unwrap();
    let end = |interval: CandleInterval| close_time_from_open(open, interval.to_step()).unwrap();
    assert_eq!(end(CandleInterval::Min1), at(open.secs + 60, 0));
    assert_eq!(end(CandleInterval::Week1), at(open.secs + 604_800, 0));
    assert_eq!(end(CandleInterval::Month1), parse_plain("2024-02-29 00:00:00").unwrap());
    assert_eq!(
        open_time_from_close(parse_plain("2024-03-31 00:00:00").unwrap(), CandleStep::Months(1)),
        parse_plain("2024-02-29 00:00:00").ok()
    );
    for interval in [CandleInterval::Sec1, CandleInterval::Hour4, CandleInterval::Day1] {
        assert_eq!(open_time_from_close(end(interval), interval.to_step()), Some(open));
    }
    assert_eq!(close_time_from_open(at(MAX_SECS, 0), CandleStep::Seconds(1)), None);
    assert_eq!(close_time_from_open(at(MAX_SECS, 0), CandleStep::Months(1)), None);
    assert_eq!(open_time_from_close(at(MIN_SECS, 0), CandleStep::Seconds(1)), None);
}

#[test]
fn instants_are_written_to_the_fraction_that_they_have() {
    for (t, text) in [
        (at(0, 0), "1970-01-01 00:00:00 UTC"),
        (at(1_709_168_461, 250_000_000), "2024-02-29 01:01:01.250 UTC"),
        (at(-1, 999_999_000), "1969-12-31 23:59:59.999999 UTC"),
        (at(-1, 1), "1969-12-31 23:59:59.000000001 UTC"),
        (at(1_483_228_799, 1_500_000_000), "2016-12-31 23:59:60.500 UTC"),
        (at(253_402_300_800, 0), "+10000-01-01 00:00:00 UTC"),
        (at(MIN_SECS, 0), "-262143-01-01 00:00:00 UTC"),
        (at(MAX_SECS, 0), "+262142-12-31 23:59:59 UTC"),
        (at(-62_198_755_200, 0), "-0001-01-01 00:00:00 UTC"),
    ] {
        assert_eq!(t.text(), text);
    }
    assert_eq!(at(1_709_168_461, 999_999_999).cursor_text(), "2024-02-29 01:01:01");
    assert_eq!(at(1_483_228_799, 1_500_000_000).cursor_text(), "2016-12-31 23:59:60");
}

#[test]
fn calendar_bars_keep_their_day_where_the_month_has_it() {
    let plain = |text: &str| parse_plain(text).unwrap();
    for (open, months, close) in [
        ("2024-01-01 00:00:00", 1, "2024-02-01 00:00:00"),
        ("2023-02-01 00:00:00", 1, "2023-03-01 00:00:00"),
        ("2023-11-01 00:00:00", 3, "2024-02-01 00:00:00"),
        ("1999-12-15 06:07:08.009", 12, "2000-12-15 06:07:08.009"),
        ("1969-12-31 23:59:59", 2, "1970-02-28 23:59:59"),
        ("2024-05-31 12:00:00", 0, "2024-05-31 12:00:00"),
    ] {
        let step = CandleStep::Months(months);
        assert_eq!(close_time_from_open(plain(open), step), Some(plain(close)), "{open}");
    }
    // Back from the end of a shorter month is not the day that the bar opened on.
    let step = CandleStep::Months(1);
    let close = close_time_from_open(plain("2023-01-31 00:00:00"), step).unwrap();
    assert_eq!(close, plain("2023-02-28 00:00:00"));
    assert_eq!(open_time_from_close(close, step), Some(plain("2023-01-28 00:00:00")));
    let leap = at(1_483_228_799, 1_500_000_000);
    assert_eq!(open_time_from_close(leap, step), Timestamp::new(1_480_550_399, 1_500_000_000));
    assert_eq!(close_time_from_open(at(0, 0), CandleStep::Months(u32::MAX)), None);
    assert_eq!(open_time_from_close(at(MIN_SECS, 0), step), None);
}

#[test]
fn dates_are_those_of_the_calendar() {
    for (year, month, day) in [
        (2024, 2, 29),
        (2023, 2, 29),
        (1900, 2, 29),
        (2000, 2, 29),
        (-4, 2, 29),
        (2026, 4, 31),
        (2026, 13, 1),
        (2026, 0, 1),
        (2026, 1, 0),
        (262_142, 12, 31),
        (262_143, 1, 1),
        (-262_143, 1, 1),
        (-262_144, 12, 31),
        (10_000, 1, 1),
        (7, 8, 9),
    ] {
        let expected = chrono::NaiveDate::from_ymd_opt(year, month, day);
        let date = Date::new(year, month, day);
        assert_eq!(date.map(|date| date.text()), expected.map(|date| date.to_string()), "{year}-{month}-{day}");
    }
    let early = Date::new(2025, 12, 31).unwrap();
    let late = Date::new(2026, 1, 1).unwrap();
    assert!(early.is_before(&late) && !late.is_before(&early) && !early.is_before(&early));
}

#[test]
fn venues_have_positions_and_names() {
    for exchange in [ExchangeId::BinanceSpot, ExchangeId::LseFx, ExchangeId::LseCfd] {
        assert_eq!(exchange_at(exchange.position()), Some(exchange));
    }
    assert_eq!(exchange_at(u8::MAX), None);
    assert_eq!(ExchangeId::LseFx.as_str(), "lse_fx");
    assert_eq!(ExchangeId::LseFx.display_name(), "LseFx");
    assert_eq!(ExchangeId::BinanceSpot.display_name(), "BinanceSpot");
}

#[test]
fn datasets_have_venues_and_names() {
    let list = LseDataset::list();
    let names: Vec<&str> = list.iter().map(|dataset| dataset.as_catalog_str()).collect();
    assert_eq!(names.len(), 10);
    assert_eq!((names[0], names[9]), ("fx", "currency_index"));
    assert_eq!(LseDataset::Etf.exchange_id(), ExchangeId::LseEquities);
    assert_eq!(LseDataset::Indices.exchange_id(), ExchangeId::LseCfd);
    assert_eq!(list.iter().filter(|dataset| !dataset.is_candle_class()).count(), 3);
    assert_eq!(LseDataset::Stocks.ws_category(), Some("Stocks"));
    assert_eq!(LseDataset::Futures.ws_category(), None);
    assert_eq!(candle_interval_str(CandleInterval::Month1), Some("1mo"));
    assert_eq!(candle_interval_str(CandleInterval::Hour2), None);
}

#[test]
fn one_number_has_several_spellings() {
    let a = Decimal { mantissa: 150, scale: 2 };
    let b = Decimal { mantissa: 15, scale: 1 };
    assert!(a.is_same_number(&b));
    assert!(!a.is_same_number(&Decimal { mantissa: 15, scale: 2 }));
    assert!(Decimal::zero().is_same_number(&Decimal { mantissa: 0, scale: 5 }));
}
