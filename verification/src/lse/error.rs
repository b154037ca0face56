//! Errors of the integration, and the provider's diagnostics.

use vstd::prelude::*;
use vstd::string::*;
use crate::exchange::ExchangeId;
use crate::lse::dataset;
use crate::lse::quota::QuotaStatus;
use crate::text;
use crate::text::{number_text, quote, signed_number_text, trim, truncate};
use crate::time;
use crate::time::{CandleInterval, Timestamp};

verus! {

/// What can go wrong when data is requested from the provider or decoded.
///
/// More variants may come with further endpoints.
#[derive(Debug)]
#[non_exhaustive]
#[allow(inconsistent_fields)]
pub enum LseError {
    /// More than one series resolves to the requested slug, so no dataset can be identified.
    AmbiguousSlug { symbol: String, slug: String },
    /// The name is not that of a price dataset.
    UnknownDataset { name: String },
    /// A required environment variable is not set, or is not valid UTF-8. The message names the
    /// variable and never its value.
    EnvVar { message: String },
    /// The API key cannot be sent in a header.
    InvalidCredential { message: String },
    /// The API answered with a status that is not a success, or with a success that cannot be used.
    Api { status: u16, message: String },
    /// The request rate was exceeded. Never retried here. `retry_after` is in seconds.
    RateLimited { retry_after: Option<u64> },
    /// A response body does not have the expected shape.
    Deserialize { message: String },
    /// The request is malformed in a way that the caller must fix; nothing was sent.
    InvalidInput { message: String },
    /// The provider does not serve this resolution.
    UnsupportedInterval { interval: CandleInterval },
    /// The end of a candle's period is not representable.
    TimestampOverflow { open: Timestamp, interval: CandleInterval },
    /// The pagination cursor cannot be moved past the last bar received.
    CursorOverflow { last_open: Timestamp },
    /// A page carried a candle that closes after the requested end.
    UnexpectedCandleRange { symbol: String, cursor: Timestamp, page: u64, end: Timestamp },
    /// The shared allowance is exhausted.
    QuotaExceeded { status: QuotaStatus },
    /// An export job ended without an artifact.
    ExportFailed { job_id: String, status: String, message: String },
    /// An export job was not ready within the caller's timeout. It keeps building.
    ExportTimeout { job_id: String, status: String },
    /// A downloaded artifact does not match what the job reported of it.
    ///
    /// `discarded` says whether the partial file was removed because no retry can complete it, or
    /// kept because the next call can resume it.
    IntegrityMismatch { path: String, expected: String, actual: String, discarded: bool },
    /// A ready job does not describe the request that it is downloaded for.
    ExportJobMismatch { job_id: String, field: String, requested: String, reported: String },
    /// The columns of an artifact match no known layout, or the schema is not flat.
    UnsupportedSchema { columns: String },
    /// A recognised column does not have the type that it is decoded as.
    UnsupportedColumnType { column: String, required: &'static str, found: String },
    /// A column without a substitute is null on some row.
    NullValue { column: &'static str },
    /// A row's symbol is not the one that the artifact is described with.
    SymbolMismatch { expected: String, found: String },
    /// The timestamps of an artifact go backwards. Ties are permitted.
    NonMonotonicTimestamps { previous: Timestamp, found: Timestamp },
    /// A row's timestamp is out of the representable range.
    TimestampNotRepresentable { micros: i64 },
    /// A number of the provider has no decimal representation.
    PriceNotRepresentable { value: String, message: String },
    /// No instrument that is registered on this exchange has the requested symbol.
    UnknownInstrument { symbol: String, exchange: ExchangeId, registered: String },
    /// The artifact could not be read.
    Parquet { message: String },
}

/// How a message names a resolution.
pub open spec fn interval_label(interval: CandleInterval) -> Seq<char> {
    match interval {
        CandleInterval::Sec1 => "1s"@,
        CandleInterval::Sec5 => "5s"@,
        CandleInterval::Sec15 => "15s"@,
        CandleInterval::Sec30 => "30s"@,
        CandleInterval::Min1 => "1m"@,
        CandleInterval::Min3 => "3m"@,
        CandleInterval::Min5 => "5m"@,
        CandleInterval::Min15 => "15m"@,
        CandleInterval::Min30 => "30m"@,
        CandleInterval::Hour1 => "1h"@,
        CandleInterval::Hour2 => "2h"@,
        CandleInterval::Hour4 => "4h"@,
        CandleInterval::Hour6 => "6h"@,
        CandleInterval::Hour8 => "8h"@,
        CandleInterval::Hour12 => "12h"@,
        CandleInterval::Day1 => "1d"@,
        CandleInterval::Day3 => "3d"@,
        CandleInterval::Week1 => "1w"@,
        CandleInterval::Month1 => "1mo"@,
    }
}

/// How a message names a resolution.
pub fn label_interval(interval: CandleInterval) -> (r: &'static str)
    ensures
        r@ == interval_label(interval),
{
    match interval {
        CandleInterval::Sec1 => "1s",
        CandleInterval::Sec5 => "5s",
        CandleInterval::Sec15 => "15s",
        CandleInterval::Sec30 => "30s",
        CandleInterval::Min1 => "1m",
        CandleInterval::Min3 => "3m",
        CandleInterval::Min5 => "5m",
        CandleInterval::Min15 => "15m",
        CandleInterval::Min30 => "30m",
        CandleInterval::Hour1 => "1h",
        CandleInterval::Hour2 => "2h",
        CandleInterval::Hour4 => "4h",
        CandleInterval::Hour6 => "6h",
        CandleInterval::Hour8 => "8h",
        CandleInterval::Hour12 => "12h",
        CandleInterval::Day1 => "1d",
        CandleInterval::Day3 => "3d",
        CandleInterval::Week1 => "1w",
        CandleInterval::Month1 => "1mo",
    }
}

/// The text of an instant, as it stands in a message.
pub open spec fn shown(t: Timestamp) -> Seq<char> {
    time::utc_text(t.secs, t.nanos)
}

impl LseError {
    /// Whether the instants that the error names are representable.
    pub open spec fn wf(self) -> bool {
        match self {
            LseError::TimestampOverflow { open, interval } => open.wf(),
            LseError::CursorOverflow { last_open } => last_open.wf(),
            LseError::UnexpectedCandleRange { symbol, cursor, page, end } => cursor.wf() && end.wf(),
            LseError::NonMonotonicTimestamps { previous, found } => previous.wf() && found.wf(),
            _ => true,
        }
    }

    /// The error as text.
    pub open spec fn text(self) -> Seq<char> {
        match self {
            LseError::AmbiguousSlug { symbol, slug } => "ambiguous dataset slug "@ + text::quoted(slug@)
                + " for symbol "@ + text::quoted(symbol@)
                + ": more than one series resolves to it, so it cannot identify a dataset - query the catalog and select explicitly"@,
            LseError::UnknownDataset { name } => "unknown dataset "@ + text::quoted(name@),
            LseError::EnvVar { message } => "environment variable error: "@ + message@,
            LseError::InvalidCredential { message } => "invalid credential: "@ + message@,
            LseError::Api { status, message } => "API error ("@ + text::decimal_text(status as nat) + "): "@
                + message@,
            LseError::RateLimited { retry_after } => match retry_after {
                Some(seconds) => "rate limited"@ + "; retry after "@ + text::decimal_text(seconds as nat)
                    + "s"@,
                None => "rate limited"@,
            },
            LseError::Deserialize { message } => "invalid response: "@ + message@,
            LseError::InvalidInput { message } => "invalid input: "@ + message@,
            LseError::UnsupportedInterval { interval } => "unsupported candle interval "@ + interval_label(
                interval,
            ) + ": the provider does not serve this resolution"@,
            LseError::TimestampOverflow { open, interval } => "candle boundary overflow: open time "@
                + shown(open) + " + "@ + interval_label(interval) + " is not representable"@,
            LseError::CursorOverflow { last_open } => "pagination cursor overflow: open time "@ + shown(
                last_open,
            ) + " + 1s is not representable"@,
            LseError::UnexpectedCandleRange { symbol, cursor, page, end } => "page "@
                + text::decimal_text(page as nat) + " for "@ + text::quoted(symbol@)
                + " returned a candle closing after "@ + shown(end) + " (cursor "@ + shown(cursor)
                + "): the range parameters appear to have been ignored"@,
            LseError::QuotaExceeded { status } => "quota exceeded: "@ + status.text(),
            LseError::ExportFailed { job_id, status, message } => if message@.len() == 0 {
                "export job "@ + job_id@ + " "@ + status@
            } else {
                "export job "@ + job_id@ + " "@ + status@ + ": "@ + message@
            },
            LseError::ExportTimeout { job_id, status } => "export job "@ + job_id@ + " still "@ + status@
                + " when the caller's timeout elapsed; it keeps building, so poll it again rather than re-exporting"@,
            LseError::IntegrityMismatch { path, expected, actual, discarded } =>
                "integrity check failed for "@ + path@ + ": expected "@ + expected@ + ", got "@ + actual@
                + " ("@ + (if discarded {
                "unusable partial file discarded; re-call to restart"@
            } else {
                "partial file kept for resume"@
            }) + ")"@,
            LseError::ExportJobMismatch { job_id, field, requested, reported } => "export job "@ + job_id@
                + " does not describe this request: "@ + field@ + " is "@ + text::quoted(reported@)
                + ", requested "@ + text::quoted(requested@),
            LseError::UnsupportedSchema { columns } => "unsupported export schema; columns were: "@
                + columns@,
            LseError::UnsupportedColumnType { column, required, found } => "export column "@
                + text::quoted(column@) + " is "@ + found@ + ", but this integration requires "@ + required@,
            LseError::NullValue { column } => "export column "@ + text::quoted(column@)
                + " is null on a row that has no substitute for it"@,
            LseError::SymbolMismatch { expected, found } => "export symbol mismatch: descriptor says "@
                + text::quoted(expected@) + " but a row carries "@ + text::quoted(found@),
            LseError::NonMonotonicTimestamps { previous, found } => "export timestamps are not ascending: "@
                + shown(found) + " follows "@ + shown(previous),
            LseError::TimestampNotRepresentable { micros } => "export timestamp "@
                + text::signed_decimal_text(micros as int) + "\u{b5}s is not representable"@,
            LseError::PriceNotRepresentable { value, message } => "price "@ + value@
                + " is not representable as a decimal: "@ + message@,
            LseError::UnknownInstrument { symbol, exchange, registered } =>
                "no instrument registered on "@ + exchange.label() + " with exchange name "@
                + text::quoted(symbol@) + "; registered there: ["@ + registered@ + "]"@,
            LseError::Parquet { message } => "parquet error: "@ + message@,
        }
    }

    /// The error as text.
    pub fn message(&self) -> (r: String)
        requires
            self.wf(),
        ensures
            r@ == self.text(),
    {
        match self {
            LseError::AmbiguousSlug { symbol, slug } => {
                let mut out = String::from_str("ambiguous dataset slug ");
                out.append(quote(slug.as_str()).as_str());
                out.append(" for symbol ");
                out.append(quote(symbol.as_str()).as_str());
                out.append(
                    ": more than one series resolves to it, so it cannot identify a dataset - query the catalog and select explicitly",
                );
                out
            },
            LseError::UnknownDataset { name } => {
                let mut out = String::from_str("unknown dataset ");
                out.append(quote(name.as_str()).as_str());
                out
            },
            LseError::EnvVar { message } => {
                let mut out = String::from_str("environment variable error: ");
                out.append(message.as_str());
                out
            },
            LseError::InvalidCredential { message } => {
                let mut out = String::from_str("invalid credential: ");
                out.append(message.as_str());
                out
            },
            LseError::Api { status, message } => {
                let mut out = String::from_str("API error (");
                out.append(number_text(*status as u64).as_str());
                out.append("): ");
                out.append(message.as_str());
                out
            },
            LseError::RateLimited { retry_after } => {
                let mut out = String::from_str("rate limited");
                if let Some(seconds) = retry_after {
                    out.append("; retry after ");
                    out.append(number_text(*seconds).as_str());
                    out.append("s");
                }
                out
            },
            LseError::Deserialize { message } => {
                let mut out = String::from_str("invalid response: ");
                out.append(message.as_str());
                out
            },
            LseError::InvalidInput { message } => {
                let mut out = String::from_str("invalid input: ");
                out.append(message.as_str());
                out
            },
            LseError::UnsupportedInterval { interval } => {
                let mut out = String::from_str("unsupported candle interval ");
                out.append(label_interval(*interval));
                out.append(": the provider does not serve this resolution");
                out
            },
            LseError::TimestampOverflow { open, interval } => {
                let mut out = String::from_str("candle boundary overflow: open time ");
                out.append(open.text().as_str());
                out.append(" + ");
                out.append(label_interval(*interval));
                out.append(" is not representable");
                out
            },
            LseError::CursorOverflow { last_open } => {
                let mut out = String::from_str("pagination cursor overflow: open time ");
                out.append(last_open.text().as_str());
                out.append(" + 1s is not representable");
                out
            },
            LseError::UnexpectedCandleRange { symbol, cursor, page, end } => {
                let mut out = String::from_str("page ");
                out.append(number_text(*page).as_str());
                out.append(" for ");
                out.append(quote(symbol.as_str()).as_str());
                out.append(" returned a candle closing after ");
                out.append(end.text().as_str());
                out.append(" (cursor ");
                out.append(cursor.text().as_str());
                out.append("): the range parameters appear to have been ignored");
                out
            },
            LseError::QuotaExceeded { status } => {
                let mut out = String::from_str("quota exceeded: ");
                out.append(status.describe().as_str());
                out
            },
            LseError::ExportFailed { job_id, status, message } => {
                let mut out = String::from_str("export job ");
                out.append(job_id.as_str());
                out.append(" ");
                out.append(status.as_str());
                if !message.as_str().is_empty() {
                    out.append(": ");
                    out.append(message.as_str());
                }
                out
            },
            LseError::ExportTimeout { job_id, status } => {
                let mut out = String::from_str("export job ");
                out.append(job_id.as_str());
                out.append(" still ");
                out.append(status.as_str());
                out.append(
                    " when the caller's timeout elapsed; it keeps building, so poll it again rather than re-exporting",
                );
                out
            },
            LseError::IntegrityMismatch { path, expected, actual, discarded } => {
                let mut out = String::from_str("integrity check failed for ");
                out.append(path.as_str());
                out.append(": expected ");
                out.append(expected.as_str());
                out.append(", got ");
                out.append(actual.as_str());
                out.append(" (");
                if *discarded {
                    out.append("unusable partial file discarded; re-call to restart");
                } else {
                    out.append("partial file kept for resume");
                }
                out.append(")");
                out
            },
            LseError::ExportJobMismatch { job_id, field, requested, reported } => {
                let mut out = String::from_str("export job ");
                out.append(job_id.as_str());
                out.append(" does not describe this request: ");
                out.append(field.as_str());
                out.append(" is ");
                out.append(quote(reported.as_str()).as_str());
                out.append(", requested ");
                out.append(quote(requested.as_str()).as_str());
                out
            },
            LseError::UnsupportedSchema { columns } => {
                let mut out = String::from_str("unsupported export schema; columns were: ");
                out.append(columns.as_str());
                out
            },
            LseError::UnsupportedColumnType { column, required, found } => {
                let mut out = String::from_str("export column ");
                out.append(quote(column.as_str()).as_str());
                out.append(" is ");
                out.append(found.as_str());
                out.append(", but this integration requires ");
                out.append(required);
                out
            },
            LseError::NullValue { column } => {
                let mut out = String::from_str("export column ");
                out.append(quote(column).as_str());
                out.append(" is null on a row that has no substitute for it");
                out
            },
            LseError::SymbolMismatch { expected, found } => {
                let mut out = String::from_str("export symbol mismatch: descriptor says ");
                out.append(quote(expected.as_str()).as_str());
                out.append(" but a row carries ");
                out.append(quote(found.as_str()).as_str());
                out
            },
            LseError::NonMonotonicTimestamps { previous, found } => {
                let mut out = String::from_str("export timestamps are not ascending: ");
                out.append(found.text().as_str());
                out.append(" follows ");
                out.append(previous.text().as_str());
                out
            },
            LseError::TimestampNotRepresentable { micros } => {
                let mut out = String::from_str("export timestamp ");
                out.append(signed_number_text(*micros).as_str());
                out.append("\u{b5}s is not representable");
                out
            },
            LseError::PriceNotRepresentable { value, message } => {
                let mut out = String::from_str("price ");
                out.append(value.as_str());
                out.append(" is not representable as a decimal: ");
                out.append(message.as_str());
                out
            },
            LseError::UnknownInstrument { symbol, exchange, registered } => {
                let mut out = String::from_str("no instrument registered on ");
                out.append(exchange.display_name());
                out.append(" with exchange name ");
                out.append(quote(symbol.as_str()).as_str());
                out.append("; registered there: [");
                out.append(registered.as_str());
                out.append("]");
                out
            },
            LseError::Parquet { message } => {
                let mut out = String::from_str("parquet error: ");
                out.append(message.as_str());
                out
            },
        }
    }
}

/// How many bytes of a provider's diagnostic are kept.
pub const MAX_DETAIL_BYTES: usize = 2_048;

/// How many times a diagnostic is unwrapped from its envelope.
pub const MAX_DETAIL_LEVELS: usize = 4;

/// The string under `key` in the JSON object that `json` writes, where `json` is one and has a
/// string there.
pub uninterp spec fn json_string_field(json: Seq<char>, key: Seq<char>) -> Option<Seq<char>>;

/// Parses a text through [`serde_json::from_str`] and reads the string under `key` where the value
/// is an object: what is read is a function of the text and the key.
#[verifier::external_body]
fn read_json_string_field(json: &str, key: &str) -> (r: Option<String>)
    ensures
        match r {
            Some(value) => json_string_field(json@, key@) == Some(value@),
            None => json_string_field(json@, key@) is None,
        },
{
    match serde_json::from_str::<serde_json::Value>(json) {
        Ok(serde_json::Value::Object(object)) => match object.get(key) {
            Some(serde_json::Value::String(value)) => Some(value.clone()),
            _ => None,
        },
        _ => None,
    }
}

/// What is left of `current` when up to `levels` envelopes are taken off.
pub open spec fn unwrapped(current: Seq<char>, levels: nat) -> Seq<char>
    decreases levels,
{
    if levels == 0 {
        current
    } else {
        match json_string_field(current, "detail"@) {
            Some(detail) => unwrapped(text::trimmed(detail), (levels - 1) as nat),
            None => current,
        }
    }
}

/// The diagnostic in an error response.
///
/// The provider may wrap its message in an object under `detail`, and that object again as a
/// string. Envelopes are taken off up to [`MAX_DETAIL_LEVELS`] deep; a body of another shape stays
/// as it is. What remains is cut to [`MAX_DETAIL_BYTES`].
pub fn extract_detail(body: &str) -> (r: String)
    ensures
        r@ == text::truncated(
            unwrapped(text::trimmed(body@), MAX_DETAIL_LEVELS as nat),
            MAX_DETAIL_BYTES as nat,
        ),
{
    let mut details: Vec<String> = Vec::new();
    let mut current = trim(body);
    let mut level: usize = 0;
    while level < MAX_DETAIL_LEVELS
        invariant
            level <= MAX_DETAIL_LEVELS,
            details.len() == level,
            current@ == text::trimmed(if details.len() == 0 { body@ } else { details@.last()@ }),
            unwrapped(current@, (MAX_DETAIL_LEVELS - level) as nat) == unwrapped(
                text::trimmed(body@),
                MAX_DETAIL_LEVELS as nat,
            ),
        ensures
            current@ == text::trimmed(if details.len() == 0 { body@ } else { details@.last()@ }),
            current@ == unwrapped(text::trimmed(body@), MAX_DETAIL_LEVELS as nat),
        decreases MAX_DETAIL_LEVELS - level,
    {
        match read_json_string_field(current.as_str(), "detail") {
            Some(detail) => {
                current = trim(detail.as_str());
                details.push(detail);
            },
            None => {
                break;
            },
        }
        level = level + 1;
    }
    diagnostic(body, &details)
}

/// The diagnostic of a response whose envelopes hold `details`, the outermost first: the innermost
/// of them, or the body where there is none, trimmed and cut to [`MAX_DETAIL_BYTES`].
pub fn diagnostic(body: &str, details: &Vec<String>) -> (r: String)
    ensures
        r@ == text::truncated(
            text::trimmed(if details.len() == 0 { body@ } else { details@.last()@ }),
            MAX_DETAIL_BYTES as nat,
        ),
{
    let innermost = if details.len() == 0 {
        trim(body)
    } else {
        trim(details[details.len() - 1].as_str())
    };
    truncate(innermost.as_str(), MAX_DETAIL_BYTES)
}

/// A message names what its error carries, in the order in which the message speaks of it: of a failed check what was
/// expected before what was found, of a step back in time the later row before the earlier, and of a refused field what the
/// job reports before what was requested.
pub proof fn law_messages_name_what_they_carry(e: LseError)
    ensures
        e matches LseError::AmbiguousSlug { symbol, slug } ==> text::names_in_order(
            e.text(),
            seq![text::quoted(slug@), text::quoted(symbol@)],
        ),
        e matches LseError::UnknownDataset { name } ==> text::names_in_order(e.text(), seq![text::quoted(name@)]),
        e matches LseError::EnvVar { message } ==> text::names_in_order(e.text(), seq![message@]),
        e matches LseError::InvalidCredential { message } ==> text::names_in_order(e.text(), seq![message@]),
        e matches LseError::Api { status, message } ==> text::names_in_order(
            e.text(),
            seq![text::decimal_text(status as nat), message@],
        ),
        e matches LseError::RateLimited { retry_after } ==> (retry_after is Some ==> text::names_in_order(
            e.text(),
            seq![text::decimal_text(retry_after->0 as nat)],
        )),
        e matches LseError::Deserialize { message } ==> text::names_in_order(e.text(), seq![message@]),
        e matches LseError::InvalidInput { message } ==> text::names_in_order(e.text(), seq![message@]),
        e matches LseError::UnsupportedInterval { interval } ==> text::names_in_order(
            e.text(),
            seq![interval_label(interval)],
        ),
        e matches LseError::TimestampOverflow { open, interval } ==> text::names_in_order(
            e.text(),
            seq![time::utc_text(open.secs, open.nanos), interval_label(interval)],
        ),
        e matches LseError::CursorOverflow { last_open } ==> text::names_in_order(
            e.text(),
            seq![time::utc_text(last_open.secs, last_open.nanos)],
        ),
        e matches LseError::UnexpectedCandleRange { symbol, cursor, page, end } ==> text::names_in_order(
            e.text(),
            seq![
                text::decimal_text(page as nat),
                text::quoted(symbol@),
                time::utc_text(end.secs, end.nanos),
                time::utc_text(cursor.secs, cursor.nanos),
            ],
        ),
        e matches LseError::QuotaExceeded { status } ==> text::names_in_order(e.text(), seq![status.text()]),
{
    match e {
        LseError::AmbiguousSlug { symbol, slug } => {
            let (a, b) = (text::quoted(slug@), text::quoted(symbol@));
            text::lemma_two_named("ambiguous dataset slug "@, a, " for symbol "@, b);
            text::lemma_more_behind(
                "ambiguous dataset slug "@ + a + " for symbol "@ + b,
                ": more than one series resolves to it, so it cannot identify a dataset - query the catalog and select explicitly"@,
                seq![a, b],
            );
        },
        LseError::UnknownDataset { name } => {
            text::lemma_last_named("unknown dataset "@, text::quoted(name@));
        },
        LseError::EnvVar { message } => {
            text::lemma_last_named("environment variable error: "@, message@);
        },
        LseError::InvalidCredential { message } => {
            text::lemma_last_named("invalid credential: "@, message@);
        },
        LseError::Api { status, message } => {
            text::lemma_two_named("API error ("@, text::decimal_text(status as nat), "): "@, message@);
        },
        LseError::RateLimited { retry_after } => {
            if let Some(seconds) = retry_after {
                let wait = text::decimal_text(seconds as nat);
                text::lemma_last_named("rate limited"@ + "; retry after "@, wait);
                text::lemma_more_behind("rate limited"@ + "; retry after "@ + wait, "s"@, seq![wait]);
            }
        },
        LseError::Deserialize { message } => {
            text::lemma_last_named("invalid response: "@, message@);
        },
        LseError::InvalidInput { message } => {
            text::lemma_last_named("invalid input: "@, message@);
        },
        LseError::UnsupportedInterval { interval } => {
            let label = interval_label(interval);
            text::lemma_last_named("unsupported candle interval "@, label);
            text::lemma_more_behind(
                "unsupported candle interval "@ + label,
                ": the provider does not serve this resolution"@,
                seq![label],
            );
        },
        LseError::TimestampOverflow { open, interval } => {
            let (a, b) = (shown(open), interval_label(interval));
            text::lemma_two_named("candle boundary overflow: open time "@, a, " + "@, b);
            text::lemma_more_behind(
                "candle boundary overflow: open time "@ + a + " + "@ + b,
                " is not representable"@,
                seq![a, b],
            );
        },
        LseError::CursorOverflow { last_open } => {
            let a = shown(last_open);
            text::lemma_last_named("pagination cursor overflow: open time "@, a);
            text::lemma_more_behind(
                "pagination cursor overflow: open time "@ + a,
                " + 1s is not representable"@,
                seq![a],
            );
        },
        LseError::UnexpectedCandleRange { symbol, cursor, page, end } => {
            let (a, b, c, d) = (text::decimal_text(page as nat), text::quoted(symbol@), shown(end), shown(cursor));
            text::lemma_four_named("page "@, a, " for "@, b, " returned a candle closing after "@, c, " (cursor "@, d);
            text::lemma_more_behind(
                "page "@ + a + " for "@ + b + " returned a candle closing after "@ + c + " (cursor "@ + d,
                "): the range parameters appear to have been ignored"@,
                seq![a, b, c, d],
            );
        },
        LseError::QuotaExceeded { status } => {
            text::lemma_last_named("quota exceeded: "@, status.text());
        },
        _ => {},
    }
}

/// A message of an export names what its error carries, in the order in which the message speaks of it.
pub proof fn law_export_messages_name_what_they_carry(e: LseError)
    ensures
        e matches LseError::ExportFailed { job_id, status, message } ==> text::names_in_order(
            e.text(),
            seq![job_id@, status@, message@],
        ),
        e matches LseError::ExportTimeout { job_id, status } ==> text::names_in_order(e.text(), seq![job_id@, status@]),
        e matches LseError::IntegrityMismatch { path, expected, actual, discarded } ==> text::names_in_order(
            e.text(),
            seq![
                path@,
                expected@,
                actual@,
                if discarded {
                    "unusable partial file discarded; re-call to restart"@
                } else {
                    "partial file kept for resume"@
                },
            ],
        ),
        e matches LseError::ExportJobMismatch { job_id, field, requested, reported } ==> text::names_in_order(
            e.text(),
            seq![job_id@, field@, text::quoted(reported@), text::quoted(requested@)],
        ),
        e matches LseError::UnsupportedSchema { columns } ==> text::names_in_order(e.text(), seq![columns@]),
        e matches LseError::UnsupportedColumnType { column, required, found } ==> text::names_in_order(
            e.text(),
            seq![text::quoted(column@), found@, required@],
        ),
        e matches LseError::NullValue { column } ==> text::names_in_order(e.text(), seq![text::quoted(column@)]),
        e matches LseError::SymbolMismatch { expected, found } ==> text::names_in_order(
            e.text(),
            seq![text::quoted(expected@), text::quoted(found@)],
        ),
        e matches LseError::NonMonotonicTimestamps { previous, found } ==> text::names_in_order(
            e.text(),
            seq![time::utc_text(found.secs, found.nanos), time::utc_text(previous.secs, previous.nanos)],
        ),
        e matches LseError::TimestampNotRepresentable { micros } ==> text::names_in_order(
            e.text(),
            seq![text::signed_decimal_text(micros as int)],
        ),
        e matches LseError::PriceNotRepresentable { value, message } ==> text::names_in_order(
            e.text(),
            seq![value@, message@],
        ),
        e matches LseError::UnknownInstrument { symbol, exchange, registered } ==> text::names_in_order(
            e.text(),
            seq![exchange.label(), text::quoted(symbol@), registered@],
        ),
        e matches LseError::Parquet { message } ==> text::names_in_order(e.text(), seq![message@]),
{
    match e {
        LseError::ExportFailed { job_id, status, message } => {
            text::lemma_two_named("export job "@, job_id@, " "@, status@);
            if message@.len() == 0 {
                let told = "export job "@ + job_id@ + " "@ + status@;
                text::lemma_next_named(told, message@, seq![job_id@, status@]);
                assert(told + message@ =~= told);
                assert(seq![job_id@, status@].push(message@) =~= seq![job_id@, status@, message@]);
            } else {
                text::lemma_three_named("export job "@, job_id@, " "@, status@, ": "@, message@);
            }
        },
        LseError::ExportTimeout { job_id, status } => {
            text::lemma_two_named("export job "@, job_id@, " still "@, status@);
            text::lemma_more_behind(
                "export job "@ + job_id@ + " still "@ + status@,
                " when the caller's timeout elapsed; it keeps building, so poll it again rather than re-exporting"@,
                seq![job_id@, status@],
            );
        },
        LseError::IntegrityMismatch { path, expected, actual, discarded } => {
            let fate = if discarded {
                "unusable partial file discarded; re-call to restart"@
            } else {
                "partial file kept for resume"@
            };
            text::lemma_four_named(
                "integrity check failed for "@,
                path@,
                ": expected "@,
                expected@,
                ", got "@,
                actual@,
                " ("@,
                fate,
            );
            text::lemma_more_behind(
                "integrity check failed for "@ + path@ + ": expected "@ + expected@ + ", got "@ + actual@ + " ("@ + fate,
                ")"@,
                seq![path@, expected@, actual@, fate],
            );
        },
        LseError::ExportJobMismatch { job_id, field, requested, reported } => {
            text::lemma_four_named(
                "export job "@,
                job_id@,
                " does not describe this request: "@,
                field@,
                " is "@,
                text::quoted(reported@),
                ", requested "@,
                text::quoted(requested@),
            );
        },
        LseError::UnsupportedSchema { columns } => {
            text::lemma_last_named("unsupported export schema; columns were: "@, columns@);
        },
        LseError::UnsupportedColumnType { column, required, found } => {
            text::lemma_three_named(
                "export column "@,
                text::quoted(column@),
                " is "@,
                found@,
                ", but this integration requires "@,
                required@,
            );
        },
        LseError::NullValue { column } => {
            let name = text::quoted(column@);
            text::lemma_last_named("export column "@, name);
            text::lemma_more_behind(
                "export column "@ + name,
                " is null on a row that has no substitute for it"@,
                seq![name],
            );
        },
        LseError::SymbolMismatch { expected, found } => {
            text::lemma_two_named(
                "export symbol mismatch: descriptor says "@,
                text::quoted(expected@),
                " but a row carries "@,
                text::quoted(found@),
            );
        },
        LseError::NonMonotonicTimestamps { previous, found } => {
            text::lemma_two_named(
                "export timestamps are not ascending: "@,
                shown(found),
                " follows "@,
                shown(previous),
            );
        },
        LseError::TimestampNotRepresentable { micros } => {
            let number = text::signed_decimal_text(micros as int);
            text::lemma_last_named("export timestamp "@, number);
            text::lemma_more_behind("export timestamp "@ + number, "\u{b5}s is not representable"@, seq![number]);
        },
        LseError::PriceNotRepresentable { value, message } => {
            text::lemma_two_named("price "@, value@, " is not representable as a decimal: "@, message@);
        },
        LseError::UnknownInstrument { symbol, exchange, registered } => {
            let (a, b) = (exchange.label(), text::quoted(symbol@));
            text::lemma_three_named(
                "no instrument registered on "@,
                a,
                " with exchange name "@,
                b,
                "; registered there: ["@,
                registered@,
            );
            text::lemma_more_behind(
                "no instrument registered on "@ + a + " with exchange name "@ + b + "; registered there: ["@ + registered@,
                "]"@,
                seq![a, b, registered@],
            );
        },
        LseError::Parquet { message } => {
            text::lemma_last_named("parquet error: "@, message@);
        },
        _ => {},
    }
}

/// A label says how long its resolution is: a number, and behind it the unit that it counts.
///
/// Returned are the number and the unit.
pub proof fn law_labels_say_how_long_a_resolution_is(interval: CandleInterval) -> (r: (nat, Seq<char>))
    ensures
        interval_label(interval) == text::decimal_text(r.0) + r.1,
        ({
            let (n, unit) = r;
            ||| unit == "s"@ && interval.step() is Seconds && interval.step()->Seconds_0 == n
            ||| unit == "m"@ && interval.step() is Seconds && interval.step()->Seconds_0 == n * 60
            ||| unit == "h"@ && interval.step() is Seconds && interval.step()->Seconds_0 == n * 60 * 60
            ||| unit == "d"@ && interval.step() is Seconds && interval.step()->Seconds_0 == n * 24 * 60 * 60
            ||| unit == "w"@ && interval.step() is Seconds && interval.step()->Seconds_0 == n * 7 * 24 * 60 * 60
            ||| unit == "mo"@ && interval.step() is Months && interval.step()->Months_0 == n
        }),
        dataset::interval_name(interval) is Some ==> dataset::interval_name(interval)->0 == interval_label(interval),
{
    reveal_strlit("s");
    reveal_strlit("m");
    reveal_strlit("h");
    reveal_strlit("d");
    reveal_strlit("w");
    reveal_strlit("mo");
    reveal_strlit("1s");
    reveal_strlit("5s");
    reveal_strlit("15s");
    reveal_strlit("30s");
    reveal_strlit("1m");
    reveal_strlit("3m");
    reveal_strlit("5m");
    reveal_strlit("15m");
    reveal_strlit("30m");
    reveal_strlit("1h");
    reveal_strlit("2h");
    reveal_strlit("4h");
    reveal_strlit("6h");
    reveal_strlit("8h");
    reveal_strlit("12h");
    reveal_strlit("1d");
    reveal_strlit("3d");
    reveal_strlit("1w");
    reveal_strlit("1mo");
    reveal_with_fuel(text::decimal_text, 3);
    let label = interval_label(interval);
    let (n, unit) = match interval {
        CandleInterval::Sec1 => (1nat, "s"@),
        CandleInterval::Sec5 => (5, "s"@),
        CandleInterval::Sec15 => (15, "s"@),
        CandleInterval::Sec30 => (30, "s"@),
        CandleInterval::Min1 => (1, "m"@),
        CandleInterval::Min3 => (3, "m"@),
        CandleInterval::Min5 => (5, "m"@),
        CandleInterval::Min15 => (15, "m"@),
        CandleInterval::Min30 => (30, "m"@),
        CandleInterval::Hour1 => (1, "h"@),
        CandleInterval::Hour2 => (2, "h"@),
        CandleInterval::Hour4 => (4, "h"@),
        CandleInterval::Hour6 => (6, "h"@),
        CandleInterval::Hour8 => (8, "h"@),
        CandleInterval::Hour12 => (12, "h"@),
        CandleInterval::Day1 => (1, "d"@),
        CandleInterval::Day3 => (3, "d"@),
        CandleInterval::Week1 => (1, "w"@),
        CandleInterval::Month1 => (1, "mo"@),
    };
    let digits = text::decimal_text(n);
    assert(n == 12 ==> digits =~= seq!['1', '2']);
    assert(n == 15 ==> digits =~= seq!['1', '5']);
    assert(n == 30 ==> digits =~= seq!['3', '0']);
    assert(label =~= digits + unit);
    (n, unit)
}

/// A diagnostic without an envelope is the body itself, and one in an envelope is what the envelope holds: taking off one
/// level more gives the same once there is none left.
pub proof fn law_envelopes_are_taken_off(body: Seq<char>, levels: nat)
    ensures
        json_string_field(body, "detail"@) is None ==> unwrapped(body, levels) == body,
        json_string_field(body, "detail"@) matches Some(detail) ==> unwrapped(body, levels + 1) == unwrapped(
            text::trimmed(detail),
            levels,
        ),
        unwrapped(body, 0) == body,
{
}

} // verus!
