//! Errors of the integration.

use vstd::prelude::*;
use vstd::string::*;
use crate::error::DataError;
use crate::text;
use crate::text::{exceeds, number_text, truncate};

verus! {

/// How many bytes of a payload a message shows.
pub const MAX_PAYLOAD_BYTES: usize = 100;

/// What can go wrong when data is requested from Massive.
///
/// Nothing is retried here: callers decide what to do about rate limits, lost connections and
/// refused keys. More variants may come.
#[derive(Debug, PartialEq)]
#[non_exhaustive]
#[allow(inconsistent_fields)]
pub enum MassiveError {
    /// The API refused the request for its rate. `retry_after` is in seconds.
    RateLimited { retry_after: Option<u64> },
    /// The connection was lost.
    Disconnected { reason: String },
    /// The API key was refused, or cannot be sent.
    Auth { message: String },
    /// The API answered with another status that is not a success.
    Api { status: u16, message: String },
    /// The request failed on its way.
    Http { message: String },
    /// A response does not have the expected shape.
    Deserialize { message: String, payload: String },
    /// A required environment variable is not set.
    EnvVar { var: &'static str },
    /// The input is not valid; nothing was requested.
    InvalidInput { message: String },
    /// A fetch went through more pages than any legitimate one has. It ends with this error and not
    /// with what it has: a result that was cut short looks like one that is small.
    PaginationLimitExceeded { pages: usize, limit: usize },
    /// A page named a page that was fetched before as the next one.
    CyclicPagination { url: String },
    /// A page named a next page that is not under the trusted origin, or is no URL. It is refused
    /// before it is requested, because every request carries the API key.
    UntrustedNextUrl { next_url: String, expected_origin: String },
}

impl MassiveError {
    /// The message of the error.
    pub open spec fn text(self) -> Seq<char> {
        match self {
            MassiveError::RateLimited { retry_after } => match retry_after {
                Some(seconds) => "Massive rate limited (retry after "@ + text::decimal_text(seconds as nat)
                    + "s)"@,
                None => "Massive rate limited"@,
            },
            MassiveError::Disconnected { reason } => "Massive disconnected: "@ + reason@,
            MassiveError::Auth { message } => "Massive auth failed: "@ + message@,
            MassiveError::Api { status, message } => "Massive API error ("@ + text::decimal_text(
                status as nat,
            ) + "): "@ + message@,
            MassiveError::Http { message } => "Massive HTTP error: "@ + message@,
            MassiveError::Deserialize { message, payload } => "Massive deserialize error: "@ + message@
                + " (payload: "@ + text::truncated(payload@, MAX_PAYLOAD_BYTES as nat) + (
            if text::utf8_size(payload@) > MAX_PAYLOAD_BYTES {
                "..."@
            } else {
                ""@
            }) + ")"@,
            MassiveError::EnvVar { var } => "Massive environment variable not set: "@ + var@,
            MassiveError::InvalidInput { message } => "Massive invalid input: "@ + message@,
            MassiveError::PaginationLimitExceeded { pages, limit } => "Massive pagination exceeded "@
                + text::decimal_text(limit as nat) + "-page limit (fetched "@ + text::decimal_text(
                pages as nat,
            ) + " pages) — result may be incomplete"@,
            MassiveError::CyclicPagination { url } => "Massive pagination cycle detected: next_url revisits "@
                + url@,
            MassiveError::UntrustedNextUrl { next_url, expected_origin } =>
                "Massive rejected next_url outside trusted origin "@ + expected_origin@ + ": "@ + next_url@,
        }
    }

    /// The message of the error.
    pub fn message(&self) -> (r: String)
        ensures
            r@ == self.text(),
    {
        match self {
            MassiveError::RateLimited { retry_after } => match retry_after {
                Some(seconds) => {
                    let mut out = String::from_str("Massive rate limited (retry after ");
                    out.append(number_text(*seconds).as_str());
                    out.append("s)");
                    out
                },
                None => String::from_str("Massive rate limited"),
            },
            MassiveError::Disconnected { reason } => after("Massive disconnected: ", reason),
            MassiveError::Auth { message } => after("Massive auth failed: ", message),
            MassiveError::Api { status, message } => {
                let mut out = String::from_str("Massive API error (");
                out.append(number_text(*status as u64).as_str());
                out.append("): ");
                out.append(message.as_str());
                out
            },
            MassiveError::Http { message } => after("Massive HTTP error: ", message),
            MassiveError::Deserialize { message, payload } => {
                let mut out = after("Massive deserialize error: ", message);
                out.append(" (payload: ");
                out.append(truncate(payload.as_str(), MAX_PAYLOAD_BYTES).as_str());
                if exceeds(payload.as_str(), MAX_PAYLOAD_BYTES) {
                    out.append("...");
                } else {
                    out.append("");
                }
                out.append(")");
                out
            },
            MassiveError::EnvVar { var } => {
                let mut out = String::from_str("Massive environment variable not set: ");
                out.append(var);
                out
            },
            MassiveError::InvalidInput { message } => after("Massive invalid input: ", message),
            MassiveError::PaginationLimitExceeded { pages, limit } => {
                let mut out = String::from_str("Massive pagination exceeded ");
                out.append(number_text(*limit as u64).as_str());
                out.append("-page limit (fetched ");
                out.append(number_text(*pages as u64).as_str());
                out.append(" pages) — result may be incomplete");
                out
            },
            MassiveError::CyclicPagination { url } => after(
                "Massive pagination cycle detected: next_url revisits ",
                url,
            ),
            MassiveError::UntrustedNextUrl { next_url, expected_origin } => {
                let mut out = after("Massive rejected next_url outside trusted origin ", expected_origin);
                out.append(": ");
                out.append(next_url.as_str());
                out
            },
        }
    }
}

fn after(label: &str, text: &String) -> (r: String)
    ensures
        r@ == label@ + text@,
{
    let mut out = String::from_str(label);
    out.append(text.as_str());
    out
}

/// Whether `r` is the failure of a connection with the message of `error`.
pub open spec fn is_failure_of(r: DataError, error: MassiveError) -> bool {
    r matches DataError::Socket(message) && message@ == error.text()
}

impl From<MassiveError> for DataError {
    /// The error as that of a source of market data, which holds its message.
    fn from(error: MassiveError) -> (r: DataError)
        ensures
            is_failure_of(r, error),
    {
        DataError::Socket(error.message())
    }
}

impl vstd::std_specs::convert::FromSpecImpl<MassiveError> for DataError {
    open spec fn obeys_from_spec() -> bool {
        false
    }

    open spec fn from_spec(error: MassiveError) -> DataError {
        choose|r: DataError| is_failure_of(r, error)
    }
}

/// A message names what its error carries, in the order in which the message speaks of it.
pub proof fn law_messages_name_what_they_carry(e: MassiveError)
    ensures
        e matches MassiveError::RateLimited { retry_after } ==> (retry_after is Some ==> text::names_in_order(
            e.text(),
            seq![text::decimal_text(retry_after->0 as nat)],
        )),
        e matches MassiveError::Disconnected { reason } ==> text::names_in_order(e.text(), seq![reason@]),
        e matches MassiveError::Auth { message } ==> text::names_in_order(e.text(), seq![message@]),
        e matches MassiveError::Api { status, message } ==> text::names_in_order(
            e.text(),
            seq![text::decimal_text(status as nat), message@],
        ),
        e matches MassiveError::Http { message } ==> text::names_in_order(e.text(), seq![message@]),
        e matches MassiveError::Deserialize { message, payload } ==> text::names_in_order(
            e.text(),
            seq![message@, text::truncated(payload@, MAX_PAYLOAD_BYTES as nat)],
        ),
        e matches MassiveError::EnvVar { var } ==> text::names_in_order(e.text(), seq![var@]),
        e matches MassiveError::InvalidInput { message } ==> text::names_in_order(e.text(), seq![message@]),
        e matches MassiveError::PaginationLimitExceeded { pages, limit } ==> text::names_in_order(
            e.text(),
            seq![text::decimal_text(limit as nat), text::decimal_text(pages as nat)],
        ),
        e matches MassiveError::CyclicPagination { url } ==> text::names_in_order(e.text(), seq![url@]),
        e matches MassiveError::UntrustedNextUrl { next_url, expected_origin } ==> text::names_in_order(
            e.text(),
            seq![expected_origin@, next_url@],
        ),
{
    match e {
        MassiveError::RateLimited { retry_after } => {
            if let Some(seconds) = retry_after {
                let wait = text::decimal_text(seconds as nat);
                text::lemma_last_named("Massive rate limited (retry after "@, wait);
                text::lemma_more_behind("Massive rate limited (retry after "@ + wait, "s)"@, seq![wait]);
            }
        },
        MassiveError::Disconnected { reason } => {
            text::lemma_last_named("Massive disconnected: "@, reason@);
        },
        MassiveError::Auth { message } => {
            text::lemma_last_named("Massive auth failed: "@, message@);
        },
        MassiveError::Api { status, message } => {
            text::lemma_two_named("Massive API error ("@, text::decimal_text(status as nat), "): "@, message@);
        },
        MassiveError::Http { message } => {
            text::lemma_last_named("Massive HTTP error: "@, message@);
        },
        MassiveError::Deserialize { message, payload } => {
            let kept = text::truncated(payload@, MAX_PAYLOAD_BYTES as nat);
            let dots = if text::utf8_size(payload@) > MAX_PAYLOAD_BYTES { "..."@ } else { ""@ };
            let told = "Massive deserialize error: "@ + message@ + " (payload: "@ + kept;
            text::lemma_two_named("Massive deserialize error: "@, message@, " (payload: "@, kept);
            text::lemma_more_behind(told, dots, seq![message@, kept]);
            text::lemma_more_behind(told + dots, ")"@, seq![message@, kept]);
        },
        MassiveError::EnvVar { var } => {
            text::lemma_last_named("Massive environment variable not set: "@, var@);
        },
        MassiveError::InvalidInput { message } => {
            text::lemma_last_named("Massive invalid input: "@, message@);
        },
        MassiveError::PaginationLimitExceeded { pages, limit } => {
            let (cap, count) = (text::decimal_text(limit as nat), text::decimal_text(pages as nat));
            text::lemma_two_named("Massive pagination exceeded "@, cap, "-page limit (fetched "@, count);
            text::lemma_more_behind(
                "Massive pagination exceeded "@ + cap + "-page limit (fetched "@ + count,
                " pages) — result may be incomplete"@,
                seq![cap, count],
            );
        },
        MassiveError::CyclicPagination { url } => {
            text::lemma_last_named("Massive pagination cycle detected: next_url revisits "@, url@);
        },
        MassiveError::UntrustedNextUrl { next_url, expected_origin } => {
            text::lemma_two_named(
                "Massive rejected next_url outside trusted origin "@,
                expected_origin@,
                ": "@,
                next_url@,
            );
        },
    }
}

} // verus!
