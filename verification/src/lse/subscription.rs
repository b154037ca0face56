//! What the provider answers a subscription with, and how a replay announces its bounds.

use vstd::prelude::*;
use vstd::string::*;
use crate::text;
use crate::time::Timestamp;

verus! {

/// Why a live subscription failed.
#[derive(Debug)]
pub enum SocketError {
    /// The subscription was refused, here or by the provider.
    Subscribe(String),
}

/// The answer to one subscription.
///
/// A confirmation is no evidence that the symbol exists: an unknown symbol is confirmed, never
/// ticks, and holds a slot for the life of the connection. Frames of a replay are no answers, and
/// must not be counted as confirmations.
#[derive(Debug)]
pub enum LseSubResponse {
    /// The subscription was accepted; the connection holds `count` of its `max` slots.
    Subscribed { symbol: String, count: u32, max: u32 },
    /// The subscription was rejected, without naming the symbol.
    Error { code: Option<String>, message: Option<String> },
}

/// A text, or `otherwise` where there is none.
pub open spec fn text_or(text: Option<String>, otherwise: Seq<char>) -> Seq<char> {
    match text {
        Some(text) => text@,
        None => otherwise,
    }
}

/// The message for a rejected subscription.
pub open spec fn rejection_message(code: Option<String>, message: Option<String>) -> Seq<char> {
    "London Strategic Edge rejected a subscription ("@ + text_or(code, "unknown"@) + "): "@ + text_or(
        message,
        "no message"@,
    ) + " - the rejection does not name the symbol, so the whole batch fails"@
}

/// A text, or `otherwise` where there is none.
pub(crate) fn or_else<'a>(text: &'a Option<String>, otherwise: &'a str) -> (r: &'a str)
    ensures
        r@ == text_or(*text, otherwise@),
{
    match text {
        Some(text) => text.as_str(),
        None => otherwise,
    }
}

impl LseSubResponse {
    /// Accepts a confirmation. A rejection fails the whole batch, because it does not say which
    /// symbol it is of.
    pub fn validate(self) -> (r: Result<LseSubResponse, SocketError>)
        ensures
            match self {
                LseSubResponse::Subscribed { .. } => r == Ok::<LseSubResponse, SocketError>(self),
                LseSubResponse::Error { code, message } => {
                    &&& r matches Err(SocketError::Subscribe(text))
                    &&& text@ == rejection_message(code, message)
                },
            },
    {
        match self {
            LseSubResponse::Error { code, message } => {
                let mut text = String::from_str("London Strategic Edge rejected a subscription (");
                text.append(or_else(&code, "unknown"));
                text.append("): ");
                text.append(or_else(&message, "no message"));
                text.append(" - the rejection does not name the symbol, so the whole batch fails");
                Err(SocketError::Subscribe(text))
            },
            confirmed => Ok(confirmed),
        }
    }
}

/// The frames round a replay.
#[derive(Debug)]
pub enum LseReplayFrame {
    /// The replay that the provider opened. `from` alone shows whether it moved the start.
    ReplayStarted { symbol: String, from: Timestamp },
    /// The replay is over, and the stream is live.
    ReplayComplete { symbol: String, rows: u64, buffered_drained: u64 },
}

/// A rejection is reported with the provider's code and message, in that order.
pub proof fn law_rejections_are_reported(code: String, message: String)
    ensures
        text::names_in_order(rejection_message(Some(code), Some(message)), seq![code@, message@]),
{
    text::lemma_two_named("London Strategic Edge rejected a subscription ("@, code@, "): "@, message@);
    text::lemma_more_behind(
        "London Strategic Edge rejected a subscription ("@ + code@ + "): "@ + message@,
        " - the rejection does not name the symbol, so the whole batch fails"@,
        seq![code@, message@],
    );
}

} // verus!
