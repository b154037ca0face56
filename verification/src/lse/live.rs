//! Subscribing to the live feed: authentication, the guards that run before anything is subscribed
//! to, and the subscriptions.

use vstd::prelude::*;
use vstd::string::*;
use crate::collection;
use crate::collection::{add_text, has_text};
use crate::exchange::ExchangeId;
use crate::json;
use crate::json::json_string;
use crate::lse::dataset::LseDataset;
use crate::lse::resume;
use crate::lse::resume::{find, LseResumeState};
use crate::lse::subscription;
use crate::lse::subscription::{or_else, LseReplayFrame, SocketError};
use crate::lse::tick;
use crate::lse::tick::subscription_id;
use crate::text;
use crate::text::{number_text, quote, quote_list, same_text};
use crate::time::Timestamp;

verus! {

/// How many seconds the answer to an authentication may take. It lists every symbol that the key
/// may subscribe to, so it is not small.
pub const AUTH_TIMEOUT_SECS: u64 = 15;

/// What was found under a variable of the environment.
#[derive(Debug)]
pub enum Variable {
    Missing,
    /// The value is not a text.
    NotUnicode,
    Value(String),
}

/// The key that a connection authenticates with.
///
/// It has no `Debug`: a key that reaches a log has been disclosed.
pub struct LseCredentials {
    api_key: String,
}

impl LseCredentials {
    /// The key.
    pub closed spec fn key(self) -> Seq<char> {
        self.api_key@
    }

    /// Credentials with a key.
    pub fn new(api_key: &str) -> (r: LseCredentials)
        ensures
            r.key() == api_key@,
    {
        LseCredentials { api_key: String::from_str(api_key) }
    }

    /// Credentials from what was found under `LSE_API_KEY`. A message names the variable and never
    /// its value.
    pub fn from_env(found: Variable) -> (r: Result<LseCredentials, SocketError>)
        ensures
            match found {
                Variable::Value(api_key) => r matches Ok(credentials) && credentials.key() == api_key@,
                Variable::Missing => {
                    &&& r matches Err(SocketError::Subscribe(message))
                    &&& message@ == "LSE_API_KEY is not set"@
                },
                Variable::NotUnicode => {
                    &&& r matches Err(SocketError::Subscribe(message))
                    &&& message@ == "LSE_API_KEY is set but is not valid UTF-8"@
                },
            },
    {
        match found {
            Variable::Value(api_key) => Ok(LseCredentials { api_key }),
            Variable::Missing => Err(SocketError::Subscribe(String::from_str("LSE_API_KEY is not set"))),
            Variable::NotUnicode => Err(
                SocketError::Subscribe(String::from_str("LSE_API_KEY is set but is not valid UTF-8")),
            ),
        }
    }

    /// A description without the key.
    pub fn describe(&self) -> (r: String)
        ensures
            r@ == "LseCredentials { api_key: \"[REDACTED]\" }"@,
    {
        String::from_str("LseCredentials { api_key: \"[REDACTED]\" }")
    }

    /// The message that authenticates a connection.
    pub fn auth_message(&self) -> (r: String)
        ensures
            r@ == "{\"action\":\"auth\",\"api_key\":"@ + json::json_text(self.key()) + "}"@,
    {
        let mut out = String::from_str("{\"action\":\"auth\",\"api_key\":");
        out.append(json_string(self.api_key.as_str()).as_str());
        out.append("}");
        out
    }

    /// Credentials with the same key.
    pub fn duplicate(&self) -> (r: LseCredentials)
        ensures
            r.key() == self.key(),
    {
        LseCredentials { api_key: self.api_key.clone() }
    }
}

/// One entry of the provider's list of symbols. Everything but the symbol may be absent.
#[derive(Debug)]
pub struct LseSymbol {
    /// The symbol as a subscription must spell it.
    pub symbol: String,
    pub name: Option<String>,
    pub category: Option<String>,
}

/// The provider's answer to a key that it accepts.
pub struct LseAuthenticated {
    /// The plan of the key, as the provider names it.
    pub tier: Option<String>,
    /// How many subscriptions the connection may hold, where that was reported.
    pub max_subscriptions: Option<u32>,
    /// Every symbol that the key may subscribe to.
    pub symbols: Vec<LseSymbol>,
}

/// What `{:?}` prints for an optional text.
pub open spec fn shown_text(text: Option<String>) -> Seq<char> {
    match text {
        Some(text) => "Some("@ + text::quoted(text@) + ")"@,
        None => "None"@,
    }
}

/// What `{:?}` prints for an optional number.
pub open spec fn shown_number(number: Option<u32>) -> Seq<char> {
    match number {
        Some(number) => "Some("@ + text::decimal_text(number as nat) + ")"@,
        None => "None"@,
    }
}

impl LseAuthenticated {
    /// A description that counts the symbols and does not list them: there are thousands.
    pub fn describe(&self) -> (r: String)
        ensures
            r@ == "LseAuthenticated { tier: "@ + shown_text(self.tier) + ", max_subscriptions: "@
                + shown_number(self.max_subscriptions) + ", symbols: <"@ + text::decimal_text(
                self.symbols@.len(),
            ) + " offered> }"@,
    {
        let tier = match &self.tier {
            Some(tier) => {
                let mut shown = String::from_str("Some(");
                shown.append(quote(tier.as_str()).as_str());
                shown.append(")");
                shown
            },
            None => String::from_str("None"),
        };
        let max = match self.max_subscriptions {
            Some(max) => {
                let mut shown = String::from_str("Some(");
                shown.append(number_text(max as u64).as_str());
                shown.append(")");
                shown
            },
            None => String::from_str("None"),
        };
        let mut out = String::from_str("LseAuthenticated { tier: ");
        out.append(tier.as_str());
        out.append(", max_subscriptions: ");
        out.append(max.as_str());
        out.append(", symbols: <");
        out.append(number_text(self.symbols.len() as u64).as_str());
        out.append(" offered> }");
        out
    }
}

/// A frame that may come while an authentication is awaited.
pub enum LseAuthFrame {
    Authenticated(LseAuthenticated),
    Error { code: Option<String>, message: Option<String> },
    /// The greeting that comes before any key is sent, or a frame that is not known here.
    Other,
}

/// The message for a key that was not accepted.
pub open spec fn refused_key_message(code: Option<String>, message: Option<String>) -> Seq<char> {
    "London Strategic Edge rejected authentication ("@ + subscription::text_or(code, "unknown"@) + "): "@
        + subscription::text_or(message, "no message"@)
}

/// What a frame answers to the authentication. `frame` is `None` where the text was no frame.
///
/// The server greets before it has seen a key. So only a frame that answers the key is an answer.
pub fn read_auth_frame(frame: Option<LseAuthFrame>) -> (r: Option<Result<LseAuthenticated, SocketError>>)
    ensures
        match frame {
            Some(LseAuthFrame::Authenticated(authenticated)) => r == Some(
                Ok::<LseAuthenticated, SocketError>(authenticated),
            ),
            Some(LseAuthFrame::Error { code, message }) => {
                &&& r matches Some(Err(SocketError::Subscribe(text)))
                &&& text@ == refused_key_message(code, message)
            },
            Some(LseAuthFrame::Other) => r is None,
            None => r is None,
        },
{
    match frame {
        Some(LseAuthFrame::Authenticated(authenticated)) => Some(Ok(authenticated)),
        Some(LseAuthFrame::Error { code, message }) => {
            let mut text = String::from_str("London Strategic Edge rejected authentication (");
            text.append(or_else(&code, "unknown"));
            text.append("): ");
            text.append(or_else(&message, "no message"));
            Some(Err(SocketError::Subscribe(text)))
        },
        Some(LseAuthFrame::Other) => None,
        None => None,
    }
}

/// What happens on a connection while an authentication is awaited.
pub enum AuthEvent {
    /// A text, or bytes that are one, arrived. `None` where it is no frame.
    Frame(Option<LseAuthFrame>),
    /// Something arrived that is no text.
    NoText,
    /// The connection was closed, with the closing frame as it prints.
    Closed(String),
    /// The connection ended.
    Ended,
    /// The time for the answer is over.
    TimedOut,
}

/// What to do about it.
pub enum AuthStep {
    /// Wait for what comes next.
    Wait,
    /// The key was accepted.
    Done(LseAuthenticated),
    /// The connection is of no use.
    Fail(SocketError),
}

/// Whether a step is the one that an event calls for while an authentication is awaited.
pub open spec fn is_auth_step(event: AuthEvent, step: AuthStep) -> bool {
    match event {
        AuthEvent::Frame(Some(LseAuthFrame::Authenticated(authenticated))) => step == AuthStep::Done(authenticated),
        AuthEvent::Frame(Some(LseAuthFrame::Error { code, message })) => {
            &&& step matches AuthStep::Fail(SocketError::Subscribe(text))
            &&& text@ == refused_key_message(code, message)
        },
        AuthEvent::Frame(_) => step is Wait,
        AuthEvent::NoText => step is Wait,
        AuthEvent::Closed(frame) => {
            &&& step matches AuthStep::Fail(SocketError::Subscribe(text))
            &&& text@ == "WebSocket closed during London Strategic Edge authentication: "@ + frame@
        },
        AuthEvent::Ended => {
            &&& step matches AuthStep::Fail(SocketError::Subscribe(text))
            &&& text@ == "WebSocket closed before London Strategic Edge authentication completed"@
        },
        AuthEvent::TimedOut => {
            &&& step matches AuthStep::Fail(SocketError::Subscribe(text))
            &&& text@ == "London Strategic Edge authentication timed out after "@ + text::decimal_text(
                AUTH_TIMEOUT_SECS as nat,
            ) + "s"@
        },
    }
}

/// The step that an event calls for while an authentication is awaited.
pub fn authenticate(event: AuthEvent) -> (r: AuthStep)
    ensures
        is_auth_step(event, r),
{
    match event {
        AuthEvent::Frame(frame) => match read_auth_frame(frame) {
            Some(Ok(authenticated)) => AuthStep::Done(authenticated),
            Some(Err(error)) => AuthStep::Fail(error),
            None => AuthStep::Wait,
        },
        AuthEvent::NoText => AuthStep::Wait,
        AuthEvent::Closed(frame) => {
            let mut text = String::from_str("WebSocket closed during London Strategic Edge authentication: ");
            text.append(frame.as_str());
            AuthStep::Fail(SocketError::Subscribe(text))
        },
        AuthEvent::Ended => AuthStep::Fail(
            SocketError::Subscribe(
                String::from_str("WebSocket closed before London Strategic Edge authentication completed"),
            ),
        ),
        AuthEvent::TimedOut => {
            let mut text = String::from_str("London Strategic Edge authentication timed out after ");
            text.append(number_text(AUTH_TIMEOUT_SECS).as_str());
            text.append("s");
            AuthStep::Fail(SocketError::Subscribe(text))
        },
    }
}

/// The categories of the datasets of a venue, in the order of the datasets.
pub open spec fn categories_of(datasets: Seq<LseDataset>, exchange: ExchangeId) -> Seq<Seq<char>>
    decreases datasets.len(),
{
    if datasets.len() == 0 {
        Seq::empty()
    } else {
        let before = categories_of(datasets.drop_last(), exchange);
        let dataset = datasets.last();
        match dataset.category() {
            Some(category) if dataset.exchange() == exchange => before.push(category),
            _ => before,
        }
    }
}

/// The categories that symbols of a venue may be listed under.
pub open spec fn expected(exchange: ExchangeId) -> Seq<Seq<char>> {
    categories_of(LseDataset::all(), exchange)
}

/// The characters of each of some literals.
pub open spec fn literals(items: Seq<&'static str>) -> Seq<Seq<char>> {
    items.map_values(|item: &'static str| item@)
}

/// The categories that symbols of a venue may be listed under.
///
/// Where there is none, nothing is expected: the provider publishes no category for the datasets of
/// that venue.
pub fn expected_categories(exchange: ExchangeId) -> (r: Vec<&'static str>)
    ensures
        literals(r@) == expected(exchange),
{
    let datasets = LseDataset::list();
    let mut out: Vec<&'static str> = Vec::new();
    let mut i: usize = 0;
    assert(literals(out@) =~= categories_of(datasets@.take(0), exchange));
    while i < datasets.len()
        invariant
            i <= datasets.len(),
            literals(out@) == categories_of(datasets@.take(i as int), exchange),
        decreases datasets.len() - i,
    {
        let dataset = datasets[i];
        let ghost before = out@;
        assert(datasets@.take(i + 1).drop_last() =~= datasets@.take(i as int));
        if dataset.exchange_id() == exchange {
            if let Some(category) = dataset.ws_category() {
                out.push(category);
                assert(literals(out@) =~= literals(before).push(category@));
            }
        }
        i = i + 1;
    }
    assert(datasets@.take(i as int) =~= LseDataset::all());
    out
}

/// The category that the provider lists a symbol under, by the last entry for it: `None` where it is
/// not listed, `Some(None)` where it is listed without one.
pub open spec fn listed(symbols: Seq<LseSymbol>, market: Seq<char>) -> Option<Option<String>>
    decreases symbols.len(),
{
    if symbols.len() == 0 {
        None
    } else if symbols.last().symbol@ == market {
        Some(symbols.last().category)
    } else {
        listed(symbols.drop_last(), market)
    }
}

fn look_up<'a>(symbols: &'a Vec<LseSymbol>, market: &str) -> (r: Option<&'a Option<String>>)
    ensures
        match r {
            Some(category) => listed(symbols@, market@) == Some(*category),
            None => listed(symbols@, market@) is None,
        },
{
    let mut i: usize = symbols.len();
    assert(symbols@.take(i as int) =~= symbols@);
    while i > 0
        invariant
            i <= symbols.len(),
            listed(symbols@, market@) == listed(symbols@.take(i as int), market@),
        decreases i,
    {
        i = i - 1;
        let ghost longer = symbols@.take(i + 1);
        assert(longer.last() == symbols@[i as int]);
        assert(longer.drop_last() =~= symbols@.take(i as int));
        if same_text(symbols[i].symbol.as_str(), market) {
            return Some(&symbols[i].category);
        }
    }
    None
}

/// The markets that are not listed.
pub open spec fn unknown(symbols: Seq<LseSymbol>, markets: Seq<Seq<char>>) -> Seq<Seq<char>>
    decreases markets.len(),
{
    if markets.len() == 0 {
        Seq::empty()
    } else {
        let before = unknown(symbols, markets.drop_last());
        if listed(symbols, markets.last()) is None {
            before.push(markets.last())
        } else {
            before
        }
    }
}

/// Whether a market is listed under a category that its venue does not have. No category is no
/// contradiction, and a venue without categories contradicts none.
pub open spec fn contradicts(
    symbols: Seq<LseSymbol>,
    expected: Seq<Seq<char>>,
    market: Seq<char>,
) -> bool {
    &&& listed(symbols, market) matches Some(Some(category))
    &&& expected.len() > 0
    &&& !expected.contains(category@)
}

/// The markets whose category contradicts their venue, each with that category.
pub open spec fn miscategorised(
    symbols: Seq<LseSymbol>,
    expected: Seq<Seq<char>>,
    markets: Seq<Seq<char>>,
) -> Seq<Seq<char>>
    decreases markets.len(),
{
    if markets.len() == 0 {
        Seq::empty()
    } else {
        let before = miscategorised(symbols, expected, markets.drop_last());
        let market = markets.last();
        if contradicts(symbols, expected, market) {
            before.push(market + " is "@ + listed(symbols, market)->0->0@)
        } else {
            before
        }
    }
}

/// The message for symbols that are not offered.
pub open spec fn unknown_message(unknown: Seq<Seq<char>>) -> Seq<char> {
    "London Strategic Edge does not offer "@ + text::quoted_list(unknown)
        + " on its WebSocket - a symbol may be reachable through the catalog or the candle store and still be absent here, and subscribing to one the provider does not offer is CONFIRMED rather than rejected, then never ticks, while holding a subscription slot for the life of the connection"@
}

/// The message for symbols of another dataset.
pub open spec fn miscategorised_message(
    exchange: ExchangeId,
    miscategorised: Seq<Seq<char>>,
    expected: Seq<Seq<char>>,
) -> Seq<char> {
    "London Strategic Edge categorises "@ + text::quoted_list(miscategorised) + ", which does not match "@
        + exchange.label() + " (expected "@ + text::quoted_list(expected)
        + ") - the symbol exists, but on a different dataset than the one being subscribed"@
}

fn owned(items: &Vec<&'static str>) -> (r: Vec<String>)
    ensures
        text::texts(r@) == literals(items@),
{
    let mut out: Vec<String> = Vec::new();
    let mut i: usize = 0;
    while i < items.len()
        invariant
            i <= items.len(),
            out.len() == i,
            forall|k: int| 0 <= k < i ==> (#[trigger] out@[k])@ == items@[k]@,
        decreases items.len() - i,
    {
        out.push(String::from_str(items[i]));
        i = i + 1;
    }
    assert(text::texts(out@) =~= literals(items@));
    out
}

/// Checks requested markets against the provider's list of symbols.
///
/// The provider confirms a symbol that it does not offer, never sends a tick of it, and holds the
/// slot for the life of the connection. An empty list checks nothing.
pub fn check_symbols_are_offered(
    exchange: ExchangeId,
    markets: &Vec<String>,
    authenticated: &LseAuthenticated,
) -> (r: Result<(), SocketError>)
    ensures
        ({
            let symbols = authenticated.symbols@;
            let requested = text::texts(markets@);
            let wrong = miscategorised(symbols, expected(exchange), requested);
            if symbols.len() == 0 {
                r is Ok
            } else if unknown(symbols, requested).len() > 0 {
                &&& r matches Err(SocketError::Subscribe(message))
                &&& message@ == unknown_message(unknown(symbols, requested))
            } else if wrong.len() > 0 {
                &&& r matches Err(SocketError::Subscribe(message))
                &&& message@ == miscategorised_message(exchange, wrong, expected(exchange))
            } else {
                r is Ok
            }
        }),
{
    if authenticated.symbols.len() == 0 {
        return Ok(());
    }
    let categories = owned(&expected_categories(exchange));
    let ghost symbols = authenticated.symbols@;
    let ghost requested = text::texts(markets@);
    let mut missing: Vec<String> = Vec::new();
    let mut wrong: Vec<String> = Vec::new();
    let mut i: usize = 0;
    assert(text::texts(missing@) =~= unknown(symbols, requested.take(0)));
    assert(text::texts(wrong@) =~= miscategorised(symbols, expected(exchange), requested.take(0)));
    while i < markets.len()
        invariant
            i <= markets.len(),
            symbols == authenticated.symbols@,
            requested == text::texts(markets@),
            text::texts(categories@) == expected(exchange),
            text::texts(missing@) == unknown(symbols, requested.take(i as int)),
            text::texts(wrong@) == miscategorised(symbols, expected(exchange), requested.take(i as int)),
        decreases markets.len() - i,
    {
        let ghost missing_before = missing@;
        let ghost wrong_before = wrong@;
        proof {
            let longer = requested.take(i + 1);
            assert(longer.drop_last() =~= requested.take(i as int));
            assert(longer.last() == markets@[i as int]@);
            assert(text::texts(categories@).len() == categories@.len());
        }
        match look_up(&authenticated.symbols, markets[i].as_str()) {
            None => {
                missing.push(markets[i].clone());
                assert(text::texts(missing@) =~= text::texts(missing_before).push(markets@[i as int]@));
            },
            Some(category) => {
                if let Some(category) = category {
                    if categories.len() > 0 && !has_text(&categories, category.as_str()) {
                        let mut entry = markets[i].clone();
                        entry.append(" is ");
                        entry.append(category.as_str());
                        let ghost shown = entry@;
                        wrong.push(entry);
                        assert(text::texts(wrong@) =~= text::texts(wrong_before).push(shown));
                    }
                }
            },
        }
        i = i + 1;
    }
    assert(requested.take(i as int) =~= requested);
    assert(text::texts(missing@).len() == missing@.len());
    assert(text::texts(wrong@).len() == wrong@.len());
    if missing.len() > 0 {
        let mut message = String::from_str("London Strategic Edge does not offer ");
        message.append(quote_list(&missing).as_str());
        message.append(
            " on its WebSocket - a symbol may be reachable through the catalog or the candle store and still be absent here, and subscribing to one the provider does not offer is CONFIRMED rather than rejected, then never ticks, while holding a subscription slot for the life of the connection",
        );
        return Err(SocketError::Subscribe(message));
    }
    if wrong.len() > 0 {
        let mut message = String::from_str("London Strategic Edge categorises ");
        message.append(quote_list(&wrong).as_str());
        message.append(", which does not match ");
        message.append(exchange.display_name());
        message.append(" (expected ");
        message.append(quote_list(&categories).as_str());
        message.append(") - the symbol exists, but on a different dataset than the one being subscribed");
        return Err(SocketError::Subscribe(message));
    }
    Ok(())
}

/// The message for a batch that is larger than the connection.
pub open spec fn cap_message(exchange: ExchangeId, count: nat, cap: nat) -> Seq<char> {
    text::decimal_text(count) + " symbols requested on "@ + exchange.label()
        + " but this connection holds at most "@ + text::decimal_text(cap)
        + " - the provider's rejection does not name the symbols it refuses, so there is no partial subscription to recover and the batch is rejected before it is sent"@
}

/// Refuses a batch that is larger than the connection may hold. A connection without a reported cap
/// takes any batch: the provider still refuses one that is too large.
pub fn check_subscription_cap(
    exchange: ExchangeId,
    markets: &Vec<String>,
    max_subscriptions: Option<u32>,
) -> (r: Result<(), SocketError>)
    ensures
        match max_subscriptions {
            Some(max) if markets.len() > max => {
                &&& r matches Err(SocketError::Subscribe(message))
                &&& message@ == cap_message(exchange, markets@.len(), max as nat)
            },
            _ => r is Ok,
        },
{
    let max = match max_subscriptions {
        Some(max) => max,
        None => {
            return Ok(());
        },
    };
    if markets.len() as u64 > max as u64 {
        let mut message = number_text(markets.len() as u64);
        message.append(" symbols requested on ");
        message.append(exchange.display_name());
        message.append(" but this connection holds at most ");
        message.append(number_text(max as u64).as_str());
        message.append(
            " - the provider's rejection does not name the symbols it refuses, so there is no partial subscription to recover and the batch is rejected before it is sent",
        );
        return Err(SocketError::Subscribe(message));
    }
    Ok(())
}

/// The distinct symbols of a batch, in the order in which they were requested.
///
/// Two subscriptions of one symbol are one slot and one confirmation.
pub fn requested_markets(symbols: &Vec<String>) -> (r: Vec<String>)
    ensures
        text::texts(r@) == collection::first_seen(text::texts(symbols@)),
{
    let ghost all = text::texts(symbols@);
    let mut markets: Vec<String> = Vec::new();
    let mut i: usize = 0;
    assert(text::texts(markets@) =~= collection::first_seen(all.take(0)));
    while i < symbols.len()
        invariant
            i <= symbols.len(),
            all == text::texts(symbols@),
            text::texts(markets@) == collection::first_seen(all.take(i as int)),
        decreases symbols.len() - i,
    {
        assert(all.take(i + 1).drop_last() =~= all.take(i as int));
        assert(all.take(i + 1).last() == symbols@[i as int]@);
        add_text(&mut markets, &symbols[i]);
        i = i + 1;
    }
    assert(all.take(i as int) =~= all);
    markets
}

/// The message that subscribes to a symbol, with a replay from a number of seconds since 1970 where
/// there is one.
pub open spec fn subscription_text(symbol: Seq<char>, start: Option<String>) -> Seq<char> {
    match start {
        Some(start) => "{\"action\":\"subscribe\",\"start\":"@ + start@ + ",\"symbol\":"@ + json::json_text(
            symbol,
        ) + "}"@,
        None => "{\"action\":\"subscribe\",\"symbol\":"@ + json::json_text(symbol) + "}"@,
    }
}

/// The message that subscribes to a symbol. `start` is the text of a JSON number: seconds since
/// 1970, from which on the provider replays.
pub fn subscribe_message(symbol: &str, start: &Option<String>) -> (r: String)
    ensures
        r@ == subscription_text(symbol@, *start),
{
    match start {
        Some(start) => {
            let mut out = String::from_str("{\"action\":\"subscribe\",\"start\":");
            out.append(start.as_str());
            out.append(",\"symbol\":");
            out.append(json_string(symbol).as_str());
            out.append("}");
            out
        },
        None => {
            let mut out = String::from_str("{\"action\":\"subscribe\",\"symbol\":");
            out.append(json_string(symbol).as_str());
            out.append("}");
            out
        },
    }
}

/// The replays that the provider opened later than requested, as symbol, requested instant and
/// served instant.
pub open spec fn clamped(
    requested: Seq<(String, Timestamp)>,
    frames: Seq<LseReplayFrame>,
) -> Seq<(Seq<char>, Timestamp, Timestamp)>
    decreases frames.len(),
{
    if frames.len() == 0 {
        Seq::empty()
    } else {
        let before = clamped(requested, frames.drop_last());
        match frames.last() {
            LseReplayFrame::ReplayStarted { symbol, from } => match resume::found(requested, symbol@) {
                Some(start) if start.before(from) => before.push((symbol@, start, from)),
                _ => before,
            },
            LseReplayFrame::ReplayComplete { .. } => before,
        }
    }
}

/// The characters of the symbol of each clamp.
pub open spec fn shown_clamps(clamps: Seq<(String, Timestamp, Timestamp)>) -> Seq<(Seq<char>, Timestamp, Timestamp)> {
    clamps.map_values(|clamp: (String, Timestamp, Timestamp)| (clamp.0@, clamp.1, clamp.2))
}

/// The replays that the provider opened later than requested, as symbol, requested instant and
/// served instant.
///
/// The provider moves a start that is too old forward, without an error. A replay that begins where
/// it was requested is none of these, nor is one for a symbol that requested none.
pub fn clamped_replays(requested: &Vec<(String, Timestamp)>, frames: &Vec<LseReplayFrame>) -> (r: Vec<
    (String, Timestamp, Timestamp),
>)
    ensures
        shown_clamps(r@) == clamped(requested@, frames@),
{
    let mut out: Vec<(String, Timestamp, Timestamp)> = Vec::new();
    let mut i: usize = 0;
    assert(shown_clamps(out@) =~= clamped(requested@, frames@.take(0)));
    while i < frames.len()
        invariant
            i <= frames.len(),
            shown_clamps(out@) == clamped(requested@, frames@.take(i as int)),
        decreases frames.len() - i,
    {
        let ghost before = out@;
        assert(frames@.take(i + 1).drop_last() =~= frames@.take(i as int));
        assert(frames@.take(i + 1).last() == frames@[i as int]);
        if let LseReplayFrame::ReplayStarted { symbol, from } = &frames[i] {
            match find(requested, symbol.as_str()) {
                Some(at) => {
                    proof {
                        resume::lemma_found(requested@, symbol@, at as int);
                    }
                    let start = requested[at].1;
                    if start.is_before(from) {
                        out.push((symbol.clone(), start, *from));
                        assert(shown_clamps(out@) =~= shown_clamps(before).push((symbol@, start, *from)));
                    }
                },
                None => {
                    proof {
                        resume::lemma_absent(requested@, symbol@);
                    }
                },
            }
        }
        i = i + 1;
    }
    assert(frames@.take(i as int) =~= frames@);
    out
}

/// One subscription to send.
#[derive(Debug)]
pub struct SubscribeRequest {
    pub symbol: String,
    /// The instant from which on the provider is asked to replay, that instant included.
    pub start: Option<Timestamp>,
}

/// What opens live streams: credentials, and the watermarks to resume at where resumption is wanted.
///
/// Resumption is off unless asked for, because the replay that it triggers can be large.
pub struct LseSubscriber {
    credentials: LseCredentials,
    resume: Option<LseResumeState>,
}

impl LseSubscriber {
    /// The credentials.
    pub closed spec fn keys(self) -> LseCredentials {
        self.credentials
    }

    /// Whether resumption is wanted.
    pub closed spec fn resumes(self) -> bool {
        self.resume is Some
    }

    /// The instant at which a market is resumed, where anything of it has been delivered.
    pub closed spec fn start_of(self, market: Seq<char>) -> Option<Timestamp> {
        match self.resume {
            Some(state) => match state.mark(tick::id_of(market)) {
                Some(mark) => Some(mark.time_exchange),
                None => None,
            },
            None => None,
        }
    }

    /// A subscriber that does not resume.
    pub fn new(credentials: LseCredentials) -> (r: LseSubscriber)
        ensures
            r.keys() == credentials,
            !r.resumes(),
            forall|market: Seq<char>| (#[trigger] r.start_of(market)) is None,
    {
        LseSubscriber { credentials, resume: None }
    }

    /// The subscriber, resuming at the watermarks of `state`.
    pub fn with_resume(self, state: LseResumeState) -> (r: LseSubscriber)
        ensures
            r.keys() == self.keys(),
            r.resumes(),
            forall|market: Seq<char>|
                #[trigger] r.start_of(market) == match state.mark(tick::id_of(market)) {
                    Some(mark) => Some(mark.time_exchange),
                    None => None,
                },
    {
        LseSubscriber { credentials: self.credentials, resume: Some(state) }
    }

    /// The credentials.
    pub fn credentials(&self) -> (r: &LseCredentials)
        ensures
            *r == self.keys(),
    {
        &self.credentials
    }

    /// The watermarks to resume at, where resumption is wanted.
    pub fn resume_state(&self) -> (r: Option<&LseResumeState>)
        ensures
            (r is Some) == self.resumes(),
            r matches Some(state) ==> forall|market: Seq<char>|
                #[trigger] self.start_of(market) == match state.mark(tick::id_of(market)) {
                    Some(mark) => Some(mark.time_exchange),
                    None => None,
                },
    {
        match &self.resume {
            Some(state) => Some(state),
            None => None,
        }
    }

    /// The instant from which on a subscription asks for a replay: the watermark's, unchanged. A
    /// later one would lose what is left of that instant, and an earlier one would repeat what was
    /// delivered before it.
    pub fn resume_start(&self, market: &str) -> (r: Option<Timestamp>)
        ensures
            r == self.start_of(market@),
    {
        match &self.resume {
            Some(state) => match state.watermark(subscription_id(market).as_str()) {
                Some(mark) => Some(mark.time_exchange),
                None => None,
            },
            None => None,
        }
    }

    /// Checks a batch against the provider's answer, and gives the subscriptions to send: one for
    /// each distinct symbol, in the order in which they were requested.
    ///
    /// Every guard runs before anything is sent, so a batch that fails costs no slot.
    pub fn subscribe(
        &self,
        exchange: ExchangeId,
        symbols: &Vec<String>,
        authenticated: &LseAuthenticated,
    ) -> (r: Result<Vec<SubscribeRequest>, SocketError>)
        ensures
            self.answers_batch(exchange, symbols@, *authenticated, r),
    {
        let markets = requested_markets(symbols);
        let ghost distinct = text::texts(markets@);
        assert(distinct.len() == markets@.len());
        if let Err(error) = check_subscription_cap(exchange, &markets, authenticated.max_subscriptions) {
            return Err(error);
        }
        if let Err(error) = check_symbols_are_offered(exchange, &markets, authenticated) {
            return Err(error);
        }
        let mut requests: Vec<SubscribeRequest> = Vec::new();
        let mut i: usize = 0;
        while i < markets.len()
            invariant
                i <= markets.len(),
                distinct == text::texts(markets@),
                requests.len() == i,
                forall|k: int|
                    0 <= k < i ==> (#[trigger] requests@[k]).symbol@ == distinct[k] && requests@[k].start
                        == self.start_of(distinct[k]),
            decreases markets.len() - i,
        {
            let start = self.resume_start(markets[i].as_str());
            requests.push(SubscribeRequest { symbol: markets[i].clone(), start });
            i = i + 1;
        }
        Ok(requests)
    }

    /// What a batch is answered with: a refusal where it is larger than the connection, where a
    /// symbol is not offered or where one is of another dataset, and the subscriptions otherwise.
    pub open spec fn answers_batch(
        self,
        exchange: ExchangeId,
        symbols: Seq<String>,
        authenticated: LseAuthenticated,
        r: Result<Vec<SubscribeRequest>, SocketError>,
    ) -> bool {
        let markets = collection::first_seen(text::texts(symbols));
        let offered = authenticated.symbols@;
        let missing = unknown(offered, markets);
        let wrong = miscategorised(offered, expected(exchange), markets);
        if authenticated.max_subscriptions is Some && markets.len() > authenticated.max_subscriptions->0 {
            &&& r matches Err(SocketError::Subscribe(message))
            &&& message@ == cap_message(exchange, markets.len(), authenticated.max_subscriptions->0 as nat)
        } else if offered.len() > 0 && missing.len() > 0 {
            &&& r matches Err(SocketError::Subscribe(message))
            &&& message@ == unknown_message(missing)
        } else if offered.len() > 0 && wrong.len() > 0 {
            &&& r matches Err(SocketError::Subscribe(message))
            &&& message@ == miscategorised_message(exchange, wrong, expected(exchange))
        } else {
            &&& r matches Ok(requests)
            &&& requests@.len() == markets.len()
            &&& forall|k: int|
                0 <= k < markets.len() ==> (#[trigger] requests@[k]).symbol@ == markets[k]
                    && requests@[k].start == self.start_of(markets[k])
        }
    }
}

proof fn lemma_known(symbols: Seq<LseSymbol>, markets: Seq<Seq<char>>)
    requires
        unknown(symbols, markets).len() == 0,
    ensures
        forall|k: int| 0 <= k < markets.len() ==> listed(symbols, #[trigger] markets[k]) is Some,
    decreases markets.len(),
{
    if markets.len() > 0 {
        lemma_known(symbols, markets.drop_last());
        assert forall|k: int| 0 <= k < markets.len() implies listed(symbols, #[trigger] markets[k]) is Some by {
            if k < markets.len() - 1 {
                assert(markets.drop_last()[k] == markets[k]);
            }
        }
    }
}

proof fn lemma_consistent(symbols: Seq<LseSymbol>, expected: Seq<Seq<char>>, markets: Seq<Seq<char>>)
    requires
        miscategorised(symbols, expected, markets).len() == 0,
    ensures
        forall|k: int| 0 <= k < markets.len() ==> !contradicts(symbols, expected, #[trigger] markets[k]),
    decreases markets.len(),
{
    if markets.len() > 0 {
        lemma_consistent(symbols, expected, markets.drop_last());
        assert forall|k: int| 0 <= k < markets.len() implies !contradicts(
            symbols,
            expected,
            #[trigger] markets[k],
        ) by {
            if k < markets.len() - 1 {
                assert(markets.drop_last()[k] == markets[k]);
            }
        }
    }
}

/// A batch that is sent wastes no slot: it fits the connection, asks for no symbol twice, asks for
/// every symbol that was requested and for no other, and asks only for symbols that the provider
/// lists, under no category that contradicts the venue.
pub proof fn law_sent_batch_wastes_no_slot(
    subscriber: LseSubscriber,
    exchange: ExchangeId,
    symbols: Seq<String>,
    authenticated: LseAuthenticated,
    requests: Vec<SubscribeRequest>,
)
    requires
        subscriber.answers_batch(exchange, symbols, authenticated, Ok(requests)),
    ensures
        authenticated.max_subscriptions matches Some(max) ==> requests@.len() <= max,
        forall|i: int, j: int|
            0 <= i < j < requests@.len() ==> (#[trigger] requests@[i]).symbol@ != (
            #[trigger] requests@[j]).symbol@,
        forall|market: Seq<char>|
            text::texts(symbols).contains(market) <==> exists|k: int|
                0 <= k < requests@.len() && (#[trigger] requests@[k]).symbol@ == market,
        authenticated.symbols@.len() > 0 ==> forall|k: int|
            0 <= k < requests@.len() ==> listed(
                authenticated.symbols@,
                (#[trigger] requests@[k]).symbol@,
            ) is Some && !contradicts(authenticated.symbols@, expected(exchange), requests@[k].symbol@),
{
    let all = text::texts(symbols);
    let markets = collection::first_seen(all);
    let offered = authenticated.symbols@;
    collection::law_first_seen(all);
    assert forall|market: Seq<char>| all.contains(market) implies exists|k: int|
        0 <= k < requests@.len() && (#[trigger] requests@[k]).symbol@ == market by {
        assert(markets.contains(market));
        let k = choose|k: int| 0 <= k < markets.len() && markets[k] == market;
        assert(requests@[k].symbol@ == market);
    }
    assert forall|market: Seq<char>|
        (exists|k: int| 0 <= k < requests@.len() && (#[trigger] requests@[k]).symbol@ == market) implies all.contains(
        market,
    ) by {
        let k = choose|k: int| 0 <= k < requests@.len() && (#[trigger] requests@[k]).symbol@ == market;
        assert(markets[k] == market);
        assert(markets.contains(market));
    }
    if offered.len() > 0 {
        lemma_known(offered, markets);
        lemma_consistent(offered, expected(exchange), markets);
        assert forall|k: int| 0 <= k < requests@.len() implies listed(
            offered,
            (#[trigger] requests@[k]).symbol@,
        ) is Some && !contradicts(offered, expected(exchange), requests@[k].symbol@) by {
            assert(requests@[k].symbol@ == markets[k]);
        }
    }
}

proof fn lemma_categories_are_of_datasets(datasets: Seq<LseDataset>, exchange: ExchangeId, category: Seq<char>)
    ensures
        categories_of(datasets, exchange).contains(category) <==> exists|k: int|
            0 <= k < datasets.len() && (#[trigger] datasets[k]).exchange() == exchange && datasets[k].category()
                == Some(category),
    decreases datasets.len(),
{
    let all = categories_of(datasets, exchange);
    if datasets.len() > 0 {
        let shorter = datasets.drop_last();
        let before = categories_of(shorter, exchange);
        lemma_categories_are_of_datasets(shorter, exchange, category);
        if all.contains(category) {
            let p = choose|p: int| 0 <= p < all.len() && all[p] == category;
            if p < before.len() {
                assert(before[p] == category);
                assert(before.contains(category));
                let k = choose|k: int|
                    0 <= k < shorter.len() && (#[trigger] shorter[k]).exchange() == exchange
                        && shorter[k].category() == Some(category);
                assert(datasets[k] == shorter[k]);
            } else {
                assert(datasets[datasets.len() - 1].category() == Some(category));
            }
        }
        if exists|k: int|
            0 <= k < datasets.len() && (#[trigger] datasets[k]).exchange() == exchange && datasets[k].category()
                == Some(category) {
            let k = choose|k: int|
                0 <= k < datasets.len() && (#[trigger] datasets[k]).exchange() == exchange
                    && datasets[k].category() == Some(category);
            if k < shorter.len() {
                assert(shorter[k] == datasets[k]);
                assert(before.contains(category));
                let p = choose|p: int| 0 <= p < before.len() && before[p] == category;
                assert(all[p] == category);
            } else {
                assert(all[before.len() as int] == category);
            }
        }
    }
}

/// What a venue expects is exactly what the provider publishes for the datasets of that venue, so no
/// symbol is refused for a category that nothing carries.
pub proof fn law_expectations_are_published(exchange: ExchangeId, category: Seq<char>)
    ensures
        expected(exchange).contains(category) <==> exists|dataset: LseDataset|
            (#[trigger] dataset.exchange()) == exchange && dataset.category() == Some(category),
{
    let all = LseDataset::all();
    lemma_categories_are_of_datasets(all, exchange, category);
    if expected(exchange).contains(category) {
        let k = choose|k: int|
            0 <= k < all.len() && (#[trigger] all[k]).exchange() == exchange && all[k].category() == Some(category);
        assert(all[k].exchange() == exchange);
    }
    if exists|dataset: LseDataset|
        (#[trigger] dataset.exchange()) == exchange && dataset.category() == Some(category) {
        let dataset = choose|dataset: LseDataset|
            (#[trigger] dataset.exchange()) == exchange && dataset.category() == Some(category);
        lemma_all_datasets(dataset);
        let k = choose|k: int| 0 <= k < all.len() && all[k] == dataset;
        assert(all[k].exchange() == exchange);
    }
}

proof fn lemma_all_datasets(dataset: LseDataset)
    ensures
        LseDataset::all().contains(dataset),
{
    let all = LseDataset::all();
    assert(all[0] == LseDataset::Fx);
    assert(all[1] == LseDataset::Crypto);
    assert(all[2] == LseDataset::Stocks);
    assert(all[3] == LseDataset::Etf);
    assert(all[4] == LseDataset::Futures);
    assert(all[5] == LseDataset::Commodities);
    assert(all[6] == LseDataset::Indices);
    assert(all[7] == LseDataset::Volatility);
    assert(all[8] == LseDataset::InterestRates);
    assert(all[9] == LseDataset::CurrencyIndex);
}

/// Two venues never expect the same category.
pub proof fn law_venues_share_no_category(a: ExchangeId, b: ExchangeId, category: Seq<char>)
    requires
        expected(a).contains(category),
        expected(b).contains(category),
    ensures
        a == b,
{
    law_expectations_are_published(a, category);
    law_expectations_are_published(b, category);
    reveal_strlit("Forex");
    reveal_strlit("Crypto");
    reveal_strlit("Stocks");
    reveal_strlit("ETFs");
    reveal_strlit("Commodities");
    reveal_strlit("Indices");
    let x = choose|dataset: LseDataset|
        (#[trigger] dataset.exchange()) == a && dataset.category() == Some(category);
    let y = choose|dataset: LseDataset|
        (#[trigger] dataset.exchange()) == b && dataset.category() == Some(category);
    assert("Forex"@[0] == 'F' && "Crypto"@[0] == 'C' && "Stocks"@[0] == 'S' && "ETFs"@[0] == 'E');
    assert("Commodities"@[0] == 'C' && "Indices"@[0] == 'I' && "Commodities"@.len() == 11 && "Crypto"@.len() == 6);
}

/// An authentication ends with the provider's answer to the key, and with nothing that came before it: it is done exactly
/// for a frame that accepts the key, goes on waiting for any other frame that is no refusal, and fails for a refusal, for
/// a connection that is gone and when its time is over.
pub proof fn law_only_an_answer_ends_authentication(event: AuthEvent, step: AuthStep)
    requires
        is_auth_step(event, step),
    ensures
        step is Done <==> (event matches AuthEvent::Frame(frame) && frame is Some && frame->0 is Authenticated),
        step matches AuthStep::Done(found) ==> event->Frame_0->0->Authenticated_0 == found,
        step is Fail <==> event is Closed || event is Ended || event is TimedOut || (event matches AuthEvent::Frame(frame)
            && frame is Some && frame->0 is Error),
{
}

/// The provider's list is read by its last entry for a symbol, and a symbol without an entry is not listed.
///
/// Returned is that entry.
pub proof fn law_the_last_entry_lists_a_symbol(symbols: Seq<LseSymbol>, market: Seq<char>) -> (at: int)
    ensures
        match listed(symbols, market) {
            Some(category) => {
                &&& 0 <= at < symbols.len()
                &&& symbols[at].symbol@ == market
                &&& symbols[at].category == category
                &&& forall|k: int| at < k < symbols.len() ==> (#[trigger] symbols[k]).symbol@ != market
            },
            None => forall|k: int| 0 <= k < symbols.len() ==> (#[trigger] symbols[k]).symbol@ != market,
        },
    decreases symbols.len(),
{
    if symbols.len() == 0 {
        0
    } else if symbols.last().symbol@ == market {
        symbols.len() - 1
    } else {
        let shorter = symbols.drop_last();
        let at = law_the_last_entry_lists_a_symbol(shorter, market);
        assert(forall|k: int| 0 <= k < shorter.len() ==> #[trigger] symbols[k] == shorter[k]);
        at
    }
}

/// Whether the provider's list speaks against a symbol on a venue: it has entries but none for the symbol, or the last one
/// for it names a category that is not one of the venue's, which has some.
pub open spec fn is_spoken_against(symbols: Seq<LseSymbol>, exchange: ExchangeId, market: Seq<char>) -> bool {
    &&& symbols.len() > 0
    &&& {
        ||| forall|k: int| 0 <= k < symbols.len() ==> (#[trigger] symbols[k]).symbol@ != market
        ||| exists|at: int|
            {
                &&& 0 <= at < symbols.len()
                &&& (#[trigger] symbols[at]).symbol@ == market
                &&& forall|k: int| at < k < symbols.len() ==> (#[trigger] symbols[k]).symbol@ != market
                &&& symbols[at].category is Some
                &&& expected(exchange).len() > 0
                &&& !expected(exchange).contains(symbols[at].category->0@)
            }
    }
}

proof fn lemma_spoken_against(symbols: Seq<LseSymbol>, exchange: ExchangeId, market: Seq<char>)
    requires
        symbols.len() > 0,
    ensures
        is_spoken_against(symbols, exchange, market) <==> listed(symbols, market) is None || contradicts(
            symbols,
            expected(exchange),
            market,
        ),
{
    let at = law_the_last_entry_lists_a_symbol(symbols, market);
    if listed(symbols, market) is Some {
        assert(symbols[at].symbol@ == market);
        if is_spoken_against(symbols, exchange, market) {
            let other = choose|other: int|
                {
                    &&& 0 <= other < symbols.len()
                    &&& (#[trigger] symbols[other]).symbol@ == market
                    &&& forall|k: int| other < k < symbols.len() ==> (#[trigger] symbols[k]).symbol@ != market
                    &&& symbols[other].category is Some
                    &&& expected(exchange).len() > 0
                    &&& !expected(exchange).contains(symbols[other].category->0@)
                };
            assert(other == at);
        }
    }
}

proof fn lemma_some_unknown(symbols: Seq<LseSymbol>, markets: Seq<Seq<char>>) -> (k: int)
    requires
        unknown(symbols, markets).len() > 0,
    ensures
        0 <= k < markets.len(),
        listed(symbols, markets[k]) is None,
    decreases markets.len(),
{
    if listed(symbols, markets.last()) is None {
        markets.len() - 1
    } else {
        lemma_some_unknown(symbols, markets.drop_last())
    }
}

proof fn lemma_some_miscategorised(symbols: Seq<LseSymbol>, expected: Seq<Seq<char>>, markets: Seq<Seq<char>>) -> (k: int)
    requires
        miscategorised(symbols, expected, markets).len() > 0,
    ensures
        0 <= k < markets.len(),
        contradicts(symbols, expected, markets[k]),
    decreases markets.len(),
{
    if contradicts(symbols, expected, markets.last()) {
        markets.len() - 1
    } else {
        lemma_some_miscategorised(symbols, expected, markets.drop_last())
    }
}

/// A batch is refused exactly where its distinct symbols are more than the connection may hold, or where the provider's list
/// speaks against one of them; otherwise each is subscribed to once, in the order in which they were first requested, from
/// where the subscriber resumes it.
pub proof fn law_batches_are_refused_for_a_reason(
    subscriber: LseSubscriber,
    exchange: ExchangeId,
    symbols: Seq<String>,
    authenticated: LseAuthenticated,
    r: Result<Vec<SubscribeRequest>, SocketError>,
)
    requires
        subscriber.answers_batch(exchange, symbols, authenticated, r),
    ensures
        r is Err <==> {
            ||| authenticated.max_subscriptions is Some && collection::first_seen(text::texts(symbols)).len()
                > authenticated.max_subscriptions->0
            ||| exists|k: int|
                0 <= k < symbols.len() && is_spoken_against(
                    authenticated.symbols@,
                    exchange,
                    (#[trigger] symbols[k])@,
                )
        },
        r matches Ok(requests) ==> {
            &&& requests@.len() == collection::first_seen(text::texts(symbols)).len()
            &&& forall|k: int|
                0 <= k < requests@.len() ==> (#[trigger] requests@[k]).symbol@ == collection::first_seen(
                    text::texts(symbols),
                )[k] && requests@[k].start == subscriber.start_of(requests@[k].symbol@)
        },
{
    let all = text::texts(symbols);
    let markets = collection::first_seen(all);
    let offered = authenticated.symbols@;
    collection::law_first_seen(all);
    let too_many = authenticated.max_subscriptions is Some && markets.len() > authenticated.max_subscriptions->0;
    if offered.len() > 0 {
        if unknown(offered, markets).len() > 0 {
            let p = lemma_some_unknown(offered, markets);
            lemma_requested(symbols, markets[p]);
            let k = choose|k: int| 0 <= k < symbols.len() && (#[trigger] symbols[k])@ == markets[p];
            lemma_spoken_against(offered, exchange, markets[p]);
            assert(is_spoken_against(offered, exchange, symbols[k]@));
        } else if miscategorised(offered, expected(exchange), markets).len() > 0 {
            let p = lemma_some_miscategorised(offered, expected(exchange), markets);
            lemma_requested(symbols, markets[p]);
            let k = choose|k: int| 0 <= k < symbols.len() && (#[trigger] symbols[k])@ == markets[p];
            lemma_spoken_against(offered, exchange, markets[p]);
            assert(is_spoken_against(offered, exchange, symbols[k]@));
        } else {
            lemma_known(offered, markets);
            lemma_consistent(offered, expected(exchange), markets);
            assert forall|k: int| 0 <= k < symbols.len() implies !is_spoken_against(
                offered,
                exchange,
                (#[trigger] symbols[k])@,
            ) by {
                assert(all[k] == symbols[k]@);
                assert(all.contains(symbols[k]@));
                assert(markets.contains(symbols[k]@));
                let p = choose|p: int| 0 <= p < markets.len() && markets[p] == symbols[k]@;
                assert(listed(offered, markets[p]) is Some);
                lemma_spoken_against(offered, exchange, symbols[k]@);
            }
        }
    }
}

proof fn lemma_requested(symbols: Seq<String>, market: Seq<char>)
    requires
        collection::first_seen(text::texts(symbols)).contains(market),
    ensures
        exists|k: int| 0 <= k < symbols.len() && (#[trigger] symbols[k])@ == market,
{
    let all = text::texts(symbols);
    collection::law_first_seen(all);
    assert(all.contains(market));
    let k = choose|k: int| 0 <= k < all.len() && all[k] == market;
    assert(symbols[k]@ == market);
}

/// A subscription names its symbol, and the start of its replay where it has one: reading them from the message gives them
/// back.
pub proof fn law_subscriptions_name_symbol_and_start(symbol: Seq<char>, start: Option<String>)
    requires
        start matches Some(number) ==> !number@.contains(','),
    ensures
        start is None ==> subscription_text(symbol, start) == "{\"action\":\"subscribe\",\"symbol\":"@ + json::json_text(symbol)
            + "}"@,
        start matches Some(number) ==> {
            let behind = text::after_prefix(subscription_text(symbol, start), "{\"action\":\"subscribe\",\"start\":"@);
            &&& behind is Some
            &&& text::before_first(behind->0, ',') == Some(number@)
            &&& text::after_prefix(text::after_first(behind->0, ',')->0, "\"symbol\":"@) == Some(
                json::json_text(symbol) + "}"@,
            )
        },
{
    if let Some(number) = start {
        let head = "{\"action\":\"subscribe\",\"start\":"@;
        let tail = "\"symbol\":"@ + (json::json_text(symbol) + "}"@);
        reveal_strlit(",\"symbol\":");
        reveal_strlit("\"symbol\":");
        assert(",\"symbol\":"@ =~= seq![','] + "\"symbol\":"@);
        assert(subscription_text(symbol, start) =~= head + (number@ + seq![','] + tail));
        text::law_prefix_is_taken_off(head, number@ + seq![','] + tail);
        text::law_splitting_undoes_joining(number@, ',', tail);
        text::law_prefix_is_taken_off("\"symbol\":"@, json::json_text(symbol) + "}"@);
    }
}

/// Subscriptions to different symbols are different messages.
pub proof fn law_subscriptions_tell_symbols_apart(a: Seq<char>, b: Seq<char>)
    requires
        subscription_text(a, None) == subscription_text(b, None),
    ensures
        a == b,
{
    let head = "{\"action\":\"subscribe\",\"symbol\":"@;
    let n = head.len() as int;
    let m = "}"@.len() as int;
    let x = json::json_text(a);
    let y = json::json_text(b);
    assert(subscription_text(a, None).len() == n + x.len() + m);
    assert(subscription_text(b, None).len() == n + y.len() + m);
    assert(subscription_text(a, None).subrange(n, n + x.len()) =~= x);
    assert(subscription_text(b, None).subrange(n, n + y.len()) =~= y);
    json::law_json_tells_texts_apart(a, b);
}

/// A replay counts as clamped exactly where it was requested from an instant and announced from a later one; it is reported
/// with its symbol, the instant that was requested and the one that it is served from.
pub proof fn law_clamps_are_replays_that_start_late(
    requested: Seq<(String, Timestamp)>,
    frames: Seq<LseReplayFrame>,
    clamp: (Seq<char>, Timestamp, Timestamp),
)
    ensures
        clamped(requested, frames).contains(clamp) <==> exists|k: int|
            0 <= k < frames.len() && (#[trigger] frames[k] matches LseReplayFrame::ReplayStarted { symbol, from } && symbol@
                == clamp.0 && from == clamp.2 && resume::found(requested, symbol@) == Some(clamp.1) && clamp.1.before(from)),
    decreases frames.len(),
{
    let all = clamped(requested, frames);
    if frames.len() > 0 {
        let shorter = frames.drop_last();
        let last = frames.len() - 1;
        let before = clamped(requested, shorter);
        law_clamps_are_replays_that_start_late(requested, shorter, clamp);
        if all.contains(clamp) {
            let p = choose|p: int| 0 <= p < all.len() && all[p] == clamp;
            if p < before.len() {
                assert(before[p] == clamp);
                let k = choose|k: int|
                    0 <= k < shorter.len() && (#[trigger] shorter[k] matches LseReplayFrame::ReplayStarted { symbol, from }
                        && symbol@ == clamp.0 && from == clamp.2 && resume::found(requested, symbol@) == Some(clamp.1)
                        && clamp.1.before(from));
                assert(frames[k] == shorter[k]);
            } else {
                assert(frames[last] is ReplayStarted);
            }
        }
        if exists|k: int|
            0 <= k < frames.len() && (#[trigger] frames[k] matches LseReplayFrame::ReplayStarted { symbol, from } && symbol@
                == clamp.0 && from == clamp.2 && resume::found(requested, symbol@) == Some(clamp.1) && clamp.1.before(from)) {
            let k = choose|k: int|
                0 <= k < frames.len() && (#[trigger] frames[k] matches LseReplayFrame::ReplayStarted { symbol, from }
                    && symbol@ == clamp.0 && from == clamp.2 && resume::found(requested, symbol@) == Some(clamp.1)
                    && clamp.1.before(from));
            if k < last {
                assert(shorter[k] == frames[k]);
                let p = choose|p: int| 0 <= p < before.len() && before[p] == clamp;
                assert(all[p] == clamp);
            } else {
                assert(all[before.len() as int] == clamp);
            }
        }
    }
}

/// A batch that is too large is refused with the number of its symbols and the number that the connection holds; a symbol that
/// is not offered, or is of another dataset, is refused with the list of all such.
pub proof fn law_refused_batches_say_why(
    subscriber: LseSubscriber,
    exchange: ExchangeId,
    symbols: Seq<String>,
    authenticated: LseAuthenticated,
    message: String,
)
    requires
        subscriber.answers_batch(exchange, symbols, authenticated, Err(SocketError::Subscribe(message))),
    ensures
        ({
            let markets = collection::first_seen(text::texts(symbols));
            let max = authenticated.max_subscriptions;
            let missing = unknown(authenticated.symbols@, markets);
            let wrong = miscategorised(authenticated.symbols@, expected(exchange), markets);
            if max is Some && markets.len() > max->0 {
                text::names_in_order(
                    message@,
                    seq![text::decimal_text(markets.len()), exchange.label(), text::decimal_text(max->0 as nat)],
                )
            } else if missing.len() > 0 {
                text::names_in_order(message@, seq![text::quoted_list(missing)])
            } else {
                text::names_in_order(
                    message@,
                    seq![text::quoted_list(wrong), exchange.label(), text::quoted_list(expected(exchange))],
                )
            }
        }),
{
    let markets = collection::first_seen(text::texts(symbols));
    let max = authenticated.max_subscriptions;
    let missing = unknown(authenticated.symbols@, markets);
    let wrong = miscategorised(authenticated.symbols@, expected(exchange), markets);
    let label = exchange.label();
    if max is Some && markets.len() > max->0 {
        let (a, b) = (text::decimal_text(markets.len()), text::decimal_text(max->0 as nat));
        text::lemma_three_named(
            Seq::empty(),
            a,
            " symbols requested on "@,
            label,
            " but this connection holds at most "@,
            b,
        );
        assert(Seq::<char>::empty() + a =~= a);
        text::lemma_more_behind(
            a + " symbols requested on "@ + label + " but this connection holds at most "@ + b,
            " - the provider's rejection does not name the symbols it refuses, so there is no partial subscription to recover and the batch is rejected before it is sent"@,
            seq![a, label, b],
        );
    } else if missing.len() > 0 {
        let list = text::quoted_list(missing);
        text::lemma_last_named("London Strategic Edge does not offer "@, list);
        text::lemma_more_behind(
            "London Strategic Edge does not offer "@ + list,
            " on its WebSocket - a symbol may be reachable through the catalog or the candle store and still be absent here, and subscribing to one the provider does not offer is CONFIRMED rather than rejected, then never ticks, while holding a subscription slot for the life of the connection"@,
            seq![list],
        );
    } else {
        let (a, b) = (text::quoted_list(wrong), text::quoted_list(expected(exchange)));
        text::lemma_three_named(
            "London Strategic Edge categorises "@,
            a,
            ", which does not match "@,
            label,
            " (expected "@,
            b,
        );
        text::lemma_more_behind(
            "London Strategic Edge categorises "@ + a + ", which does not match "@ + label + " (expected "@ + b,
            ") - the symbol exists, but on a different dataset than the one being subscribed"@,
            seq![a, label, b],
        );
    }
}

/// The markets that are reported as not offered are exactly those of the batch that the provider does not list.
pub proof fn law_unknown_markets_are_those_not_listed(symbols: Seq<LseSymbol>, markets: Seq<Seq<char>>, market: Seq<char>)
    ensures
        unknown(symbols, markets).contains(market) <==> markets.contains(market) && listed(symbols, market) is None,
    decreases markets.len(),
{
    let all = unknown(symbols, markets);
    if markets.len() > 0 {
        let shorter = markets.drop_last();
        let last = markets.len() - 1;
        let before = unknown(symbols, shorter);
        law_unknown_markets_are_those_not_listed(symbols, shorter, market);
        if all.contains(market) {
            let p = choose|p: int| 0 <= p < all.len() && all[p] == market;
            if p < before.len() {
                assert(before[p] == market);
                let k = choose|k: int| 0 <= k < shorter.len() && shorter[k] == market;
                assert(markets[k] == market);
            } else {
                assert(markets[last] == market);
            }
        }
        if markets.contains(market) && listed(symbols, market) is None {
            let k = choose|k: int| 0 <= k < markets.len() && markets[k] == market;
            if k < last {
                assert(shorter[k] == market);
                let p = choose|p: int| 0 <= p < before.len() && before[p] == market;
                assert(all[p] == market);
            } else {
                assert(all[before.len() as int] == market);
            }
        }
    }
}

/// A market of the batch that is listed under a category which is not expected is reported, with that category behind it.
/// Nothing else is reported.
pub proof fn law_miscategorised_markets_are_reported(
    symbols: Seq<LseSymbol>,
    expected: Seq<Seq<char>>,
    markets: Seq<Seq<char>>,
    report: Seq<char>,
)
    ensures
        miscategorised(symbols, expected, markets).contains(report) <==> exists|k: int|
            0 <= k < markets.len() && contradicts(symbols, expected, #[trigger] markets[k]) && report == markets[k]
                + " is "@ + listed(symbols, markets[k])->0->0@,
    decreases markets.len(),
{
    let all = miscategorised(symbols, expected, markets);
    if markets.len() > 0 {
        let shorter = markets.drop_last();
        let last = markets.len() - 1;
        let before = miscategorised(symbols, expected, shorter);
        law_miscategorised_markets_are_reported(symbols, expected, shorter, report);
        if all.contains(report) {
            let p = choose|p: int| 0 <= p < all.len() && all[p] == report;
            if p < before.len() {
                assert(before[p] == report);
                let k = choose|k: int|
                    0 <= k < shorter.len() && contradicts(symbols, expected, #[trigger] shorter[k]) && report == shorter[k]
                        + " is "@ + listed(symbols, shorter[k])->0->0@;
                assert(markets[k] == shorter[k]);
            } else {
                assert(contradicts(symbols, expected, markets[last]));
            }
        }
        if exists|k: int|
            0 <= k < markets.len() && contradicts(symbols, expected, #[trigger] markets[k]) && report == markets[k]
                + " is "@ + listed(symbols, markets[k])->0->0@ {
            let k = choose|k: int|
                0 <= k < markets.len() && contradicts(symbols, expected, #[trigger] markets[k]) && report == markets[k]
                    + " is "@ + listed(symbols, markets[k])->0->0@;
            if k < last {
                assert(shorter[k] == markets[k]);
                let p = choose|p: int| 0 <= p < before.len() && before[p] == report;
                assert(all[p] == report);
            } else {
                assert(all[before.len() as int] == report);
            }
        }
    }
}

/// A refused key is reported with the provider's code and message, in that order.
pub proof fn law_refused_keys_are_reported(event: AuthEvent, step: AuthStep, code: Option<String>, message: Option<String>)
    requires
        is_auth_step(event, step),
        event == AuthEvent::Frame(Some(LseAuthFrame::Error { code, message })),
        code is Some,
        message is Some,
    ensures
        step matches AuthStep::Fail(SocketError::Subscribe(text)) && text::names_in_order(
            text@,
            seq![code->0@, message->0@],
        ),
{
    text::lemma_two_named("London Strategic Edge rejected authentication ("@, code->0@, "): "@, message->0@);
}

} // verus!
