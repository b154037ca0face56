//! Ticks of the live feed, and the spellings of their timestamps.

use vstd::prelude::*;
use vstd::string::*;
use crate::market::Decimal;
use crate::text;
use crate::text::split_once;
use crate::time;
use crate::time::{parse_rfc3339, Timestamp};

verus! {

/// A tick of the live feed.
///
/// It is a quote: its price equals its bid. The volume is real on some datasets and made up on
/// others. Identical ticks in a row are distinct prints and must not be filtered.
#[derive(Debug)]
pub struct LseTick {
    /// The subscription that the tick belongs to.
    pub subscription_id: String,
    /// The instant that the provider stamped the tick with.
    pub time_exchange: Timestamp,
    pub price: Decimal,
    pub bid: Decimal,
    pub ask: Decimal,
    pub volume: Decimal,
    /// Whether the tick comes from a replay.
    pub replay: bool,
}

/// A frame of the live feed.
#[derive(Debug)]
pub enum LseMessage {
    Tick(LseTick),
    /// A control frame, or one that is not known here.
    Other,
}

impl LseMessage {
    /// The subscription that a frame belongs to: a tick has one, a control frame has none.
    pub fn id(&self) -> (r: Option<&String>)
        ensures
            match self {
                LseMessage::Tick(tick) => r == Some(&tick.subscription_id),
                LseMessage::Other => r is None,
            },
    {
        match self {
            LseMessage::Tick(tick) => Some(&tick.subscription_id),
            LseMessage::Other => None,
        }
    }
}

/// The subscription under which ticks of a symbol arrive.
pub open spec fn id_of(symbol: Seq<char>) -> Seq<char> {
    "tick|"@ + symbol
}

/// The subscription under which ticks of a symbol arrive.
///
/// The decoder of ticks and the keeper of watermarks both take it from here.
pub fn subscription_id(symbol: &str) -> (r: String)
    ensures
        r@ == id_of(symbol@),
{
    let mut out = String::from_str("tick|");
    out.append(symbol);
    out
}

/// Two symbols never share a subscription.
pub proof fn law_ids_tell_symbols_apart(a: Seq<char>, b: Seq<char>)
    requires
        id_of(a) == id_of(b),
    ensures
        a == b,
{
    let n = "tick|"@.len() as int;
    assert(id_of(a).skip(n) =~= a);
    assert(id_of(b).skip(n) =~= b);
}

/// A text with its first space replaced by a `T`, where it has a space.
pub open spec fn with_separator(raw: Seq<char>) -> Option<Seq<char>> {
    match (text::before_first(raw, ' '), text::after_first(raw, ' ')) {
        (Some(date), Some(time)) => Some(date + "T"@ + time),
        _ => None,
    }
}

/// The text with its first space replaced by a `T`, or `None` where it has no space.
pub fn rfc3339_spelling(raw: &str) -> (r: Option<String>)
    ensures
        match r {
            Some(spelling) => with_separator(raw@) == Some(spelling@),
            None => with_separator(raw@) is None,
        },
{
    match split_once(raw, ' ') {
        Some((date, time)) => {
            let mut spelling = date;
            spelling.append("T");
            spelling.append(time.as_str());
            Some(spelling)
        },
        None => None,
    }
}

/// The instant that a text of the feed writes: in RFC 3339, or in the same with a space between date
/// and time.
pub open spec fn spelled_instant(raw: Seq<char>) -> Option<Timestamp> {
    match time::instant_of(time::rfc3339_instant(raw)) {
        Some(t) => Some(t),
        None => match with_separator(raw) {
            Some(spelling) => time::instant_of(time::rfc3339_instant(spelling)),
            None => None,
        },
    }
}

/// Reads a timestamp of the feed: in RFC 3339, or in the same with a space between date and time.
///
/// The space is replaced and the strict reader asked again, so both spellings are held to the same
/// rules: a text without an offset is none.
pub fn parse_timestamp(raw: &str) -> (r: Option<Timestamp>)
    ensures
        r == spelled_instant(raw@),
{
    if let Some(t) = parse_rfc3339(raw) {
        return Some(t);
    }
    match rfc3339_spelling(raw) {
        Some(spelling) => parse_rfc3339(spelling.as_str()),
        None => None,
    }
}

/// The instant of a whole number of seconds since 1970, where it is representable.
pub open spec fn epoch_instant(seconds: int) -> Option<Timestamp> {
    if time::MIN_SECS <= seconds <= time::MAX_SECS {
        Some(Timestamp { secs: seconds as i64, nanos: 0 })
    } else {
        None
    }
}

/// Reads a timestamp that comes as a whole number of seconds that is not negative.
pub fn time_from_unsigned_seconds(value: u64) -> (r: Option<Timestamp>)
    ensures
        r == epoch_instant(value as int),
{
    if value > time::MAX_SECS as u64 {
        None
    } else {
        Timestamp::new(value as i64, 0)
    }
}

/// Reads a timestamp that comes as a whole number of seconds.
pub fn time_from_signed_seconds(value: i64) -> (r: Option<Timestamp>)
    ensures
        r == epoch_instant(value as int),
{
    Timestamp::new(value, 0)
}

/// A space between date and time reads as the `T` of RFC 3339 does: where the one spelling is an instant and the
/// text with the space is none by itself, both are that instant.
pub proof fn law_both_spellings_read_alike(date: Seq<char>, time_of_day: Seq<char>)
    requires
        !date.contains(' '),
        time::rfc3339_instant(date + seq![' '] + time_of_day) is None,
        time::instant_of(time::rfc3339_instant(date + "T"@ + time_of_day)) is Some,
    ensures
        spelled_instant(date + seq![' '] + time_of_day) == spelled_instant(date + "T"@ + time_of_day),
{
    text::law_splitting_undoes_joining(date, ' ', time_of_day);
}

/// A text is an instant only where it, or what it is with its first space replaced by a `T`, is one in RFC 3339;
/// the text itself goes first.
pub proof fn law_timestamps_are_rfc3339(raw: Seq<char>)
    ensures
        time::rfc3339_instant(raw) matches Some((secs, nanos)) ==> (Timestamp { secs, nanos }).wf() ==> spelled_instant(raw)
            == Some(Timestamp { secs, nanos }),
        !raw.contains(' ') && time::rfc3339_instant(raw) is None ==> spelled_instant(raw) is None,
        spelled_instant(raw) matches Some(t) ==> t.wf(),
{
}

/// Whole seconds since 1970 are an instant on that second.
pub proof fn law_seconds_are_kept(seconds: i64)
    ensures
        match epoch_instant(seconds as int) {
            Some(t) => t.wf() && time::unix_millis(t) == seconds * 1_000 && t.nanos == 0,
            None => seconds < time::MIN_SECS || seconds > time::MAX_SECS,
        },
{
}

} // verus!
