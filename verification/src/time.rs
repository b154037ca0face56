//! Instants, calendar dates and the boundary arithmetic of candles.

use vstd::prelude::*;
use vstd::string::*;
use crate::calendar;
use crate::text;
use crate::text::{number_text, to_chars};

verus! {

/// The first second of the representable range: 1 January of the year -262143, UTC.
pub const MIN_SECS: i64 = -8_334_601_228_800;

/// The last second of the representable range: 31 December of the year 262142, 23:59:59 UTC.
pub const MAX_SECS: i64 = 8_210_266_876_799;

/// An instant in UTC: whole seconds since 1 January 1970 and the nanoseconds behind them.
///
/// A leap second is written as the second before it with `nanos` of 1,000,000,000 or more.
#[derive(Clone, Copy, PartialEq, Eq, Structural, Debug, Hash, PartialOrd, Ord)]
pub struct Timestamp {
    pub secs: i64,
    pub nanos: u32,
}

impl Timestamp {
    /// Whether this is an instant of the representable range.
    pub open spec fn wf(self) -> bool {
        &&& MIN_SECS <= self.secs <= MAX_SECS
        &&& self.nanos < 2_000_000_000
        &&& self.nanos >= 1_000_000_000 ==> (self.secs as int) % 60 == 59
    }

    /// Whether this instant is earlier than `other`.
    pub open spec fn before(self, other: Timestamp) -> bool {
        self.secs < other.secs || (self.secs == other.secs && self.nanos < other.nanos)
    }

    /// The instant `secs` seconds and `nanos` nanoseconds after 1970, where it is representable.
    pub fn new(secs: i64, nanos: u32) -> (r: Option<Timestamp>)
        ensures
            (Timestamp { secs, nanos }).wf() ==> r == Some(Timestamp { secs, nanos }),
            !(Timestamp { secs, nanos }).wf() ==> r is None,
    {
        if secs < MIN_SECS || secs > MAX_SECS || nanos >= 2_000_000_000 {
            return None;
        }
        if nanos >= 1_000_000_000 {
            // The remainder is taken of a number that is not negative: the offset is a whole
            // number of minutes below the first representable second.
            let offset: u64 = (secs + 8_334_601_228_800) as u64;
            assert(8_334_601_228_800int % 60 == 0);
            if offset % 60 != 59 {
                return None;
            }
        }
        Some(Timestamp { secs, nanos })
    }

    /// Whether this instant is earlier than `other`.
    pub fn is_before(&self, other: &Timestamp) -> (r: bool)
        ensures
            r == self.before(*other),
    {
        self.secs < other.secs || (self.secs == other.secs && self.nanos < other.nanos)
    }

    /// The instant `micros` microseconds after 1970, where it is representable.
    pub fn from_micros(micros: i64) -> (r: Option<Timestamp>)
        ensures
            r == instant_of_micros(micros as int),
    {
        // Shifted by a whole number of seconds so that the division is of a positive number.
        let shifted: u128 = (micros as i128 + 9_223_372_036_855_000_000) as u128;
        let secs: i128 = (shifted / 1_000_000) as i128 - 9_223_372_036_855;
        let nanos: u32 = (shifted % 1_000_000) as u32 * 1_000;
        proof {
            assert(secs == (micros as int) / 1_000_000);
            assert(nanos == ((micros as int) % 1_000_000) * 1_000);
        }
        if secs < -8_334_601_228_800 || secs > 8_210_266_876_799 {
            None
        } else {
            Some(Timestamp { secs: secs as i64, nanos })
        }
    }

    /// This instant moved by `delta` seconds, where that is representable.
    ///
    /// Moving away from a leap second leaves it for the ordinary second beside it.
    pub fn shift(&self, delta: i64) -> (r: Option<Timestamp>)
        requires
            self.wf(),
        ensures
            r == shifted(*self, delta as int),
    {
        let leap = delta != 0 && self.nanos >= 1_000_000_000;
        let nanos: u32 = if leap { self.nanos - 1_000_000_000 } else { self.nanos };
        let step: i128 = if leap && delta < 0 { delta as i128 + 1 } else { delta as i128 };
        let secs: i128 = self.secs as i128 + step;
        if secs < -8_334_601_228_800 || secs > 8_210_266_876_799 {
            None
        } else {
            Some(Timestamp { secs: secs as i64, nanos })
        }
    }

    /// The instant as text, such as `2015-05-15 00:00:00 UTC`.
    pub fn text(&self) -> (r: String)
        requires
            self.wf(),
        ensures
            r@ == utc_text(self.secs, self.nanos),
    {
        display_utc(self.secs, self.nanos)
    }

    /// The instant to the second, in the layout of a request parameter.
    pub fn cursor_text(&self) -> (r: String)
        requires
            self.wf(),
        ensures
            r@ == utc_seconds_text(self.secs, self.nanos),
    {
        display_utc_seconds(self.secs, self.nanos)
    }
}

/// The instant `micros` microseconds after 1970, where it is representable.
pub open spec fn instant_of_micros(micros: int) -> Option<Timestamp> {
    let secs = micros / 1_000_000;
    if MIN_SECS <= secs <= MAX_SECS {
        Some(Timestamp { secs: secs as i64, nanos: ((micros % 1_000_000) * 1_000) as u32 })
    } else {
        None
    }
}

/// Whether instants never go back.
pub open spec fn ascending(times: Seq<Timestamp>) -> bool {
    forall|i: int, j: int| 0 <= i < j < times.len() ==> !(#[trigger] times[j]).before(#[trigger] times[i])
}

/// The milliseconds between 1970 and an instant, rounded down.
pub open spec fn unix_millis(t: Timestamp) -> int {
    t.secs * 1_000 + t.nanos as int / 1_000_000
}

/// The nanoseconds between 1970 and an instant, where they fit 64 bits.
pub open spec fn unix_nanos(t: Timestamp) -> Option<i64> {
    let nanos = t.secs * 1_000_000_000 + t.nanos;
    if i64::MIN <= nanos <= i64::MAX {
        Some(nanos as i64)
    } else {
        None
    }
}

impl Timestamp {
    /// The milliseconds between 1970 and this instant, rounded down.
    pub fn to_millis(&self) -> (r: i64)
        requires
            self.wf(),
        ensures
            r == unix_millis(*self),
    {
        self.secs * 1_000 + (self.nanos / 1_000_000) as i64
    }

    /// The nanoseconds between 1970 and this instant, where they fit 64 bits.
    pub fn to_nanos(&self) -> (r: Option<i64>)
        ensures
            r == unix_nanos(*self),
    {
        let nanos: i128 = self.secs as i128 * 1_000_000_000 + self.nanos as i128;
        if nanos < i64::MIN as i128 || nanos > i64::MAX as i128 {
            None
        } else {
            Some(nanos as i64)
        }
    }
}

/// `t` moved by `delta` seconds, where that is representable.
pub open spec fn shifted(t: Timestamp, delta: int) -> Option<Timestamp> {
    let leap = delta != 0 && t.nanos >= 1_000_000_000;
    let nanos = if leap { t.nanos - 1_000_000_000 } else { t.nanos as int };
    let secs = t.secs + delta + if leap && delta < 0 { 1int } else { 0int };
    if MIN_SECS <= secs <= MAX_SECS {
        Some(Timestamp { secs: secs as i64, nanos: nanos as u32 })
    } else {
        None
    }
}

/// The UTC instant to the second, as `YYYY-MM-DD HH:MM:SS`; a leap second is second 60 of its minute,
/// and a year outside of 0 to 9999 has a sign in front.
pub open spec fn utc_seconds_text(secs: i64, nanos: u32) -> Seq<char> {
    let (month, day, second) = calendar::written(secs as int);
    let leap: int = if nanos >= 1_000_000_000 { 1 } else { 0 };
    iso_year(month / 12) + "-"@ + padded((month % 12 + 1) as nat, 2) + "-"@ + padded(day as nat, 2) + " "@
        + padded((second / 3_600) as nat, 2) + ":"@ + padded((second / 60 % 60) as nat, 2) + ":"@
        + padded((second % 60 + leap) as nat, 2)
}

/// The fraction of a second: none, or a point and as many of three, six or nine digits as it takes.
pub open spec fn fraction_text(nanos: u32) -> Seq<char> {
    let n = if nanos >= 1_000_000_000 { nanos - 1_000_000_000 } else { nanos as int };
    if n == 0 {
        Seq::empty()
    } else if n % 1_000_000 == 0 {
        "."@ + padded((n / 1_000_000) as nat, 3)
    } else if n % 1_000 == 0 {
        "."@ + padded((n / 1_000) as nat, 6)
    } else {
        "."@ + padded(n as nat, 9)
    }
}

/// The UTC instant, such as `2015-05-15 00:00:00.250 UTC`.
pub open spec fn utc_text(secs: i64, nanos: u32) -> Seq<char> {
    utc_seconds_text(secs, nanos) + fraction_text(nanos) + " UTC"@
}

/// Prints an instant through `Display` of [`chrono::DateTime`]: the date, the time to the second,
/// the fraction where there is one, and the zone.
#[verifier::external_body]
fn display_utc(secs: i64, nanos: u32) -> (r: String)
    requires
        (Timestamp { secs, nanos }).wf(),
    ensures
        r@ == utc_text(secs, nanos),
{
    chrono::DateTime::from_timestamp(secs, nanos).expect("a representable instant").to_string()
}

/// Prints an instant through [`chrono::DateTime::format`] as `%Y-%m-%d %H:%M:%S`: the date and the
/// time to the second.
#[verifier::external_body]
fn display_utc_seconds(secs: i64, nanos: u32) -> (r: String)
    requires
        (Timestamp { secs, nanos }).wf(),
    ensures
        r@ == utc_seconds_text(secs, nanos),
{
    chrono::DateTime::from_timestamp(secs, nanos)
        .expect("a representable instant")
        .format("%Y-%m-%d %H:%M:%S")
        .to_string()
}

/// What chrono reads from an RFC 3339 text: the seconds and nanoseconds of the instant.
pub uninterp spec fn rfc3339_instant(text: Seq<char>) -> Option<(i64, u32)>;

/// Reads an instant through [`chrono::DateTime::parse_from_rfc3339`]: what is read is a function of
/// the text alone.
#[verifier::external_body]
fn read_rfc3339(text: &str) -> (r: Option<(i64, u32)>)
    ensures
        r == rfc3339_instant(text@),
{
    let parsed = chrono::DateTime::parse_from_rfc3339(text).ok();
    parsed.map(|t| (t.timestamp(), t.timestamp_subsec_nanos()))
}

/// What chrono reads from a text under `%Y-%m-%d %H:%M:%S%.f`, taken as UTC: the seconds and
/// nanoseconds of the instant, or the text of its error.
pub uninterp spec fn plain_instant(text: Seq<char>) -> Result<(i64, u32), Seq<char>>;

/// Reads an instant through [`chrono::NaiveDateTime::parse_from_str`] under
/// `%Y-%m-%d %H:%M:%S%.f`: what is read is a function of the text alone, and what is read is in
/// the representable range.
#[verifier::external_body]
fn read_plain(text: &str) -> (r: Result<(i64, u32), String>)
    ensures
        match r {
            Ok(parts) => plain_instant(text@) == Ok::<(i64, u32), Seq<char>>(parts) && (Timestamp {
                secs: parts.0,
                nanos: parts.1,
            }).wf(),
            Err(e) => plain_instant(text@) == Err::<(i64, u32), Seq<char>>(e@),
        },
{
    match chrono::NaiveDateTime::parse_from_str(text, "%Y-%m-%d %H:%M:%S%.f") {
        Ok(t) => Ok((t.and_utc().timestamp(), t.and_utc().timestamp_subsec_nanos())),
        Err(e) => Err(e.to_string()),
    }
}

/// The same time of the same day `months` calendar months on, where that is representable; of the
/// last day of that month where it has no such day.
pub open spec fn moved(t: Timestamp, months: int) -> Option<Timestamp> {
    let secs = calendar::moved_by_months(t.secs as int, months);
    if MIN_SECS <= secs <= MAX_SECS {
        Some(Timestamp { secs: secs as i64, nanos: t.nanos })
    } else {
        None
    }
}

/// Adds calendar months through [`chrono::DateTime::checked_add_months`], which keeps the time of
/// day, keeps the day or takes the last one of a month that has no such day, and gives nothing
/// where the date is out of the representable range.
#[verifier::external_body]
fn add_months(t: Timestamp, months: u32) -> (r: Option<Timestamp>)
    requires
        t.wf(),
    ensures
        r == moved(t, months as int),
{
    let start = chrono::DateTime::from_timestamp(t.secs, t.nanos)?;
    let end = start.checked_add_months(chrono::Months::new(months))?;
    Some(Timestamp { secs: end.timestamp(), nanos: end.timestamp_subsec_nanos() })
}

/// Subtracts calendar months through [`chrono::DateTime::checked_sub_months`], which keeps the time
/// of day, keeps the day or takes the last one of a month that has no such day, and gives nothing
/// where the date is out of the representable range.
#[verifier::external_body]
fn sub_months(t: Timestamp, months: u32) -> (r: Option<Timestamp>)
    requires
        t.wf(),
    ensures
        r == moved(t, -(months as int)),
{
    let end = chrono::DateTime::from_timestamp(t.secs, t.nanos)?;
    let start = end.checked_sub_months(chrono::Months::new(months))?;
    Some(Timestamp { secs: start.timestamp(), nanos: start.timestamp_subsec_nanos() })
}

/// The instant that seconds and nanoseconds from elsewhere stand for, where they are in range.
pub open spec fn instant_of(parts: Option<(i64, u32)>) -> Option<Timestamp> {
    match parts {
        Some((secs, nanos)) => if (Timestamp { secs, nanos }).wf() {
            Some(Timestamp { secs, nanos })
        } else {
            None
        },
        None => None,
    }
}

/// The instant that seconds and nanoseconds from elsewhere stand for, where they are in range.
pub fn instant_from_parts(parts: Option<(i64, u32)>) -> (r: Option<Timestamp>)
    ensures
        r == instant_of(parts),
{
    match parts {
        Some((secs, nanos)) => Timestamp::new(secs, nanos),
        None => None,
    }
}

/// Reads an RFC 3339 instant.
pub fn parse_rfc3339(text: &str) -> (r: Option<Timestamp>)
    ensures
        r == instant_of(rfc3339_instant(text@)),
{
    instant_from_parts(read_rfc3339(text))
}

/// Reads an instant written without an offset, which is UTC; or the text of why it is none.
pub fn parse_plain(text: &str) -> (r: Result<Timestamp, String>)
    ensures
        match r {
            Ok(t) => plain_instant(text@) == Ok::<(i64, u32), Seq<char>>((t.secs, t.nanos)) && t.wf(),
            Err(e) => plain_instant(text@) == Err::<(i64, u32), Seq<char>>(e@),
        },
{
    match read_plain(text) {
        Ok((secs, nanos)) => Ok(Timestamp { secs, nanos }),
        Err(e) => Err(e),
    }
}

/// How far one candle reaches: a fixed number of seconds, or calendar months.
#[derive(Clone, Copy, PartialEq, Eq, Structural, Debug, Hash)]
pub enum CandleStep {
    Seconds(u32),
    Months(u32),
}

/// The resolutions that a candle can have.
#[derive(Clone, Copy, PartialEq, Eq, Structural, Debug, Hash)]
pub enum CandleInterval {
    Sec1,
    Sec5,
    Sec15,
    Sec30,
    Min1,
    Min3,
    Min5,
    Min15,
    Min30,
    Hour1,
    Hour2,
    Hour4,
    Hour6,
    Hour8,
    Hour12,
    Day1,
    Day3,
    Week1,
    Month1,
}

impl CandleInterval {
    /// How far one candle of this resolution reaches.
    pub open spec fn step(self) -> CandleStep {
        match self {
            CandleInterval::Sec1 => CandleStep::Seconds(1),
            CandleInterval::Sec5 => CandleStep::Seconds(5),
            CandleInterval::Sec15 => CandleStep::Seconds(15),
            CandleInterval::Sec30 => CandleStep::Seconds(30),
            CandleInterval::Min1 => CandleStep::Seconds(60),
            CandleInterval::Min3 => CandleStep::Seconds(180),
            CandleInterval::Min5 => CandleStep::Seconds(300),
            CandleInterval::Min15 => CandleStep::Seconds(900),
            CandleInterval::Min30 => CandleStep::Seconds(1_800),
            CandleInterval::Hour1 => CandleStep::Seconds(3_600),
            CandleInterval::Hour2 => CandleStep::Seconds(7_200),
            CandleInterval::Hour4 => CandleStep::Seconds(14_400),
            CandleInterval::Hour6 => CandleStep::Seconds(21_600),
            CandleInterval::Hour8 => CandleStep::Seconds(28_800),
            CandleInterval::Hour12 => CandleStep::Seconds(43_200),
            CandleInterval::Day1 => CandleStep::Seconds(86_400),
            CandleInterval::Day3 => CandleStep::Seconds(259_200),
            CandleInterval::Week1 => CandleStep::Seconds(604_800),
            CandleInterval::Month1 => CandleStep::Months(1),
        }
    }

    /// How far one candle of this resolution reaches.
    pub fn to_step(self) -> (r: CandleStep)
        ensures
            r == self.step(),
    {
        match self {
            CandleInterval::Sec1 => CandleStep::Seconds(1),
            CandleInterval::Sec5 => CandleStep::Seconds(5),
            CandleInterval::Sec15 => CandleStep::Seconds(15),
            CandleInterval::Sec30 => CandleStep::Seconds(30),
            CandleInterval::Min1 => CandleStep::Seconds(60),
            CandleInterval::Min3 => CandleStep::Seconds(180),
            CandleInterval::Min5 => CandleStep::Seconds(300),
            CandleInterval::Min15 => CandleStep::Seconds(900),
            CandleInterval::Min30 => CandleStep::Seconds(1_800),
            CandleInterval::Hour1 => CandleStep::Seconds(3_600),
            CandleInterval::Hour2 => CandleStep::Seconds(7_200),
            CandleInterval::Hour4 => CandleStep::Seconds(14_400),
            CandleInterval::Hour6 => CandleStep::Seconds(21_600),
            CandleInterval::Hour8 => CandleStep::Seconds(28_800),
            CandleInterval::Hour12 => CandleStep::Seconds(43_200),
            CandleInterval::Day1 => CandleStep::Seconds(86_400),
            CandleInterval::Day3 => CandleStep::Seconds(259_200),
            CandleInterval::Week1 => CandleStep::Seconds(604_800),
            CandleInterval::Month1 => CandleStep::Months(1),
        }
    }
}

/// The instant at which a candle that opens at `open` is complete, where it is representable.
pub open spec fn close_of(open: Timestamp, step: CandleStep) -> Option<Timestamp> {
    match step {
        CandleStep::Seconds(n) => shifted(open, n as int),
        CandleStep::Months(n) => moved(open, n as int),
    }
}

/// The instant at which a candle that is complete at `close` opened, where it is representable.
pub open spec fn open_of(close: Timestamp, step: CandleStep) -> Option<Timestamp> {
    match step {
        CandleStep::Seconds(n) => shifted(close, -(n as int)),
        CandleStep::Months(n) => moved(close, -(n as int)),
    }
}

/// The exclusive end of the candle that opens at `open`.
pub fn close_time_from_open(open: Timestamp, step: CandleStep) -> (r: Option<Timestamp>)
    requires
        open.wf(),
    ensures
        r == close_of(open, step),
        r matches Some(t) ==> t.wf(),
{
    proof {
        if let CandleStep::Months(n) = step {
            calendar::lemma_moved_keeps_the_second(open.secs as int, n as int);
        }
    }
    match step {
        CandleStep::Seconds(n) => open.shift(n as i64),
        CandleStep::Months(n) => add_months(open, n),
    }
}

/// The open of the candle whose exclusive end is `close`.
pub fn open_time_from_close(close: Timestamp, step: CandleStep) -> (r: Option<Timestamp>)
    requires
        close.wf(),
    ensures
        r == open_of(close, step),
        r matches Some(t) ==> t.wf(),
{
    proof {
        if let CandleStep::Months(n) = step {
            calendar::lemma_moved_keeps_the_second(close.secs as int, -(n as int));
        }
    }
    match step {
        CandleStep::Seconds(n) => close.shift(-(n as i64)),
        CandleStep::Months(n) => sub_months(close, n),
    }
}

/// A calendar bar is complete at the same time of the same day so many months on, where that month
/// has the day: one that opens on the first closes on the first, however long the months are.
pub proof fn law_calendar_bars_keep_their_day(open: Timestamp, months: u32, month: int, day: int, second: int)
    requires
        calendar::is_at(open.secs as int, month, day, second),
        day <= calendar::month_length(month + months),
        close_of(open, CandleStep::Months(months)) is Some,
    ensures
        calendar::is_at(close_of(open, CandleStep::Months(months))->0.secs as int, month + months, day, second),
        close_of(open, CandleStep::Months(months))->0.nanos == open.nanos,
{
    calendar::lemma_written_once(open.secs as int, month, day, second);
}

/// The open of a bar's close is the bar's open.
///
/// Left out are two opens that a step does not come back to: one within a leap second, under a step
/// of fixed length, and one on a day that the month of the close does not have.
pub proof fn law_open_of_close(open: Timestamp, step: CandleStep)
    requires
        open.wf(),
        close_of(open, step) is Some,
        step is Seconds ==> open.nanos < 1_000_000_000,
        step matches CandleStep::Months(n) ==> calendar::keeps_day(open.secs as int, n as int),
    ensures
        open_of(close_of(open, step)->0, step) == Some(open),
{
    if let CandleStep::Months(n) = step {
        calendar::lemma_months_are_undone(open.secs as int, n as int);
    }
}

/// The first year of the representable range.
pub const MIN_YEAR: i32 = -262_143;

/// The last year of the representable range.
pub const MAX_YEAR: i32 = 262_142;

fn is_leap(year: i32) -> (r: bool)
    requires
        MIN_YEAR <= year <= MAX_YEAR,
    ensures
        r == calendar::leap(year as int),
{
    // Moved by a multiple of 400 years, so that the remainders are those of a positive number.
    let cycle: u32 = (year + 400_000) as u32;
    proof {
        vstd::arithmetic::div_mod::lemma_mod_multiples_vanish(100_000, year as int, 4);
        vstd::arithmetic::div_mod::lemma_mod_multiples_vanish(4_000, year as int, 100);
        vstd::arithmetic::div_mod::lemma_mod_multiples_vanish(1_000, year as int, 400);
    }
    cycle % 4 == 0 && (cycle % 100 != 0 || cycle % 400 == 0)
}

/// A calendar date.
#[derive(Clone, Copy, PartialEq, Eq, Structural, Debug, Hash, PartialOrd, Ord)]
pub struct Date {
    pub year: i32,
    pub month: u32,
    pub day: u32,
}

impl Date {
    /// Whether the calendar has this date, in a representable year.
    pub open spec fn wf(self) -> bool {
        &&& MIN_YEAR <= self.year <= MAX_YEAR
        &&& 1 <= self.month <= 12
        &&& 1 <= self.day <= calendar::days_in_month(self.year as int, self.month as int)
    }

    /// Whether this date is earlier than `other`.
    pub open spec fn before(self, other: Date) -> bool {
        ||| self.year < other.year
        ||| self.year == other.year && self.month < other.month
        ||| self.year == other.year && self.month == other.month && self.day < other.day
    }

    /// The date as `YYYY-MM-DD`; a year outside of 0 to 9999 has a sign in front.
    pub open spec fn iso(self) -> Seq<char> {
        iso_year(self.year as int) + "-"@ + padded(self.month as nat, 2) + "-"@ + padded(self.day as nat, 2)
    }

    /// The date, where the calendar has it.
    pub fn new(year: i32, month: u32, day: u32) -> (r: Option<Date>)
        ensures
            (Date { year, month, day }).wf() ==> r == Some(Date { year, month, day }),
            !(Date { year, month, day }).wf() ==> r is None,
    {
        if year < MIN_YEAR || year > MAX_YEAR || month < 1 || month > 12 || day < 1 {
            return None;
        }
        let longest: u32 = if month == 2 {
            if is_leap(year) {
                29
            } else {
                28
            }
        } else if month == 4 || month == 6 || month == 9 || month == 11 {
            30
        } else {
            31
        };
        if day > longest {
            None
        } else {
            Some(Date { year, month, day })
        }
    }

    /// Whether this date is earlier than `other`.
    pub fn is_before(&self, other: &Date) -> (r: bool)
        ensures
            r == self.before(*other),
    {
        self.year < other.year || (self.year == other.year && (self.month < other.month || (self.month
            == other.month && self.day < other.day)))
    }

    /// The date as `YYYY-MM-DD`.
    pub fn text(&self) -> (r: String)
        ensures
            r@ == self.iso(),
    {
        let mut out = year_text(self.year);
        out.append("-");
        out.append(padded_text(self.month, 2).as_str());
        out.append("-");
        out.append(padded_text(self.day, 2).as_str());
        out
    }
}

/// A year of at least four digits, with a sign where it is outside of 0 to 9999.
pub open spec fn iso_year(year: int) -> Seq<char> {
    if year < 0 {
        "-"@ + padded((-year) as nat, 4)
    } else if year > 9_999 {
        "+"@ + padded(year as nat, 4)
    } else {
        padded(year as nat, 4)
    }
}

fn year_text(year: i32) -> (r: String)
    ensures
        r@ == iso_year(year as int),
{
    if year < 0 {
        let size: i64 = -(year as i64);
        let mut out = String::from_str("-");
        out.append(padded_text(size as u32, 4).as_str());
        out
    } else if year > 9_999 {
        let mut out = String::from_str("+");
        out.append(padded_text(year as u32, 4).as_str());
        out
    } else {
        padded_text(year as u32, 4)
    }
}

/// `n` in decimal, with zeros in front up to `width` digits.
pub open spec fn padded(n: nat, width: nat) -> Seq<char> {
    let digits = text::decimal_text(n);
    if digits.len() < width {
        Seq::new((width - digits.len()) as nat, |i: int| '0') + digits
    } else {
        digits
    }
}

fn padded_text(n: u32, width: usize) -> (r: String)
    ensures
        r@ == padded(n as nat, width as nat),
{
    let digits = number_text(n as u64);
    let length = to_chars(digits.as_str()).len();
    let mut out = String::new();
    let mut i: usize = length;
    while i < width
        invariant
            length <= i <= width || (i == length && width < length),
            out@ == Seq::new((i - length) as nat, |j: int| '0'),
        decreases width - i,
    {
        out.push('0');
        i = i + 1;
        assert(out@ =~= Seq::new((i - length) as nat, |j: int| '0'));
    }
    proof {
        assert(Seq::new(0nat, |j: int| '0') + digits@ =~= digits@);
    }
    out.append(digits.as_str());
    out
}

/// Instants are ordered as on one line: by their seconds and, within a second, by their nanoseconds,
/// those of a leap second behind all others.
pub proof fn law_instants_are_on_one_line(a: Timestamp, b: Timestamp)
    requires
        a.wf(),
        b.wf(),
    ensures
        a.before(b) <==> a.secs * 2_000_000_000 + a.nanos < b.secs * 2_000_000_000 + b.nanos,
        !a.before(b) && !b.before(a) ==> a == b,
{
}

/// Each resolution is as long as its name says: a minute is sixty seconds, an hour sixty minutes, a
/// day 24 hours and a week seven days, and the multiples are multiples of these. A month alone is no
/// fixed number of seconds.
pub proof fn law_resolutions_are_as_long_as_they_say(interval: CandleInterval)
    ensures
        interval.step() is Months <==> interval == CandleInterval::Month1,
        CandleInterval::Month1.step()->Months_0 == 1,
        CandleInterval::Sec1.step()->Seconds_0 == 1,
        CandleInterval::Sec5.step()->Seconds_0 == 5 * CandleInterval::Sec1.step()->Seconds_0,
        CandleInterval::Sec15.step()->Seconds_0 == 15 * CandleInterval::Sec1.step()->Seconds_0,
        CandleInterval::Sec30.step()->Seconds_0 == 30 * CandleInterval::Sec1.step()->Seconds_0,
        CandleInterval::Min1.step()->Seconds_0 == 60 * CandleInterval::Sec1.step()->Seconds_0,
        CandleInterval::Min3.step()->Seconds_0 == 3 * CandleInterval::Min1.step()->Seconds_0,
        CandleInterval::Min5.step()->Seconds_0 == 5 * CandleInterval::Min1.step()->Seconds_0,
        CandleInterval::Min15.step()->Seconds_0 == 15 * CandleInterval::Min1.step()->Seconds_0,
        CandleInterval::Min30.step()->Seconds_0 == 30 * CandleInterval::Min1.step()->Seconds_0,
        CandleInterval::Hour1.step()->Seconds_0 == 60 * CandleInterval::Min1.step()->Seconds_0,
        CandleInterval::Hour2.step()->Seconds_0 == 2 * CandleInterval::Hour1.step()->Seconds_0,
        CandleInterval::Hour4.step()->Seconds_0 == 4 * CandleInterval::Hour1.step()->Seconds_0,
        CandleInterval::Hour6.step()->Seconds_0 == 6 * CandleInterval::Hour1.step()->Seconds_0,
        CandleInterval::Hour8.step()->Seconds_0 == 8 * CandleInterval::Hour1.step()->Seconds_0,
        CandleInterval::Hour12.step()->Seconds_0 == 12 * CandleInterval::Hour1.step()->Seconds_0,
        CandleInterval::Day1.step()->Seconds_0 == 24 * CandleInterval::Hour1.step()->Seconds_0,
        CandleInterval::Day3.step()->Seconds_0 == 3 * CandleInterval::Day1.step()->Seconds_0,
        CandleInterval::Week1.step()->Seconds_0 == 7 * CandleInterval::Day1.step()->Seconds_0,
{
}

/// A bar of so many seconds is complete so many seconds after it opened and opened so many before it
/// was complete, with the fraction of a second unchanged; unless that is out of range.
///
/// Left out is a bar that opens or closes within a leap second, which is left for the second beside it.
pub proof fn law_bars_end_their_length_later(t: Timestamp, seconds: u32)
    requires
        t.wf(),
        t.nanos < 1_000_000_000,
    ensures
        match close_of(t, CandleStep::Seconds(seconds)) {
            Some(end) => end.secs == t.secs + seconds && end.nanos == t.nanos,
            None => t.secs + seconds > MAX_SECS,
        },
        match open_of(t, CandleStep::Seconds(seconds)) {
            Some(start) => start.secs == t.secs - seconds && start.nanos == t.nanos,
            None => t.secs - seconds < MIN_SECS,
        },
{
}

/// Closes go in the order of opens: of two bars of one length, the one that opens later is not
/// complete earlier.
pub proof fn law_later_bars_do_not_end_earlier(a: Timestamp, b: Timestamp, seconds: u32)
    requires
        a.wf(),
        b.wf(),
        a.before(b),
        seconds > 0,
        close_of(a, CandleStep::Seconds(seconds)) is Some,
        close_of(b, CandleStep::Seconds(seconds)) is Some,
        a.nanos < 1_000_000_000,
        b.nanos < 1_000_000_000,
    ensures
        a.before(close_of(a, CandleStep::Seconds(seconds))->0),
        close_of(a, CandleStep::Seconds(seconds))->0.before(close_of(b, CandleStep::Seconds(seconds))->0),
{
}

/// Microseconds are counted from 1970 and nothing of them is lost: an instant made of them is as many
/// microseconds from 1970, for every number that is in range.
pub proof fn law_microseconds_are_kept(micros: i64)
    ensures
        match instant_of_micros(micros as int) {
            Some(t) => {
                &&& t.wf()
                &&& t.nanos < 1_000_000_000
                &&& t.secs * 1_000_000_000 + t.nanos == micros * 1_000
            },
            None => micros < MIN_SECS * 1_000_000 || micros >= (MAX_SECS + 1) * 1_000_000,
        },
{
}

/// Milliseconds and nanoseconds count the same time from 1970: the milliseconds are the nanoseconds
/// rounded down, and a second later there are a thousand and a milliard more.
pub proof fn law_counts_since_1970_agree(t: Timestamp, later: Timestamp)
    requires
        t.wf(),
        later.wf(),
        later.nanos == t.nanos,
    ensures
        unix_millis(t) * 1_000_000 <= t.secs * 1_000_000_000 + t.nanos < (unix_millis(t) + 1) * 1_000_000,
        unix_millis(later) - unix_millis(t) == 1_000 * (later.secs - t.secs),
        match unix_nanos(t) {
            Some(nanos) => unix_millis(t) * 1_000_000 <= nanos < (unix_millis(t) + 1) * 1_000_000 && nanos % 1_000_000
                == t.nanos % 1_000_000,
            None => unix_millis(t) >= 9_223_372_036_854 || unix_millis(t) <= -9_223_372_036_854,
        },
        unix_nanos(t) is Some <==> -9_223_372_036_854_775_808 <= t.secs * 1_000_000_000 + t.nanos <= 9_223_372_036_854_775_807,
        unix_nanos(t) is Some && unix_nanos(later) is Some ==> unix_nanos(later)->0 - unix_nanos(t)->0 == 1_000_000_000 * (
        later.secs - t.secs),
{
}

/// Dates are ordered by year, within a year by month and within a month by day.
pub proof fn law_dates_are_on_one_line(a: Date, b: Date)
    requires
        a.wf(),
        b.wf(),
    ensures
        a.before(b) <==> (a.year * 12 + a.month) * 32 + a.day < (b.year * 12 + b.month) * 32 + b.day,
        !a.before(b) && !b.before(a) ==> a == b,
{
}

proof fn lemma_leading_zeros(n: nat, digits: Seq<char>, zeros: nat)
    requires
        text::digits_value(digits) == n,
    ensures
        text::digits_value(Seq::new(zeros, |i: int| '0') + digits) == n,
    decreases zeros + digits.len(),
{
    let all = Seq::new(zeros, |i: int| '0') + digits;
    if digits.len() > 0 {
        assert(all.drop_last() =~= Seq::new(zeros, |i: int| '0') + digits.drop_last());
        lemma_leading_zeros(text::digits_value(digits.drop_last()), digits.drop_last(), zeros);
    } else if zeros > 0 {
        assert(all.drop_last() =~= Seq::new((zeros - 1) as nat, |i: int| '0') + digits);
        lemma_leading_zeros(n, digits, (zeros - 1) as nat);
    }
}

/// A padded number is of the width that was asked for or longer, of decimal digits only, and reads as
/// the number.
pub proof fn law_padded_numbers_read_back(n: nat, width: nat)
    ensures
        padded(n, width).len() >= width,
        padded(n, width).len() == width || padded(n, width) == text::decimal_text(n),
        forall|i: int| 0 <= i < padded(n, width).len() ==> '0' <= #[trigger] padded(n, width)[i] <= '9',
        text::digits_value(padded(n, width)) == n,
{
    text::law_digits_of_a_number(n);
    let digits = text::decimal_text(n);
    if digits.len() < width {
        lemma_leading_zeros(n, digits, (width - digits.len()) as nat);
    }
}

/// A date of the years 0 to 9999 is printed as four digits that read as its year, two that read as its
/// month and two that read as its day, with dashes between them.
pub proof fn law_dates_read_back(date: Date)
    requires
        date.wf(),
        0 <= date.year <= 9_999,
    ensures
        ({
            let s = date.iso();
            &&& s.len() == 10
            &&& s[4] == '-' && s[7] == '-'
            &&& text::digits_value(s.subrange(0, 4)) == date.year
            &&& text::digits_value(s.subrange(5, 7)) == date.month
            &&& text::digits_value(s.subrange(8, 10)) == date.day
        }),
{
    reveal_strlit("-");
    reveal_with_fuel(text::decimal_text, 5);
    let year = padded(date.year as nat, 4);
    let month = padded(date.month as nat, 2);
    let day = padded(date.day as nat, 2);
    law_padded_numbers_read_back(date.year as nat, 4);
    law_padded_numbers_read_back(date.month as nat, 2);
    law_padded_numbers_read_back(date.day as nat, 2);
    assert(year.len() == 4 && month.len() == 2 && day.len() == 2);
    let s = date.iso();
    assert(s.subrange(0, 4) =~= year);
    assert(s.subrange(5, 7) =~= month);
    assert(s.subrange(8, 10) =~= day);
}

/// Every nanosecond of every second of the range is an instant, and of leap seconds those that end a minute are.
pub proof fn law_instants_of_the_range(secs: i64, nanos: u32)
    ensures
        (Timestamp { secs, nanos }).wf() <==> {
            &&& MIN_SECS <= secs <= MAX_SECS
            &&& nanos < 1_000_000_000 || (nanos < 2_000_000_000 && (secs + 1) % 60 == 0)
        },
        instant_of(Some((secs, nanos))) == if (Timestamp { secs, nanos }).wf() {
            Some(Timestamp { secs, nanos })
        } else {
            None
        },
{
}

/// The range holds whole years: from the beginning of its first year to the last second of its last.
pub proof fn law_range_is_of_whole_years()
    ensures
        calendar::month_start(MIN_YEAR * 12) * 86_400 == MIN_SECS,
        calendar::month_start((MAX_YEAR + 1) * 12) * 86_400 - 1 == MAX_SECS,
{
    assert((MIN_YEAR * 12) / 12 == MIN_YEAR && (MIN_YEAR * 12) % 12 == 0);
    assert(((MAX_YEAR + 1) * 12) / 12 == MAX_YEAR + 1 && ((MAX_YEAR + 1) * 12) % 12 == 0);
}

/// A shift within the ordinary seconds moves by exactly as many, and one out of a leap second leaves it for the ordinary
/// second beside it: the one behind it when the shift is forward, and its own when it is back. No shift changes nothing.
pub proof fn law_shifts_move_by_as_many_seconds(t: Timestamp, delta: int)
    requires
        t.wf(),
    ensures
        delta == 0 ==> shifted(t, delta) == Some(t),
        shifted(t, delta) matches Some(later) ==> delta != 0 ==> {
            &&& later.nanos < 1_000_000_000
            &&& later.nanos == if t.nanos < 1_000_000_000 { t.nanos as int } else { t.nanos - 1_000_000_000 }
            &&& later.secs - t.secs == if t.nanos >= 1_000_000_000 && delta < 0 { delta + 1 } else { delta }
        },
        shifted(t, delta) is None && t.nanos < 1_000_000_000 ==> t.secs + delta < MIN_SECS || t.secs + delta > MAX_SECS,
{
}

/// A year of more than four digits, or one before the year 0, has a sign in front of its digits, and no other has.
pub proof fn law_years_read_back(year: int)
    ensures
        0 <= year <= 9_999 ==> text::digits_value(iso_year(year)) == year,
        year > 9_999 ==> iso_year(year)[0] == '+' && text::digits_value(iso_year(year).skip(1)) == year,
        year < 0 ==> iso_year(year)[0] == '-' && text::digits_value(iso_year(year).skip(1)) == -year,
{
    reveal_strlit("-");
    reveal_strlit("+");
    let size: nat = if year < 0 { (-year) as nat } else { year as nat };
    law_padded_numbers_read_back(size, 4);
    if year < 0 || year > 9_999 {
        assert(iso_year(year).skip(1) =~= padded(size, 4));
    }
}

/// An instant of the years 0 to 9999 is printed, to the second, as the digits of its year, month, day, hour, minute and
/// second, in that order and each in its place.
///
/// Left out is a leap second, which is printed as the sixtieth of its minute.
pub proof fn law_instants_read_back(t: Timestamp, month: int, day: int, second: int)
    requires
        t.nanos < 1_000_000_000,
        calendar::is_at(t.secs as int, month, day, second),
        0 <= month < 120_000,
    ensures
        ({
            let s = utc_seconds_text(t.secs, t.nanos);
            &&& s.len() == 19
            &&& s[4] == '-' && s[7] == '-' && s[10] == ' ' && s[13] == ':' && s[16] == ':'
            &&& text::digits_value(s.subrange(0, 4)) * 12 + text::digits_value(s.subrange(5, 7)) - 1 == month
            &&& 1 <= text::digits_value(s.subrange(5, 7)) <= 12
            &&& text::digits_value(s.subrange(8, 10)) == day
            &&& text::digits_value(s.subrange(11, 13)) * 3_600 + text::digits_value(s.subrange(14, 16)) * 60
                + text::digits_value(s.subrange(17, 19)) == second
            &&& text::digits_value(s.subrange(14, 16)) < 60 && text::digits_value(s.subrange(17, 19)) < 60
        }),
{
    calendar::lemma_written_once(t.secs as int, month, day, second);
    reveal_strlit("-");
    reveal_strlit(" ");
    reveal_strlit(":");
    assert(0 <= month / 12 <= 9_999);
    assert(day <= 31);
    lemma_padded_width(month / 12, 4);
    lemma_padded_width(month % 12 + 1, 2);
    lemma_padded_width(day, 2);
    lemma_padded_width(second / 3_600, 2);
    lemma_padded_width(second / 60 % 60, 2);
    lemma_padded_width(second % 60, 2);
    let s = utc_seconds_text(t.secs, t.nanos);
    assert(s.subrange(0, 4) =~= padded((month / 12) as nat, 4));
    assert(s.subrange(5, 7) =~= padded((month % 12 + 1) as nat, 2));
    assert(s.subrange(8, 10) =~= padded(day as nat, 2));
    assert(s.subrange(11, 13) =~= padded((second / 3_600) as nat, 2));
    assert(s.subrange(14, 16) =~= padded((second / 60 % 60) as nat, 2));
    assert(s.subrange(17, 19) =~= padded((second % 60) as nat, 2));
}

proof fn lemma_padded_width(n: int, width: nat)
    requires
        width == 2 || width == 4,
        0 <= n < 10_000,
        width == 2 ==> n < 100,
    ensures
        padded(n as nat, width).len() == width,
        text::digits_value(padded(n as nat, width)) == n,
{
    reveal_with_fuel(text::decimal_text, 5);
    law_padded_numbers_read_back(n as nat, width);
}

} // verus!
