//! Historical candles, fetched page by page.
//!
//! A [`CandleFetch`] holds where a fetch stands. Whoever talks to the vault sends the query that it
//! asks for, hands it the rows that come back, and passes on the candles that it gives.

use vstd::prelude::*;
use vstd::string::*;
use crate::calendar;
use crate::lse::dataset;
use crate::lse::dataset::candle_interval_str;
use crate::lse::error;
use crate::lse::error::LseError;
use crate::market::{Candle, Decimal};
use crate::text;
use crate::text::{number_text, quote};
use crate::time;
use crate::time::{close_time_from_open, open_time_from_close, parse_plain, CandleInterval, CandleStep, Timestamp};

verus! {

/// How many rows are requested per page.
///
/// The provider caps a page without saying so, which is why a short page does not end a fetch.
pub const PAGE_LIMIT: u32 = 5_000;

/// How far the cursor moves past the last bar. Bars are at least a second apart.
pub const CURSOR_STEP_SECS: i64 = 1;

/// One candle as the vault serves it.
#[derive(Debug)]
pub struct LseCandleRow {
    /// When the bar opens, in UTC and without an offset.
    pub ts: String,
    pub open: Decimal,
    pub high: Decimal,
    pub low: Decimal,
    pub close: Decimal,
    /// Absent for FX.
    pub volume: Option<Decimal>,
}

impl LseCandleRow {
    /// When the bar opens, where its text can be read.
    pub open spec fn opens(self) -> Option<Timestamp> {
        match time::plain_instant(self.ts@) {
            Ok((secs, nanos)) => Some(Timestamp { secs, nanos }),
            Err(_) => None,
        }
    }

    /// The candle of this row, with the end of its period.
    pub open spec fn candle(self, close_time: Timestamp) -> Candle {
        Candle {
            close_time,
            open: self.open,
            high: self.high,
            low: self.low,
            close: self.close,
            volume: self.volume,
            trade_count: None,
        }
    }

    /// Reads when the bar opens.
    pub fn open_time(&self) -> (r: Result<Timestamp, LseError>)
        ensures
            match r {
                Ok(t) => self.opens() == Some(t) && t.wf(),
                Err(e) => self.opens() is None && unreadable(e, *self),
            },
    {
        match parse_plain(self.ts.as_str()) {
            Ok(t) => Ok(t),
            Err(reason) => {
                let mut message = String::from_str("invalid candle timestamp ");
                message.append(quote(self.ts.as_str()).as_str());
                message.append(": ");
                message.append(reason.as_str());
                Err(LseError::Deserialize { message })
            },
        }
    }

    /// The candle of this row, with the end of its period. The vault counts no trades, and a volume
    /// that it leaves out stays absent.
    pub fn into_candle(&self, close_time: Timestamp) -> (r: Candle)
        ensures
            r == self.candle(close_time),
            r.close_time == close_time,
            r.open == self.open,
            r.high == self.high,
            r.low == self.low,
            r.close == self.close,
            r.volume == self.volume,
            r.trade_count is None,
    {
        Candle {
            close_time,
            open: self.open,
            high: self.high,
            low: self.low,
            close: self.close,
            volume: self.volume,
            trade_count: None,
        }
    }
}

/// Whether `e` reports that the row's timestamp cannot be read.
pub open spec fn unreadable(e: LseError, row: LseCandleRow) -> bool {
    &&& e matches LseError::Deserialize { message }
    &&& message@ == "invalid candle timestamp "@ + text::quoted(row.ts@) + ": "@ + (time::plain_instant(
        row.ts@,
    )->Err_0)
}

/// When the bar of a row is complete, where that can be read and is representable.
pub open spec fn closes(row: LseCandleRow, step: CandleStep) -> Option<Timestamp> {
    match row.opens() {
        Some(open) => time::close_of(open, step),
        None => None,
    }
}

/// Whether `e` reports what is wrong with a row: its timestamp, or the end of its period.
pub open spec fn row_fault(e: LseError, row: LseCandleRow, interval: CandleInterval) -> bool {
    match row.opens() {
        None => unreadable(e, row),
        Some(open) => e == (LseError::TimestampOverflow { open, interval }),
    }
}

/// Whether a row's candle is complete within `[start, end]`.
pub open spec fn in_range(row: LseCandleRow, step: CandleStep, start: Timestamp, end: Timestamp) -> bool {
    closes(row, step) matches Some(close) && !close.before(start) && !end.before(close)
}

/// The candles of the rows that are complete within `[start, end]`, in the rows' order.
pub open spec fn candles_in_range(
    rows: Seq<LseCandleRow>,
    step: CandleStep,
    start: Timestamp,
    end: Timestamp,
) -> Seq<Candle>
    decreases rows.len(),
{
    if rows.len() == 0 {
        Seq::empty()
    } else {
        let before = candles_in_range(rows.drop_last(), step, start, end);
        if in_range(rows.last(), step, start, end) {
            before.push(rows.last().candle(closes(rows.last(), step)->0))
        } else {
            before
        }
    }
}

/// Whether every row has a readable timestamp and a representable end.
pub open spec fn all_decode(rows: Seq<LseCandleRow>, step: CandleStep) -> bool {
    forall|i: int| 0 <= i < rows.len() ==> closes(#[trigger] rows[i], step) is Some
}

/// The latest open of the rows.
pub open spec fn latest_open(rows: Seq<LseCandleRow>) -> Option<Timestamp>
    decreases rows.len(),
{
    if rows.len() == 0 {
        None
    } else {
        let open = rows.last().opens()->0;
        match latest_open(rows.drop_last()) {
            Some(seen) => if open.before(seen) {
                Some(seen)
            } else {
                Some(open)
            },
            None => Some(open),
        }
    }
}

/// Whether a row is complete only after `end`.
pub open spec fn passes_end(row: LseCandleRow, step: CandleStep, end: Timestamp) -> bool {
    closes(row, step) matches Some(close) && end.before(close)
}

/// Whether some row is complete only after `end`.
pub open spec fn any_passes_end(rows: Seq<LseCandleRow>, step: CandleStep, end: Timestamp) -> bool {
    exists|i: int| 0 <= i < rows.len() && passes_end(#[trigger] rows[i], step, end)
}

/// The parameters of one request.
#[derive(Debug)]
pub struct CandleQuery {
    pub symbol: String,
    pub timeframe: String,
    pub start: String,
    pub end: String,
    pub limit: String,
}

/// What follows a page.
#[derive(Debug)]
pub enum PageNext {
    /// Another request.
    Fetch,
    /// Nothing: the fetch is done.
    Done,
    /// This error, and nothing more.
    Failed(LseError),
}

/// Where a fetch stands.
#[derive(Debug)]
pub struct CandleFetch {
    pub symbol: String,
    pub interval: CandleInterval,
    /// The inclusive bounds on when a candle is complete.
    pub start: Timestamp,
    pub end: Timestamp,
    /// The open of the first bar of the next page.
    pub cursor: Timestamp,
    /// The open that no requested bar reaches.
    pub range_end: Timestamp,
    /// How many pages have come.
    pub page: u64,
}

/// The instant, or `otherwise` where there is none.
pub open spec fn instant_or(t: Option<Timestamp>, otherwise: Timestamp) -> Timestamp {
    match t {
        Some(t) => t,
        None => otherwise,
    }
}

/// The open from which bars are requested: that of the bar that is complete at `start`.
pub open spec fn request_start(start: Timestamp, step: CandleStep) -> Timestamp {
    instant_or(time::open_of(start, step), start)
}

/// The open up to which bars are requested, which the vault leaves out: a second past that of the
/// bar that is complete at `end`.
pub open spec fn request_end(end: Timestamp, step: CandleStep) -> Timestamp {
    let open = instant_or(time::open_of(end, step), end);
    instant_or(time::shifted(open, CURSOR_STEP_SECS as int), open)
}

/// The message for bounds in the wrong order.
pub open spec fn inverted_message(start: Timestamp, end: Timestamp) -> Seq<char> {
    "start ("@ + error::shown(start) + ") must not be after end ("@ + error::shown(end) + ")"@
}

/// The message for a page that leaves the cursor where it is.
pub open spec fn stuck_message(page: u64, cursor: Timestamp) -> Seq<char> {
    "page "@ + text::decimal_text(page as nat) + " did not advance past "@ + error::shown(cursor)
        + ": the range parameters appear to have been ignored"@
}

/// Whether `r` is a fetch at its beginning, or why there is none: bounds in the wrong order, or a resolution that the
/// provider does not serve.
pub open spec fn is_start(
    r: Result<CandleFetch, LseError>,
    symbol: Seq<char>,
    interval: CandleInterval,
    start: Timestamp,
    end: Timestamp,
) -> bool {
    match r {
        Ok(fetch) => {
            &&& !end.before(start)
            &&& fetch.wf()
            &&& fetch.symbol@ == symbol
            &&& fetch.interval == interval
            &&& fetch.start == start
            &&& fetch.end == end
            &&& fetch.cursor == request_start(start, interval.step())
            &&& fetch.range_end == request_end(end, interval.step())
            &&& fetch.page == 0
        },
        Err(e) => if end.before(start) {
            e matches LseError::InvalidInput { message } && message@ == inverted_message(start, end)
        } else {
            &&& dataset::interval_name(interval) is None
            &&& e == (LseError::UnsupportedInterval { interval })
        },
    }
}

/// Whether these are the parameters of the next request of a fetch.
pub open spec fn asks(fetch: CandleFetch, query: CandleQuery) -> bool {
    &&& query.symbol@ == fetch.symbol@
    &&& dataset::interval_name(fetch.interval) == Some(query.timeframe@)
    &&& query.start@ == time::utc_seconds_text(fetch.cursor.secs, fetch.cursor.nanos)
    &&& query.end@ == time::utc_seconds_text(fetch.range_end.secs, fetch.range_end.nanos)
    &&& query.limit@ == text::decimal_text(PAGE_LIMIT as nat)
}

impl CandleFetch {
    /// Whether the instants are representable and the resolution is served.
    pub open spec fn wf(self) -> bool {
        &&& self.start.wf()
        &&& self.end.wf()
        &&& self.cursor.wf()
        &&& self.range_end.wf()
        &&& dataset::interval_name(self.interval) is Some
    }

    /// Whether the two differ in nothing but the cursor and the count of pages.
    pub open spec fn same_request(self, other: CandleFetch) -> bool {
        &&& self.symbol@ == other.symbol@
        &&& self.interval == other.interval
        &&& self.start == other.start
        &&& self.end == other.end
        &&& self.range_end == other.range_end
    }

    /// Starts a fetch of the candles that are complete within `[start, end]`.
    ///
    /// Fails for bounds in the wrong order and for a resolution that the provider does not serve.
    /// The vault filters on when a bar opens, with an exclusive upper bound, so the lower bound is
    /// widened by one bar and the upper bound lies just past the open of the last one.
    pub fn new(symbol: &str, interval: CandleInterval, start: Timestamp, end: Timestamp) -> (r: Result<
        CandleFetch,
        LseError,
    >)
        requires
            start.wf(),
            end.wf(),
        ensures
            is_start(r, symbol@, interval, start, end),
    {
        if end.is_before(&start) {
            let mut message = String::from_str("start (");
            message.append(start.text().as_str());
            message.append(") must not be after end (");
            message.append(end.text().as_str());
            message.append(")");
            return Err(LseError::InvalidInput { message });
        }
        if candle_interval_str(interval).is_none() {
            return Err(LseError::UnsupportedInterval { interval });
        }
        let step = interval.to_step();
        let cursor = match open_time_from_close(start, step) {
            Some(open) => open,
            None => start,
        };
        let last_open = match open_time_from_close(end, step) {
            Some(open) => open,
            None => end,
        };
        let range_end = match last_open.shift(CURSOR_STEP_SECS) {
            Some(past) => past,
            None => last_open,
        };
        Ok(CandleFetch { symbol: String::from_str(symbol), interval, start, end, cursor, range_end, page: 0 })
    }

    /// The parameters of the next request.
    pub fn query(&self) -> (r: CandleQuery)
        requires
            self.wf(),
        ensures
            asks(*self, r),
    {
        let timeframe = match candle_interval_str(self.interval) {
            Some(name) => String::from_str(name),
            None => String::new(),
        };
        CandleQuery {
            symbol: self.symbol.clone(),
            timeframe,
            start: self.cursor.cursor_text(),
            end: self.range_end.cursor_text(),
            limit: number_text(PAGE_LIMIT as u64),
        }
    }

    /// Takes in a page: gives the candles that it holds in range, and says what follows.
    ///
    /// An empty page ends the fetch. A row that cannot be decoded ends it with an error, behind the
    /// candles of the rows before it. A bar that is complete only after the end means that the
    /// range was ignored, and so does a page that leaves the cursor where it is; both are errors,
    /// behind every candle of the page. Otherwise the cursor moves a second past the latest open,
    /// and the fetch is done once that leaves nothing to request.
    pub fn on_page(&mut self, rows: &Vec<LseCandleRow>) -> (r: (Vec<Candle>, PageNext))
        requires
            old(self).wf(),
            old(self).page < u64::MAX,
        ensures
            final(self).wf(),
            final(self).same_request(*old(self)),
            final(self).page == old(self).page + 1,
            page_taken(*old(self), rows@, r.0@, r.1, *final(self)),
    {
        let step = self.interval.to_step();
        self.page = self.page + 1;
        let mut candles: Vec<Candle> = Vec::new();
        if rows.len() == 0 {
            assert(candles@ =~= candles_in_range(rows@, step, self.start, self.end));
            return (candles, PageNext::Done);
        }
        let mut max_open: Option<Timestamp> = None;
        let mut passed_end = false;
        let mut i: usize = 0;
        let ghost before = *self;
        assert(rows@.take(0) =~= Seq::<LseCandleRow>::empty());
        while i < rows.len()
            invariant
                i <= rows.len(),
                *self == before,
                before.wf(),
                before.page == old(self).page + 1,
                before.same_request(*old(self)),
                before.cursor == old(self).cursor,
                step == self.interval.step(),
                all_decode(rows@.take(i as int), step),
                candles@ == candles_in_range(rows@.take(i as int), step, self.start, self.end),
                max_open == latest_open(rows@.take(i as int)),
                max_open matches Some(open) ==> open.wf(),
                i > 0 ==> max_open is Some,
                passed_end == any_passes_end(rows@.take(i as int), step, self.end),
            decreases rows.len() - i,
        {
            let row = &rows[i];
            let ghost seen = rows@.take(i as int);
            let ghost more = rows@.take(i + 1);
            assert(more.drop_last() =~= seen);
            assert(more.last() == rows@[i as int]);
            let open = match row.open_time() {
                Ok(open) => open,
                Err(e) => {
                    proof {
                        lemma_fault_page(*old(self), rows@, i as int, candles@, e, *self);
                    }
                    return (candles, PageNext::Failed(e));
                },
            };
            let close_time = match close_time_from_open(open, step) {
                Some(close) => close,
                None => {
                    let e = LseError::TimestampOverflow { open, interval: self.interval };
                    proof {
                        lemma_fault_page(*old(self), rows@, i as int, candles@, e, *self);
                    }
                    return (candles, PageNext::Failed(e));
                },
            };
            max_open = match max_open {
                Some(seen_open) => if open.is_before(&seen_open) {
                    Some(seen_open)
                } else {
                    Some(open)
                },
                None => Some(open),
            };
            proof {
                assert(all_decode(more, step)) by {
                    assert forall|j: int| 0 <= j < more.len() implies closes(#[trigger] more[j], step) is Some by {
                        if j < i {
                            assert(seen[j] == more[j]);
                        }
                    }
                }
                assert(any_passes_end(more, step, self.end) == (any_passes_end(seen, step, self.end) || passes_end(
                    *row,
                    step,
                    self.end,
                ))) by {
                    if any_passes_end(seen, step, self.end) {
                        let k = choose|k: int| 0 <= k < seen.len() && passes_end(#[trigger] seen[k], step, self.end);
                        assert(more[k] == seen[k]);
                    }
                    if passes_end(*row, step, self.end) {
                        assert(passes_end(more[i as int], step, self.end));
                    }
                    if any_passes_end(more, step, self.end) {
                        let k = choose|k: int| 0 <= k < more.len() && passes_end(#[trigger] more[k], step, self.end);
                        if k < i {
                            assert(seen[k] == more[k]);
                            assert(passes_end(seen[k], step, self.end));
                        }
                    }
                }
            }
            if self.end.is_before(&close_time) {
                passed_end = true;
            } else if !close_time.is_before(&self.start) {
                candles.push(row.into_candle(close_time));
            }
            i = i + 1;
        }
        assert(rows@.take(rows@.len() as int) =~= rows@);
        if passed_end {
            let e = LseError::UnexpectedCandleRange {
                symbol: self.symbol.clone(),
                cursor: self.cursor,
                page: self.page,
                end: self.end,
            };
            return (candles, PageNext::Failed(e));
        }
        let last_open = match max_open {
            Some(open) => open,
            None => {
                return (candles, PageNext::Done);
            },
        };
        let next_cursor = match last_open.shift(CURSOR_STEP_SECS) {
            Some(next) => next,
            None => {
                return (candles, PageNext::Failed(LseError::CursorOverflow { last_open }));
            },
        };
        if !self.cursor.is_before(&next_cursor) {
            let mut message = String::from_str("page ");
            message.append(number_text(self.page).as_str());
            message.append(" did not advance past ");
            message.append(self.cursor.text().as_str());
            message.append(": the range parameters appear to have been ignored");
            return (candles, PageNext::Failed(LseError::Api { status: 200, message }));
        }
        self.cursor = next_cursor;
        if !self.cursor.is_before(&self.range_end) {
            return (candles, PageNext::Done);
        }
        (candles, PageNext::Fetch)
    }
}

/// Whether a page stops at row `i`: the rows before it decode, and it does not.
pub open spec fn stops_at(rows: Seq<LseCandleRow>, step: CandleStep, i: int) -> bool {
    &&& 0 <= i < rows.len()
    &&& all_decode(rows.take(i), step)
    &&& closes(rows[i], step) is None
}

/// What a page of decodable rows leads to, behind its candles.
pub open spec fn decoded_page_next(before: CandleFetch, rows: Seq<LseCandleRow>, next: PageNext, after: CandleFetch) -> bool {
    let last_open = latest_open(rows)->0;
    let next_cursor = time::shifted(last_open, CURSOR_STEP_SECS as int);
    if rows.len() == 0 {
        next is Done && after.cursor == before.cursor
    } else if any_passes_end(rows, before.interval.step(), before.end) {
        &&& next matches PageNext::Failed(LseError::UnexpectedCandleRange { symbol, cursor, page, end })
        &&& symbol@ == before.symbol@
        &&& cursor == before.cursor
        &&& page == before.page + 1
        &&& end == before.end
        &&& after.cursor == before.cursor
    } else if next_cursor is None {
        &&& next == PageNext::Failed(LseError::CursorOverflow { last_open })
        &&& after.cursor == before.cursor
    } else if !before.cursor.before(next_cursor->0) {
        &&& next matches PageNext::Failed(LseError::Api { status, message })
        &&& status == 200
        &&& message@ == stuck_message((before.page + 1) as u64, before.cursor)
        &&& after.cursor == before.cursor
    } else {
        &&& after.cursor == next_cursor->0
        &&& if next_cursor->0.before(before.range_end) {
            next is Fetch
        } else {
            next is Done
        }
    }
}

/// What taking in a page gives, and where it leaves the fetch.
pub open spec fn page_taken(
    before: CandleFetch,
    rows: Seq<LseCandleRow>,
    candles: Seq<Candle>,
    next: PageNext,
    after: CandleFetch,
) -> bool {
    let step = before.interval.step();
    if all_decode(rows, step) {
        &&& candles == candles_in_range(rows, step, before.start, before.end)
        &&& decoded_page_next(before, rows, next, after)
    } else {
        exists|i: int|
            {
                &&& #[trigger] stops_at(rows, step, i)
                &&& candles == candles_in_range(rows.take(i), step, before.start, before.end)
                &&& next matches PageNext::Failed(e)
                &&& row_fault(e, rows[i], before.interval)
                &&& after.cursor == before.cursor
            }
    }
}

proof fn lemma_fault_page(
    before: CandleFetch,
    rows: Seq<LseCandleRow>,
    i: int,
    candles: Seq<Candle>,
    e: LseError,
    after: CandleFetch,
)
    requires
        stops_at(rows, before.interval.step(), i),
        candles == candles_in_range(rows.take(i), before.interval.step(), before.start, before.end),
        row_fault(e, rows[i], before.interval),
        after.cursor == before.cursor,
    ensures
        page_taken(before, rows, candles, PageNext::Failed(e), after),
{
    assert(closes(rows[i], before.interval.step()) is None);
}

/// A page gives only candles that are complete within the bounds, and it gives one for every row
/// that is.
pub proof fn law_page_gives_exactly_the_range(
    rows: Seq<LseCandleRow>,
    step: CandleStep,
    start: Timestamp,
    end: Timestamp,
)
    ensures
        forall|k: int|
            0 <= k < candles_in_range(rows, step, start, end).len() ==> {
                let candle = #[trigger] candles_in_range(rows, step, start, end)[k];
                !candle.close_time.before(start) && !end.before(candle.close_time)
            },
        forall|i: int|
            0 <= i < rows.len() && in_range(#[trigger] rows[i], step, start, end) ==> candles_in_range(
                rows,
                step,
                start,
                end,
            ).contains(rows[i].candle(closes(rows[i], step)->0)),
    decreases rows.len(),
{
    if rows.len() > 0 {
        let shorter = rows.drop_last();
        law_page_gives_exactly_the_range(shorter, step, start, end);
        let before = candles_in_range(shorter, step, start, end);
        let all = candles_in_range(rows, step, start, end);
        assert forall|i: int| 0 <= i < rows.len() && in_range(#[trigger] rows[i], step, start, end) implies all.contains(
            rows[i].candle(closes(rows[i], step)->0),
        ) by {
            let candle = rows[i].candle(closes(rows[i], step)->0);
            if i < shorter.len() {
                assert(shorter[i] == rows[i]);
                assert(before.contains(candle));
                let k = choose|k: int| 0 <= k < before.len() && before[k] == candle;
                assert(all[k] == candle);
            } else {
                assert(all.last() == candle);
            }
        }
    }
}

/// The whole second of an instant, which is all that a query parameter carries of it.
pub open spec fn whole(t: Timestamp) -> Timestamp {
    Timestamp { secs: t.secs, nanos: 0 }
}

/// How many of the rows, which open in ascending order, open before `t`.
pub open spec fn first_from(data: Seq<LseCandleRow>, t: Timestamp) -> int
    decreases data.len(),
{
    if data.len() == 0 {
        0
    } else if data.last().opens()->0.before(t) {
        data.len() as int
    } else {
        first_from(data.drop_last(), t)
    }
}

/// Whether the rows decode and open in ascending order, each in a second of its own.
pub open spec fn is_series(data: Seq<LseCandleRow>, step: CandleStep) -> bool {
    &&& all_decode(data, step)
    &&& forall|i: int, j: int|
        0 <= i < j < data.len() ==> (#[trigger] data[i]).opens()->0.secs < (#[trigger] data[j]).opens()->0.secs
}

/// Whether `page` is an honest answer to the query of `fetch` by a vault that holds `data`: the
/// first bars of the requested window, at least one where the window has one.
pub open spec fn honest_page(data: Seq<LseCandleRow>, fetch: CandleFetch, page: Seq<LseCandleRow>) -> bool {
    let from = first_from(data, whole(fetch.cursor));
    let to = first_from(data, whole(fetch.range_end));
    &&& page.len() > 0 ==> from + page.len() <= to
    &&& from < to ==> page.len() > 0
    &&& page == data.subrange(from, from + page.len())
}

/// Whether the fetch of `fetches[0]` runs over `pages` until it is done, with a vault that holds
/// `data` and honours what it is asked.
pub open spec fn honest_run(
    data: Seq<LseCandleRow>,
    fetches: Seq<CandleFetch>,
    pages: Seq<Seq<LseCandleRow>>,
    given: Seq<Seq<Candle>>,
    nexts: Seq<PageNext>,
) -> bool {
    &&& pages.len() > 0
    &&& fetches.len() == pages.len() + 1
    &&& given.len() == pages.len()
    &&& nexts.len() == pages.len()
    &&& forall|i: int|
        0 <= i < pages.len() ==> {
            &&& honest_page(data, fetches[i], #[trigger] pages[i])
            &&& page_taken(fetches[i], pages[i], given[i], nexts[i], fetches[i + 1])
            &&& fetches[i + 1].same_request(fetches[i])
            &&& i < pages.len() - 1 ==> nexts[i] is Fetch
        }
    &&& nexts.last() is Done
}

/// The candles of several pages, one page behind the other.
pub open spec fn all_given(given: Seq<Seq<Candle>>) -> Seq<Candle>
    decreases given.len(),
{
    if given.len() == 0 {
        Seq::empty()
    } else {
        given.first() + all_given(given.drop_first())
    }
}

/// Whether every row that is complete within the bounds opens in the window that the fetch requests.
pub open spec fn window_covers_range(data: Seq<LseCandleRow>, fetch: CandleFetch) -> bool {
    forall|i: int|
        0 <= i < data.len() && in_range(#[trigger] data[i], fetch.interval.step(), fetch.start, fetch.end) ==> {
            &&& !data[i].opens()->0.before(whole(fetch.cursor))
            &&& data[i].opens()->0.before(whole(fetch.range_end))
        }
}

proof fn lemma_first_from(data: Seq<LseCandleRow>, step: CandleStep, t: Timestamp)
    requires
        is_series(data, step),
    ensures
        0 <= first_from(data, t) <= data.len(),
        forall|i: int| 0 <= i < first_from(data, t) ==> (#[trigger] data[i]).opens()->0.before(t),
        forall|i: int| first_from(data, t) <= i < data.len() ==> !(#[trigger] data[i]).opens()->0.before(t),
    decreases data.len(),
{
    if data.len() > 0 {
        let last = data.len() - 1;
        if data.last().opens()->0.before(t) {
            assert forall|i: int| 0 <= i < data.len() implies (#[trigger] data[i]).opens()->0.before(t) by {
                if i < last {
                    assert(data[i].opens()->0.secs < data[last].opens()->0.secs);
                }
            }
        } else {
            let shorter = data.drop_last();
            assert forall|i: int, j: int| 0 <= i < j < shorter.len() implies (#[trigger] shorter[i]).opens()->0.secs < (
            #[trigger] shorter[j]).opens()->0.secs by {
                assert(data[i].opens()->0.secs < data[j].opens()->0.secs);
            }
            assert forall|i: int| 0 <= i < shorter.len() implies closes(#[trigger] shorter[i], step) is Some by {
                assert(closes(data[i], step) is Some);
            }
            lemma_first_from(shorter, step, t);
            assert forall|i: int| 0 <= i < first_from(data, t) implies (#[trigger] data[i]).opens()->0.before(t) by {
                assert(shorter[i].opens()->0.before(t));
            }
            assert forall|i: int| first_from(data, t) <= i < data.len() implies !(#[trigger] data[i]).opens()->0.before(
                t,
            ) by {
                if i < last {
                    assert(!shorter[i].opens()->0.before(t));
                }
            }
        }
    }
}

proof fn lemma_candles_split(
    a: Seq<LseCandleRow>,
    b: Seq<LseCandleRow>,
    step: CandleStep,
    start: Timestamp,
    end: Timestamp,
)
    ensures
        candles_in_range(a + b, step, start, end) == candles_in_range(a, step, start, end) + candles_in_range(
            b,
            step,
            start,
            end,
        ),
    decreases b.len(),
{
    if b.len() == 0 {
        assert(a + b =~= a);
        assert(candles_in_range(a, step, start, end) + Seq::<Candle>::empty() =~= candles_in_range(
            a,
            step,
            start,
            end,
        ));
    } else {
        lemma_candles_split(a, b.drop_last(), step, start, end);
        assert((a + b).drop_last() =~= a + b.drop_last());
        assert((a + b).last() == b.last());
        assert(candles_in_range(a + b, step, start, end) =~= candles_in_range(a, step, start, end)
            + candles_in_range(b, step, start, end));
    }
}

proof fn lemma_none_in_range(rows: Seq<LseCandleRow>, step: CandleStep, start: Timestamp, end: Timestamp)
    requires
        forall|i: int| 0 <= i < rows.len() ==> !in_range(#[trigger] rows[i], step, start, end),
    ensures
        candles_in_range(rows, step, start, end) == Seq::<Candle>::empty(),
    decreases rows.len(),
{
    if rows.len() > 0 {
        let shorter = rows.drop_last();
        assert forall|i: int| 0 <= i < shorter.len() implies !in_range(#[trigger] shorter[i], step, start, end) by {
            assert(!in_range(rows[i], step, start, end));
        }
        lemma_none_in_range(shorter, step, start, end);
        assert(!in_range(rows[rows.len() - 1], step, start, end));
    }
}

proof fn lemma_latest_of_series(rows: Seq<LseCandleRow>, step: CandleStep)
    requires
        is_series(rows, step),
        rows.len() > 0,
    ensures
        latest_open(rows) == Some(rows.last().opens()->0),
    decreases rows.len(),
{
    let shorter = rows.drop_last();
    if shorter.len() > 0 {
        assert forall|i: int, j: int| 0 <= i < j < shorter.len() implies (#[trigger] shorter[i]).opens()->0.secs < (
        #[trigger] shorter[j]).opens()->0.secs by {
            assert(rows[i].opens()->0.secs < rows[j].opens()->0.secs);
        }
        assert forall|i: int| 0 <= i < shorter.len() implies closes(#[trigger] shorter[i], step) is Some by {
            assert(closes(rows[i], step) is Some);
        }
        lemma_latest_of_series(shorter, step);
        assert(rows[rows.len() - 2].opens()->0.secs < rows[rows.len() - 1].opens()->0.secs);
        assert(latest_open(shorter) == Some(shorter.last().opens()->0));
        assert(shorter.last() == rows[rows.len() - 2]);
    }
}

proof fn lemma_subseries(data: Seq<LseCandleRow>, step: CandleStep, from: int, to: int)
    requires
        is_series(data, step),
        0 <= from <= to <= data.len(),
    ensures
        is_series(data.subrange(from, to), step),
{
    let part = data.subrange(from, to);
    assert forall|i: int, j: int| 0 <= i < j < part.len() implies (#[trigger] part[i]).opens()->0.secs < (
    #[trigger] part[j]).opens()->0.secs by {
        assert(data[from + i].opens()->0.secs < data[from + j].opens()->0.secs);
    }
    assert forall|i: int| 0 <= i < part.len() implies closes(#[trigger] part[i], step) is Some by {
        assert(closes(data[from + i], step) is Some);
    }
}

/// Behind a page of an honest vault, the next window begins where the page ended.
proof fn lemma_page_moves_on(
    data: Seq<LseCandleRow>,
    fetch: CandleFetch,
    page: Seq<LseCandleRow>,
    given: Seq<Candle>,
    next: PageNext,
    after: CandleFetch,
)
    requires
        is_series(data, fetch.interval.step()),
        honest_page(data, fetch, page),
        page_taken(fetch, page, given, next, after),
        !(next is Failed),
        page.len() > 0,
    ensures
        first_from(data, whole(after.cursor)) == first_from(data, whole(fetch.cursor)) + page.len(),
        next is Done ==> first_from(data, whole(after.cursor)) >= first_from(data, whole(fetch.range_end)),
        given == candles_in_range(page, fetch.interval.step(), fetch.start, fetch.end),
{
    let step = fetch.interval.step();
    let from = first_from(data, whole(fetch.cursor));
    let to = first_from(data, whole(fetch.range_end));
    let past = from + page.len();
    lemma_first_from(data, step, whole(fetch.cursor));
    lemma_first_from(data, step, whole(fetch.range_end));
    lemma_subseries(data, step, from, past);
    lemma_latest_of_series(page, step);
    let last = data[past - 1].opens()->0;
    assert(page.last() == data[past - 1]);
    assert(after.cursor == time::shifted(last, 1)->0);
    lemma_first_from(data, step, whole(after.cursor));
    let begin = first_from(data, whole(after.cursor));
    assert(last.before(whole(after.cursor)));
    if begin < past {
        assert(!data[past - 1].opens()->0.before(whole(after.cursor)));
    }
    if begin > past {
        assert(data[past - 1].opens()->0.secs < data[past].opens()->0.secs);
        assert(data[past].opens()->0.before(whole(after.cursor)));
        assert(false);
    }
    if next is Done {
        assert(!after.cursor.before(fetch.range_end));
        if past < to {
            assert(data[past].opens()->0.before(whole(fetch.range_end)));
            assert(!data[past].opens()->0.before(whole(after.cursor)));
            assert(false);
        }
    }
}

proof fn lemma_run_gives_window(
    data: Seq<LseCandleRow>,
    fetches: Seq<CandleFetch>,
    pages: Seq<Seq<LseCandleRow>>,
    given: Seq<Seq<Candle>>,
    nexts: Seq<PageNext>,
)
    requires
        is_series(data, fetches[0].interval.step()),
        honest_run(data, fetches, pages, given, nexts),
    ensures
        ({
            let fetch = fetches[0];
            let from = first_from(data, whole(fetch.cursor));
            let to = first_from(data, whole(fetch.range_end));
            all_given(given) == candles_in_range(
                data.subrange(from, if from < to { to } else { from }),
                fetch.interval.step(),
                fetch.start,
                fetch.end,
            )
        }),
    decreases pages.len(),
{
    let fetch = fetches[0];
    let step = fetch.interval.step();
    let from = first_from(data, whole(fetch.cursor));
    let to = first_from(data, whole(fetch.range_end));
    lemma_first_from(data, step, whole(fetch.cursor));
    lemma_first_from(data, step, whole(fetch.range_end));
    let page = pages[0];
    reveal_with_fuel(all_given, 2);
    assert(honest_page(data, fetches[0], pages[0]));
    assert(page_taken(fetches[0], pages[0], given[0], nexts[0], fetches[1]));
    assert(fetches[1].same_request(fetches[0]));
    if page.len() == 0 {
        assert(all_decode(page, step));
        assert(nexts[0] is Done);
        assert(pages.len() == 1);
        assert(given[0] =~= Seq::<Candle>::empty());
        assert(given.drop_first() =~= Seq::<Seq<Candle>>::empty());
        assert(all_given(given) =~= Seq::<Candle>::empty());
        assert(data.subrange(from, from) =~= Seq::<LseCandleRow>::empty());
    } else {
        let past = from + page.len();
        assert(!(nexts[0] is Failed)) by {
            if pages.len() > 1 {
                assert(nexts[0] is Fetch);
            } else {
                assert(nexts[0] == nexts.last());
            }
        }
        lemma_page_moves_on(data, fetch, page, given[0], nexts[0], fetches[1]);
        if pages.len() == 1 {
            assert(nexts[0] == nexts.last());
            assert(past == to);
            assert(given.drop_first() =~= Seq::<Seq<Candle>>::empty());
            assert(all_given(given) =~= given[0]);
        } else {
            let rest = pages.drop_first();
            let rest_fetches = fetches.drop_first();
            let rest_given = given.drop_first();
            let rest_nexts = nexts.drop_first();
            assert forall|i: int| 0 <= i < rest.len() implies {
                &&& honest_page(data, rest_fetches[i], #[trigger] rest[i])
                &&& page_taken(rest_fetches[i], rest[i], rest_given[i], rest_nexts[i], rest_fetches[i + 1])
                &&& rest_fetches[i + 1].same_request(rest_fetches[i])
                &&& i < rest.len() - 1 ==> rest_nexts[i] is Fetch
            } by {
                assert(honest_page(data, fetches[i + 1], pages[i + 1]));
            }
            assert(rest_nexts.last() == nexts.last());
            lemma_run_gives_window(data, rest_fetches, rest, rest_given, rest_nexts);
            assert(rest_fetches[0] == fetches[1]);
            assert(past <= to);
            assert(data.subrange(from, to) =~= page + data.subrange(past, to));
            lemma_candles_split(page, data.subrange(past, to), step, fetch.start, fetch.end);
        }
    }
}

/// A fetch from a vault that honours its parameters gives exactly the candles that are complete
/// within the bounds, each once and in order, however the vault cuts its pages.
pub proof fn law_fetch_is_complete(
    data: Seq<LseCandleRow>,
    fetches: Seq<CandleFetch>,
    pages: Seq<Seq<LseCandleRow>>,
    given: Seq<Seq<Candle>>,
    nexts: Seq<PageNext>,
)
    requires
        is_series(data, fetches[0].interval.step()),
        window_covers_range(data, fetches[0]),
        honest_run(data, fetches, pages, given, nexts),
    ensures
        all_given(given) == candles_in_range(
            data,
            fetches[0].interval.step(),
            fetches[0].start,
            fetches[0].end,
        ),
{
    let fetch = fetches[0];
    let step = fetch.interval.step();
    let from = first_from(data, whole(fetch.cursor));
    let to = first_from(data, whole(fetch.range_end));
    let past = if from < to { to } else { from };
    lemma_first_from(data, step, whole(fetch.cursor));
    lemma_first_from(data, step, whole(fetch.range_end));
    lemma_run_gives_window(data, fetches, pages, given, nexts);
    let below = data.subrange(0, from);
    let within = data.subrange(from, past);
    let above = data.subrange(past, data.len() as int);
    assert forall|i: int| 0 <= i < below.len() implies !in_range(#[trigger] below[i], step, fetch.start, fetch.end) by {
        assert(data[i].opens()->0.before(whole(fetch.cursor)));
    }
    assert forall|i: int| 0 <= i < above.len() implies !in_range(#[trigger] above[i], step, fetch.start, fetch.end) by {
        assert(!data[past + i].opens()->0.before(whole(fetch.range_end)));
    }
    lemma_none_in_range(below, step, fetch.start, fetch.end);
    lemma_none_in_range(above, step, fetch.start, fetch.end);
    lemma_candles_split(below, within, step, fetch.start, fetch.end);
    lemma_candles_split(below + within, above, step, fetch.start, fetch.end);
    assert((below + within) + above =~= data);
    let middle = candles_in_range(within, step, fetch.start, fetch.end);
    assert((Seq::<Candle>::empty() + middle) + Seq::<Candle>::empty() =~= middle);
}

/// A fetch that was just started requests a window that holds every bar that is complete within the
/// bounds, as long as the bar that is complete at the first bound has a representable open.
///
/// Left out are monthly bars that a shorter month keeps from stepping evenly with the last bound: none
/// that opens at midnight on one of the first 28 days is.
pub proof fn law_window_covers_range(data: Seq<LseCandleRow>, fetch: CandleFetch)
    requires
        fetch.wf(),
        time::open_of(fetch.start, fetch.interval.step()) is Some,
        fetch.cursor == request_start(fetch.start, fetch.interval.step()),
        fetch.range_end == request_end(fetch.end, fetch.interval.step()),
        forall|i: int| 0 <= i < data.len() ==> ((#[trigger] data[i]).opens() matches Some(open) ==> open.wf()),
        fetch.interval is Month1 ==> forall|i: int|
            0 <= i < data.len() ==> ((#[trigger] data[i]).opens() matches Some(open) ==> calendar::steps_evenly(
                open.secs as int,
                1,
                fetch.end.secs as int,
            )),
    ensures
        window_covers_range(data, fetch),
{
    let step = fetch.interval.step();
    assert forall|i: int| 0 <= i < data.len() && in_range(#[trigger] data[i], step, fetch.start, fetch.end) implies {
        &&& !data[i].opens()->0.before(whole(fetch.cursor))
        &&& data[i].opens()->0.before(whole(fetch.range_end))
    } by {
        let open = data[i].opens()->0;
        assert(open.wf());
        if let CandleStep::Months(n) = step {
            calendar::lemma_moved_back_is_below(open.secs as int, n as int, fetch.start.secs as int);
            calendar::lemma_moved_back_is_above(open.secs as int, n as int, fetch.end.secs as int);
            calendar::lemma_moved_direction(open.secs as int, n as int);
            calendar::lemma_moved_direction(fetch.end.secs as int, -(n as int));
        }
    }
}

/// A vault that honours its parameters, and whose bars open on whole seconds, never makes a fetch
/// fail: there is nothing past the end, and every page moves the cursor.
pub proof fn law_honest_vault_never_fails(
    data: Seq<LseCandleRow>,
    fetch: CandleFetch,
    page: Seq<LseCandleRow>,
    given: Seq<Candle>,
    next: PageNext,
    after: CandleFetch,
)
    requires
        fetch.wf(),
        is_series(data, fetch.interval.step()),
        forall|i: int| 0 <= i < data.len() ==> (#[trigger] data[i]).opens()->0.wf() && data[i].opens()->0.nanos == 0,
        time::open_of(fetch.end, fetch.interval.step()) is Some,
        fetch.range_end == request_end(fetch.end, fetch.interval.step()),
        fetch.interval.step() is Seconds ==> fetch.end.nanos < 1_000_000_000,
        honest_page(data, fetch, page),
        page_taken(fetch, page, given, next, after),
    ensures
        !(next is Failed),
{
    let step = fetch.interval.step();
    let from = first_from(data, whole(fetch.cursor));
    let to = first_from(data, whole(fetch.range_end));
    lemma_first_from(data, step, whole(fetch.cursor));
    lemma_first_from(data, step, whole(fetch.range_end));
    if page.len() > 0 {
        let past = from + page.len();
        lemma_subseries(data, step, from, past);
        lemma_latest_of_series(page, step);
        assert forall|i: int| 0 <= i < page.len() implies !passes_end(#[trigger] page[i], step, fetch.end) by {
            assert(page[i] == data[from + i]);
            if let CandleStep::Months(n) = step {
                calendar::lemma_moved_on_is_below(data[from + i].opens()->0.secs as int, n as int, fetch.end.secs as int);
            }
            assert(data[from + i].opens()->0.before(whole(fetch.range_end)));
        }
        assert(page.last() == data[past - 1]);
        assert(!data[past - 1].opens()->0.before(whole(fetch.cursor)));
        assert(data[past - 1].opens()->0.before(whole(fetch.range_end)));
    } else {
        assert(all_decode(page, step));
    }
}

/// Every candle that is given comes from a row of its own, in the rows' order: with that row's open,
/// high, low, close and volume, without a count of trades, and complete when the bar that opens at the
/// row's timestamp is. Every row that is complete within the bounds has given one.
///
/// Returned is the row that each candle comes from.
pub proof fn law_candles_carry_their_rows(
    rows: Seq<LseCandleRow>,
    step: CandleStep,
    start: Timestamp,
    end: Timestamp,
) -> (at: Seq<int>)
    ensures
        ({
            let candles = candles_in_range(rows, step, start, end);
            &&& at.len() == candles.len()
            &&& forall|k: int, l: int| 0 <= k < l < at.len() ==> #[trigger] at[k] < #[trigger] at[l]
            &&& forall|k: int|
                0 <= k < at.len() ==> 0 <= #[trigger] at[k] < rows.len() && {
                    let row = rows[at[k]];
                    &&& candles[k].open == row.open
                    &&& candles[k].high == row.high
                    &&& candles[k].low == row.low
                    &&& candles[k].close == row.close
                    &&& candles[k].volume == row.volume
                    &&& candles[k].trade_count is None
                    &&& time::plain_instant(row.ts@) matches Ok((secs, nanos)) && time::close_of(
                        Timestamp { secs, nanos },
                        step,
                    ) == Some(candles[k].close_time)
                    &&& !candles[k].close_time.before(start) && !end.before(candles[k].close_time)
                }
            &&& forall|i: int|
                0 <= i < rows.len() ==> (time::plain_instant((#[trigger] rows[i]).ts@) matches Ok((secs, nanos))
                    ==> time::close_of(Timestamp { secs, nanos }, step) matches Some(close) ==> !close.before(start)
                    && !end.before(close) ==> at.contains(i))
        }),
    decreases rows.len(),
{
    if rows.len() == 0 {
        Seq::empty()
    } else {
        let shorter = rows.drop_last();
        let last = rows.len() - 1;
        let before = law_candles_carry_their_rows(shorter, step, start, end);
        let at = if in_range(rows.last(), step, start, end) { before.push(last) } else { before };
        assert forall|i: int| 0 <= i < rows.len() && in_range(#[trigger] rows[i], step, start, end) implies at.contains(
            i,
        ) by {
            if i < last {
                assert(shorter[i] == rows[i]);
                let k = choose|k: int| 0 <= k < before.len() && before[k] == i;
                assert(at[k] == i);
            } else {
                assert(at[before.len() as int] == i);
            }
        }
        assert forall|i: int| 0 <= i < rows.len() implies (time::plain_instant((#[trigger] rows[i]).ts@) matches Ok(
            (secs, nanos),
        ) ==> time::close_of(Timestamp { secs, nanos }, step) matches Some(close) ==> !close.before(start) && !end.before(
            close,
        ) ==> at.contains(i)) by {
            if closes(rows[i], step) is Some && !closes(rows[i], step)->0.before(start) && !end.before(
                closes(rows[i], step)->0,
            ) {
                assert(in_range(rows[i], step, start, end));
            }
        }
        at
    }
}

/// A page gives candles of its rows only, each with its row's prices and volume, and complete the length
/// of the resolution after the row's timestamp.
///
/// Returned is the row that the candle comes from.
pub proof fn law_page_candles_carry_their_rows(
    before: CandleFetch,
    rows: Seq<LseCandleRow>,
    candles: Seq<Candle>,
    next: PageNext,
    after: CandleFetch,
    k: int,
) -> (i: int)
    requires
        page_taken(before, rows, candles, next, after),
        0 <= k < candles.len(),
    ensures
        0 <= i < rows.len(),
        candles[k].open == rows[i].open,
        candles[k].high == rows[i].high,
        candles[k].low == rows[i].low,
        candles[k].close == rows[i].close,
        candles[k].volume == rows[i].volume,
        candles[k].trade_count is None,
        time::plain_instant(rows[i].ts@) is Ok,
        ({
            let (secs, nanos) = time::plain_instant(rows[i].ts@)->Ok_0;
            &&& time::close_of(Timestamp { secs, nanos }, before.interval.step()) == Some(candles[k].close_time)
            &&& before.interval.step() is Seconds && nanos < 1_000_000_000 ==> candles[k].close_time.secs == secs
                + before.interval.step()->Seconds_0 && candles[k].close_time.nanos == nanos
        }),
        !candles[k].close_time.before(before.start),
        !before.end.before(candles[k].close_time),
{
    let step = before.interval.step();
    if all_decode(rows, step) {
        let at = law_candles_carry_their_rows(rows, step, before.start, before.end);
        assert(at[k] < rows.len());
        at[k]
    } else {
        let n = choose|n: int|
            {
                &&& #[trigger] stops_at(rows, step, n)
                &&& candles == candles_in_range(rows.take(n), step, before.start, before.end)
                &&& next matches PageNext::Failed(e)
                &&& row_fault(e, rows[n], before.interval)
                &&& after.cursor == before.cursor
            };
        let at = law_candles_carry_their_rows(rows.take(n), step, before.start, before.end);
        assert(at[k] < n);
        at[k]
    }
}

proof fn lemma_latest_open(rows: Seq<LseCandleRow>) -> (i: int)
    requires
        rows.len() > 0,
    ensures
        0 <= i < rows.len(),
        latest_open(rows) == Some(rows[i].opens()->0),
        forall|k: int| 0 <= k < rows.len() ==> !rows[i].opens()->0.before((#[trigger] rows[k]).opens()->0),
    decreases rows.len(),
{
    let last = rows.len() - 1;
    if rows.len() == 1 {
        assert(rows.drop_last().len() == 0);
        last
    } else {
        let shorter = rows.drop_last();
        let i = lemma_latest_open(shorter);
        assert(shorter[i] == rows[i]);
        let found = if rows[last].opens()->0.before(rows[i].opens()->0) { i } else { last };
        assert forall|k: int| 0 <= k < rows.len() implies !rows[found].opens()->0.before(
            (#[trigger] rows[k]).opens()->0,
        ) by {
            if k < last {
                assert(!shorter[i].opens()->0.before(shorter[k].opens()->0));
            }
        }
        found
    }
}

/// A page that did not fail either was empty, which ends the fetch where it stands, or moved the cursor
/// past the open of every row, a second past the latest one; the fetch goes on exactly where that is
/// still below the end of what is requested.
///
/// Returned is the row that opens last.
pub proof fn law_page_moves_past_its_rows(
    before: CandleFetch,
    rows: Seq<LseCandleRow>,
    candles: Seq<Candle>,
    next: PageNext,
    after: CandleFetch,
) -> (last: int)
    requires
        page_taken(before, rows, candles, next, after),
        !(next is Failed),
    ensures
        rows.len() == 0 ==> next is Done && after.cursor == before.cursor && candles.len() == 0,
        rows.len() > 0 ==> {
            &&& 0 <= last < rows.len()
            &&& before.cursor.before(after.cursor)
            &&& time::plain_instant(rows[last].ts@) matches Ok((secs, nanos)) && after.cursor.secs == secs + 1
                && after.cursor.nanos == if nanos < 1_000_000_000 { nanos as int } else { nanos - 1_000_000_000 }
            &&& forall|i: int|
                0 <= i < rows.len() ==> (time::plain_instant((#[trigger] rows[i]).ts@) matches Ok((secs, nanos))
                    && !(Timestamp {
                    secs: time::plain_instant(rows[last].ts@)->Ok_0.0,
                    nanos: time::plain_instant(rows[last].ts@)->Ok_0.1,
                }).before(Timestamp { secs, nanos }))
            &&& next is Fetch <==> after.cursor.before(before.range_end)
        },
{
    let step = before.interval.step();
    if rows.len() == 0 {
        assert(all_decode(rows, step));
        0
    } else {
        let last = lemma_latest_open(rows);
        assert(all_decode(rows, step));
        assert(closes(rows[last], step) is Some);
        assert forall|i: int| 0 <= i < rows.len() implies (time::plain_instant((#[trigger] rows[i]).ts@) is Ok) by {
            assert(closes(rows[i], step) is Some);
        }
        last
    }
}

/// A page fails for a reason that its rows give: one has a timestamp that cannot be read or an end that
/// is not representable, one is complete only after the end, the cursor cannot move, or no row opens late
/// enough to move it. It leaves the cursor where it is.
pub proof fn law_page_fails_for_a_reason(
    before: CandleFetch,
    rows: Seq<LseCandleRow>,
    candles: Seq<Candle>,
    next: PageNext,
    after: CandleFetch,
) -> (i: int)
    requires
        page_taken(before, rows, candles, next, after),
        next is Failed,
    ensures
        after.cursor == before.cursor,
        0 <= i < rows.len(),
        ({
            let opens = time::plain_instant(rows[i].ts@);
            let complete = time::close_of(
                Timestamp { secs: opens->Ok_0.0, nanos: opens->Ok_0.1 },
                before.interval.step(),
            );
            ||| opens is Err && next->Failed_0 is Deserialize
            ||| opens is Ok && complete is None && next->Failed_0 is TimestampOverflow
            ||| opens is Ok && complete is Some && before.end.before(complete->0) && next->Failed_0
                is UnexpectedCandleRange
            ||| opens is Ok && !(time::MIN_SECS <= opens->Ok_0.0 + 1 <= time::MAX_SECS) && next->Failed_0 is CursorOverflow
            ||| opens is Ok && next->Failed_0 is Api && opens->Ok_0.0 + 1 <= before.cursor.secs && forall|k: int|
                0 <= k < rows.len() ==> (time::plain_instant((#[trigger] rows[k]).ts@) matches Ok((secs, nanos)) && secs
                    + 1 <= before.cursor.secs)
        }),
{
    let step = before.interval.step();
    if !all_decode(rows, step) {
        choose|n: int|
            {
                &&& #[trigger] stops_at(rows, step, n)
                &&& candles == candles_in_range(rows.take(n), step, before.start, before.end)
                &&& next matches PageNext::Failed(e)
                &&& row_fault(e, rows[n], before.interval)
                &&& after.cursor == before.cursor
            }
    } else if any_passes_end(rows, step, before.end) {
        choose|i: int| 0 <= i < rows.len() && passes_end(#[trigger] rows[i], step, before.end)
    } else {
        let last = lemma_latest_open(rows);
        assert(closes(rows[last], step) is Some);
        assert forall|k: int| 0 <= k < rows.len() implies time::plain_instant((#[trigger] rows[k]).ts@) is Ok by {
            assert(closes(rows[k], step) is Some);
        }
        last
    }
}

/// A fetch of bars of a fixed length starts with the bar that is complete at the first bound, and
/// requests up to a second past the open of the one that is complete at the last.
pub proof fn law_window_of_fixed_bars(start: Timestamp, end: Timestamp, seconds: u32)
    requires
        start.wf(),
        end.wf(),
        seconds > 0,
        start.nanos < 1_000_000_000,
        end.nanos < 1_000_000_000,
        start.secs - seconds >= time::MIN_SECS,
        end.secs - seconds >= time::MIN_SECS,
    ensures
        request_start(start, CandleStep::Seconds(seconds)).secs == start.secs - seconds,
        request_start(start, CandleStep::Seconds(seconds)).nanos == start.nanos,
        request_end(end, CandleStep::Seconds(seconds)).secs == end.secs - seconds + 1,
        request_end(end, CandleStep::Seconds(seconds)).nanos == end.nanos,
{
}

/// A fetch starts exactly where its bounds are in order and the provider serves the resolution. It is for the symbol, the
/// resolution and the bounds that were given.
pub proof fn law_fetches_start_for_what_was_asked(
    r: Result<CandleFetch, LseError>,
    symbol: Seq<char>,
    interval: CandleInterval,
    start: Timestamp,
    end: Timestamp,
)
    requires
        is_start(r, symbol, interval, start, end),
    ensures
        r is Ok ==> !end.before(start) && dataset::interval_name(interval) is Some,
        r is Err ==> end.before(start) || dataset::interval_name(interval) is None,
        r matches Ok(fetch) ==> {
            &&& fetch.symbol@ == symbol
            &&& fetch.interval == interval
            &&& fetch.start == start
            &&& fetch.end == end
            &&& fetch.page == 0
        },
        r matches Err(e) ==> (e is InvalidInput <==> end.before(start)) && (e is UnsupportedInterval <==> !end.before(
            start,
        )),
        r matches Err(LseError::InvalidInput { message }) ==> text::names_in_order(
            message@,
            seq![time::utc_text(start.secs, start.nanos), time::utc_text(end.secs, end.nanos)],
        ),
{
    let (a, b) = (error::shown(start), error::shown(end));
    text::lemma_two_named("start ("@, a, ") must not be after end ("@, b);
    text::lemma_more_behind("start ("@ + a + ") must not be after end ("@ + b, ")"@, seq![a, b]);
}

/// A request asks for the symbol and the resolution of its fetch, from its cursor to the end of what is requested, and for
/// full pages: its parameters read as these.
pub proof fn law_queries_ask_for_the_fetch(
    fetch: CandleFetch,
    query: CandleQuery,
    from: (int, int, int),
    to: (int, int, int),
)
    requires
        asks(fetch, query),
        fetch.cursor.nanos < 1_000_000_000,
        fetch.range_end.nanos < 1_000_000_000,
        calendar::is_at(fetch.cursor.secs as int, from.0, from.1, from.2),
        calendar::is_at(fetch.range_end.secs as int, to.0, to.1, to.2),
        0 <= from.0 < 120_000,
        0 <= to.0 < 120_000,
    ensures
        query.symbol@ == fetch.symbol@,
        dataset::interval_name(fetch.interval) == Some(query.timeframe@),
        text::parsed_u64(query.limit@) == Some(PAGE_LIMIT as u64),
        query.start@.len() == 19 && query.end@.len() == 19,
        text::digits_value(query.start@.subrange(0, 4)) * 12 + text::digits_value(query.start@.subrange(5, 7)) - 1 == from.0,
        text::digits_value(query.start@.subrange(8, 10)) == from.1,
        text::digits_value(query.start@.subrange(11, 13)) * 3_600 + text::digits_value(query.start@.subrange(14, 16)) * 60
            + text::digits_value(query.start@.subrange(17, 19)) == from.2,
        text::digits_value(query.end@.subrange(0, 4)) * 12 + text::digits_value(query.end@.subrange(5, 7)) - 1 == to.0,
        text::digits_value(query.end@.subrange(8, 10)) == to.1,
        text::digits_value(query.end@.subrange(11, 13)) * 3_600 + text::digits_value(query.end@.subrange(14, 16)) * 60
            + text::digits_value(query.end@.subrange(17, 19)) == to.2,
{
    text::law_numbers_read_back(PAGE_LIMIT as u64);
    time::law_instants_read_back(fetch.cursor, from.0, from.1, from.2);
    time::law_instants_read_back(fetch.range_end, to.0, to.1, to.2);
}

/// A page that left the cursor where it is is reported with the number of the page and the cursor; a timestamp that cannot be
/// read with the text of it and the reason.
pub proof fn law_page_faults_name_what_they_are_about(
    before: CandleFetch,
    rows: Seq<LseCandleRow>,
    candles: Seq<Candle>,
    e: LseError,
    after: CandleFetch,
)
    requires
        page_taken(before, rows, candles, PageNext::Failed(e), after),
        before.page < u64::MAX,
    ensures
        e matches LseError::Api { status, message } ==> text::names_in_order(
            message@,
            seq![
                text::decimal_text((before.page + 1) as nat),
                time::utc_text(before.cursor.secs, before.cursor.nanos),
            ],
        ),
        e matches LseError::Deserialize { message } ==> exists|i: int|
            0 <= i < rows.len() && (#[trigger] rows[i]).opens() is None && text::names_in_order(
                message@,
                seq![text::quoted(rows[i].ts@), time::plain_instant(rows[i].ts@)->Err_0],
            ),
        e matches LseError::UnexpectedCandleRange { symbol, cursor, page, end } ==> symbol@ == before.symbol@ && cursor
            == before.cursor && page == before.page + 1 && end == before.end,
        e matches LseError::TimestampOverflow { open, interval } ==> interval == before.interval && time::close_of(
            open,
            interval.step(),
        ) is None,
{
    let step = before.interval.step();
    if all_decode(rows, step) {
        let (a, b) = (text::decimal_text((before.page + 1) as nat), error::shown(before.cursor));
        text::lemma_two_named("page "@, a, " did not advance past "@, b);
        text::lemma_more_behind(
            "page "@ + a + " did not advance past "@ + b,
            ": the range parameters appear to have been ignored"@,
            seq![a, b],
        );
    } else {
        let n = choose|n: int|
            {
                &&& #[trigger] stops_at(rows, step, n)
                &&& candles == candles_in_range(rows.take(n), step, before.start, before.end)
                &&& row_fault(e, rows[n], before.interval)
                &&& after.cursor == before.cursor
            };
        let row = rows[n];
        if row.opens() is None {
            let (a, b) = (text::quoted(row.ts@), time::plain_instant(row.ts@)->Err_0);
            text::lemma_two_named("invalid candle timestamp "@, a, ": "@, b);
        }
    }
}

} // verus!
