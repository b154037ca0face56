//! The REST client's rules: what it requests, what it trusts and how it reads an answer.

use vstd::prelude::*;
use vstd::string::*;
use crate::calendar;
use crate::http;
use crate::http::header_fault;
use crate::market::Candle;
use crate::massive::error::MassiveError;
use crate::massive::pagination::{PaginationGuard, MAX_PAGES};
use crate::text;
use crate::text::{has_char, number_text, parse_u64, quote, signed_number_text, truncate};
use crate::time;
use crate::time::{open_time_from_close, CandleStep, Timestamp};

verus! {

/// How many bytes of a response body an error keeps.
pub const MAX_BODY_BYTES: usize = 512;

/// A response body as an error keeps it: cut to [`MAX_BODY_BYTES`] without splitting a character.
pub fn truncate_body(body: &str) -> (r: String)
    ensures
        r@ == text::truncated(body@, MAX_BODY_BYTES as nat),
{
    truncate(body, MAX_BODY_BYTES)
}

/// The text of the origin of a URL (`scheme://host`, with the port where it is not the scheme's own),
/// or what is wrong with the URL.
pub uninterp spec fn url_origin(url: Seq<char>) -> Result<Seq<char>, Seq<char>>;

/// Whether two texts are URLs of one origin.
pub uninterp spec fn same_origin(a: Seq<char>, b: Seq<char>) -> bool;

/// Parses a URL through [`url::Url::parse`] and prints its [`url::Url::origin`] by
/// `ascii_serialization`: the origin's text, or the text of the parse error, is a function of the URL.
#[verifier::external_body]
fn read_origin(url: &str) -> (r: Result<String, String>)
    ensures
        match r {
            Ok(origin) => url_origin(url@) == Ok::<Seq<char>, Seq<char>>(origin@),
            Err(error) => url_origin(url@) == Err::<Seq<char>, Seq<char>>(error@),
        },
{
    match url::Url::parse(url) {
        Ok(parsed) => Ok(parsed.origin().ascii_serialization()),
        Err(error) => Err(error.to_string()),
    }
}

/// Parses two URLs through [`url::Url::parse`] and compares their origins: scheme, host and port. An
/// origin of another kind equals no other, not even that of the same text. Equal origins print alike.
#[verifier::external_body]
fn is_same_origin(a: &str, b: &str) -> (r: bool)
    ensures
        r == same_origin(a@, b@),
        r ==> url_origin(a@) is Ok && url_origin(a@) == url_origin(b@),
{
    match (url::Url::parse(a), url::Url::parse(b)) {
        (Ok(left), Ok(right)) => left.origin() == right.origin(),
        _ => false,
    }
}

/// What is said of a next page, by what its URL and the base URL are found to be.
pub open spec fn url_verdict(
    next_url: Seq<char>,
    base_url: Seq<char>,
    base_origin: Result<Seq<char>, Seq<char>>,
    trusted: bool,
    r: Result<(), MassiveError>,
) -> bool {
    match base_origin {
        Err(fault) => {
            &&& r matches Err(MassiveError::InvalidInput { message })
            &&& message@ == "base_url is not a valid URL ("@ + fault + "): "@ + base_url
        },
        Ok(origin) => if trusted {
            r is Ok
        } else {
            &&& r matches Err(MassiveError::UntrustedNextUrl { next_url: refused, expected_origin })
            &&& refused@ == next_url
            &&& expected_origin@ == origin
        },
    }
}

/// The characters of either side of a result.
pub open spec fn shown_result(r: Result<String, String>) -> Result<Seq<char>, Seq<char>> {
    match r {
        Ok(text) => Ok(text@),
        Err(text) => Err(text@),
    }
}

/// Judges a next page: `base_origin` is the origin of the base URL, or what is wrong with that URL,
/// and `trusted` says whether the two URLs have one origin.
pub fn judge_next_url(
    next_url: &str,
    base_url: &str,
    base_origin: Result<String, String>,
    trusted: bool,
) -> (r: Result<(), MassiveError>)
    ensures
        url_verdict(next_url@, base_url@, shown_result(base_origin), trusted, r),
{
    match base_origin {
        Err(fault) => {
            let mut message = String::from_str("base_url is not a valid URL (");
            message.append(fault.as_str());
            message.append("): ");
            message.append(base_url);
            Err(MassiveError::InvalidInput { message })
        },
        Ok(origin) => if trusted {
            Ok(())
        } else {
            Err(
                MassiveError::UntrustedNextUrl {
                    next_url: String::from_str(next_url),
                    expected_origin: origin,
                },
            )
        },
    }
}

/// The characters that break a URL.
pub open spec fn breaks_url(c: char) -> bool {
    c == '/' || c == '?' || c == '#' || c == ' ' || c == '%'
}

/// The problem with a ticker, if there is one.
pub open spec fn ticker_fault(ticker: Seq<char>) -> Option<Seq<char>> {
    if ticker.len() == 0 {
        Some("ticker must not be empty"@)
    } else if exists|i: int| 0 <= i < ticker.len() && breaks_url(#[trigger] ticker[i]) {
        Some("ticker contains invalid URL characters"@)
    } else {
        None
    }
}

/// Whether a result reports a problem with the input, where there is one.
pub open spec fn reports(r: Result<(), MassiveError>, fault: Option<Seq<char>>) -> bool {
    match fault {
        Some(fault) => {
            &&& r matches Err(MassiveError::InvalidInput { message })
            &&& message@ == fault
        },
        None => r is Ok,
    }
}

/// The pages of one fetch.
#[derive(Debug)]
pub struct Pages {
    guard: PaginationGuard,
    base_url: String,
    next_url: Option<String>,
}

/// What a fetch does next.
#[derive(Debug)]
pub enum PageStep {
    /// Request this page.
    Fetch(String),
    /// Every page was fetched.
    Done,
    /// The fetch ends with an error.
    Fail(MassiveError),
}

/// Whether `after` and `step` are how `before` goes on: with the page that comes next, unless it is one
/// too many, was fetched already or is of another origin.
pub open spec fn advances(before: Pages, after: Pages, step: PageStep) -> bool {
    &&& after.base() == before.base()
    &&& after.upcoming() is None
    &&& match before.upcoming() {
        None => step is Done && after.fetched() == before.fetched() && after.count() == before.count(),
        Some(url) => {
            &&& after.count() == before.count() + 1
            &&& if before.count() >= MAX_PAGES {
                &&& step matches PageStep::Fail(MassiveError::PaginationLimitExceeded { pages, limit })
                &&& pages == before.count() + 1
                &&& limit == MAX_PAGES
            } else if before.fetched().contains(url) {
                &&& step matches PageStep::Fail(MassiveError::CyclicPagination { url: again })
                &&& again@ == url
            } else if url_origin(before.base()) is Ok && same_origin(url, before.base()) {
                &&& step matches PageStep::Fetch(page)
                &&& page@ == url
                &&& url_origin(url) == url_origin(before.base())
                &&& after.fetched() == before.fetched().push(url)
            } else {
                &&& step matches PageStep::Fail(error)
                &&& url_verdict(
                    url,
                    before.base(),
                    url_origin(before.base()),
                    same_origin(url, before.base()),
                    Err(error),
                )
            }
        },
    }
}

impl Pages {
    #[verifier::type_invariant]
    spec fn bounded(self) -> bool {
        &&& self.guard.wf()
        &&& self.guard.pages() <= MAX_PAGES + 1
        &&& self.next_url is Some ==> self.guard.pages() <= MAX_PAGES
    }

    /// The pages that were requested, in order.
    pub closed spec fn fetched(self) -> Seq<Seq<char>> {
        self.guard.visited()
    }

    /// How many pages were taken up.
    pub closed spec fn count(self) -> nat {
        self.guard.pages()
    }

    /// The URL that all pages must share the origin of.
    pub closed spec fn base(self) -> Seq<char> {
        self.base_url@
    }

    /// The page to fetch next.
    pub closed spec fn upcoming(self) -> Option<Seq<char>> {
        match self.next_url {
            Some(url) => Some(url@),
            None => None,
        }
    }

    /// A fetch that starts at a URL.
    pub fn new(base_url: &str, initial_url: String) -> (r: Pages)
        ensures
            r.base() == base_url@,
            r.upcoming() == Some(initial_url@),
            r.fetched() == Seq::<Seq<char>>::empty(),
            r.count() == 0,
    {
        Pages {
            guard: PaginationGuard::default(),
            base_url: String::from_str(base_url),
            next_url: Some(initial_url),
        }
    }

    /// Takes up the next page.
    ///
    /// It is requested only if it keeps the cap, was not fetched before, and has the origin of the
    /// base URL.
    pub fn next(self) -> (r: (Pages, PageStep))
        ensures
            advances(self, r.0, r.1),
            r.0.fetched().no_duplicates(),
            r.0.fetched().len() <= MAX_PAGES,
    {
        proof {
            use_type_invariant(&self);
        }
        let Pages { guard, base_url, next_url } = self;
        let mut guard = guard;
        let url = match next_url {
            Some(url) => url,
            None => {
                return (Pages { guard, base_url, next_url: None }, PageStep::Done);
            },
        };
        if let Err(error) = guard.observe(url.as_str()) {
            return (Pages { guard, base_url, next_url: None }, PageStep::Fail(error));
        }
        let step = match MassiveRestClient::validate_next_url(url.as_str(), base_url.as_str()) {
            Ok(()) => PageStep::Fetch(url),
            Err(error) => PageStep::Fail(error),
        };
        (Pages { guard, base_url, next_url: None }, step)
    }

    /// Goes on with the page that a page names as the next one, if it names one.
    pub fn follow(self, next_url: Option<String>) -> (r: Pages)
        ensures
            r.base() == self.base(),
            r.fetched() == self.fetched(),
            r.count() == self.count(),
            self.count() <= MAX_PAGES ==> r.upcoming() == (match next_url {
                Some(url) => Some(url@),
                None => None,
            }),
            self.count() > MAX_PAGES ==> r.upcoming() is None,
    {
        proof {
            use_type_invariant(&self);
        }
        let Pages { guard, base_url, next_url: _ } = self;
        let next_url = if guard.count_pages() <= MAX_PAGES { next_url } else { None };
        Pages { guard, base_url, next_url }
    }
}

/// A candle whose end is within the bounds, both included.
pub open spec fn in_bounds(candle: Candle, from: Timestamp, to: Timestamp) -> bool {
    !candle.close_time.before(from) && !to.before(candle.close_time)
}

/// The candles of a page that are within the bounds, up to the first bar that is none.
pub open spec fn candles_of(
    bars: Seq<Result<Candle, MassiveError>>,
    from: Timestamp,
    to: Timestamp,
) -> Seq<Candle>
    decreases bars.len(),
{
    if bars.len() == 0 {
        Seq::empty()
    } else {
        match bars.first() {
            Err(_) => Seq::empty(),
            Ok(candle) => {
                let rest = candles_of(bars.drop_first(), from, to);
                if in_bounds(candle, from, to) {
                    seq![candle] + rest
                } else {
                    rest
                }
            },
        }
    }
}

/// The error of the first bar that is none.
pub open spec fn fault_of(bars: Seq<Result<Candle, MassiveError>>) -> Option<MassiveError>
    decreases bars.len(),
{
    if bars.len() == 0 {
        None
    } else {
        match bars.first() {
            Err(error) => Some(error),
            Ok(_) => fault_of(bars.drop_first()),
        }
    }
}

fn reversed<T>(items: Vec<T>) -> (r: Vec<T>)
    ensures
        r@ == items@.reverse(),
{
    let ghost all = items@;
    let mut rest = items;
    let mut out: Vec<T> = Vec::new();
    assert(all.take(all.len() as int) =~= all);
    while rest.len() > 0
        invariant
            rest.len() <= all.len(),
            rest@ == all.take(rest.len() as int),
            out@ == all.skip(rest.len() as int).reverse(),
        decreases rest.len(),
    {
        let ghost n = rest@.len() as int;
        if let Some(item) = rest.pop() {
            assert(item == all[n - 1]);
            assert(rest@ =~= all.take(n - 1));
            out.push(item);
            assert(out@ =~= all.skip(n - 1).reverse());
        }
    }
    assert(all.skip(0) =~= all);
    out
}

/// A fetch of aggregates.
#[derive(Debug)]
pub struct AggregateFetch {
    pub pages: Pages,
    pub from: Timestamp,
    pub to: Timestamp,
}

/// Whether `given` and `next` are what a fetch makes of a page: the candles of its bars that are within
/// the bounds; and the error of the first bar that is none, or the fetch to go on with.
pub open spec fn takes_page(
    fetch: AggregateFetch,
    bars: Seq<Result<Candle, MassiveError>>,
    next_url: Option<String>,
    given: Seq<Candle>,
    next: Result<AggregateFetch, MassiveError>,
) -> bool {
    &&& given == candles_of(bars, fetch.from, fetch.to)
    &&& match fault_of(bars) {
        Some(error) => next == Err::<AggregateFetch, MassiveError>(error),
        None => {
            &&& next matches Ok(after)
            &&& after.from == fetch.from
            &&& after.to == fetch.to
            &&& after.pages.base() == fetch.pages.base()
            &&& after.pages.fetched() == fetch.pages.fetched()
            &&& after.pages.count() == fetch.pages.count()
            &&& fetch.pages.count() <= MAX_PAGES ==> after.pages.upcoming() == (match next_url {
                Some(url) => Some(url@),
                None => None,
            })
        },
    }
}

impl AggregateFetch {
    /// Takes the bars of a page and the page that it names as the next one.
    ///
    /// Gives the candles whose end is within the bounds. A bar that cannot be decoded ends the
    /// fetch, behind the candles before it.
    pub fn on_page(self, bars: Vec<Result<Candle, MassiveError>>, next_url: Option<String>) -> (r: (
        Vec<Candle>,
        Result<AggregateFetch, MassiveError>,
    ))
        ensures
            takes_page(self, bars@, next_url, r.0@, r.1),
    {
        let ghost all = bars@;
        let mut rest = reversed(bars);
        let mut out: Vec<Candle> = Vec::new();
        assert(rest@.reverse() =~= all);
        while rest.len() > 0
            invariant
                all == bars@,
                candles_of(all, self.from, self.to) == out@ + candles_of(
                    rest@.reverse(),
                    self.from,
                    self.to,
                ),
                fault_of(all) == fault_of(rest@.reverse()),
            decreases rest.len(),
        {
            let ghost before = rest@;
            let ghost given = out@;
            if let Some(bar) = rest.pop() {
                assert(before.reverse().first() == bar);
                assert(before.reverse().drop_first() =~= rest@.reverse());
                match bar {
                    Err(error) => {
                        assert(out@ + candles_of(before.reverse(), self.from, self.to) =~= out@);
                        return (out, Err(error));
                    },
                    Ok(candle) => {
                        if !candle.close_time.is_before(&self.from) && !self.to.is_before(&candle.close_time) {
                            out.push(candle);
                            let ghost others = candles_of(rest@.reverse(), self.from, self.to);
                            assert(given + (seq![candle] + others) =~= out@ + others);
                        }
                    },
                }
            }
        }
        assert(out@ + candles_of(rest@.reverse(), self.from, self.to) =~= out@);
        let fetch = AggregateFetch { pages: self.pages.follow(next_url), from: self.from, to: self.to };
        (out, Ok(fetch))
    }
}

/// The first instant that is requested: one bar before the bounds, because the API selects by a
/// bar's open. Where that is not representable there is no such bar.
pub open spec fn request_from(from: Timestamp, step: CandleStep) -> Timestamp {
    match time::open_of(from, step) {
        Some(open) => open,
        None => from,
    }
}

/// The URL of the first page of aggregates.
pub open spec fn aggregates_url(
    base_url: Seq<char>,
    ticker: Seq<char>,
    multiplier: u32,
    timespan: Seq<char>,
    from_ms: int,
    to_ms: int,
) -> Seq<char> {
    base_url + "/v2/aggs/ticker/"@ + ticker + "/range/"@ + text::decimal_text(multiplier as nat) + "/"@
        + timespan + "/"@ + text::signed_decimal_text(from_ms) + "/"@ + text::signed_decimal_text(to_ms)
        + "?adjusted=true&sort=asc&limit=50000"@
}

/// Whether a fetch of aggregates is at its beginning: nothing is fetched, and the first page is that of
/// the widened window.
pub open spec fn starts_aggregates(
    fetch: AggregateFetch,
    base_url: Seq<char>,
    ticker: Seq<char>,
    multiplier: u32,
    timespan: Seq<char>,
    step: CandleStep,
    from: Timestamp,
    to: Timestamp,
) -> bool {
    &&& fetch.from == from
    &&& fetch.to == to
    &&& fetch.pages.base() == base_url
    &&& fetch.pages.upcoming() == Some(
        aggregates_url(
            base_url,
            ticker,
            multiplier,
            timespan,
            time::unix_millis(request_from(from, step)),
            time::unix_millis(to),
        ),
    )
    &&& fetch.pages.fetched() == Seq::<Seq<char>>::empty()
    &&& fetch.pages.count() == 0
}

/// The URL of the first page of trades or quotes.
pub open spec fn ticks_url(
    base_url: Seq<char>,
    path: Seq<char>,
    ticker: Seq<char>,
    from_ns: int,
    to_ns: int,
) -> Seq<char> {
    base_url + path + ticker + "?timestamp.gte="@ + text::signed_decimal_text(from_ns)
        + "&timestamp.lte="@ + text::signed_decimal_text(to_ns)
        + "&limit=50000&sort=timestamp&order=asc"@
}

/// What is wrong with a request for ticks, if anything is: the ticker, the first bound or the last.
pub open spec fn ticks_fault(ticker: Seq<char>, from: Timestamp, to: Timestamp) -> Option<Seq<char>> {
    if ticker_fault(ticker) is Some {
        ticker_fault(ticker)
    } else if time::unix_nanos(from) is None {
        Some("from timestamp out of nanosecond range (~1678-2262)"@)
    } else if time::unix_nanos(to) is None {
        Some("to timestamp out of nanosecond range (~1678-2262)"@)
    } else {
        None
    }
}

/// Whether a request for ticks is started as it should be.
pub open spec fn starts_ticks(
    r: Result<Pages, MassiveError>,
    base_url: Seq<char>,
    path: Seq<char>,
    ticker: Seq<char>,
    from: Timestamp,
    to: Timestamp,
) -> bool {
    match ticks_fault(ticker, from, to) {
        Some(fault) => {
            &&& r matches Err(MassiveError::InvalidInput { message })
            &&& message@ == fault
        },
        None => {
            &&& r matches Ok(pages)
            &&& pages.base() == base_url
            &&& pages.upcoming() == Some(
                ticks_url(
                    base_url,
                    path,
                    ticker,
                    time::unix_nanos(from)->0 as int,
                    time::unix_nanos(to)->0 as int,
                ),
            )
            &&& pages.fetched() == Seq::<Seq<char>>::empty()
            &&& pages.count() == 0
        },
    }
}

/// Whether `r` is what is said of an answer by its status and its `retry-after` header: a refusal for the rate, with the wait
/// that it asks for, or nothing.
pub open spec fn is_rate_verdict(r: Result<(), MassiveError>, status: u16, retry_after: Option<&str>) -> bool {
    if status == 429 {
        r == Err::<(), MassiveError>(
            MassiveError::RateLimited {
                retry_after: match retry_after {
                    Some(header) => text::parsed_u64(header@),
                    None => None,
                },
            },
        )
    } else {
        r is Ok
    }
}

/// Whether `r` is the body of a page, or the error that its status stands for.
pub open spec fn is_page_body(r: Result<String, MassiveError>, status: u16, body: String) -> bool {
    if status == 401 || status == 403 {
        &&& r matches Err(MassiveError::Auth { message })
        &&& message@ == text::truncated(body@, MAX_BODY_BYTES as nat)
    } else if http::success(status) {
        r == Ok::<String, MassiveError>(body)
    } else {
        &&& r matches Err(MassiveError::Api { status: code, message })
        &&& code == status
        &&& message@ == text::truncated(body@, MAX_BODY_BYTES as nat)
    }
}

/// The variable of the environment that holds the key.
pub const ENV_API_KEY: &'static str = "MASSIVE_API_KEY";

/// The client: a base URL, which defines the trusted origin, and a key.
pub struct MassiveRestClient {
    api_key: String,
    base_url: String,
}

impl MassiveRestClient {
    /// The key.
    pub closed spec fn key(self) -> Seq<char> {
        self.api_key@
    }

    /// The base URL.
    pub closed spec fn base(self) -> Seq<char> {
        self.base_url@
    }

    /// A client with a key, for the public API.
    ///
    /// The client must not follow redirects: every request carries the key.
    pub fn new(api_key: &str) -> (r: Result<MassiveRestClient, MassiveError>)
        ensures
            if http::is_header_text("Bearer "@ + api_key@) {
                &&& r matches Ok(client)
                &&& client.key() == api_key@
                &&& client.base() == "https://api.massive.com"@
            } else {
                &&& r matches Err(MassiveError::Auth { message })
                &&& message@ == "Invalid API key format: "@ + http::header_fault_text()
            },
    {
        let mut header = String::from_str("Bearer ");
        header.append(api_key);
        if let Some(fault) = header_fault(header.as_str()) {
            let mut message = String::from_str("Invalid API key format: ");
            message.append(fault.as_str());
            return Err(MassiveError::Auth { message });
        }
        Ok(
            MassiveRestClient {
                api_key: String::from_str(api_key),
                base_url: String::from_str("https://api.massive.com"),
            },
        )
    }

    /// A client with the key that was found under `MASSIVE_API_KEY`, if a text was found there.
    pub fn from_env(found: Option<String>) -> (r: Result<MassiveRestClient, MassiveError>)
        ensures
            match found {
                None => {
                    &&& r matches Err(MassiveError::EnvVar { var })
                    &&& var == ENV_API_KEY
                },
                Some(api_key) => if http::is_header_text("Bearer "@ + api_key@) {
                    &&& r matches Ok(client)
                    &&& client.key() == api_key@
                    &&& client.base() == "https://api.massive.com"@
                } else {
                    &&& r matches Err(MassiveError::Auth { message })
                    &&& message@ == "Invalid API key format: "@ + http::header_fault_text()
                },
            },
    {
        match found {
            None => Err(MassiveError::EnvVar { var: ENV_API_KEY }),
            Some(api_key) => MassiveRestClient::new(api_key.as_str()),
        }
    }

    /// The client with another base URL, which defines the trusted origin.
    pub fn with_base_url(self, base_url: &str) -> (r: MassiveRestClient)
        ensures
            r.key() == self.key(),
            r.base() == base_url@,
    {
        MassiveRestClient { api_key: self.api_key, base_url: String::from_str(base_url) }
    }

    /// The base URL.
    pub fn base_url(&self) -> (r: &str)
        ensures
            r@ == self.base(),
    {
        self.base_url.as_str()
    }

    /// The value of the `Authorization` header.
    pub fn authorization(&self) -> (r: String)
        ensures
            r@ == "Bearer "@ + self.key(),
    {
        let mut header = String::from_str("Bearer ");
        header.append(self.api_key.as_str());
        header
    }

    /// A description without the key.
    pub fn describe(&self) -> (r: String)
        ensures
            r@ == "MassiveRestClient { base_url: "@ + text::quoted(self.base())
                + ", api_key: \"[REDACTED]\" }"@,
    {
        let mut out = String::from_str("MassiveRestClient { base_url: ");
        out.append(quote(self.base_url.as_str()).as_str());
        out.append(", api_key: \"[REDACTED]\" }");
        out
    }

    /// Checks that a ticker has no characters that break a URL.
    pub fn validate_ticker(ticker: &str) -> (r: Result<(), MassiveError>)
        ensures
            reports(r, ticker_fault(ticker@)),
    {
        if ticker.unicode_len() == 0 {
            return Err(MassiveError::InvalidInput { message: String::from_str("ticker must not be empty") });
        }
        let broken = has_char(ticker, '/') || has_char(ticker, '?') || has_char(ticker, '#') || has_char(
            ticker,
            ' ',
        ) || has_char(ticker, '%');
        if broken {
            assert(exists|i: int| 0 <= i < ticker@.len() && breaks_url(#[trigger] ticker@[i])) by {
                let i = choose|i: int| 0 <= i < ticker@.len() && breaks_url(ticker@[i]);
                assert(breaks_url(ticker@[i]));
            }
            return Err(
                MassiveError::InvalidInput {
                    message: String::from_str("ticker contains invalid URL characters"),
                },
            );
        }
        Ok(())
    }

    /// Checks that a URL has the origin of the base URL, before it is requested with the key.
    ///
    /// The two are parsed and their schemes, hosts and ports compared: a host may begin with the
    /// trusted one and be another.
    pub fn validate_next_url(next_url: &str, base_url: &str) -> (r: Result<(), MassiveError>)
        ensures
            url_verdict(next_url@, base_url@, url_origin(base_url@), same_origin(next_url@, base_url@), r),
            r is Ok ==> url_origin(next_url@) == url_origin(base_url@),
    {
        let base_origin = read_origin(base_url);
        let trusted = is_same_origin(next_url, base_url);
        judge_next_url(next_url, base_url, base_origin, trusted)
    }

    /// Starts a fetch of aggregates whose ends are within the bounds, both included. `step` is the
    /// length of a bar of `multiplier` times `timespan`.
    pub fn fetch_aggregates(
        &self,
        ticker: &str,
        multiplier: u32,
        timespan: &str,
        step: CandleStep,
        from: Timestamp,
        to: Timestamp,
    ) -> (r: Result<AggregateFetch, MassiveError>)
        requires
            from.wf(),
            to.wf(),
        ensures
            match ticker_fault(ticker@) {
                Some(fault) => {
                    &&& r matches Err(MassiveError::InvalidInput { message })
                    &&& message@ == fault
                },
                None => {
                    &&& r matches Ok(fetch)
                    &&& starts_aggregates(fetch, self.base(), ticker@, multiplier, timespan@, step, from, to)
                },
            },
    {
        if let Err(error) = MassiveRestClient::validate_ticker(ticker) {
            return Err(error);
        }
        let first = match open_time_from_close(from, step) {
            Some(open) => open,
            None => from,
        };
        let mut url = String::from_str(self.base_url.as_str());
        url.append("/v2/aggs/ticker/");
        url.append(ticker);
        url.append("/range/");
        url.append(number_text(multiplier as u64).as_str());
        url.append("/");
        url.append(timespan);
        url.append("/");
        url.append(signed_number_text(first.to_millis()).as_str());
        url.append("/");
        url.append(signed_number_text(to.to_millis()).as_str());
        url.append("?adjusted=true&sort=asc&limit=50000");
        Ok(AggregateFetch { pages: Pages::new(self.base_url.as_str(), url), from, to })
    }

    fn fetch_ticks(&self, path: &str, ticker: &str, from: Timestamp, to: Timestamp) -> (r: Result<
        Pages,
        MassiveError,
    >)
        ensures
            starts_ticks(r, self.base(), path@, ticker@, from, to),
    {
        if let Err(error) = MassiveRestClient::validate_ticker(ticker) {
            return Err(error);
        }
        let from_ns = match from.to_nanos() {
            Some(nanos) => nanos,
            None => {
                return Err(
                    MassiveError::InvalidInput {
                        message: String::from_str("from timestamp out of nanosecond range (~1678-2262)"),
                    },
                );
            },
        };
        let to_ns = match to.to_nanos() {
            Some(nanos) => nanos,
            None => {
                return Err(
                    MassiveError::InvalidInput {
                        message: String::from_str("to timestamp out of nanosecond range (~1678-2262)"),
                    },
                );
            },
        };
        let mut url = String::from_str(self.base_url.as_str());
        url.append(path);
        url.append(ticker);
        url.append("?timestamp.gte=");
        url.append(signed_number_text(from_ns).as_str());
        url.append("&timestamp.lte=");
        url.append(signed_number_text(to_ns).as_str());
        url.append("&limit=50000&sort=timestamp&order=asc");
        Ok(Pages::new(self.base_url.as_str(), url))
    }

    /// Starts a fetch of trades between two instants, both included.
    pub fn fetch_trades(&self, ticker: &str, from: Timestamp, to: Timestamp) -> (r: Result<Pages, MassiveError>)
        ensures
            starts_ticks(r, self.base(), "/v3/trades/"@, ticker@, from, to),
    {
        self.fetch_ticks("/v3/trades/", ticker, from, to)
    }

    /// Starts a fetch of quotes between two instants, both included.
    pub fn fetch_quotes(&self, ticker: &str, from: Timestamp, to: Timestamp) -> (r: Result<Pages, MassiveError>)
        ensures
            starts_ticks(r, self.base(), "/v3/quotes/"@, ticker@, from, to),
    {
        self.fetch_ticks("/v3/quotes/", ticker, from, to)
    }

    /// Whether a response is read any further, by its status and its `retry-after` header: a refusal
    /// for the rate is not, and tells how many seconds to wait where the header does.
    pub fn check_rate_limit(status: u16, retry_after: Option<&str>) -> (r: Result<(), MassiveError>)
        ensures
            is_rate_verdict(r, status, retry_after),
    {
        if status == 429 {
            let retry_after = match retry_after {
                Some(header) => parse_u64(header),
                None => None,
            };
            return Err(MassiveError::RateLimited { retry_after });
        }
        Ok(())
    }

    /// The body of a page, or the error that its status stands for.
    pub fn page_body(status: u16, body: String) -> (r: Result<String, MassiveError>)
        ensures
            is_page_body(r, status, body),
    {
        if status == 401 || status == 403 {
            return Err(MassiveError::Auth { message: truncate_body(body.as_str()) });
        }
        if status < 200 || status > 299 {
            return Err(MassiveError::Api { status, message: truncate_body(body.as_str()) });
        }
        Ok(body)
    }
}

/// The bars that end within the bounds are all within the window that is requested by their opens.
///
/// Left out are a first bound whose bar has no representable open, a first bound within a leap
/// second, and a bar of no length within one.
pub proof fn law_window_holds_the_bounds(open: Timestamp, step: CandleStep, from: Timestamp, to: Timestamp)
    requires
        open.wf(),
        from.wf(),
        to.wf(),
        from.nanos < 1_000_000_000,
        time::open_of(from, step) is Some,
        time::close_of(open, step) is Some,
        time::close_of(open, step)->0 == open ==> open.nanos < 1_000_000_000,
        !time::close_of(open, step)->0.before(from),
        !to.before(time::close_of(open, step)->0),
    ensures
        time::unix_millis(request_from(from, step)) <= time::unix_millis(open) <= time::unix_millis(to),
{
    if let CandleStep::Months(n) = step {
        calendar::lemma_moved_back_is_below(open.secs as int, n as int, from.secs as int);
        calendar::lemma_moved_direction(open.secs as int, n as int);
    }
}

/// The candles of bars, each with its open, that are complete within the bounds.
pub open spec fn complete_within(data: Seq<(Timestamp, Candle)>, from: Timestamp, to: Timestamp) -> Seq<Candle>
    decreases data.len(),
{
    if data.len() == 0 {
        Seq::empty()
    } else {
        let rest = complete_within(data.drop_first(), from, to);
        if in_bounds(data.first().1, from, to) {
            seq![data.first().1] + rest
        } else {
            rest
        }
    }
}

/// The bars that open between two instants in milliseconds, both included.
pub open spec fn opening_within(data: Seq<(Timestamp, Candle)>, from_ms: int, to_ms: int) -> Seq<(Timestamp, Candle)>
    decreases data.len(),
{
    if data.len() == 0 {
        Seq::empty()
    } else {
        let rest = opening_within(data.drop_first(), from_ms, to_ms);
        if from_ms <= time::unix_millis(data.first().0) <= to_ms {
            seq![data.first()] + rest
        } else {
            rest
        }
    }
}

/// Bars as they are handed to a fetch, all of which decode.
pub open spec fn decoded(data: Seq<(Timestamp, Candle)>) -> Seq<Result<Candle, MassiveError>> {
    data.map_values(|bar: (Timestamp, Candle)| Ok::<Candle, MassiveError>(bar.1))
}

/// Whether the candle of a bar is complete at the end of the bar's period.
pub open spec fn spans(bar: (Timestamp, Candle), step: CandleStep) -> bool {
    &&& bar.0.wf()
    &&& time::close_of(bar.0, step) == Some(bar.1.close_time)
    &&& bar.1.close_time == bar.0 ==> bar.0.nanos < 1_000_000_000
}

/// Whether a fetch runs over pages until none is named: from `fetches[i]` it asks for a page and is then
/// `asked[i]`, and with that page it is `fetches[i + 1]`.
pub open spec fn runs_over(
    fetches: Seq<AggregateFetch>,
    asked: Seq<AggregateFetch>,
    pages: Seq<Seq<Result<Candle, MassiveError>>>,
    names: Seq<Option<String>>,
    given: Seq<Seq<Candle>>,
) -> bool {
    &&& fetches.len() == pages.len() + 1
    &&& asked.len() == pages.len()
    &&& names.len() == pages.len()
    &&& given.len() == pages.len()
    &&& forall|i: int|
        0 <= i < pages.len() ==> {
            &&& exists|url: String| advances(fetches[i].pages, asked[i].pages, PageStep::Fetch(url))
            &&& asked[i].from == fetches[i].from
            &&& asked[i].to == fetches[i].to
            &&& takes_page(asked[i], #[trigger] pages[i], names[i], given[i], Ok(fetches[i + 1]))
        }
    &&& fetches.last().pages.upcoming() is None
}

proof fn lemma_decoded(data: Seq<(Timestamp, Candle)>, from: Timestamp, to: Timestamp)
    ensures
        candles_of(decoded(data), from, to) == complete_within(data, from, to),
    decreases data.len(),
{
    if data.len() > 0 {
        lemma_decoded(data.drop_first(), from, to);
        assert(decoded(data).drop_first() =~= decoded(data.drop_first()));
    }
}

proof fn lemma_candles_join(
    a: Seq<Result<Candle, MassiveError>>,
    b: Seq<Result<Candle, MassiveError>>,
    from: Timestamp,
    to: Timestamp,
)
    requires
        fault_of(a) is None,
    ensures
        candles_of(a + b, from, to) == candles_of(a, from, to) + candles_of(b, from, to),
    decreases a.len(),
{
    if a.len() == 0 {
        assert(a + b =~= b);
        assert(candles_of(a, from, to) + candles_of(b, from, to) =~= candles_of(b, from, to));
    } else {
        lemma_candles_join(a.drop_first(), b, from, to);
        assert((a + b).drop_first() =~= a.drop_first() + b);
        assert((a + b).first() == a.first());
        assert(candles_of(a + b, from, to) =~= candles_of(a, from, to) + candles_of(b, from, to));
    }
}

proof fn lemma_pages_join(
    pages: Seq<Seq<Result<Candle, MassiveError>>>,
    given: Seq<Seq<Candle>>,
    from: Timestamp,
    to: Timestamp,
)
    requires
        given.len() == pages.len(),
        forall|i: int|
            0 <= i < pages.len() ==> fault_of(#[trigger] pages[i]) is None && given[i] == candles_of(
                pages[i],
                from,
                to,
            ),
    ensures
        given.flatten() == candles_of(pages.flatten(), from, to),
    decreases pages.len(),
{
    if pages.len() > 0 {
        let rest = pages.drop_first();
        assert forall|i: int| 0 <= i < rest.len() implies fault_of(#[trigger] rest[i]) is None && given.drop_first()[i]
            == candles_of(rest[i], from, to) by {
            assert(fault_of(pages[i + 1]) is None);
        }
        lemma_pages_join(rest, given.drop_first(), from, to);
        assert(fault_of(pages[0]) is None);
        lemma_candles_join(pages[0], rest.flatten(), from, to);
    }
}

proof fn lemma_window_suffices(data: Seq<(Timestamp, Candle)>, step: CandleStep, from: Timestamp, to: Timestamp)
    requires
        forall|i: int| 0 <= i < data.len() ==> spans(#[trigger] data[i], step),
        from.wf(),
        to.wf(),
        from.nanos < 1_000_000_000,
        time::open_of(from, step) is Some,
    ensures
        complete_within(
            opening_within(data, time::unix_millis(request_from(from, step)), time::unix_millis(to)),
            from,
            to,
        ) == complete_within(data, from, to),
    decreases data.len(),
{
    if data.len() > 0 {
        let from_ms = time::unix_millis(request_from(from, step));
        let to_ms = time::unix_millis(to);
        let rest = data.drop_first();
        assert forall|i: int| 0 <= i < rest.len() implies spans(#[trigger] rest[i], step) by {
            assert(spans(data[i + 1], step));
        }
        lemma_window_suffices(rest, step, from, to);
        let bar = data.first();
        assert(spans(data[0], step));
        if in_bounds(bar.1, from, to) {
            law_window_holds_the_bounds(bar.0, step, from, to);
        }
        let selected = opening_within(rest, from_ms, to_ms);
        if from_ms <= time::unix_millis(bar.0) <= to_ms {
            assert((seq![bar] + selected).drop_first() =~= selected);
            assert((seq![bar] + selected).first() == bar);
        }
    }
}

proof fn lemma_run_keeps_bounds(
    fetches: Seq<AggregateFetch>,
    asked: Seq<AggregateFetch>,
    pages: Seq<Seq<Result<Candle, MassiveError>>>,
    names: Seq<Option<String>>,
    given: Seq<Seq<Candle>>,
    i: int,
)
    requires
        runs_over(fetches, asked, pages, names, given),
        0 <= i < fetches.len(),
    ensures
        fetches[i].from == fetches[0].from,
        fetches[i].to == fetches[0].to,
    decreases i,
{
    if i > 0 {
        lemma_run_keeps_bounds(fetches, asked, pages, names, given, i - 1);
        assert(takes_page(asked[i - 1], pages[i - 1], names[i - 1], given[i - 1], Ok(fetches[i])));
    }
}

/// A fetch of aggregates from an API that selects bars by their opens gives exactly the candles that
/// are complete within the bounds, each once and in order, however the API cuts its pages.
///
/// Left out are a first bound whose bar has no representable open, a first bound within a leap
/// second, and a bar of no length within one.
pub proof fn law_fetch_is_complete(
    data: Seq<(Timestamp, Candle)>,
    client: MassiveRestClient,
    ticker: Seq<char>,
    multiplier: u32,
    timespan: Seq<char>,
    step: CandleStep,
    from: Timestamp,
    to: Timestamp,
    fetches: Seq<AggregateFetch>,
    asked: Seq<AggregateFetch>,
    pages: Seq<Seq<Result<Candle, MassiveError>>>,
    names: Seq<Option<String>>,
    given: Seq<Seq<Candle>>,
)
    requires
        from.wf(),
        to.wf(),
        from.nanos < 1_000_000_000,
        time::open_of(from, step) is Some,
        forall|i: int| 0 <= i < data.len() ==> spans(#[trigger] data[i], step),
        runs_over(fetches, asked, pages, names, given),
        starts_aggregates(fetches[0], client.base(), ticker, multiplier, timespan, step, from, to),
        pages.flatten() == decoded(
            opening_within(data, time::unix_millis(request_from(from, step)), time::unix_millis(to)),
        ),
    ensures
        given.flatten() == complete_within(data, from, to),
{
    let selected = opening_within(data, time::unix_millis(request_from(from, step)), time::unix_millis(to));
    assert forall|i: int| 0 <= i < pages.len() implies fault_of(#[trigger] pages[i]) is None && given[i]
        == candles_of(pages[i], from, to) by {
        lemma_run_keeps_bounds(fetches, asked, pages, names, given, i);
        assert(takes_page(asked[i], pages[i], names[i], given[i], Ok(fetches[i + 1])));
    }
    lemma_pages_join(pages, given, from, to);
    lemma_decoded(selected, from, to);
    lemma_window_suffices(data, step, from, to);
}

proof fn lemma_splits(url: Seq<char>, head: Seq<char>, c: char, tail: Seq<char>)
    requires
        !head.contains(c),
        url == head + seq![c] + tail,
    ensures
        text::before_first(url, c) == Some(head),
        text::after_first(url, c) == Some(tail),
{
    text::law_splitting_undoes_joining(head, c, tail);
}

proof fn lemma_printed_number_holds_no(n: int, c: char)
    requires
        c == '/' || c == '?' || c == '&',
    ensures
        !text::signed_decimal_text(n).contains(c),
{
    text::law_printed_number_is_digits(n);
    let s = text::signed_decimal_text(n);
    assert forall|i: int| 0 <= i < s.len() implies s[i] != c by {
        assert('0' <= s[i] <= '9' || s[i] == '-');
    }
}

/// The first page of aggregates asks for what was requested. Behind the base URL and the path to the
/// ticker, the parts of the URL between its slashes read as the ticker, the multiplier behind `range`,
/// the timespan, and the window in milliseconds: from one bar before the first bound to the last.
///
/// Left out is a timespan with a slash in it, which is none.
pub proof fn law_first_page_asks_for_the_request(
    fetch: AggregateFetch,
    base_url: Seq<char>,
    ticker: Seq<char>,
    multiplier: u32,
    timespan: Seq<char>,
    step: CandleStep,
    from: Timestamp,
    to: Timestamp,
)
    requires
        ticker_fault(ticker) is None,
        !timespan.contains('/'),
        starts_aggregates(fetch, base_url, ticker, multiplier, timespan, step, from, to),
    ensures
        fetch.pages.base() == base_url,
        fetch.from == from,
        fetch.to == to,
        fetch.pages.upcoming() is Some,
        ({
            let behind_path = text::after_prefix(fetch.pages.upcoming()->0, base_url + "/v2/aggs/ticker/"@);
            let behind_ticker = text::after_first(behind_path->0, '/');
            let behind_range = text::after_prefix(behind_ticker->0, "range/"@);
            let behind_multiplier = text::after_first(behind_range->0, '/');
            let behind_timespan = text::after_first(behind_multiplier->0, '/');
            let behind_from = text::after_first(behind_timespan->0, '/');
            let opens = match time::open_of(from, step) {
                Some(open) => open,
                None => from,
            };
            &&& behind_path is Some && behind_range is Some
            &&& text::before_first(behind_path->0, '/') == Some(ticker)
            &&& text::before_first(behind_range->0, '/') == Some(text::decimal_text(multiplier as nat))
            &&& text::parsed_u64(text::before_first(behind_range->0, '/')->0) == Some(multiplier as u64)
            &&& text::before_first(behind_multiplier->0, '/') == Some(timespan)
            &&& text::before_first(behind_timespan->0, '/') == Some(
                text::signed_decimal_text(time::unix_millis(opens)),
            )
            &&& text::before_first(behind_from->0, '?') == Some(text::signed_decimal_text(time::unix_millis(to)))
            &&& text::after_first(behind_from->0, '?') == Some("adjusted=true&sort=asc&limit=50000"@)
        }),
{
    let from_text = text::signed_decimal_text(time::unix_millis(request_from(from, step)));
    let to_text = text::signed_decimal_text(time::unix_millis(to));
    let number = text::decimal_text(multiplier as nat);
    let query = "adjusted=true&sort=asc&limit=50000"@;
    let url = fetch.pages.upcoming()->0;
    reveal_strlit("/");
    reveal_strlit("range/");
    reveal_strlit("/range/");
    reveal_strlit("adjusted=true&sort=asc&limit=50000");
    reveal_strlit("?adjusted=true&sort=asc&limit=50000");
    assert("/"@ =~= seq!['/']);
    assert("/range/"@ =~= seq!['/'] + "range/"@);
    assert("?adjusted=true&sort=asc&limit=50000"@ =~= seq!['?'] + query);
    let last = to_text + seq!['?'] + query;
    let window = from_text + seq!['/'] + last;
    let spanned = timespan + seq!['/'] + window;
    let counted = number + seq!['/'] + spanned;
    let ranged = "range/"@ + counted;
    let named = ticker + seq!['/'] + ranged;
    assert(url =~= (base_url + "/v2/aggs/ticker/"@) + named);
    text::law_prefix_is_taken_off(base_url + "/v2/aggs/ticker/"@, named);
    text::law_prefix_is_taken_off("range/"@, counted);
    text::law_numbers_read_back(multiplier as u64);
    assert(!ticker.contains('/')) by {
        assert forall|i: int| 0 <= i < ticker.len() implies ticker[i] != '/' by {
            assert(!breaks_url(ticker[i]));
        }
    }
    lemma_printed_number_holds_no(multiplier as int, '/');
    lemma_printed_number_holds_no(time::unix_millis(request_from(from, step)), '/');
    lemma_printed_number_holds_no(time::unix_millis(to), '?');
    lemma_splits(named, ticker, '/', ranged);
    lemma_splits(counted, number, '/', spanned);
    lemma_splits(spanned, timespan, '/', window);
    lemma_splits(window, from_text, '/', last);
    lemma_splits(last, to_text, '?', query);
}

/// Requests that differ ask for different pages: two fetches of aggregates whose first page is the same
/// are for the same ticker, the same multiple of the same timespan and the same window in milliseconds.
pub proof fn law_first_pages_tell_requests_apart(
    a: AggregateFetch,
    b: AggregateFetch,
    base_url: Seq<char>,
    tickers: (Seq<char>, Seq<char>),
    multipliers: (u32, u32),
    timespans: (Seq<char>, Seq<char>),
    steps: (CandleStep, CandleStep),
    froms: (Timestamp, Timestamp),
    tos: (Timestamp, Timestamp),
)
    requires
        ticker_fault(tickers.0) is None,
        ticker_fault(tickers.1) is None,
        !timespans.0.contains('/'),
        !timespans.1.contains('/'),
        starts_aggregates(a, base_url, tickers.0, multipliers.0, timespans.0, steps.0, froms.0, tos.0),
        starts_aggregates(b, base_url, tickers.1, multipliers.1, timespans.1, steps.1, froms.1, tos.1),
        a.pages.upcoming() == b.pages.upcoming(),
    ensures
        tickers.0 == tickers.1,
        multipliers.0 == multipliers.1,
        timespans.0 == timespans.1,
        time::unix_millis(request_from(froms.0, steps.0)) == time::unix_millis(request_from(froms.1, steps.1)),
        time::unix_millis(tos.0) == time::unix_millis(tos.1),
{
    law_first_page_asks_for_the_request(
        a,
        base_url,
        tickers.0,
        multipliers.0,
        timespans.0,
        steps.0,
        froms.0,
        tos.0,
    );
    law_first_page_asks_for_the_request(
        b,
        base_url,
        tickers.1,
        multipliers.1,
        timespans.1,
        steps.1,
        froms.1,
        tos.1,
    );
    text::law_printed_numbers_differ(
        time::unix_millis(request_from(froms.0, steps.0)),
        time::unix_millis(request_from(froms.1, steps.1)),
    );
    text::law_printed_numbers_differ(time::unix_millis(tos.0), time::unix_millis(tos.1));
}

/// The window of a fetch begins the length of one bar before its first bound.
pub proof fn law_window_begins_one_bar_early(from: Timestamp, seconds: u32)
    requires
        from.wf(),
        from.nanos < 1_000_000_000,
        from.secs - seconds >= time::MIN_SECS,
    ensures
        time::unix_millis(from) - time::unix_millis(request_from(from, CandleStep::Seconds(seconds))) == 1_000 * seconds,
{
}

/// The first page of trades or quotes asks for what was requested. Behind the base URL and the path, the
/// URL reads as the ticker, and its query as the window in nanoseconds, both bounds included.
pub proof fn law_first_page_of_ticks_asks_for_the_request(
    pages: Pages,
    base_url: Seq<char>,
    path: Seq<char>,
    ticker: Seq<char>,
    from: Timestamp,
    to: Timestamp,
)
    requires
        starts_ticks(Ok(pages), base_url, path, ticker, from, to),
    ensures
        pages.base() == base_url,
        pages.upcoming() is Some,
        time::unix_nanos(from) is Some,
        time::unix_nanos(to) is Some,
        ({
            let behind_path = text::after_prefix(pages.upcoming()->0, base_url + path);
            let query = text::after_first(behind_path->0, '?');
            let behind_gte = text::after_prefix(query->0, "timestamp.gte="@);
            let behind_from = text::after_first(behind_gte->0, '&');
            let behind_lte = text::after_prefix(behind_from->0, "timestamp.lte="@);
            &&& behind_path is Some && behind_gte is Some && behind_lte is Some
            &&& text::before_first(behind_path->0, '?') == Some(ticker)
            &&& text::before_first(behind_gte->0, '&') == Some(
                text::signed_decimal_text(time::unix_nanos(from)->0 as int),
            )
            &&& text::before_first(behind_lte->0, '&') == Some(text::signed_decimal_text(time::unix_nanos(to)->0 as int))
            &&& text::after_first(behind_lte->0, '&') == Some("limit=50000&sort=timestamp&order=asc"@)
        }),
{
    let from_text = text::signed_decimal_text(time::unix_nanos(from)->0 as int);
    let to_text = text::signed_decimal_text(time::unix_nanos(to)->0 as int);
    let order = "limit=50000&sort=timestamp&order=asc"@;
    let url = pages.upcoming()->0;
    reveal_strlit("timestamp.gte=");
    reveal_strlit("?timestamp.gte=");
    reveal_strlit("timestamp.lte=");
    reveal_strlit("&timestamp.lte=");
    reveal_strlit("limit=50000&sort=timestamp&order=asc");
    reveal_strlit("&limit=50000&sort=timestamp&order=asc");
    assert("?timestamp.gte="@ =~= seq!['?'] + "timestamp.gte="@);
    assert("&timestamp.lte="@ =~= seq!['&'] + "timestamp.lte="@);
    assert("&limit=50000&sort=timestamp&order=asc"@ =~= seq!['&'] + order);
    let last = to_text + seq!['&'] + order;
    let upper = "timestamp.lte="@ + last;
    let window = from_text + seq!['&'] + upper;
    let query = "timestamp.gte="@ + window;
    let named = ticker + seq!['?'] + query;
    assert(url =~= (base_url + path) + named);
    text::law_prefix_is_taken_off(base_url + path, named);
    text::law_prefix_is_taken_off("timestamp.gte="@, window);
    text::law_prefix_is_taken_off("timestamp.lte="@, last);
    assert(!ticker.contains('?')) by {
        assert forall|i: int| 0 <= i < ticker.len() implies ticker[i] != '?' by {
            assert(!breaks_url(ticker[i]));
        }
    }
    lemma_printed_number_holds_no(time::unix_nanos(from)->0 as int, '&');
    lemma_printed_number_holds_no(time::unix_nanos(to)->0 as int, '&');
    lemma_splits(named, ticker, '?', query);
    lemma_splits(window, from_text, '&', upper);
    lemma_splits(last, to_text, '&', order);
}

/// A request for ticks is refused exactly where its ticker is, or where a bound is too far from 1970 to
/// be counted in nanoseconds.
pub proof fn law_ticks_are_refused_for_a_reason(
    r: Result<Pages, MassiveError>,
    base_url: Seq<char>,
    path: Seq<char>,
    ticker: Seq<char>,
    from: Timestamp,
    to: Timestamp,
)
    requires
        starts_ticks(r, base_url, path, ticker, from, to),
    ensures
        r is Ok <==> {
            &&& ticker_fault(ticker) is None
            &&& i64::MIN <= from.secs * 1_000_000_000 + from.nanos <= i64::MAX
            &&& i64::MIN <= to.secs * 1_000_000_000 + to.nanos <= i64::MAX
        },
{
}

/// A ticker is accepted where it is not empty and none of its characters would end or change a part of a
/// URL's path: no slash, question mark, hash, space or percent sign.
pub proof fn law_accepted_tickers_stay_one_part(ticker: Seq<char>)
    ensures
        ticker_fault(ticker) is None <==> {
            &&& ticker.len() > 0
            &&& !ticker.contains('/')
            &&& !ticker.contains('?')
            &&& !ticker.contains('#')
            &&& !ticker.contains(' ')
            &&& !ticker.contains('%')
        },
{
    if exists|i: int| 0 <= i < ticker.len() && breaks_url(#[trigger] ticker[i]) {
        let i = choose|i: int| 0 <= i < ticker.len() && breaks_url(#[trigger] ticker[i]);
        assert(ticker.contains(ticker[i]));
    } else {
        assert forall|i: int| 0 <= i < ticker.len() implies {
            let c = #[trigger] ticker[i];
            c != '/' && c != '?' && c != '#' && c != ' ' && c != '%'
        } by {
            assert(!breaks_url(ticker[i]));
        }
    }
}

/// What is requested next is the page that was named, and it is requested exactly where fewer pages than
/// the cap were taken up, it was not requested before, and it has the origin of the base URL. Where it is
/// not, the error says which of these fails, in that order.
pub proof fn law_pages_are_requested_once_and_of_one_origin(before: Pages, after: Pages, step: PageStep)
    requires
        advances(before, after, step),
    ensures
        before.upcoming() is None <==> step is Done,
        step is Fetch <==> {
            &&& before.upcoming() is Some
            &&& before.count() < MAX_PAGES
            &&& !before.fetched().contains(before.upcoming()->0)
            &&& url_origin(before.base()) is Ok
            &&& same_origin(before.upcoming()->0, before.base())
        },
        step matches PageStep::Fetch(page) ==> {
            &&& before.upcoming() == Some(page@)
            &&& after.fetched() == before.fetched().push(page@)
            &&& after.count() == before.count() + 1
        },
        step matches PageStep::Fail(error) ==> {
            let url = before.upcoming()->0;
            &&& error is PaginationLimitExceeded <==> before.count() >= MAX_PAGES
            &&& error is CyclicPagination <==> before.count() < MAX_PAGES && before.fetched().contains(url)
            &&& error is UntrustedNextUrl ==> url_origin(before.base()) is Ok && !same_origin(url, before.base())
            &&& error is InvalidInput ==> url_origin(before.base()) is Err
        },
{
}

/// The candles of a page are those of its bars that are complete within the bounds, in order, up to the
/// first bar that could not be decoded; its error is what the page ends with.
///
/// Returned are the bars that the candles are of, and how many bars were read.
pub proof fn law_page_gives_its_bars(
    bars: Seq<Result<Candle, MassiveError>>,
    from: Timestamp,
    to: Timestamp,
) -> (r: (Seq<int>, int))
    ensures
        ({
            let (at, read) = r;
            let given = candles_of(bars, from, to);
            &&& 0 <= read <= bars.len()
            &&& forall|i: int| 0 <= i < read ==> #[trigger] bars[i] is Ok
            &&& read < bars.len() ==> bars[read] is Err && fault_of(bars) == Some(bars[read]->Err_0)
            &&& read == bars.len() ==> fault_of(bars) is None
            &&& at.len() == given.len()
            &&& forall|k: int, l: int| 0 <= k < l < at.len() ==> #[trigger] at[k] < #[trigger] at[l]
            &&& forall|k: int|
                0 <= k < at.len() ==> 0 <= #[trigger] at[k] < read && bars[at[k]] == Ok::<Candle, MassiveError>(
                    given[k],
                ) && !given[k].close_time.before(from) && !to.before(given[k].close_time)
            &&& forall|i: int|
                0 <= i < read && !(#[trigger] bars[i])->Ok_0.close_time.before(from) && !to.before(
                    bars[i]->Ok_0.close_time,
                ) ==> at.contains(i)
        }),
    decreases bars.len(),
{
    if bars.len() == 0 {
        (Seq::empty(), 0)
    } else if bars[0] is Err {
        (Seq::empty(), 0)
    } else {
        let rest = bars.drop_first();
        let (later, more) = law_page_gives_its_bars(rest, from, to);
        let candle = bars[0]->Ok_0;
        let shifted = Seq::new(later.len(), |k: int| later[k] + 1);
        let at = if in_bounds(candle, from, to) { seq![0int] + shifted } else { shifted };
        let read = more + 1;
        let skipped: int = if in_bounds(candle, from, to) { 1 } else { 0 };
        assert forall|i: int| 0 <= i < read implies #[trigger] bars[i] is Ok by {
            if i > 0 {
                assert(rest[i - 1] == bars[i]);
            }
        }
        assert(read < bars.len() ==> rest[more] == bars[read]);
        assert forall|k: int| 0 <= k < at.len() implies 0 <= #[trigger] at[k] < read && bars[at[k]] == Ok::<
            Candle,
            MassiveError,
        >(candles_of(bars, from, to)[k]) && !candles_of(bars, from, to)[k].close_time.before(from) && !to.before(
            candles_of(bars, from, to)[k].close_time,
        ) by {
            if k >= skipped {
                assert(at[k] == later[k - skipped] + 1);
                assert(rest[later[k - skipped]] == bars[at[k]]);
            }
        }
        assert forall|k: int, l: int| 0 <= k < l < at.len() implies #[trigger] at[k] < #[trigger] at[l] by {
            if k >= skipped {
                assert(later[k - skipped] < later[l - skipped]);
            } else {
                assert(later[l - skipped] >= 0);
            }
        }
        assert forall|i: int|
            0 <= i < read && !(#[trigger] bars[i])->Ok_0.close_time.before(from) && !to.before(
                bars[i]->Ok_0.close_time,
            ) implies at.contains(i) by {
            if i == 0 {
                assert(at[0] == 0);
            } else {
                assert(rest[i - 1] == bars[i]);
                let k = choose|k: int| 0 <= k < later.len() && later[k] == i - 1;
                assert(at[k + skipped] == i);
            }
        }
        (at, read)
    }
}

/// A page is read exactly where its status is a success, and then whole. A key that is refused is told from every other error,
/// which keeps its status; each keeps as much of the body as fits.
pub proof fn law_only_successes_are_read(r: Result<String, MassiveError>, status: u16, body: String)
    requires
        is_page_body(r, status, body),
    ensures
        r is Ok <==> 200 <= status <= 299,
        r matches Ok(whole) ==> whole@ == body@,
        r matches Err(e) ==> {
            &&& e is Auth <==> status == 401 || status == 403
            &&& e is Api <==> status != 401 && status != 403
            &&& e matches MassiveError::Api { status: code, message } ==> code == status && message@ == body@.take(
                message@.len() as int,
            ) && text::utf8_size(message@) <= MAX_BODY_BYTES
            &&& e matches MassiveError::Auth { message } ==> message@ == body@.take(message@.len() as int)
                && text::utf8_size(message@) <= MAX_BODY_BYTES
        },
{
    text::law_truncation_is_the_longest_that_fits(body@, MAX_BODY_BYTES as nat);
}

/// An answer is refused for its rate exactly where its status says so, with the wait that its header gives in whole seconds.
pub proof fn law_rate_limits_keep_the_wait(
    r: Result<(), MassiveError>,
    status: u16,
    retry_after: Option<&str>,
    seconds: u64,
)
    requires
        is_rate_verdict(r, status, retry_after),
    ensures
        r is Err <==> status == 429,
        r matches Err(e) ==> {
            &&& e is RateLimited
            &&& retry_after is None ==> e->retry_after is None
            &&& retry_after matches Some(header) ==> (header@ == text::decimal_text(seconds as nat) ==> e->retry_after == Some(
                seconds,
            ))
        },
{
    text::law_numbers_read_back(seconds);
}

/// A next page is judged by the two URLs: it passes exactly where the base URL is one and the two have one origin, and is
/// otherwise refused with the page and the origin that was expected, or with what is wrong with the base URL.
pub proof fn law_next_pages_are_judged_by_their_origin(
    next_url: Seq<char>,
    base_url: Seq<char>,
    base_origin: Result<Seq<char>, Seq<char>>,
    trusted: bool,
    r: Result<(), MassiveError>,
)
    requires
        url_verdict(next_url, base_url, base_origin, trusted, r),
    ensures
        r is Ok <==> base_origin is Ok && trusted,
        r matches Err(MassiveError::UntrustedNextUrl { next_url: refused, expected_origin }) ==> refused@ == next_url
            && base_origin == Ok::<Seq<char>, Seq<char>>(expected_origin@),
        r matches Err(e) ==> (e is InvalidInput <==> base_origin is Err) && (e is UntrustedNextUrl <==> base_origin is Ok),
        r matches Err(MassiveError::InvalidInput { message }) ==> text::names_in_order(
            message@,
            seq![base_origin->Err_0, base_url],
        ),
{
    if base_origin is Err {
        text::lemma_two_named("base_url is not a valid URL ("@, base_origin->Err_0, "): "@, base_url);
    }
}

/// A ticker is accepted exactly where it is not empty and holds none of the characters that end or change a part of a URL's
/// path. What is refused for being empty and what is refused for its characters is told apart.
pub proof fn law_tickers_are_refused_for_a_reason(
    ticker: Seq<char>,
    r: Result<(), MassiveError>,
    other: Seq<char>,
    s: Result<(), MassiveError>,
)
    requires
        reports(r, ticker_fault(ticker)),
        reports(s, ticker_fault(other)),
    ensures
        r is Ok <==> ticker.len() > 0 && !ticker.contains('/') && !ticker.contains('?') && !ticker.contains('#')
            && !ticker.contains(' ') && !ticker.contains('%'),
        r matches Err(e) ==> e is InvalidInput,
        r is Err && s is Err ==> (r->Err_0->InvalidInput_message@ == s->Err_0->InvalidInput_message@ <==> (ticker.len()
            == 0 <==> other.len() == 0)),
{
    reveal_strlit("ticker must not be empty");
    reveal_strlit("ticker contains invalid URL characters");
    assert("ticker must not be empty"@.len() != "ticker contains invalid URL characters"@.len());
    if r is Ok {
        assert forall|c: char| breaks_url(c) implies !ticker.contains(c) by {
            if ticker.contains(c) {
                let i = choose|i: int| 0 <= i < ticker.len() && ticker[i] == c;
                assert(breaks_url(ticker[i]));
            }
        }
        assert(breaks_url('/') && breaks_url('?') && breaks_url('#') && breaks_url(' ') && breaks_url('%'));
    } else if ticker.len() > 0 {
        let i = choose|i: int| 0 <= i < ticker.len() && breaks_url(#[trigger] ticker[i]);
        assert(ticker.contains(ticker[i]));
    }
}

} // verus!
