//! Bulk exports: what can be requested, the life of a job, and the artifact that it leaves.

use vstd::prelude::*;
use vstd::string::*;
use crate::exchange::ExchangeId;
use crate::lse::dataset;
use crate::lse::dataset::{candle_interval_str, LseDataset};
use crate::lse::error;
use crate::lse::error::{label_interval, LseError};
use crate::lse::quota::QuotaStatus;
use crate::text;
use crate::text::{quote, same_text, trim};
use crate::time;
use crate::time::{CandleInterval, Date, Timestamp};

verus! {

/// What an export covers.
#[derive(Clone, Copy, PartialEq, Eq, Structural, Debug, Hash)]
pub enum LseExportTimeframe {
    /// The raw tick tape. Its columns vary by dataset.
    Tick,
    /// Candles of one resolution.
    Candle(CandleInterval),
}

impl LseExportTimeframe {
    /// The provider's spelling, where it serves the resolution.
    pub open spec fn lse_name(self) -> Option<Seq<char>> {
        match self {
            LseExportTimeframe::Tick => Some("tick"@),
            LseExportTimeframe::Candle(interval) => dataset::interval_name(interval),
        }
    }

    /// The provider's spelling.
    ///
    /// Fails for a resolution that the provider does not serve.
    pub fn as_lse_str(&self) -> (r: Result<&'static str, LseError>)
        ensures
            match r {
                Ok(name) => self.lse_name() == Some(name@),
                Err(e) => self.lse_name() is None && *self == LseExportTimeframe::Candle(
                    self->Candle_0,
                ) && e == (LseError::UnsupportedInterval { interval: self->Candle_0 }),
            },
    {
        match self {
            LseExportTimeframe::Tick => Ok("tick"),
            LseExportTimeframe::Candle(interval) => match candle_interval_str(*interval) {
                Some(name) => Ok(name),
                None => Err(LseError::UnsupportedInterval { interval: *interval }),
            },
        }
    }
}

/// The dates that an export covers: `start` is in it, `end` is not.
#[derive(Clone, Copy, PartialEq, Eq, Structural, Debug, Hash)]
pub struct LseExportRange {
    start: Date,
    end: Date,
}

/// The message for a range that holds no day.
pub open spec fn empty_range_message(start: Date, end: Date) -> Seq<char> {
    "export range start "@ + start.iso() + " must be before end "@ + end.iso() + " (end is exclusive)"@
}

/// Whether `r` is the range between two dates, or the error for one that holds no day.
pub open spec fn is_range(r: Result<LseExportRange, LseError>, start: Date, end: Date) -> bool {
    match r {
        Ok(range) => start.before(end) && range.first() == start && range.past() == end,
        Err(e) => {
            &&& !start.before(end)
            &&& e matches LseError::InvalidInput { message }
            &&& message@ == empty_range_message(start, end)
        },
    }
}

impl LseExportRange {
    #[verifier::type_invariant]
    spec fn holds_a_day(self) -> bool {
        self.start.before(self.end)
    }

    pub closed spec fn first(self) -> Date {
        self.start
    }

    pub closed spec fn past(self) -> Date {
        self.end
    }

    /// The range from `start` up to, and without, `end`.
    ///
    /// Fails unless `start` is before `end`.
    pub fn new(start: Date, end: Date) -> (r: Result<LseExportRange, LseError>)
        ensures
            is_range(r, start, end),
    {
        if !start.is_before(&end) {
            let mut message = String::from_str("export range start ");
            message.append(start.text().as_str());
            message.append(" must be before end ");
            message.append(end.text().as_str());
            message.append(" (end is exclusive)");
            return Err(LseError::InvalidInput { message });
        }
        Ok(LseExportRange { start, end })
    }

    /// The first date.
    pub fn start(&self) -> (r: Date)
        ensures
            r == self.first(),
    {
        self.start
    }

    /// The date behind the last one.
    pub fn end(&self) -> (r: Date)
        ensures
            r == self.past(),
            self.first().before(r),
    {
        proof {
            use_type_invariant(self);
        }
        self.end
    }
}

/// The symbol that the provider takes literally, and that matches nothing.
pub const ALL_SYMBOLS_LITERAL: &'static str = "all";

/// The format in which artifacts are requested.
pub const EXPORT_FORMAT: &'static str = "parquet";

/// A request that is worth an export, as far as that can be told before it is sent.
#[derive(Debug)]
pub struct LseExportRequest {
    dataset: LseDataset,
    symbol: String,
    timeframe: LseExportTimeframe,
    range: LseExportRange,
}

/// The message for a symbol without characters.
pub open spec fn blank_symbol_message() -> Seq<char> {
    "export symbol must not be blank; the provider rejects a missing symbol with a 400, which still consumes an export"@
}

/// The message for the symbol that matches nothing.
pub open spec fn all_symbols_message() -> Seq<char> {
    "symbol \"all\" is a literal the provider matches against the symbol column, not a request for every symbol: an export naming it returns a valid but EMPTY artifact, with no error, and still consumes one of five hourly exports - name a real symbol instead. Measured on both the candle and the tick path; every artifact this provider will produce is single-symbol. (If you meant Allstate, its symbol is uppercase \"ALL\".)"@
}

/// The message for candles of a dataset that is exported as ticks only.
pub open spec fn tick_only_message(dataset: LseDataset, interval: CandleInterval) -> Seq<char> {
    "dataset "@ + text::quoted(dataset.catalog_name())
        + " is tick-only on the export path, so resolution "@ + error::interval_label(interval)
        + " cannot be exported for it - it serves candles over REST, but export timeframes follow the provider's candle-class split; use LseExportTimeframe::Tick"@
}

/// Whether a request of this kind is worth an export: a symbol that is not blank and not the one
/// that matches nothing, and a timeframe that the provider exports for the dataset.
pub open spec fn exportable(dataset: LseDataset, symbol: Seq<char>, timeframe: LseExportTimeframe) -> bool {
    &&& symbol.len() > 0
    &&& symbol != "all"@
    &&& timeframe.lse_name() is Some
    &&& timeframe is Candle ==> dataset.has_candle_exports()
}

/// Why a request for the trimmed `symbol` is refused. The first reason that applies counts.
pub open spec fn refused_request(
    dataset: LseDataset,
    symbol: Seq<char>,
    timeframe: LseExportTimeframe,
    e: LseError,
) -> bool {
    if symbol.len() == 0 {
        e matches LseError::InvalidInput { message } && message@ == blank_symbol_message()
    } else if timeframe.lse_name() is None {
        e == (LseError::UnsupportedInterval { interval: timeframe->Candle_0 })
    } else if symbol == "all"@ {
        e matches LseError::InvalidInput { message } && message@ == all_symbols_message()
    } else {
        e matches LseError::InvalidInput { message } && message@ == tick_only_message(
            dataset,
            timeframe->Candle_0,
        )
    }
}

/// Whether `r` is the request for these, with white space round the symbol dropped, or why there is none.
pub open spec fn is_request(
    r: Result<LseExportRequest, LseError>,
    dataset: LseDataset,
    symbol: Seq<char>,
    timeframe: LseExportTimeframe,
    range: LseExportRange,
) -> bool {
    match r {
        Ok(request) => {
            &&& exportable(dataset, text::trimmed(symbol), timeframe)
            &&& request.spec_dataset() == dataset
            &&& request.spec_symbol() == text::trimmed(symbol)
            &&& request.spec_timeframe() == timeframe
            &&& request.spec_range() == range
        },
        Err(e) => {
            &&& !exportable(dataset, text::trimmed(symbol), timeframe)
            &&& refused_request(dataset, text::trimmed(symbol), timeframe, e)
        },
    }
}

impl LseExportRequest {
    #[verifier::type_invariant]
    spec fn worth_an_export(self) -> bool {
        exportable(self.dataset, self.symbol@, self.timeframe)
    }

    pub closed spec fn spec_dataset(self) -> LseDataset {
        self.dataset
    }

    pub closed spec fn spec_symbol(self) -> Seq<char> {
        self.symbol@
    }

    pub closed spec fn spec_timeframe(self) -> LseExportTimeframe {
        self.timeframe
    }

    pub closed spec fn spec_range(self) -> LseExportRange {
        self.range
    }

    /// Checks a request before it is sent, because a rejected one still costs an export.
    ///
    /// White space round the symbol is dropped first. The symbol must then hold a character and not
    /// be the literal `all`; the provider must serve the resolution, and export it for the dataset.
    pub fn new(
        dataset: LseDataset,
        symbol: &str,
        timeframe: LseExportTimeframe,
        range: LseExportRange,
    ) -> (r: Result<LseExportRequest, LseError>)
        ensures
            is_request(r, dataset, symbol@, timeframe, range),
    {
        let symbol = trim(symbol);
        if symbol.as_str().is_empty() {
            return Err(
                LseError::InvalidInput {
                    message: String::from_str(
                        "export symbol must not be blank; the provider rejects a missing symbol with a 400, which still consumes an export",
                    ),
                },
            );
        }
        match timeframe.as_lse_str() {
            Ok(_) => {},
            Err(e) => {
                return Err(e);
            },
        }
        if same_text(symbol.as_str(), "all") {
            return Err(
                LseError::InvalidInput {
                    message: String::from_str(
                        "symbol \"all\" is a literal the provider matches against the symbol column, not a request for every symbol: an export naming it returns a valid but EMPTY artifact, with no error, and still consumes one of five hourly exports - name a real symbol instead. Measured on both the candle and the tick path; every artifact this provider will produce is single-symbol. (If you meant Allstate, its symbol is uppercase \"ALL\".)",
                    ),
                },
            );
        }
        if let LseExportTimeframe::Candle(interval) = timeframe {
            if !dataset.is_candle_class() {
                let mut message = String::from_str("dataset ");
                message.append(quote(dataset.as_catalog_str()).as_str());
                message.append(" is tick-only on the export path, so resolution ");
                message.append(label_interval(interval));
                message.append(
                    " cannot be exported for it - it serves candles over REST, but export timeframes follow the provider's candle-class split; use LseExportTimeframe::Tick",
                );
                return Err(LseError::InvalidInput { message });
            }
        }
        Ok(LseExportRequest { dataset, symbol, timeframe, range })
    }

    /// The dataset.
    pub fn dataset(&self) -> (r: LseDataset)
        ensures
            r == self.spec_dataset(),
    {
        self.dataset
    }

    /// The symbol, without white space round it.
    pub fn symbol(&self) -> (r: &str)
        ensures
            r@ == self.spec_symbol(),
    {
        self.symbol.as_str()
    }

    /// The timeframe.
    pub fn timeframe(&self) -> (r: LseExportTimeframe)
        ensures
            r == self.spec_timeframe(),
    {
        self.timeframe
    }

    /// The dates.
    pub fn range(&self) -> (r: LseExportRange)
        ensures
            r == self.spec_range(),
    {
        self.range
    }

    /// The fields of the submission. A request always has them.
    pub fn to_body(&self) -> (r: ExportRequestBody)
        ensures
            r.describes(*self),
    {
        proof {
            use_type_invariant(self);
        }
        let timeframe = match self.timeframe.as_lse_str() {
            Ok(name) => String::from_str(name),
            Err(_) => String::new(),
        };
        ExportRequestBody {
            dataset: String::from_str(self.dataset.as_catalog_str()),
            symbol: self.symbol.clone(),
            timeframe,
            start: self.range.start().text(),
            end: self.range.end().text(),
            format: String::from_str("parquet"),
        }
    }
}

/// The fields of an export submission.
#[derive(Debug)]
pub struct ExportRequestBody {
    pub dataset: String,
    pub symbol: String,
    pub timeframe: String,
    pub start: String,
    pub end: String,
    pub format: String,
}

impl ExportRequestBody {
    /// Whether these are the fields of `request`.
    pub open spec fn describes(self, request: LseExportRequest) -> bool {
        &&& self.dataset@ == request.spec_dataset().catalog_name()
        &&& self.symbol@ == request.spec_symbol()
        &&& request.spec_timeframe().lse_name() == Some(self.timeframe@)
        &&& self.start@ == request.spec_range().first().iso()
        &&& self.end@ == request.spec_range().past().iso()
        &&& self.format@ == "parquet"@
    }
}

/// Where an export job stands.
#[derive(Debug)]
pub enum LseExportStatus {
    /// Accepted, not yet building.
    Queued,
    /// Building.
    Running,
    /// The artifact can be downloaded.
    Ready,
    /// There will be no artifact.
    Failed,
    /// There was an artifact, and it has been removed since.
    Expired,
    /// A status that is not known here, as the provider wrote it.
    Other(String),
}

impl LseExportStatus {
    /// The provider's spelling.
    pub open spec fn name(self) -> Seq<char> {
        match self {
            LseExportStatus::Queued => "queued"@,
            LseExportStatus::Running => "running"@,
            LseExportStatus::Ready => "ready"@,
            LseExportStatus::Failed => "failed"@,
            LseExportStatus::Expired => "expired"@,
            LseExportStatus::Other(other) => other@,
        }
    }

    /// Whether polling the job further is pointless.
    pub open spec fn terminal(self) -> bool {
        self is Ready || self is Failed || self is Expired
    }

    /// Whether polling the job further is pointless.
    pub fn is_terminal(&self) -> (r: bool)
        ensures
            r == self.terminal(),
    {
        matches!(self, LseExportStatus::Ready | LseExportStatus::Failed | LseExportStatus::Expired)
    }

    /// The provider's spelling.
    pub fn as_str(&self) -> (r: &str)
        ensures
            r@ == self.name(),
    {
        match self {
            LseExportStatus::Queued => "queued",
            LseExportStatus::Running => "running",
            LseExportStatus::Ready => "ready",
            LseExportStatus::Failed => "failed",
            LseExportStatus::Expired => "expired",
            LseExportStatus::Other(other) => other.as_str(),
        }
    }

    /// The status that the provider spells as `value`. A spelling that is not known stays as it is.
    pub fn from_name(value: &str) -> (r: LseExportStatus)
        ensures
            r.name() == value@,
            r is Queued <==> value@ == "queued"@,
            r is Running <==> value@ == "running"@,
            r is Ready <==> value@ == "ready"@,
            r is Failed <==> value@ == "failed"@,
            r is Expired <==> value@ == "expired"@,
    {
        proof {
            reveal_strlit("queued");
            reveal_strlit("running");
            reveal_strlit("ready");
            reveal_strlit("failed");
            reveal_strlit("expired");
            assert("queued"@[0] == 'q' && "running"@[0] == 'r' && "failed"@[0] == 'f' && "expired"@[0] == 'e');
            assert("ready"@.len() == 5 && "running"@.len() == 7);
            assert("ready"@[0] == 'r');
        }
        if same_text(value, "queued") {
            LseExportStatus::Queued
        } else if same_text(value, "running") {
            LseExportStatus::Running
        } else if same_text(value, "ready") {
            LseExportStatus::Ready
        } else if same_text(value, "failed") {
            LseExportStatus::Failed
        } else if same_text(value, "expired") {
            LseExportStatus::Expired
        } else {
            LseExportStatus::Other(String::from_str(value))
        }
    }
}

/// No two of the known statuses share a spelling, so what is read from the spelling of a known
/// status is that status.
pub proof fn law_spellings_tell_statuses_apart(a: LseExportStatus, b: LseExportStatus)
    requires
        !(a is Other),
        !(b is Other),
        a.name() == b.name(),
    ensures
        a == b,
{
    reveal_strlit("queued");
    reveal_strlit("running");
    reveal_strlit("ready");
    reveal_strlit("failed");
    reveal_strlit("expired");
    assert("queued"@[0] == 'q' && "running"@[0] == 'r' && "failed"@[0] == 'f' && "expired"@[0] == 'e');
    assert("ready"@.len() == 5 && "running"@.len() == 7);
    assert("ready"@[0] == 'r');
}

/// The answer to a submission. The job is named `job_id` here and `id` in its status.
#[derive(Debug)]
#[non_exhaustive]
pub struct LseExportJob {
    pub job_id: String,
    pub status: LseExportStatus,
    /// The provider's estimate of the size, which is off by orders of magnitude: not to be acted on.
    pub est_bytes: Option<u64>,
}

impl LseExportJob {
    /// The answer with these fields.
    pub fn new(job_id: String, status: LseExportStatus, est_bytes: Option<u64>) -> (r: LseExportJob)
        ensures
            r == (LseExportJob { job_id, status, est_bytes }),
    {
        LseExportJob { job_id, status, est_bytes }
    }
}

/// The state of an export job.
///
/// The fields from `dataset` to `end` are what the job says that it covers, each where it says so.
#[derive(Debug)]
pub struct LseExportJobStatus {
    pub id: String,
    pub status: LseExportStatus,
    /// The rows of the artifact. An artifact without rows is well formed.
    pub rows: Option<u64>,
    /// The exact size of the artifact.
    pub bytes: Option<u64>,
    /// The SHA-256 of the artifact in hexadecimal.
    pub sha256: Option<String>,
    /// Why a job failed.
    pub error: Option<String>,
    /// When the artifact is removed.
    pub expires_at: Option<Timestamp>,
    /// The provider's source table.
    pub table_name: Option<String>,
    pub dataset: Option<String>,
    pub symbol: Option<String>,
    pub timeframe: Option<String>,
    pub start: Option<String>,
    pub end: Option<String>,
}

/// A downloaded artifact, with what is needed to decode it.
///
/// An artifact comes from one dataset, so its events have one venue.
#[derive(Debug)]
pub struct LseExport {
    path: String,
    dataset: LseDataset,
    symbol: String,
    timeframe: LseExportTimeframe,
    range: LseExportRange,
}

impl LseExport {
    pub closed spec fn spec_path(self) -> Seq<char> {
        self.path@
    }

    pub closed spec fn spec_dataset(self) -> LseDataset {
        self.dataset
    }

    pub closed spec fn spec_symbol(self) -> Seq<char> {
        self.symbol@
    }

    pub closed spec fn spec_timeframe(self) -> LseExportTimeframe {
        self.timeframe
    }

    pub closed spec fn spec_range(self) -> LseExportRange {
        self.range
    }

    /// Describes an artifact that is on disk.
    pub fn new(
        path: &str,
        dataset: LseDataset,
        symbol: &str,
        timeframe: LseExportTimeframe,
        range: LseExportRange,
    ) -> (r: LseExport)
        ensures
            r.spec_path() == path@,
            r.spec_dataset() == dataset,
            r.spec_symbol() == symbol@,
            r.spec_timeframe() == timeframe,
            r.spec_range() == range,
    {
        LseExport { path: String::from_str(path), dataset, symbol: String::from_str(symbol), timeframe, range }
    }

    /// Where the artifact is.
    pub fn path(&self) -> (r: &str)
        ensures
            r@ == self.spec_path(),
    {
        self.path.as_str()
    }

    /// The dataset that the artifact was exported from.
    pub fn dataset(&self) -> (r: LseDataset)
        ensures
            r == self.spec_dataset(),
    {
        self.dataset
    }

    /// The symbol of every row.
    pub fn symbol(&self) -> (r: &str)
        ensures
            r@ == self.spec_symbol(),
    {
        self.symbol.as_str()
    }

    /// The timeframe.
    pub fn timeframe(&self) -> (r: LseExportTimeframe)
        ensures
            r == self.spec_timeframe(),
    {
        self.timeframe
    }

    /// The dates.
    pub fn range(&self) -> (r: LseExportRange)
        ensures
            r == self.spec_range(),
    {
        self.range
    }

    /// The venue of every event.
    pub fn exchange_id(&self) -> (r: ExchangeId)
        ensures
            r == self.spec_dataset().exchange(),
    {
        self.dataset.exchange_id()
    }
}

/// The rejection of an export for which the allowance is exhausted: with the position, where it
/// could be retrieved.
pub fn quota_exceeded(usage: Option<QuotaStatus>) -> (r: LseError)
    ensures
        match usage {
            Some(status) => r == (LseError::QuotaExceeded { status }),
            None => r matches LseError::Api { status, message } && status == 429 && message@
                == "export allowance exhausted; the allowance position could not be retrieved"@,
        },
{
    match usage {
        Some(status) => LseError::QuotaExceeded { status },
        None => LseError::Api {
            status: 429,
            message: String::from_str(
                "export allowance exhausted; the allowance position could not be retrieved",
            ),
        },
    }
}

/// What to do after one look at a job that is waited for.
#[derive(Debug)]
pub enum PollStep {
    /// The job is ready.
    Ready(LseExportJobStatus),
    /// Give up.
    Stop(LseError),
    /// Look again later.
    Wait,
}

/// Whether `r` is how waiting for a job goes on: it ends with the job where that is ready, with its failure where it
/// has ended otherwise, and with a timeout where it goes on past the deadline.
pub open spec fn is_poll(r: PollStep, job_id: Seq<char>, job: LseExportJobStatus, deadline_passed: bool) -> bool {
    match job.status {
        LseExportStatus::Ready => r == PollStep::Ready(job),
        LseExportStatus::Failed | LseExportStatus::Expired => {
            &&& r matches PollStep::Stop(LseError::ExportFailed { job_id: id, status, message })
            &&& id@ == job_id
            &&& status@ == job.status.name()
            &&& message@ == (match job.error {
                Some(text) => text@,
                None => Seq::empty(),
            })
        },
        _ => if deadline_passed {
            &&& r matches PollStep::Stop(LseError::ExportTimeout { job_id: id, status })
            &&& id@ == job_id
            &&& status@ == job.status.name()
        } else {
            r is Wait
        },
    }
}

/// Decides how waiting for a job goes on, from its status and from whether the deadline has passed.
///
/// A job that has ended is reported as such whatever the clock says.
pub fn poll_export(job_id: &str, job: LseExportJobStatus, deadline_passed: bool) -> (r: PollStep)
    ensures
        is_poll(r, job_id@, job, deadline_passed),
{
    match job.status {
        LseExportStatus::Ready => PollStep::Ready(job),
        LseExportStatus::Failed | LseExportStatus::Expired => {
            let status = String::from_str(job.status.as_str());
            let message = match job.error {
                Some(text) => text,
                None => String::new(),
            };
            PollStep::Stop(LseError::ExportFailed { job_id: String::from_str(job_id), status, message })
        },
        _ => {
            if deadline_passed {
                PollStep::Stop(
                    LseError::ExportTimeout {
                        job_id: String::from_str(job_id),
                        status: String::from_str(job.status.as_str()),
                    },
                )
            } else {
                PollStep::Wait
            }
        },
    }
}

/// A request is made exactly where its symbol holds more than white space and is not the one that matches nothing, the
/// provider serves the timeframe, and candles are not asked of a dataset that is exported as ticks only. It is for what
/// was asked, with the white space round the symbol dropped.
pub proof fn law_requests_are_worth_an_export(
    r: Result<LseExportRequest, LseError>,
    dataset: LseDataset,
    symbol: Seq<char>,
    timeframe: LseExportTimeframe,
    range: LseExportRange,
)
    requires
        is_request(r, dataset, symbol, timeframe, range),
    ensures
        r is Ok <==> {
            &&& text::trimmed(symbol).len() > 0
            &&& text::trimmed(symbol) != "all"@
            &&& timeframe is Tick || dataset::interval_name(timeframe->Candle_0) is Some
            &&& timeframe is Candle ==> !(dataset is Volatility || dataset is InterestRates || dataset is CurrencyIndex)
        },
        r matches Ok(request) ==> {
            &&& request.spec_dataset() == dataset
            &&& request.spec_symbol() == text::trimmed(symbol)
            &&& request.spec_timeframe() == timeframe
            &&& request.spec_range() == range
        },
{
}

/// What is submitted tells requests apart: two requests with the same fields are for the same dataset, symbol and
/// timeframe and, in the years 0 to 9999, for the same dates.
pub proof fn law_submissions_tell_requests_apart(body: ExportRequestBody, a: LseExportRequest, b: LseExportRequest)
    requires
        body.describes(a),
        body.describes(b),
        a.spec_range().first().wf() && 0 <= a.spec_range().first().year <= 9_999,
        b.spec_range().first().wf() && 0 <= b.spec_range().first().year <= 9_999,
        a.spec_range().past().wf() && 0 <= a.spec_range().past().year <= 9_999,
        b.spec_range().past().wf() && 0 <= b.spec_range().past().year <= 9_999,
    ensures
        a.spec_dataset() == b.spec_dataset(),
        a.spec_symbol() == b.spec_symbol(),
        a.spec_timeframe() == b.spec_timeframe(),
        a.spec_range().first() == b.spec_range().first(),
        a.spec_range().past() == b.spec_range().past(),
{
    dataset::law_catalog_names_differ(a.spec_dataset(), b.spec_dataset());
    time::law_dates_read_back(a.spec_range().first());
    time::law_dates_read_back(b.spec_range().first());
    time::law_dates_read_back(a.spec_range().past());
    time::law_dates_read_back(b.spec_range().past());
    reveal_strlit("tick");
    let (x, y) = (a.spec_timeframe(), b.spec_timeframe());
    if x is Candle && y is Candle {
        dataset::law_spellings_tell_resolutions_apart(x->Candle_0, y->Candle_0);
    } else if x is Candle {
        dataset::law_spellings_are_short(x->Candle_0);
    } else if y is Candle {
        dataset::law_spellings_are_short(y->Candle_0);
    }
}

/// What is submitted reads as what was requested: its dates as the first date and the date behind the last.
pub proof fn law_submitted_dates_read_back(body: ExportRequestBody, request: LseExportRequest)
    requires
        body.describes(request),
        request.spec_range().first().wf() && 0 <= request.spec_range().first().year <= 9_999,
        request.spec_range().past().wf() && 0 <= request.spec_range().past().year <= 9_999,
    ensures
        body.symbol@ == request.spec_symbol(),
        text::digits_value(body.start@.subrange(0, 4)) == request.spec_range().first().year,
        text::digits_value(body.start@.subrange(5, 7)) == request.spec_range().first().month,
        text::digits_value(body.start@.subrange(8, 10)) == request.spec_range().first().day,
        text::digits_value(body.end@.subrange(0, 4)) == request.spec_range().past().year,
        text::digits_value(body.end@.subrange(5, 7)) == request.spec_range().past().month,
        text::digits_value(body.end@.subrange(8, 10)) == request.spec_range().past().day,
{
    time::law_dates_read_back(request.spec_range().first());
    time::law_dates_read_back(request.spec_range().past());
}

/// A job is looked at again exactly where it may still become ready and the deadline has not passed. One that is ready is
/// handed over, whatever the clock says, and every other end is an error that names the job and its status.
pub proof fn law_waiting_ends_with_the_job(
    r: PollStep,
    job_id: Seq<char>,
    job: LseExportJobStatus,
    deadline_passed: bool,
)
    requires
        is_poll(r, job_id, job, deadline_passed),
    ensures
        r is Wait <==> !job.status.terminal() && !deadline_passed,
        r is Ready <==> job.status is Ready,
        r matches PollStep::Ready(found) ==> found == job,
        r matches PollStep::Stop(e) ==> {
            &&& e is ExportFailed <==> job.status is Failed || job.status is Expired
            &&& e is ExportTimeout <==> !job.status.terminal()
            &&& e matches LseError::ExportFailed { job_id: id, status, message } ==> id@ == job_id && status@
                == job.status.name()
            &&& e matches LseError::ExportTimeout { job_id: id, status } ==> id@ == job_id && status@ == job.status.name()
        },
        job.status.terminal() <==> job.status is Ready || job.status is Failed || job.status is Expired,
{
}

/// A range is made exactly where its first date is before the date behind its last, and is of these dates; an error names both.
pub proof fn law_ranges_hold_a_day(r: Result<LseExportRange, LseError>, start: Date, end: Date)
    requires
        is_range(r, start, end),
        start.wf(),
        end.wf(),
    ensures
        r is Ok <==> (start.year * 12 + start.month) * 32 + start.day < (end.year * 12 + end.month) * 32 + end.day,
        r matches Ok(range) ==> range.first() == start && range.past() == end,
        r matches Err(LseError::InvalidInput { message }) ==> text::names_in_order(
            message@,
            seq![start.iso(), end.iso()],
        ),
{
    time::law_dates_are_on_one_line(start, end);
    let (a, b) = (start.iso(), end.iso());
    text::lemma_two_named("export range start "@, a, " must be before end "@, b);
    text::lemma_more_behind(
        "export range start "@ + a + " must be before end "@ + b,
        " (end is exclusive)"@,
        seq![a, b],
    );
}

/// A request is refused for the first thing that is wrong with it: a resolution that the provider does not serve is named, and
/// where a dataset is exported as ticks only, so are the dataset and the resolution.
pub proof fn law_refused_requests_say_why(
    e: LseError,
    dataset: LseDataset,
    symbol: Seq<char>,
    timeframe: LseExportTimeframe,
    range: LseExportRange,
)
    requires
        is_request(Err(e), dataset, symbol, timeframe, range),
    ensures
        e is UnsupportedInterval <==> text::trimmed(symbol).len() > 0 && timeframe is Candle && dataset::interval_name(
            timeframe->Candle_0,
        ) is None,
        e matches LseError::UnsupportedInterval { interval } ==> timeframe == LseExportTimeframe::Candle(interval),
        e is UnsupportedInterval || e is InvalidInput,
        e is InvalidInput && text::trimmed(symbol).len() > 0 && text::trimmed(symbol) != "all"@ ==> {
            &&& timeframe is Candle
            &&& text::names_in_order(
                e->InvalidInput_message@,
                seq![text::quoted(dataset.catalog_name()), error::interval_label(timeframe->Candle_0)],
            )
        },
{
    if timeframe is Candle {
        let (a, b) = (text::quoted(dataset.catalog_name()), error::interval_label(timeframe->Candle_0));
        text::lemma_two_named("dataset "@, a, " is tick-only on the export path, so resolution "@, b);
        text::lemma_more_behind(
            "dataset "@ + a + " is tick-only on the export path, so resolution "@ + b,
            " cannot be exported for it - it serves candles over REST, but export timeframes follow the provider's candle-class split; use LseExportTimeframe::Tick"@,
            seq![a, b],
        );
    }
}

} // verus!
