//! Downloading an artifact: resuming a partial file, and accepting nothing that fails a check.
//!
//! The artifact is collected in a partial file beside its destination. A [`Download`] stands for
//! the bytes of that file. Whoever moves the bytes feeds it what the file holds, asks it what to
//! request, tells it how the server answered, feeds it what arrives, and lets it decide at the end.

use vstd::prelude::*;
use vstd::string::*;
use crate::http;
use crate::lse::error;
use crate::lse::error::{extract_detail, LseError};
use crate::lse::export::{LseExport, LseExportJobStatus, LseExportRequest, LseExportStatus};
use crate::text;
use crate::text::{
    number_text,
    parse_u64,
    same_ignoring_ascii_case,
    same_text,
    split_before,
    strip_prefix,
    trim,
};

verus! {

/// A running SHA-256.
#[verifier::external_body]
pub struct ArtifactHasher {
    inner: sha2::Sha256,
}

/// The bytes that a hasher has taken in so far.
pub uninterp spec fn absorbed(hasher: ArtifactHasher) -> Seq<u8>;

/// The SHA-256 of a sequence of bytes.
pub uninterp spec fn sha256(bytes: Seq<u8>) -> Seq<u8>;

impl ArtifactHasher {
    /// Starts a hash with [`sha2::Sha256`]'s `Digest::new`: nothing is taken in yet.
    #[verifier::external_body]
    fn new() -> (r: ArtifactHasher)
        ensures
            absorbed(r) == Seq::<u8>::empty(),
    {
        ArtifactHasher { inner: <sha2::Sha256 as sha2::Digest>::new() }
    }

    /// Takes in bytes with `Digest::update`: they come behind what was taken in before.
    #[verifier::external_body]
    fn update(&mut self, bytes: &[u8])
        ensures
            absorbed(*final(self)) == absorbed(*old(self)) + bytes@,
    {
        sha2::Digest::update(&mut self.inner, bytes);
    }

    /// Ends a hash with `Digest::finalize`: the digest is a function of all bytes taken in.
    #[verifier::external_body]
    fn finalize(self) -> (r: Vec<u8>)
        ensures
            r@ == sha256(absorbed(self)),
    {
        sha2::Digest::finalize(self.inner).to_vec()
    }
}

/// Bytes in hexadecimal: two small digits for each.
pub open spec fn hex_text(bytes: Seq<u8>) -> Seq<char> {
    Seq::new(
        2 * bytes.len(),
        |i: int| if i % 2 == 0 { text::hex_digit(bytes[i / 2] as int / 16) } else { text::hex_digit(bytes[i / 2] as int % 16) },
    )
}

/// Writes bytes through [`hex::encode`]: two small hexadecimal digits for each, the high one first.
#[verifier::external_body]
fn encode_hex(bytes: &Vec<u8>) -> (r: String)
    ensures
        r@ == hex_text(bytes@),
{
    hex::encode(bytes)
}

/// The name of the partial file of `destination`.
///
/// The suffix is put behind the whole name, so that files of another type are never hit.
pub fn part_path(destination: &str) -> (r: String)
    ensures
        r@ == destination@ + ".part"@,
{
    let mut out = String::from_str(destination);
    out.append(".part");
    out
}

/// The message for a job that is not ready.
pub open spec fn not_ready_message(job: LseExportJobStatus) -> Seq<char> {
    "export job "@ + job.id@ + " is "@ + job.status.name() + ", not ready; nothing to download"@
}

/// What a job echoes of a field, against what was requested: a difference, where it echoes one.
pub open spec fn differs(echo: Option<String>, requested: Seq<char>) -> bool {
    echo matches Some(reported) && reported@ != requested
}

/// Whether `e` reports that the job echoes `field` as other than requested.
pub open spec fn mismatch(
    e: LseError,
    job: LseExportJobStatus,
    field: Seq<char>,
    requested: Seq<char>,
    echo: Option<String>,
) -> bool {
    &&& e matches LseError::ExportJobMismatch { job_id, field: named, requested: wanted, reported }
    &&& job_id@ == job.id@
    &&& named@ == field
    &&& wanted@ == requested
    &&& echo matches Some(found)
    &&& reported@ == found@
}

/// Whether a ready job describes `request`: nothing that it echoes differs.
pub open spec fn job_describes(job: LseExportJobStatus, request: LseExportRequest) -> bool {
    &&& !differs(job.dataset, request.spec_dataset().catalog_name())
    &&& !differs(job.symbol, request.spec_symbol())
    &&& !differs(job.timeframe, request.spec_timeframe().lse_name()->0)
    &&& !differs(job.start, request.spec_range().first().iso())
    &&& !differs(job.end, request.spec_range().past().iso())
}

fn check_echo(job: &LseExportJobStatus, field: &str, requested: &str, echo: &Option<String>) -> (r: Result<
    (),
    LseError,
>)
    ensures
        match r {
            Ok(_) => !differs(*echo, requested@),
            Err(e) => differs(*echo, requested@) && mismatch(e, *job, field@, requested@, *echo),
        },
{
    if let Some(reported) = echo {
        if !same_text(reported.as_str(), requested) {
            return Err(
                LseError::ExportJobMismatch {
                    job_id: job.id.clone(),
                    field: String::from_str(field),
                    requested: String::from_str(requested),
                    reported: reported.clone(),
                },
            );
        }
    }
    Ok(())
}

/// Whether `r` is what is said of a job before its artifact is fetched: nothing where it is ready and describes
/// `request`, and otherwise that it is not ready or the first field that differs.
pub open spec fn is_judgement(r: Result<(), LseError>, job: LseExportJobStatus, request: LseExportRequest) -> bool {
    match r {
        Ok(_) => job.status is Ready && job_describes(job, request),
        Err(e) => if !(job.status is Ready) {
            e matches LseError::InvalidInput { message } && message@ == not_ready_message(job)
        } else if differs(job.dataset, request.spec_dataset().catalog_name()) {
            mismatch(e, job, "dataset"@, request.spec_dataset().catalog_name(), job.dataset)
        } else if differs(job.symbol, request.spec_symbol()) {
            mismatch(e, job, "symbol"@, request.spec_symbol(), job.symbol)
        } else if differs(job.timeframe, request.spec_timeframe().lse_name()->0) {
            mismatch(e, job, "timeframe"@, request.spec_timeframe().lse_name()->0, job.timeframe)
        } else if differs(job.start, request.spec_range().first().iso()) {
            mismatch(e, job, "start"@, request.spec_range().first().iso(), job.start)
        } else {
            &&& differs(job.end, request.spec_range().past().iso())
            &&& mismatch(e, job, "end"@, request.spec_range().past().iso(), job.end)
        },
    }
}

/// Refuses a job that has no artifact yet, or whose artifact is of something else than `request`.
///
/// The provider puts defaults in place of what it does not recognise, and the job's own record is
/// the only evidence of that. What the record leaves out is not held against it.
pub fn check_job(job: &LseExportJobStatus, request: &LseExportRequest) -> (r: Result<(), LseError>)
    ensures
        is_judgement(r, *job, *request),
{
    match job.status {
        LseExportStatus::Ready => {},
        _ => {
            let mut message = String::from_str("export job ");
            message.append(job.id.as_str());
            message.append(" is ");
            message.append(job.status.as_str());
            message.append(", not ready; nothing to download");
            return Err(LseError::InvalidInput { message });
        },
    }
    let body = request.to_body();
    if let Err(e) = check_echo(job, "dataset", body.dataset.as_str(), &job.dataset) {
        return Err(e);
    }
    if let Err(e) = check_echo(job, "symbol", body.symbol.as_str(), &job.symbol) {
        return Err(e);
    }
    if let Err(e) = check_echo(job, "timeframe", body.timeframe.as_str(), &job.timeframe) {
        return Err(e);
    }
    if let Err(e) = check_echo(job, "start", body.start.as_str(), &job.start) {
        return Err(e);
    }
    check_echo(job, "end", body.end.as_str(), &job.end)
}

/// The first byte that a `Content-Range` names, where it can be read: `bytes <first>-...`.
pub open spec fn range_start(header: Seq<char>) -> Option<u64> {
    match text::after_prefix(text::trimmed(header), "bytes "@) {
        Some(range) => text::parsed_u64(
            text::trimmed(
                match text::before_first(range, '-') {
                    Some(head) => head,
                    None => range,
                },
            ),
        ),
        None => None,
    }
}

/// What is wrong with the `Content-Range` of an answer that should resume at `expected_start`.
pub open spec fn wrong_resume(header: Option<Seq<char>>, expected_start: u64) -> Option<Seq<char>> {
    match header {
        None => Some("partial-content response carries no usable Content-Range header"@),
        Some(text) => match range_start(text) {
            None => Some("unparseable Content-Range on a partial-content response: "@ + text),
            Some(first) => if first != expected_start {
                Some(
                    "partial-content response resumes at byte "@ + text::decimal_text(first as nat)
                        + ", not the requested "@ + text::decimal_text(expected_start as nat),
                )
            } else {
                None
            },
        },
    }
}

/// The characters of an optional text.
pub open spec fn optional_text(s: Option<&str>) -> Option<Seq<char>> {
    match s {
        Some(text) => Some(text@),
        None => None,
    }
}

fn read_range_start(header: &str) -> (r: Option<u64>)
    ensures
        r == range_start(header@),
{
    let header = trim(header);
    match strip_prefix(header.as_str(), "bytes ") {
        Some(range) => {
            let first = match split_before(range.as_str(), '-') {
                Some(head) => head,
                None => range,
            };
            parse_u64(trim(first.as_str()).as_str())
        },
        None => None,
    }
}

/// Confirms that a partial answer resumes at the byte that was asked for.
///
/// Appending bytes from elsewhere would leave a file that is neither the artifact nor a part of it.
pub fn verify_resume_offset(content_range: Option<&str>, expected_start: u64) -> (r: Result<(), LseError>)
    ensures
        match r {
            Ok(_) => wrong_resume(optional_text(content_range), expected_start) is None,
            Err(e) => {
                &&& e matches LseError::Api { status, message }
                &&& status == 206
                &&& wrong_resume(optional_text(content_range), expected_start) == Some(message@)
            },
        },
{
    let header = match content_range {
        Some(text) => text,
        None => {
            return Err(
                LseError::Api {
                    status: 206,
                    message: String::from_str(
                        "partial-content response carries no usable Content-Range header",
                    ),
                },
            );
        },
    };
    match read_range_start(header) {
        None => {
            let mut message = String::from_str("unparseable Content-Range on a partial-content response: ");
            message.append(header);
            Err(LseError::Api { status: 206, message })
        },
        Some(first) => {
            if first != expected_start {
                let mut message = String::from_str("partial-content response resumes at byte ");
                message.append(number_text(first).as_str());
                message.append(", not the requested ");
                message.append(number_text(expected_start).as_str());
                Err(LseError::Api { status: 206, message })
            } else {
                Ok(())
            }
        },
    }
}

/// The error for an answer whose status is not a success.
pub fn api_error(status: u16, body: &str) -> (r: LseError)
    ensures
        r matches LseError::Api { status: code, message } && code == status && message@ == text::truncated(
            error::unwrapped(text::trimmed(body@), error::MAX_DETAIL_LEVELS as nat),
            error::MAX_DETAIL_BYTES as nat,
        ),
{
    LseError::Api { status, message: extract_detail(body) }
}

/// What to request next.
#[derive(Debug)]
pub enum DownloadPlan {
    /// Nothing: the partial file holds as much as the job reports.
    Verify,
    /// The artifact, from the byte that the `Range` header names, or from its start.
    Fetch { range: Option<String> },
}

/// What to do with an answer.
#[derive(Debug)]
pub enum DownloadStep {
    /// Write the body behind what the partial file holds.
    Append,
    /// Write the body in place of what the partial file holds.
    Restart,
    /// Leave the body: the partial file holds all that there is.
    Verify,
    /// Read the allowance and report that it is exhausted.
    ReportQuota,
    /// Read the body and report the status with it.
    ReportStatus,
    /// Report this.
    Fail(LseError),
}

/// The bytes of a partial file, and whether this call has found nothing left to fetch.
pub struct Download {
    hasher: ArtifactHasher,
    downloaded: u64,
    complete: bool,
}

/// Whether a partial file of `held` bytes is taken for the whole of an artifact of `total` bytes.
pub open spec fn looks_complete(held: nat, total: Option<u64>) -> bool {
    held > 0 && total is Some && held >= total->0
}

/// Whether the bytes pass the checks that the job's record allows: its length and its digest, each
/// where it is reported.
pub open spec fn passes(bytes: Seq<u8>, job: LseExportJobStatus) -> bool {
    &&& job.bytes matches Some(total) ==> bytes.len() == total
    &&& job.sha256 matches Some(digest) ==> text::same_but_for_case(digest@, hex_text(sha256(bytes)))
}

/// Whether a partial file that failed its checks is of no use to a later call: there was nothing
/// left to fetch for it, or it is no shorter than the artifact.
pub open spec fn unusable(held: nat, complete: bool, total: Option<u64>) -> bool {
    complete || (total matches Some(size) && held >= size)
}

/// Whether `e` reports the first check that the bytes fail.
pub open spec fn integrity_error(
    e: LseError,
    bytes: Seq<u8>,
    complete: bool,
    job: LseExportJobStatus,
    destination: Seq<char>,
) -> bool {
    &&& e matches LseError::IntegrityMismatch { path, expected, actual, discarded }
    &&& path@ == destination + ".part"@
    &&& discarded == unusable(bytes.len(), complete, job.bytes)
    &&& if job.bytes is Some && job.bytes->0 != bytes.len() {
        &&& expected@ == text::decimal_text(job.bytes->0 as nat) + " bytes"@
        &&& actual@ == text::decimal_text(bytes.len()) + " bytes"@
    } else {
        &&& job.sha256 matches Some(digest)
        &&& expected@ == digest@
        &&& actual@ == hex_text(sha256(bytes))
    }
}

/// What is requested for a partial file, and what it is then known to be: nothing for one that looks complete,
/// and otherwise what is behind its bytes.
pub open spec fn plans(before: Download, total: Option<u64>, after: Download, plan: DownloadPlan) -> bool {
    &&& after.bytes() == before.bytes()
    &&& after.is_complete() == (before.is_complete() || looks_complete(before.bytes().len(), total))
    &&& match plan {
        DownloadPlan::Verify => looks_complete(before.bytes().len(), total),
        DownloadPlan::Fetch { range } => {
            &&& !looks_complete(before.bytes().len(), total)
            &&& match range {
                Some(header) => before.bytes().len() > 0 && header@ == "bytes="@ + text::decimal_text(
                    before.bytes().len(),
                ) + "-"@,
                None => before.bytes().len() == 0,
            }
        },
    }
}

/// What is done with an answer, and what it leaves of the partial file.
pub open spec fn answers(
    before: Download,
    status: u16,
    content_range: Option<Seq<char>>,
    after: Download,
    step: DownloadStep,
) -> bool {
    if status == 429 {
        &&& step is ReportQuota
        &&& after.bytes() == before.bytes()
        &&& after.is_complete() == before.is_complete()
    } else if before.bytes().len() > 0 && status == 416 {
        &&& step is Verify
        &&& after.bytes() == before.bytes()
        &&& after.is_complete()
    } else if !http::success(status) {
        &&& step is ReportStatus
        &&& after.bytes() == before.bytes()
        &&& after.is_complete() == before.is_complete()
    } else if before.bytes().len() > 0 && status == 206 {
        &&& after.bytes() == before.bytes()
        &&& after.is_complete() == before.is_complete()
        &&& match step {
            DownloadStep::Append => wrong_resume(content_range, before.bytes().len() as u64) is None,
            DownloadStep::Fail(e) => {
                &&& e matches LseError::Api { status: code, message }
                &&& code == 206
                &&& wrong_resume(content_range, before.bytes().len() as u64) == Some(message@)
            },
            _ => false,
        }
    } else {
        &&& step is Restart
        &&& after.bytes() == Seq::<u8>::empty()
        &&& after.is_complete() == before.is_complete()
    }
}

/// What becomes of a partial file at the end: the artifact of the request where it passes, and otherwise the
/// error for the first check that it fails.
pub open spec fn finishes(
    part: Download,
    job: LseExportJobStatus,
    destination: Seq<char>,
    request: LseExportRequest,
    r: Result<LseExport, LseError>,
) -> bool {
    match r {
        Ok(export) => {
            &&& passes(part.bytes(), job)
            &&& export.spec_path() == destination
            &&& export.spec_dataset() == request.spec_dataset()
            &&& export.spec_symbol() == request.spec_symbol()
            &&& export.spec_timeframe() == request.spec_timeframe()
            &&& export.spec_range() == request.spec_range()
        },
        Err(e) => {
            &&& !passes(part.bytes(), job)
            &&& integrity_error(e, part.bytes(), part.is_complete(), job, destination)
        },
    }
}

impl Download {
    #[verifier::type_invariant]
    spec fn counts_its_bytes(self) -> bool {
        self.downloaded == absorbed(self.hasher).len()
    }

    /// The bytes of the partial file.
    pub closed spec fn bytes(self) -> Seq<u8> {
        absorbed(self.hasher)
    }

    /// Whether this call has found nothing left to fetch.
    pub closed spec fn is_complete(self) -> bool {
        self.complete
    }

    /// An empty partial file.
    pub fn new() -> (r: Download)
        ensures
            r.bytes() == Seq::<u8>::empty(),
            !r.is_complete(),
    {
        Download { hasher: ArtifactHasher::new(), downloaded: 0, complete: false }
    }

    /// How many bytes the partial file holds.
    pub fn len(&self) -> (r: u64)
        ensures
            r == self.bytes().len(),
    {
        proof {
            use_type_invariant(self);
        }
        self.downloaded
    }

    /// Takes in bytes that the partial file holds, or that were written behind it.
    ///
    /// A resumed transfer must hash what it does not fetch, or the final digest means nothing.
    pub fn absorb(self, chunk: &[u8]) -> (r: Download)
        requires
            self.bytes().len() + chunk@.len() <= u64::MAX,
        ensures
            r.bytes() == self.bytes() + chunk@,
            r.is_complete() == self.is_complete(),
    {
        proof {
            use_type_invariant(&self);
        }
        let downloaded: u64 = self.downloaded + chunk.len() as u64;
        let complete = self.complete;
        let mut hasher = self.hasher;
        hasher.update(chunk);
        Download { hasher, downloaded, complete }
    }

    /// Decides what to request, once the partial file has been read.
    ///
    /// A file that holds as much as the job reports was left by a call that was interrupted between
    /// its last write and the rename: asking for more would only be refused. A job that reports no
    /// bytes does not make a file complete that is not there.
    pub fn plan(self, total: Option<u64>) -> (r: (Download, DownloadPlan))
        ensures
            plans(self, total, r.0, r.1),
    {
        proof {
            use_type_invariant(&self);
        }
        let Download { hasher, downloaded, complete } = self;
        let enough = match total {
            Some(size) => downloaded > 0 && downloaded >= size,
            None => false,
        };
        if enough {
            return (Download { hasher, downloaded, complete: true }, DownloadPlan::Verify);
        }
        let range = if downloaded > 0 {
            let mut header = String::from_str("bytes=");
            header.append(number_text(downloaded).as_str());
            header.append("-");
            Some(header)
        } else {
            None
        };
        (Download { hasher, downloaded, complete }, DownloadPlan::Fetch { range })
    }

    /// Decides what to do with the answer to a request.
    ///
    /// A `416` to a range says that the file already holds all that there is. A `206` must resume
    /// where the range began. A server that answers a range in full is not appended: the file is
    /// started anew.
    pub fn on_response(self, status: u16, content_range: Option<&str>) -> (r: (Download, DownloadStep))
        ensures
            answers(self, status, optional_text(content_range), r.0, r.1),
    {
        proof {
            use_type_invariant(&self);
        }
        let Download { hasher, downloaded, complete } = self;
        if status == 429 {
            (Download { hasher, downloaded, complete }, DownloadStep::ReportQuota)
        } else if downloaded > 0 && status == 416 {
            (Download { hasher, downloaded, complete: true }, DownloadStep::Verify)
        } else if status < 200 || status > 299 {
            (Download { hasher, downloaded, complete }, DownloadStep::ReportStatus)
        } else if downloaded > 0 && status == 206 {
            let step = match verify_resume_offset(content_range, downloaded) {
                Ok(_) => DownloadStep::Append,
                Err(e) => DownloadStep::Fail(e),
            };
            (Download { hasher, downloaded, complete }, step)
        } else {
            (Download { hasher: ArtifactHasher::new(), downloaded: 0, complete }, DownloadStep::Restart)
        }
    }

    /// Decides whether the partial file becomes the artifact.
    ///
    /// It does exactly when it passes the checks that the job's record allows. Otherwise the error
    /// says whether the partial file has to go.
    pub fn finish(self, job: &LseExportJobStatus, destination: &str, request: &LseExportRequest) -> (r: Result<
        LseExport,
        LseError,
    >)
        ensures
            finishes(self, *job, destination@, *request, r),
    {
        proof {
            use_type_invariant(&self);
        }
        let downloaded = self.downloaded;
        let digest = encode_hex(&self.hasher.finalize());
        let discarded = self.complete || match job.bytes {
            Some(total) => downloaded >= total,
            None => false,
        };
        if let Some(total) = job.bytes {
            if total != downloaded {
                let mut expected = number_text(total);
                expected.append(" bytes");
                let mut actual = number_text(downloaded);
                actual.append(" bytes");
                return Err(
                    LseError::IntegrityMismatch { path: part_path(destination), expected, actual, discarded },
                );
            }
        }
        if let Some(expected) = &job.sha256 {
            if !same_ignoring_ascii_case(expected.as_str(), digest.as_str()) {
                return Err(
                    LseError::IntegrityMismatch {
                        path: part_path(destination),
                        expected: expected.clone(),
                        actual: digest,
                        discarded,
                    },
                );
            }
        }
        Ok(
            LseExport::new(
                destination,
                request.dataset(),
                request.symbol(),
                request.timeframe(),
                request.range(),
            ),
        )
    }
}

/// A partial file that was kept after a failed check is one that the next call fetches more for: it
/// holds less than the job reports, so the call asks for the rest instead of failing alike again.
pub proof fn law_kept_part_is_resumed(held: nat, complete: bool, total: Option<u64>)
    requires
        !unusable(held, complete, total),
    ensures
        !looks_complete(held, total),
{
}

/// A file that a call took for the whole artifact without fetching anything, and that fails a check,
/// is not kept.
pub proof fn law_unfetched_part_is_discarded(held: nat, total: Option<u64>)
    requires
        looks_complete(held, total),
    ensures
        unusable(held, true, total),
{
}

/// Bytes that arrive in pieces behind a prefix are hashed as one sequence: what is checked at the
/// end does not depend on where the transfer was interrupted.
pub proof fn law_resumed_digest(prefix: Seq<u8>, rest: Seq<u8>, cut: int, job: LseExportJobStatus)
    requires
        0 <= cut <= rest.len(),
    ensures
        passes((prefix + rest.take(cut)) + rest.skip(cut), job) == passes(prefix + rest, job),
{
    assert((prefix + rest.take(cut)) + rest.skip(cut) =~= prefix + rest);
}

/// A file that holds as much as the job reports is checked as it is. For any other, the rest is asked for: the
/// request names the number of bytes that are held as the first one to send, and names none where nothing is.
pub proof fn law_plan_asks_for_the_rest(before: Download, total: Option<u64>, after: Download, plan: DownloadPlan)
    requires
        plans(before, total, after, plan),
        before.bytes().len() <= u64::MAX,
    ensures
        after.bytes() == before.bytes(),
        plan is Verify <==> before.bytes().len() > 0 && total is Some && before.bytes().len() >= total->0,
        plan is Verify ==> after.is_complete(),
        plan is Fetch ==> after.is_complete() == before.is_complete(),
        plan matches DownloadPlan::Fetch { range } ==> {
            &&& range is None <==> before.bytes().len() == 0
            &&& range matches Some(header) ==> {
                let behind = text::after_prefix(header@, "bytes="@);
                &&& behind is Some
                &&& text::before_first(behind->0, '-') is Some
                &&& text::parsed_u64(text::before_first(behind->0, '-')->0) == Some(before.bytes().len() as u64)
                &&& text::after_first(behind->0, '-') == Some(Seq::<char>::empty())
            }
        },
{
    if plan is Fetch && plan->range is Some {
        let header = plan->range->0@;
        let digits = text::decimal_text(before.bytes().len());
        reveal_strlit("-");
        assert("-"@ =~= seq!['-']);
        let rest = digits + seq!['-'] + Seq::<char>::empty();
        assert(header =~= "bytes="@ + rest);
        text::law_prefix_is_taken_off("bytes="@, rest);
        text::law_digits_of_a_number(before.bytes().len());
        assert(!digits.contains('-')) by {
            assert forall|i: int| 0 <= i < digits.len() implies digits[i] != '-' by {
                assert('0' <= digits[i] <= '9');
            }
        }
        text::law_splitting_undoes_joining(digits, '-', Seq::empty());
        text::law_numbers_read_back(before.bytes().len() as u64);
    }
}

/// A `Content-Range` that names its first byte is accepted for exactly that byte, whatever follows the dash.
pub proof fn law_partial_answers_must_resume_where_asked(first: u64, rest: Seq<char>, expected: u64)
    ensures
        wrong_resume(Some("bytes "@ + text::decimal_text(first as nat) + "-"@ + rest), expected) is None <==> first
            == expected,
        wrong_resume(None, expected) is Some,
{
    let digits = text::decimal_text(first as nat);
    let header = "bytes "@ + digits + "-"@ + rest;
    reveal_strlit("bytes ");
    reveal_strlit("-");
    text::law_digits_of_a_number(first as nat);
    text::law_numbers_read_back(first);
    let from = text::law_trimming_takes_the_ends(header);
    let kept = text::trimmed(header);
    let dash = 6 + digits.len() as int;
    assert(header[0] == 'b' && !text::is_space(header[0]));
    assert(header[dash] == '-' && !text::is_space(header[dash]));
    assert(from == 0);
    assert(kept.len() > dash);
    let tail = kept.skip(dash + 1);
    assert(kept =~= "bytes "@ + (digits + seq!['-'] + tail));
    text::law_prefix_is_taken_off("bytes "@, digits + seq!['-'] + tail);
    assert(!digits.contains('-')) by {
        assert forall|i: int| 0 <= i < digits.len() implies digits[i] != '-' by {
            assert('0' <= digits[i] <= '9');
        }
    }
    text::law_splitting_undoes_joining(digits, '-', tail);
    let at = text::law_trimming_takes_the_ends(digits);
    assert('0' <= digits[0] <= '9' && '0' <= digits[digits.len() - 1] <= '9');
    assert(!text::is_space(digits[0]) && !text::is_space(digits[digits.len() - 1]));
    assert(text::trimmed(digits) =~= digits);
}

/// Bytes are only ever appended to a partial file by an answer that is said to resume at its end. An answer in full
/// starts it anew, and no other answer changes it; only one that says that there is nothing behind its bytes makes
/// it complete.
pub proof fn law_only_matching_bytes_are_appended(
    before: Download,
    status: u16,
    content_range: Option<Seq<char>>,
    after: Download,
    step: DownloadStep,
)
    requires
        answers(before, status, content_range, after, step),
    ensures
        step is Append <==> before.bytes().len() > 0 && status == 206 && wrong_resume(
            content_range,
            before.bytes().len() as u64,
        ) is None,
        step is Restart <==> 200 <= status <= 299 && (before.bytes().len() == 0 || status != 206),
        step is Verify <==> status == 416 && before.bytes().len() > 0,
        step is ReportQuota <==> status == 429,
        step is ReportStatus <==> !(200 <= status <= 299) && status != 429 && !(status == 416 && before.bytes().len() > 0),
        step is Fail <==> before.bytes().len() > 0 && status == 206 && wrong_resume(
            content_range,
            before.bytes().len() as u64,
        ) is Some,
        step matches DownloadStep::Fail(e) ==> e is Api && e->Api_status == status,
        after.bytes() == if step is Restart { Seq::<u8>::empty() } else { before.bytes() },
        after.is_complete() <==> before.is_complete() || step is Verify,
{
}

/// A partial file becomes the artifact of its request exactly where it is as long as the job reports and has the digest
/// that it reports, each where it reports one. Where it does not, it is discarded if no later call could fetch more of
/// it: nothing was left to fetch, or it is no shorter than the artifact.
pub proof fn law_only_checked_files_become_artifacts(
    part: Download,
    job: LseExportJobStatus,
    destination: Seq<char>,
    request: LseExportRequest,
    r: Result<LseExport, LseError>,
)
    requires
        finishes(part, job, destination, request, r),
    ensures
        r is Ok <==> {
            &&& job.bytes is Some ==> part.bytes().len() == job.bytes->0
            &&& job.sha256 is Some ==> text::same_but_for_case(job.sha256->0@, hex_text(sha256(part.bytes())))
        },
        r matches Ok(export) ==> {
            &&& export.spec_path() == destination
            &&& export.spec_dataset() == request.spec_dataset()
            &&& export.spec_symbol() == request.spec_symbol()
            &&& export.spec_timeframe() == request.spec_timeframe()
            &&& export.spec_range() == request.spec_range()
        },
        r matches Err(e) ==> {
            &&& e is IntegrityMismatch
            &&& e->IntegrityMismatch_discarded <==> part.is_complete() || (job.bytes is Some && part.bytes().len()
                >= job.bytes->0)
        },
{
}

/// Hexadecimal text reads back: the two digits of a byte, the high one first, are that byte.
pub proof fn law_hex_text_reads_back(bytes: Seq<u8>, i: int, high: int, low: int)
    requires
        0 <= i < bytes.len(),
        0 <= high < 16,
        0 <= low < 16,
        hex_text(bytes)[2 * i] == text::hex_digit(high),
        hex_text(bytes)[2 * i + 1] == text::hex_digit(low),
    ensures
        hex_text(bytes).len() == 2 * bytes.len(),
        bytes[i] == high * 16 + low,
{
    let byte = bytes[i] as int;
    assert((2 * i) % 2 == 0 && (2 * i) / 2 == i && (2 * i + 1) % 2 == 1 && (2 * i + 1) / 2 == i);
    assert(hex_text(bytes)[2 * i] == text::hex_digit(byte / 16));
    assert(hex_text(bytes)[2 * i + 1] == text::hex_digit(byte % 16));
    text::law_hex_digit_reads_back(high);
    text::law_hex_digit_reads_back(low);
    text::law_hex_digit_reads_back(byte / 16);
    text::law_hex_digit_reads_back(byte % 16);
}

/// A job is accepted exactly where it is ready and echoes nothing else than was requested: what it says of the dataset,
/// the symbol, the timeframe, the first date and the date behind the last is each what the request says.
pub proof fn law_accepted_jobs_echo_the_request(
    r: Result<(), LseError>,
    job: LseExportJobStatus,
    request: LseExportRequest,
)
    requires
        is_judgement(r, job, request),
    ensures
        r is Ok <==> {
            &&& job.status is Ready
            &&& job.dataset is Some ==> job.dataset->0@ == request.spec_dataset().catalog_name()
            &&& job.symbol is Some ==> job.symbol->0@ == request.spec_symbol()
            &&& job.timeframe is Some ==> job.timeframe->0@ == request.spec_timeframe().lse_name()->0
            &&& job.start is Some ==> job.start->0@ == request.spec_range().first().iso()
            &&& job.end is Some ==> job.end->0@ == request.spec_range().past().iso()
        },
{
}

/// A job that is ready and not accepted is refused for a field that it echoes as other than requested: the error names the job
/// and the field, and holds what was requested of that field and what is reported.
pub proof fn law_refusals_name_the_field(e: LseError, job: LseExportJobStatus, request: LseExportRequest)
    requires
        is_judgement(Err(e), job, request),
    ensures
        e is InvalidInput <==> !(job.status is Ready),
        job.status is Ready ==> {
            &&& e matches LseError::ExportJobMismatch { job_id, field, requested, reported }
            &&& job_id@ == job.id@
            &&& requested@ != reported@
            &&& {
                ||| field@ == "dataset"@ && requested@ == request.spec_dataset().catalog_name() && job.dataset is Some
                    && reported@ == job.dataset->0@
                ||| field@ == "symbol"@ && requested@ == request.spec_symbol() && job.symbol is Some && reported@
                    == job.symbol->0@
                ||| field@ == "timeframe"@ && requested@ == request.spec_timeframe().lse_name()->0 && job.timeframe is Some
                    && reported@ == job.timeframe->0@
                ||| field@ == "start"@ && requested@ == request.spec_range().first().iso() && job.start is Some && reported@
                    == job.start->0@
                ||| field@ == "end"@ && requested@ == request.spec_range().past().iso() && job.end is Some && reported@
                    == job.end->0@
            }
        },
{
}

/// A failed check is reported with what was expected and what was found: the two lengths where these differ, and else the two
/// digests.
pub proof fn law_failed_checks_say_what_was_expected(
    part: Download,
    job: LseExportJobStatus,
    destination: Seq<char>,
    request: LseExportRequest,
    e: LseError,
)
    requires
        finishes(part, job, destination, request, Err(e)),
        part.bytes().len() <= u64::MAX,
    ensures
        e matches LseError::IntegrityMismatch { path, expected, actual, discarded } && {
            &&& text::after_prefix(path@, destination) == Some(".part"@)
            &&& job.bytes is Some && job.bytes->0 != part.bytes().len() ==> {
                &&& text::before_first(expected@, ' ') is Some
                &&& text::before_first(actual@, ' ') is Some
                &&& text::parsed_u64(text::before_first(expected@, ' ')->0) == job.bytes
                &&& text::parsed_u64(text::before_first(actual@, ' ')->0) == Some(part.bytes().len() as u64)
            }
            &&& !(job.bytes is Some && job.bytes->0 != part.bytes().len()) ==> {
                &&& job.sha256 is Some && expected@ == job.sha256->0@
                &&& actual@ == hex_text(sha256(part.bytes()))
                &&& !text::same_but_for_case(expected@, actual@)
            }
        },
{
    text::law_prefix_is_taken_off(destination, ".part"@);
    if job.bytes is Some && job.bytes->0 != part.bytes().len() {
        lemma_count_reads_back(job.bytes->0);
        lemma_count_reads_back(part.bytes().len() as u64);
    }
}

proof fn lemma_count_reads_back(count: u64)
    ensures
        ({
            let s = text::decimal_text(count as nat) + " bytes"@;
            text::before_first(s, ' ') is Some && text::parsed_u64(text::before_first(s, ' ')->0) == Some(count)
        }),
{
    let digits = text::decimal_text(count as nat);
    reveal_strlit(" bytes");
    let rest = " bytes"@.skip(1);
    assert(digits + " bytes"@ =~= digits + seq![' '] + rest);
    text::law_digits_of_a_number(count as nat);
    assert(!digits.contains(' ')) by {
        assert forall|i: int| 0 <= i < digits.len() implies digits[i] != ' ' by {
            assert('0' <= digits[i] <= '9');
        }
    }
    text::law_splitting_undoes_joining(digits, ' ', rest);
    text::law_numbers_read_back(count);
}

/// A partial answer that is refused says where it resumes and where it should, or that this cannot be told.
pub proof fn law_wrong_resumes_say_where(header: Option<Seq<char>>, expected: u64)
    requires
        wrong_resume(header, expected) is Some,
    ensures
        header is Some && range_start(header->0) is None ==> text::names_in_order(
            wrong_resume(header, expected)->0,
            seq![header->0],
        ),
        header is Some && range_start(header->0) is Some ==> range_start(header->0) != Some(expected)
            && text::names_in_order(
            wrong_resume(header, expected)->0,
            seq![
                text::decimal_text(range_start(header->0)->0 as nat),
                text::decimal_text(expected as nat),
            ],
        ),
{
    if let Some(found) = header {
        text::lemma_last_named("unparseable Content-Range on a partial-content response: "@, found);
        if let Some(first) = range_start(found) {
            text::lemma_two_named(
                "partial-content response resumes at byte "@,
                text::decimal_text(first as nat),
                ", not the requested "@,
                text::decimal_text(expected as nat),
            );
        }
    }
}

/// A job that is not ready is refused with its name and its status.
pub proof fn law_unready_jobs_are_named(e: LseError, job: LseExportJobStatus, request: LseExportRequest)
    requires
        is_judgement(Err(e), job, request),
        !(job.status is Ready),
    ensures
        e matches LseError::InvalidInput { message } && text::names_in_order(message@, seq![job.id@, job.status.name()]),
{
    text::lemma_two_named("export job "@, job.id@, " is "@, job.status.name());
    text::lemma_more_behind(
        "export job "@ + job.id@ + " is "@ + job.status.name(),
        ", not ready; nothing to download"@,
        seq![job.id@, job.status.name()],
    );
}

} // verus!
