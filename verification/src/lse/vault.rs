//! The client of the vault, the provider's data plane: its settings and how it reads answers.
//!
//! The vault ignores a parameter that it does not know and applies its default in silence, so a
//! misspelled parameter is never an error. It honours `symbol`, `timeframe`, `start`, `end` and
//! `limit`.

use vstd::prelude::*;
use vstd::string::*;
use crate::http;
use crate::http::header_fault;
use crate::lse::error::LseError;
use crate::lse::live::Variable;
use crate::text;
use crate::text::{parse_u64, quote, to_chars, trim};

verus! {

/// A span of time: whole seconds and the nanoseconds behind them.
#[derive(Clone, Copy, PartialEq, Eq, Structural, Debug, Hash)]
pub struct Span {
    pub secs: u64,
    pub nanos: u32,
}

impl Span {
    /// Whether the nanoseconds are less than a second.
    pub open spec fn wf(self) -> bool {
        self.nanos < 1_000_000_000
    }
}

/// What `{:?}` prints for a span of seconds and nanoseconds.
pub uninterp spec fn span_text(secs: u64, nanos: u32) -> Seq<char>;

/// Prints a span through the `Debug` of [`std::time::Duration`]: the text is a function of the span.
#[verifier::external_body]
fn show_span(secs: u64, nanos: u32) -> (r: String)
    requires
        nanos < 1_000_000_000,
    ensures
        r@ == span_text(secs, nanos),
{
    format!("{:?}", std::time::Duration::new(secs, nanos))
}

/// Whether a character can stand in an API key: a tab, or a visible ASCII character.
pub open spec fn is_key_char(c: char) -> bool {
    c == '\t' || 32 <= c as int <= 126
}

/// Whether a text can be sent as an API key.
pub open spec fn is_key(s: Seq<char>) -> bool {
    forall|i: int| 0 <= i < s.len() ==> is_key_char(#[trigger] s[i])
}

fn is_ascii_text(s: &str) -> (r: bool)
    ensures
        r == forall|i: int| 0 <= i < s@.len() ==> #[trigger] s@[i] as int <= 127,
{
    let chars = to_chars(s);
    let mut i: usize = 0;
    while i < chars.len()
        invariant
            i <= chars.len(),
            chars@ == s@,
            forall|k: int| 0 <= k < i ==> #[trigger] s@[k] as int <= 127,
        decreases chars.len() - i,
    {
        if chars[i] > '\u{7f}' {
            assert(s@[i as int] as int > 127);
            return false;
        }
        i = i + 1;
    }
    true
}

/// The address of the vault.
pub const VAULT_BASE_URL: &'static str = "https://api.londonstrategicedge.com/vault";

/// The pause between two pages, in nanoseconds: the provider documents 200 calls in a minute.
pub const DEFAULT_PACE_NANOS: u32 = 300_000_000;

/// The settings of a client of the vault.
///
/// It has no `Debug`: a key that reaches a log has been disclosed.
pub struct LseVaultClient {
    api_key: String,
    base_url: String,
    pace: Span,
}

/// Whether a client has the default settings and a key.
pub open spec fn is_default_client(client: LseVaultClient, api_key: Seq<char>) -> bool {
    &&& client.key() == api_key
    &&& client.base() == VAULT_BASE_URL@
    &&& client.pause() == (Span { secs: 0, nanos: DEFAULT_PACE_NANOS })
}

/// What a key gives: a client, or an error where the key cannot be sent.
pub open spec fn client_of(r: Result<LseVaultClient, LseError>, api_key: Seq<char>) -> bool {
    if is_key(api_key) {
        &&& r matches Ok(client)
        &&& is_default_client(client, api_key)
    } else {
        &&& r matches Err(LseError::InvalidCredential { message })
        &&& message@ == "invalid API key: "@ + http::header_fault_text()
    }
}

impl LseVaultClient {
    #[verifier::type_invariant]
    spec fn has_a_pause(self) -> bool {
        self.pace.wf()
    }

    /// The key.
    pub closed spec fn key(self) -> Seq<char> {
        self.api_key@
    }

    /// The address that requests are built on.
    pub closed spec fn base(self) -> Seq<char> {
        self.base_url@
    }

    /// The pause between two pages.
    pub closed spec fn pause(self) -> Span {
        self.pace
    }

    /// A client with a key.
    ///
    /// A key with a control character is refused and not trimmed: a changed credential would hide
    /// the mistake.
    pub fn new(api_key: &str) -> (r: Result<LseVaultClient, LseError>)
        ensures
            client_of(r, api_key@),
    {
        let fault = if is_ascii_text(api_key) {
            header_fault(api_key)
        } else {
            Some(String::from_str("failed to parse header value"))
        };
        proof {
            if is_key(api_key@) {
                assert forall|i: int| 0 <= i < api_key@.len() implies #[trigger] api_key@[i] as int <= 127 by {
                    assert(is_key_char(api_key@[i]));
                }
                assert forall|i: int| 0 <= i < api_key@.len() implies http::is_header_char(
                    #[trigger] api_key@[i],
                ) by {
                    assert(is_key_char(api_key@[i]));
                }
            } else {
                let i = choose|i: int| 0 <= i < api_key@.len() && !is_key_char(#[trigger] api_key@[i]);
                assert(!http::is_header_char(api_key@[i]) || api_key@[i] as int > 127);
            }
        }
        match fault {
            Some(fault) => {
                let mut message = String::from_str("invalid API key: ");
                message.append(fault.as_str());
                Err(LseError::InvalidCredential { message })
            },
            None => Ok(
                LseVaultClient {
                    api_key: String::from_str(api_key),
                    base_url: String::from_str(VAULT_BASE_URL),
                    pace: Span { secs: 0, nanos: DEFAULT_PACE_NANOS },
                },
            ),
        }
    }

    /// A client with the key that was found under `LSE_API_KEY`. A message names the variable and
    /// never its value.
    pub fn from_env(found: Variable) -> (r: Result<LseVaultClient, LseError>)
        ensures
            match found {
                Variable::Value(api_key) => client_of(r, api_key@),
                Variable::Missing => {
                    &&& r matches Err(LseError::EnvVar { message })
                    &&& message@ == "LSE_API_KEY is not set"@
                },
                Variable::NotUnicode => {
                    &&& r matches Err(LseError::EnvVar { message })
                    &&& message@ == "LSE_API_KEY is set but is not valid UTF-8"@
                },
            },
    {
        match found {
            Variable::Value(api_key) => LseVaultClient::new(api_key.as_str()),
            Variable::Missing => Err(LseError::EnvVar { message: String::from_str("LSE_API_KEY is not set") }),
            Variable::NotUnicode => Err(
                LseError::EnvVar { message: String::from_str("LSE_API_KEY is set but is not valid UTF-8") },
            ),
        }
    }

    /// The client with another address.
    ///
    /// Every URL is built on it: the vault names no URL to follow.
    pub fn with_base_url(self, base_url: &str) -> (r: LseVaultClient)
        ensures
            r.key() == self.key(),
            r.base() == base_url@,
            r.pause() == self.pause(),
    {
        proof {
            use_type_invariant(&self);
        }
        LseVaultClient { api_key: self.api_key, base_url: String::from_str(base_url), pace: self.pace }
    }

    /// The client with another pause between two pages. None leaves the allowance to the caller.
    pub fn with_pace(self, pace: Span) -> (r: LseVaultClient)
        requires
            pace.wf(),
        ensures
            r.key() == self.key(),
            r.base() == self.base(),
            r.pause() == pace,
    {
        LseVaultClient { api_key: self.api_key, base_url: self.base_url, pace }
    }

    /// The pause between two pages.
    pub fn pace(&self) -> (r: Span)
        ensures
            r == self.pause(),
            r.wf(),
    {
        proof {
            use_type_invariant(self);
        }
        self.pace
    }

    /// The address that requests are built on.
    pub fn base_url(&self) -> (r: &str)
        ensures
            r@ == self.base(),
    {
        self.base_url.as_str()
    }

    /// The value of the `x-api-key` header.
    pub fn api_key(&self) -> (r: &str)
        ensures
            r@ == self.key(),
    {
        self.api_key.as_str()
    }

    /// The URL of a path.
    pub fn url(&self, path: &str) -> (r: String)
        ensures
            r@ == self.base() + "/"@ + path@,
    {
        let mut url = String::from_str(self.base_url.as_str());
        url.append("/");
        url.append(path);
        url
    }

    /// A description without the key.
    pub fn describe(&self) -> (r: String)
        ensures
            r@ == "LseVaultClient { base_url: "@ + text::quoted(self.base()) + ", pace: "@ + span_text(
                self.pause().secs,
                self.pause().nanos,
            ) + ", .. }"@,
    {
        proof {
            use_type_invariant(self);
        }
        let mut out = String::from_str("LseVaultClient { base_url: ");
        out.append(quote(self.base_url.as_str()).as_str());
        out.append(", pace: ");
        out.append(show_span(self.pace.secs, self.pace.nanos).as_str());
        out.append(", .. }");
        out
    }
}

/// The seconds that a `Retry-After` header asks to wait, where it gives a number of seconds.
pub open spec fn retry_seconds(header: Option<&str>) -> Option<u64> {
    match header {
        Some(header) => text::parsed_u64(text::trimmed(header@)),
        None => None,
    }
}

/// The seconds that a `Retry-After` header asks to wait.
///
/// A date is not read: a misread date would be a wildly wrong delay.
pub fn parse_retry_after(header: Option<&str>) -> (r: Option<u64>)
    ensures
        r == retry_seconds(header),
{
    match header {
        Some(header) => parse_u64(trim(header).as_str()),
        None => None,
    }
}

/// What to do with an answer, by its status.
#[derive(Debug)]
pub enum Reply {
    /// Decode the body.
    Decode,
    /// The body holds a diagnostic.
    Diagnose,
    /// Report the error; the body is of no interest.
    Fail(LseError),
}

/// Whether `r` is what is done with an answer: a refusal for the rate is reported with the wait that it asks for, a success
/// is decoded, and anything else holds a diagnostic.
pub open spec fn is_reply(r: Reply, status: u16, retry_after: Option<&str>) -> bool {
    if status == 429 {
        r == Reply::Fail(LseError::RateLimited { retry_after: retry_seconds(retry_after) })
    } else if http::success(status) {
        r is Decode
    } else {
        r is Diagnose
    }
}

/// What to do with an answer, by its status and its `Retry-After` header. A refusal for the rate is
/// reported at once, and never waited out here.
pub fn read_status(status: u16, retry_after: Option<&str>) -> (r: Reply)
    ensures
        is_reply(r, status, retry_after),
{
    if status == 429 {
        Reply::Fail(LseError::RateLimited { retry_after: parse_retry_after(retry_after) })
    } else if 200 <= status && status <= 299 {
        Reply::Decode
    } else {
        Reply::Diagnose
    }
}

/// What to do with the answer to a submission, by its status.
#[derive(Clone, Copy, PartialEq, Eq, Structural, Debug, Hash)]
pub enum SubmitReply {
    /// Decode the body.
    Decode,
    /// The body holds a diagnostic.
    Diagnose,
    /// The allowance is exhausted: ask for its position and report that.
    ReportQuota,
}

/// What to do with the answer to a submission, by its status.
pub open spec fn submit_reply(status: u16) -> SubmitReply {
    if status == 429 {
        SubmitReply::ReportQuota
    } else if http::success(status) {
        SubmitReply::Decode
    } else {
        SubmitReply::Diagnose
    }
}

/// What to do with the answer to a submission, by its status.
///
/// A submission spends from the allowance, so a refusal for the rate means that nothing of it is
/// left. The provider accepts a job with a status of 202.
pub fn read_submit_status(status: u16) -> (r: SubmitReply)
    ensures
        r == submit_reply(status),
{
    if status == 429 {
        SubmitReply::ReportQuota
    } else if 200 <= status && status <= 299 {
        SubmitReply::Decode
    } else {
        SubmitReply::Diagnose
    }
}

/// The error for a body that does not decode, by what the decoder says of it.
pub fn decode_error(path: &str, fault: &str) -> (r: LseError)
    ensures
        r matches LseError::Deserialize { message } && message@ == path@ + ": "@ + fault@,
{
    let mut message = String::from_str(path);
    message.append(": ");
    message.append(fault);
    LseError::Deserialize { message }
}

/// An answer is decoded exactly where its status is a success, and reported at once exactly where it is a refusal for the
/// rate: with the wait that its header asks for.
pub proof fn law_only_successes_are_decoded(r: Reply, status: u16, retry_after: Option<&str>)
    requires
        is_reply(r, status, retry_after),
    ensures
        r is Decode <==> 200 <= status <= 299,
        r is Fail <==> status == 429,
        r is Diagnose <==> !(200 <= status <= 299) && status != 429,
        r matches Reply::Fail(e) ==> e is RateLimited && e->retry_after == retry_seconds(retry_after),
{
}

/// A wait in whole seconds is read as written, with white space round it or without; where anything but digits is left, as
/// in a date, nothing is read.
pub proof fn law_waits_read_back(header: &str, seconds: u64, at: int)
    ensures
        text::trimmed(header@) == text::decimal_text(seconds as nat) ==> retry_seconds(Some(header)) == Some(seconds),
        0 < at < text::trimmed(header@).len() && !('0' <= text::trimmed(header@)[at] <= '9') ==> retry_seconds(
            Some(header),
        ) is None,
        retry_seconds(None) is None,
{
    text::law_numbers_read_back(seconds);
    let kept = text::trimmed(header@);
    if 0 < at < kept.len() && !('0' <= kept[at] <= '9') {
        let digits = text::unsigned_digits(kept);
        if kept.first() == '+' {
            assert(digits[at - 1] == kept[at]);
            assert(!text::is_digit(digits[at - 1]));
        } else {
            assert(!text::is_digit(digits[at]));
        }
    }
}

/// A client is made exactly of a key that can be sent, and sends that key unchanged. It starts with the address of the
/// vault, and with a pause that keeps to 200 calls in a minute.
pub proof fn law_clients_send_their_key(r: Result<LseVaultClient, LseError>, api_key: Seq<char>)
    requires
        client_of(r, api_key),
    ensures
        r is Ok <==> forall|i: int|
            0 <= i < api_key.len() ==> #[trigger] api_key[i] == '\t' || 32 <= api_key[i] as int <= 126,
        r matches Ok(client) ==> {
            &&& client.key() == api_key
            &&& client.base() == "https://api.londonstrategicedge.com/vault"@
            &&& (client.pause().secs * 1_000_000_000 + client.pause().nanos) * 200 == 60 * 1_000_000_000
        },
        r matches Err(e) ==> e is InvalidCredential,
{
    if r is Ok {
        assert forall|i: int| 0 <= i < api_key.len() implies #[trigger] api_key[i] == '\t' || 32 <= api_key[i] as int <= 126 by {
            assert(is_key_char(api_key[i]));
        }
    } else {
        let i = choose|i: int| 0 <= i < api_key.len() && !is_key_char(#[trigger] api_key[i]);
        assert(!(api_key[i] == '\t' || 32 <= api_key[i] as int <= 126));
    }
}

/// A submission is accepted exactly where its status is a success, and out of allowance exactly where it is a refusal for the
/// rate.
pub proof fn law_only_accepted_submissions_are_decoded(status: u16)
    ensures
        submit_reply(status) is Decode <==> 200 <= status <= 299,
        submit_reply(status) is ReportQuota <==> status == 429,
{
}

} // verus!
