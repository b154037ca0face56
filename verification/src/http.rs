//! Header values and statuses of HTTP.

use vstd::prelude::*;
use vstd::string::*;

verus! {

/// Whether a character can stand in a header value: a tab, or anything but a control character.
pub open spec fn is_header_char(c: char) -> bool {
    c == '\t' || (c as int >= 32 && c as int != 127)
}

/// Whether a text can be a header value.
pub open spec fn is_header_text(s: Seq<char>) -> bool {
    forall|i: int| 0 <= i < s.len() ==> is_header_char(#[trigger] s[i])
}

/// What is said of a text that cannot be a header value.
pub open spec fn header_fault_text() -> Seq<char> {
    "failed to parse header value"@
}

/// Reads a header value through [`reqwest::header::HeaderValue::from_str`]: it fails on a control
/// character other than a tab, and on nothing else, always with the same message.
#[verifier::external_body]
pub(crate) fn header_fault(value: &str) -> (r: Option<String>)
    ensures
        match r {
            None => is_header_text(value@),
            Some(fault) => !is_header_text(value@) && fault@ == header_fault_text(),
        },
{
    match reqwest::header::HeaderValue::from_str(value) {
        Ok(_) => None,
        Err(fault) => Some(fault.to_string()),
    }
}

/// Whether a status reports success.
pub open spec fn success(status: u16) -> bool {
    200 <= status <= 299
}

/// The statuses of success are those of the hundred that begins with 200.
pub proof fn law_success_is_the_second_hundred(status: u16)
    ensures
        success(status) <==> status / 100 == 2,
{
}

} // verus!
