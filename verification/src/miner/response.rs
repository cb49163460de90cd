//! How the endpoint's answer to a request is judged before it is read.

use vstd::prelude::*;
use vstd::string::*;

verus! {

/// A text in quotation marks and with what is not printable escaped, as `Debug` writes it.
pub uninterp spec fn quoted(text: Seq<char>) -> Seq<char>;

/// The `Debug` format of `str`. What it escapes, and how, is left to it: of the result it is
/// only said that it depends on the text alone.
#[verifier::external_body]
fn quote(text: &str) -> (r: String)
    ensures
        r@ == quoted(text@),
{
    format!("{:?}", text)
}

/// Whether an HTTP status reports success.
pub fn is_success(status: u16) -> (r: bool)
    ensures
        r == (200 <= status < 300),
{
    200 <= status && status < 300
}

/// The message for a request that failed, from the quoted body of the answer.
pub fn failure_message(quoted_body: &str) -> (r: String)
    ensures
        r@ == "error streaming completion: "@ + quoted_body@,
{
    String::from_str("error streaming completion: ").concat(quoted_body)
}

/// The message for a request that failed, from the body of the answer.
pub fn describe_failure(body: &str) -> (r: String)
    ensures
        r@ == "error streaming completion: "@ + quoted(body@),
{
    failure_message(quote(body).as_str())
}

} // verus!
