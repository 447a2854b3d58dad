//! What the HTTP client accepts as a header.
//!
//! Header values and names are checked by the `http` types that `reqwest`
//! hands on, so that the gateway never builds a header the client would
//! refuse. Neither function here is proved.

use reqwest::header::{HeaderName, HeaderValue};
use vstd::prelude::*;

verus! {

/// A character that may stand in a header value: a tab, or anything from the
/// space on but the delete character.
pub open spec fn value_char_ok(c: char) -> bool {
    c == '\t' || (c >= ' ' && c != '\u{7f}')
}

/// Every character of `value` may stand in a header value.
pub open spec fn header_value_ok(value: Seq<char>) -> bool {
    forall|i: int| 0 <= i < value.len() ==> value_char_ok(#[trigger] value[i])
}

/// The normal form of `name` as a header name: `None` where `name` is no
/// header name, else the name as the client writes it.
pub uninterp spec fn header_name_of(name: Seq<char>) -> Option<Seq<char>>;

/// `HeaderValue::from_str`: whether `value` is accepted as a header value.
/// It is refused exactly where one of its bytes is below 32 and not a tab,
/// or is 127; the bytes of a character beyond ASCII are all above 127.
#[verifier::external_body]
pub(crate) fn header_value_accepted(value: &str) -> (accepted: bool)
    ensures
        accepted == header_value_ok(value@),
{
    HeaderValue::from_str(value).is_ok()
}

/// `HeaderName::from_bytes` and `HeaderName::as_str`: the normal form of
/// `name`, if it is a header name.
#[verifier::external_body]
pub(crate) fn header_name_normal(name: &str) -> (normal: Option<String>)
    ensures
        normal is Some == header_name_of(name@) is Some,
        normal matches Some(n) ==> header_name_of(name@) == Some(n@),
{
    HeaderName::from_bytes(name.as_bytes()).ok().map(|n| n.as_str().to_string())
}

} // verus!
