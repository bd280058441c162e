//! Headers and status codes of HTTP, held by `reqwest`.

use reqwest::header::{HeaderMap, HeaderName, HeaderValue};
use reqwest::StatusCode;
use vstd::prelude::*;
use vstd::utf8::encode_utf8;

verus! {

/// `reqwest`'s multimap from header names to header values.
#[verifier::external_type_specification]
#[verifier::external_body]
#[verifier::reject_recursive_types(T)]
pub struct ExHeaderMap<T>(reqwest::header::HeaderMap<T>);

/// `reqwest`'s header value.
#[verifier::external_type_specification]
#[verifier::external_body]
pub struct ExHeaderValue(reqwest::header::HeaderValue);

/// What a header map holds: for each name, which is lower case, the bytes of its values in order.
pub uninterp spec fn header_entries(
    headers: reqwest::header::HeaderMap<reqwest::header::HeaderValue>,
) -> Map<Seq<char>, Seq<Seq<u8>>>;

/// No header at all.
pub open spec fn no_headers() -> Map<Seq<char>, Seq<Seq<u8>>> {
    Map::empty()
}

/// The header `name` with the one value `value`, and no other header.
pub open spec fn one_header(name: Seq<char>, value: Seq<char>) -> Map<Seq<char>, Seq<Seq<u8>>> {
    no_headers().insert(name, seq![encode_utf8(value)])
}

/// `HeaderMap::new` makes a map that holds nothing.
pub assume_specification[ reqwest::header::HeaderMap::new ]() -> (r: reqwest::header::HeaderMap)
    ensures
        header_entries(r) == no_headers(),
;

/// Whether `name` is made of lower-case letters, digits and hyphens.
pub open spec fn is_header_name(name: Seq<char>) -> bool {
    &&& 0 < name.len() < 0x1_0000
    &&& forall|i: int|
        0 <= i < name.len() ==> ('a' <= #[trigger] name[i] <= 'z' || '0' <= name[i] <= '9'
            || name[i] == '-')
}

/// Whether `value` is made of printable ASCII characters.
pub open spec fn is_header_value(value: Seq<char>) -> bool {
    forall|i: int| 0 <= i < value.len() ==> 0x20 <= (#[trigger] value[i]) as int <= 0x7e
}

/// Calls `HeaderMap::from_iter` on one pair of a name and a value, which `HeaderName::from_static`
/// and `HeaderValue::from_static` make. The map then holds that name with that one value.
#[verifier::external_body]
pub(crate) fn single_header(name: &'static str, value: &'static str) -> (r: HeaderMap)
    requires
        is_header_name(name@),
        is_header_value(value@),
    ensures
        header_entries(r) == one_header(name@, value@),
{
    HeaderMap::from_iter([(HeaderName::from_static(name), HeaderValue::from_static(value))])
}

/// Calls `HeaderMap::clone`. The copy holds what the map holds.
#[verifier::external_body]
pub(crate) fn clone_headers(headers: &HeaderMap) -> (r: HeaderMap)
    ensures
        header_entries(r) == header_entries(*headers),
{
    headers.clone()
}

/// The text that a `StatusCode` prints for a code, such as `404 Not Found`.
pub uninterp spec fn status_text(code: u16) -> Seq<char>;

/// Calls `StatusCode::from_u16` and prints the status code. What is printed is a function of the
/// code alone; every code of three digits, the first not 0, is a status code.
#[verifier::external_body]
pub(crate) fn print_status(code: u16) -> (r: String)
    requires
        100 <= code <= 999,
    ensures
        r@ == status_text(code),
{
    StatusCode::from_u16(code).unwrap().to_string()
}

/// Whether a status code reports success.
pub fn is_success(code: u16) -> (r: bool)
    ensures
        r == (200 <= code < 300),
{
    200 <= code && code < 300
}

/// One header is its name with its one value, and no other name; no headers are no name.
pub proof fn law_headers(name: Seq<char>, value: Seq<char>, other: Seq<char>)
    ensures
        !no_headers().dom().contains(other),
        one_header(name, value).dom().contains(other) <==> other == name,
        one_header(name, value)[name] == seq![encode_utf8(value)],
{
}

} // verus!
