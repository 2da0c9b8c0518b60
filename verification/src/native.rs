//! The native HTTP client's types, and what this library assumes of them.
//!
//! Nothing in this module is proved: each item states what the client's
//! source shows, and the rest of the library is verified against it.

use vstd::prelude::*;
use reqwest::header::{HeaderMap, HeaderValue};
use reqwest::Method as NativeMethod;
use reqwest::StatusCode;
use crate::response::{fields_view, FieldView};

verus! {

/// The native client's method type.
#[verifier::external_type_specification]
#[verifier::external_body]
pub struct ExNativeMethod(NativeMethod);

/// The verb that a native method stands for, as `reqwest::Method::as_str`
/// reports it.
pub uninterp spec fn method_text(method: NativeMethod) -> Seq<char>;

/// `reqwest::Method::as_str`: the verb of the method.
pub assume_specification[ NativeMethod::as_str ](method: &NativeMethod) -> (text: &str)
    ensures
        text@ == method_text(*method),
;

/// `reqwest::Method::GET`, whose verb is `GET`.
#[verifier::external_body]
pub(crate) fn native_get() -> (method: NativeMethod)
    ensures
        method_text(method) == "GET"@,
{
    reqwest::Method::GET
}

/// `reqwest::Method::POST`, whose verb is `POST`.
#[verifier::external_body]
pub(crate) fn native_post() -> (method: NativeMethod)
    ensures
        method_text(method) == "POST"@,
{
    reqwest::Method::POST
}

/// `reqwest::Method::PUT`, whose verb is `PUT`.
#[verifier::external_body]
pub(crate) fn native_put() -> (method: NativeMethod)
    ensures
        method_text(method) == "PUT"@,
{
    reqwest::Method::PUT
}

/// `reqwest::Method::DELETE`, whose verb is `DELETE`.
#[verifier::external_body]
pub(crate) fn native_delete() -> (method: NativeMethod)
    ensures
        method_text(method) == "DELETE"@,
{
    reqwest::Method::DELETE
}

/// `reqwest::Method::HEAD`, whose verb is `HEAD`.
#[verifier::external_body]
pub(crate) fn native_head() -> (method: NativeMethod)
    ensures
        method_text(method) == "HEAD"@,
{
    reqwest::Method::HEAD
}

/// `reqwest::Method::OPTIONS`, whose verb is `OPTIONS`.
#[verifier::external_body]
pub(crate) fn native_options() -> (method: NativeMethod)
    ensures
        method_text(method) == "OPTIONS"@,
{
    reqwest::Method::OPTIONS
}

/// `reqwest::Method::CONNECT`, whose verb is `CONNECT`.
#[verifier::external_body]
pub(crate) fn native_connect() -> (method: NativeMethod)
    ensures
        method_text(method) == "CONNECT"@,
{
    reqwest::Method::CONNECT
}

/// `reqwest::Method::PATCH`, whose verb is `PATCH`.
#[verifier::external_body]
pub(crate) fn native_patch() -> (method: NativeMethod)
    ensures
        method_text(method) == "PATCH"@,
{
    reqwest::Method::PATCH
}

/// `reqwest::Method::TRACE`, whose verb is `TRACE`.
#[verifier::external_body]
pub(crate) fn native_trace() -> (method: NativeMethod)
    ensures
        method_text(method) == "TRACE"@,
{
    reqwest::Method::TRACE
}

/// The native client's status code type.
#[verifier::external_type_specification]
#[verifier::external_body]
pub struct ExStatusCode(StatusCode);

/// The number that a native status code stands for, as
/// `reqwest::StatusCode::as_u16` reports it.
pub uninterp spec fn status_number(status: StatusCode) -> u16;

/// `reqwest::StatusCode::as_u16`: the number of the status code. The type
/// holds numbers from 100 to 999 only.
pub assume_specification[ StatusCode::as_u16 ](status: &StatusCode) -> (number: u16)
    ensures
        number == status_number(*status),
        100 <= number <= 999,
;

/// The native client's header collection, a multimap from names to values.
#[verifier::external_type_specification]
#[verifier::external_body]
#[verifier::reject_recursive_types(T)]
pub struct ExHeaderMap<T>(HeaderMap<T>);

/// The native client's header value type.
#[verifier::external_type_specification]
#[verifier::external_body]
pub struct ExHeaderValue(HeaderValue);

/// What a native header collection holds: name and raw value of each
/// entry, in the order in which `reqwest::header::HeaderMap::iter` yields
/// them, a name once for each of its values.
pub uninterp spec fn header_entries(headers: HeaderMap) -> Seq<FieldView>;

/// `reqwest::header::HeaderMap::iter`, with each entry handed out as plain
/// values: the name as `HeaderName::as_str` gives it, the value as
/// `HeaderValue::as_bytes` gives it.
#[verifier::external_body]
pub(crate) fn native_header_fields(headers: &HeaderMap) -> (fields: Vec<(String, Vec<u8>)>)
    ensures
        fields_view(fields@) == header_entries(*headers),
{
    headers.iter().map(|(name, value)| (name.as_str().to_owned(), value.as_bytes().to_vec())).collect()
}

} // verus!
