//! A complete HTTP response.

use vstd::prelude::*;
use vstd::slice::slice_to_vec;
use vstd::std_specs::cmp::PartialEqSpecImpl;
use reqwest::header::HeaderMap;
use reqwest::StatusCode;
use crate::native::{header_entries, native_header_fields, status_number};
use crate::text::{bytes_equal, text_equal};

verus! {

/// A response for an HTTP request.
///
/// Headers stay in the order in which they were received, and a name that
/// occurs twice is kept twice. Header values and the body are raw bytes.
#[derive(Hash)]
pub struct Response {
    /// The status code of the HTTP response.
    pub status: u16,
    /// The headers included in the response.
    pub headers: Vec<(String, Vec<u8>)>,
    /// The body of the response.
    pub body: Vec<u8>,
}

/// What one header field of a response holds: its name and its value.
pub type FieldView = (Seq<char>, Seq<u8>);

/// What a [`Response`] holds.
pub struct ResponseView {
    /// The status code.
    pub status: u16,
    /// Name and value of each header, in order.
    pub headers: Seq<FieldView>,
    /// The bytes of the body.
    pub body: Seq<u8>,
}

/// Name and value of each header field of a list, in order.
pub open spec fn fields_view(fields: Seq<(String, Vec<u8>)>) -> Seq<FieldView> {
    Seq::new(fields.len(), |i: int| (fields[i].0@, fields[i].1@))
}

impl View for Response {
    type V = ResponseView;

    open spec fn view(&self) -> ResponseView {
        ResponseView {
            status: self.status,
            headers: fields_view(self.headers@),
            body: self.body@,
        }
    }
}

/// A copy of a list of header fields.
pub fn clone_fields(fields: &Vec<(String, Vec<u8>)>) -> (copy: Vec<(String, Vec<u8>)>)
    ensures
        fields_view(copy@) == fields_view(fields@),
{
    let mut copy: Vec<(String, Vec<u8>)> = Vec::new();
    let mut i: usize = 0;
    while i < fields.len()
        invariant
            i <= fields.len(),
            copy@.len() == i,
            forall|j: int| 0 <= j < i ==> copy@[j].0@ == fields@[j].0@ && copy@[j].1@ == fields@[j].1@,
        decreases fields.len() - i,
    {
        let name = fields[i].0.clone();
        let value = slice_to_vec(fields[i].1.as_slice());
        copy.push((name, value));
        i += 1;
    }
    assert(fields_view(copy@) =~= fields_view(fields@));
    copy
}

/// Whether two lists of header fields hold the same names and values in
/// the same order.
pub fn fields_equal(a: &Vec<(String, Vec<u8>)>, b: &Vec<(String, Vec<u8>)>) -> (equal: bool)
    ensures
        equal == (fields_view(a@) == fields_view(b@)),
{
    if a.len() != b.len() {
        assert(fields_view(a@).len() != fields_view(b@).len());
        return false;
    }
    let mut i: usize = 0;
    while i < a.len()
        invariant
            i <= a.len(),
            a@.len() == b@.len(),
            forall|j: int| 0 <= j < i ==> a@[j].0@ == b@[j].0@ && a@[j].1@ == b@[j].1@,
        decreases a.len() - i,
    {
        if !text_equal(a[i].0.as_str(), b[i].0.as_str()) || !bytes_equal(
            a[i].1.as_slice(),
            b[i].1.as_slice(),
        ) {
            assert(fields_view(a@)[i as int] != fields_view(b@)[i as int]);
            return false;
        }
        i += 1;
    }
    assert(fields_view(a@) =~= fields_view(b@));
    true
}

impl Response {
    /// The response that a native client has received in full: its status,
    /// its headers in the order in which the client exposes them, and the
    /// bytes of its body. No header is merged, dropped or rewritten.
    pub fn from_native_parts(status: StatusCode, headers: &HeaderMap, body: Vec<u8>) -> (response:
        Response)
        ensures
            response@ == (ResponseView {
                status: status_number(status),
                headers: header_entries(*headers),
                body: body@,
            }),
            100 <= response.status <= 999,
    {
        Response { status: status.as_u16(), headers: native_header_fields(headers), body }
    }

    /// The outcome of receiving a native response, given the outcome of
    /// draining its body: the complete response where the body arrived in
    /// full, and otherwise the failure of the drain, unchanged. There is no
    /// response with part of a body.
    pub fn from_native_result<E>(
        status: StatusCode,
        headers: &HeaderMap,
        drained: Result<Vec<u8>, E>,
    ) -> (result: Result<Response, E>)
        ensures
            match drained {
                Ok(body) => result is Ok && result->Ok_0@ == (ResponseView {
                    status: status_number(status),
                    headers: header_entries(*headers),
                    body: body@,
                }),
                Err(failure) => result == Err::<Response, E>(failure),
            },
    {
        match drained {
            Ok(body) => Ok(Response::from_native_parts(status, headers, body)),
            Err(failure) => Err(failure),
        }
    }
}

impl Clone for Response {
    fn clone(&self) -> (copy: Response)
        ensures
            copy@ == self@,
    {
        Response {
            status: self.status,
            headers: clone_fields(&self.headers),
            body: slice_to_vec(self.body.as_slice()),
        }
    }
}

impl PartialEq for Response {
    fn eq(&self, other: &Response) -> (equal: bool) {
        self.status == other.status && fields_equal(&self.headers, &other.headers) && bytes_equal(
            self.body.as_slice(),
            other.body.as_slice(),
        )
    }
}

impl Eq for Response {

}

impl PartialEqSpecImpl for Response {
    open spec fn obeys_eq_spec() -> bool {
        true
    }

    open spec fn eq_spec(&self, other: &Response) -> bool {
        self@ == other@
    }
}

/// Equality is structural: two responses hold the same, and so compare
/// equal with `==`, exactly when they have the same status, the same
/// headers in the same order, and the same body.
pub proof fn lemma_equality_is_structural(a: Response, b: Response)
    ensures
        a@ == b@ <==> a.status == b.status && fields_view(a.headers@) == fields_view(
            b.headers@,
        ) && a.body@ == b.body@,
{
}

/// A difference in any one place makes two responses unequal: in the
/// status, in a byte of the body, or in the header at any position, so
/// also where the same headers stand in another order.
pub proof fn lemma_any_difference_breaks_equality(a: Response, b: Response, at: int)
    requires
        a.status != b.status || (0 <= at < a.body@.len() && at < b.body@.len() && a.body@[at]
            != b.body@[at]) || (0 <= at < a.headers@.len() && at < b.headers@.len() && (
        a.headers@[at].0@ != b.headers@[at].0@ || a.headers@[at].1@ != b.headers@[at].1@)),
    ensures
        a@ != b@,
{
    if 0 <= at < a.headers@.len() && at < b.headers@.len() && (a.headers@[at].0@
        != b.headers@[at].0@ || a.headers@[at].1@ != b.headers@[at].1@) {
        assert(fields_view(a.headers@)[at] != fields_view(b.headers@)[at]);
    }
}

} // verus!
