//! One HTTP header field.

use vstd::prelude::*;
use vstd::slice::slice_to_vec;
use vstd::std_specs::cmp::PartialEqSpecImpl;
use crate::text::{bytes_equal, text_equal};

verus! {

/// A header for a HTTP request or response.
///
/// The value is raw bytes: it need not be valid text, and nothing in this
/// library reads it as text.
#[derive(Hash)]
pub struct Header {
    /// The header name, kept as it was given.
    pub name: String,
    /// The value of the header.
    pub value: Vec<u8>,
}

/// What a [`Header`] holds.
pub struct HeaderView {
    /// The characters of the name.
    pub name: Seq<char>,
    /// The bytes of the value.
    pub value: Seq<u8>,
}

impl View for Header {
    type V = HeaderView;

    open spec fn view(&self) -> HeaderView {
        HeaderView { name: self.name@, value: self.value@ }
    }
}

impl Header {
    /// Creates a new [`Header`] with the provided `name` and `value`.
    ///
    /// Nothing is validated: any name and any bytes are accepted.
    pub fn new<N: Into<String>, V: Into<Vec<u8>>>(name: N, value: V) -> (header: Header)
        ensures
            call_ensures(N::into, (name,), header.name),
            call_ensures(V::into, (value,), header.value),
    {
        Header::from_parts(name.into(), value.into())
    }

    /// The header with exactly this name and these bytes: what [`Header::new`]
    /// builds once its arguments are converted.
    pub fn from_parts(name: String, value: Vec<u8>) -> (header: Header)
        ensures
            header.name == name,
            header.value == value,
            header@ == (HeaderView { name: name@, value: value@ }),
    {
        Header { name, value }
    }
}

impl Clone for Header {
    fn clone(&self) -> (copy: Header)
        ensures
            copy@ == self@,
    {
        Header { name: self.name.clone(), value: slice_to_vec(self.value.as_slice()) }
    }
}

impl PartialEq for Header {
    fn eq(&self, other: &Header) -> (equal: bool) {
        text_equal(self.name.as_str(), other.name.as_str()) && bytes_equal(
            self.value.as_slice(),
            other.value.as_slice(),
        )
    }
}

impl Eq for Header {

}

impl PartialEqSpecImpl for Header {
    open spec fn obeys_eq_spec() -> bool {
        true
    }

    open spec fn eq_spec(&self, other: &Header) -> bool {
        self@ == other@
    }
}

} // verus!
