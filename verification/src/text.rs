//! Exact comparison of byte strings and of text.

use vstd::prelude::*;
use vstd::string::StringSliceAdditionalSpecFns;
use vstd::utf8::{encode_utf8_decode_utf8, valid_utf8};

verus! {

/// The error of `std::str::from_utf8`.
#[verifier::external_type_specification]
#[verifier::external_body]
pub struct ExUtf8Error(std::str::Utf8Error);

/// `std::str::from_utf8`: succeeds exactly on well-formed UTF-8, and the
/// text it gives then has the bytes it was given. Nothing is proved of it.
pub assume_specification[ std::str::from_utf8 ](bytes: &[u8]) -> (result: Result<
    &str,
    std::str::Utf8Error,
>)
    ensures
        result is Ok <==> valid_utf8(bytes@),
        result matches Ok(text) ==> text.spec_bytes() == bytes@,
;

/// Whether two byte strings hold the same bytes in the same order.
pub fn bytes_equal(a: &[u8], b: &[u8]) -> (equal: bool)
    ensures
        equal == (a@ == b@),
{
    if a.len() != b.len() {
        return false;
    }
    let mut i: usize = 0;
    while i < a.len()
        invariant
            i <= a.len(),
            a@.len() == b@.len(),
            forall|j: int| 0 <= j < i ==> a@[j] == b@[j],
        decreases a.len() - i,
    {
        if a[i] != b[i] {
            return false;
        }
        i += 1;
    }
    assert(a@ =~= b@);
    true
}

/// Whether two texts hold the same characters in the same order. Nothing
/// is folded or trimmed.
pub fn text_equal(a: &str, b: &str) -> (equal: bool)
    ensures
        equal == (a@ == b@),
{
    let equal = bytes_equal(a.as_bytes(), b.as_bytes());
    proof {
        encode_utf8_decode_utf8(a@);
        encode_utf8_decode_utf8(b@);
    }
    equal
}

} // verus!
