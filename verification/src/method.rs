//! The closed set of HTTP verbs and its mapping to the native client.

use vstd::prelude::*;
use vstd::std_specs::convert::FromSpecImpl;
use crate::text::text_equal;
use reqwest::Method as NativeMethod;
use crate::native::{
    method_text, native_connect, native_delete, native_get, native_head, native_options,
    native_patch, native_post, native_put, native_trace,
};

verus! {

/// The method used in an HTTP request.
#[derive(Clone, Copy, Debug, PartialEq, Eq, Structural)]
pub enum Method {
    /// A GET request.
    Get,
    /// A POST request.
    Post,
    /// A PUT request.
    Put,
    /// A DELETE request.
    Delete,
    /// A HEAD request.
    Head,
    /// A OPTIONS request.
    Options,
    /// A CONNECT request.
    Connect,
    /// A PATCH request.
    Patch,
    /// A TRACE request.
    Trace,
}

/// A native method outside the nine verbs of [`Method`].
#[derive(Clone, Copy, Debug, PartialEq, Eq, Structural)]
pub struct UnsupportedMethod;

impl Method {
    /// The verb of this method, in upper case.
    pub open spec fn text(self) -> Seq<char> {
        match self {
            Method::Get => "GET"@,
            Method::Post => "POST"@,
            Method::Put => "PUT"@,
            Method::Delete => "DELETE"@,
            Method::Head => "HEAD"@,
            Method::Options => "OPTIONS"@,
            Method::Connect => "CONNECT"@,
            Method::Patch => "PATCH"@,
            Method::Trace => "TRACE"@,
        }
    }

    /// The method whose verb is `text`, if there is one. Verbs are matched
    /// exactly: `get` is not a verb of this set.
    pub open spec fn of_text(text: Seq<char>) -> Option<Method> {
        if text == "GET"@ {
            Some(Method::Get)
        } else if text == "POST"@ {
            Some(Method::Post)
        } else if text == "PUT"@ {
            Some(Method::Put)
        } else if text == "DELETE"@ {
            Some(Method::Delete)
        } else if text == "HEAD"@ {
            Some(Method::Head)
        } else if text == "OPTIONS"@ {
            Some(Method::Options)
        } else if text == "CONNECT"@ {
            Some(Method::Connect)
        } else if text == "PATCH"@ {
            Some(Method::Patch)
        } else if text == "TRACE"@ {
            Some(Method::Trace)
        } else {
            None
        }
    }

    /// The verb of this method.
    pub fn as_str(self) -> (text: &'static str)
        ensures
            text@ == self.text(),
    {
        match self {
            Method::Get => "GET",
            Method::Post => "POST",
            Method::Put => "PUT",
            Method::Delete => "DELETE",
            Method::Head => "HEAD",
            Method::Options => "OPTIONS",
            Method::Connect => "CONNECT",
            Method::Patch => "PATCH",
            Method::Trace => "TRACE",
        }
    }

    /// The method whose verb is `text`; an error for any other text.
    pub fn from_text(text: &str) -> (result: Result<Method, UnsupportedMethod>)
        ensures
            result == match Method::of_text(text@) {
                Some(method) => Ok::<Method, UnsupportedMethod>(method),
                None => Err(UnsupportedMethod),
            },
    {
        if text_equal(text, "GET") {
            Ok(Method::Get)
        } else if text_equal(text, "POST") {
            Ok(Method::Post)
        } else if text_equal(text, "PUT") {
            Ok(Method::Put)
        } else if text_equal(text, "DELETE") {
            Ok(Method::Delete)
        } else if text_equal(text, "HEAD") {
            Ok(Method::Head)
        } else if text_equal(text, "OPTIONS") {
            Ok(Method::Options)
        } else if text_equal(text, "CONNECT") {
            Ok(Method::Connect)
        } else if text_equal(text, "PATCH") {
            Ok(Method::Patch)
        } else if text_equal(text, "TRACE") {
            Ok(Method::Trace)
        } else {
            Err(UnsupportedMethod)
        }
    }

    /// The method that a native method stands for. Succeeds for exactly the
    /// nine verbs of this set and fails for every other native method.
    pub fn from_native(native: &NativeMethod) -> (result: Result<Method, UnsupportedMethod>)
        ensures
            result == match Method::of_text(method_text(*native)) {
                Some(method) => Ok::<Method, UnsupportedMethod>(method),
                None => Err(UnsupportedMethod),
            },
    {
        Method::from_text(native.as_str())
    }

    /// The native client's method for this verb. Never fails.
    pub fn to_native(self) -> (native: NativeMethod)
        ensures
            method_text(native) == self.text(),
    {
        match self {
            Method::Get => native_get(),
            Method::Post => native_post(),
            Method::Put => native_put(),
            Method::Delete => native_delete(),
            Method::Head => native_head(),
            Method::Options => native_options(),
            Method::Connect => native_connect(),
            Method::Patch => native_patch(),
            Method::Trace => native_trace(),
        }
    }
}

impl From<Method> for NativeMethod {
    /// The native client's method for this verb, as [`Method::to_native`]
    /// gives it.
    fn from(method: Method) -> (native: NativeMethod)
        ensures
            method_text(native) == method.text(),
    {
        method.to_native()
    }
}

impl FromSpecImpl<Method> for NativeMethod {
    /// A native method is known by its verb alone, so the conversion
    /// promises the verb of its result and not one value.
    open spec fn obeys_from_spec() -> bool {
        false
    }

    /// Some native method with the verb of `method`.
    open spec fn from_spec(method: Method) -> NativeMethod {
        choose|native: NativeMethod| method_text(native) == method.text()
    }
}

/// Every verb differs from every other, so a verb names one method.
pub proof fn lemma_text_names_one_method(a: Method, b: Method)
    ensures
        a.text() == b.text() <==> a == b,
{
    reveal_strlit("GET");
    reveal_strlit("POST");
    reveal_strlit("PUT");
    reveal_strlit("DELETE");
    reveal_strlit("HEAD");
    reveal_strlit("OPTIONS");
    reveal_strlit("CONNECT");
    reveal_strlit("PATCH");
    reveal_strlit("TRACE");
    if a != b && a.text() == b.text() {
        assert(a.text().len() == b.text().len());
        assert(a.text()[0] == b.text()[0]);
        assert(a.text()[1] == b.text()[1]);
    }
}

/// Reading a method back from its own verb gives the method again.
pub proof fn lemma_of_text_inverts_text(method: Method)
    ensures
        Method::of_text(method.text()) == Some(method),
{
    lemma_text_names_one_method(method, Method::Get);
    lemma_text_names_one_method(method, Method::Post);
    lemma_text_names_one_method(method, Method::Put);
    lemma_text_names_one_method(method, Method::Delete);
    lemma_text_names_one_method(method, Method::Head);
    lemma_text_names_one_method(method, Method::Options);
    lemma_text_names_one_method(method, Method::Connect);
    lemma_text_names_one_method(method, Method::Patch);
    lemma_text_names_one_method(method, Method::Trace);
}

/// A text that names a method is that method's verb.
pub proof fn lemma_text_inverts_of_text(text: Seq<char>, method: Method)
    requires
        Method::of_text(text) == Some(method),
    ensures
        method.text() == text,
{
}

/// The mapping to the native client and back is lossless: whatever native
/// method carries the verb of `method` is read back as `method`, and so
/// maps to the same verb again.
pub proof fn lemma_native_round_trip(method: Method, native: NativeMethod)
    requires
        method_text(native) == method.text(),
    ensures
        Method::of_text(method_text(native)) == Some(method),
        Method::of_text(method_text(native))->0.text() == method_text(native),
{
    lemma_of_text_inverts_text(method);
}

} // verus!
