use http_boundary::method::{Method, UnsupportedMethod};

const ALL: [Method; 9] = [
    Method::Get,
    Method::Post,
    Method::Put,
    Method::Delete,
    Method::Head,
    Method::Options,
    Method::Connect,
    Method::Patch,
    Method::Trace,
];

#[test]
fn each_method_maps_to_its_native_constant() {
    assert_eq!(Method::Get.to_native(), reqwest::Method::GET);
    assert_eq!(Method::Post.to_native(), reqwest::Method::POST);
    assert_eq!(Method::Put.to_native(), reqwest::Method::PUT);
    assert_eq!(Method::Delete.to_native(), reqwest::Method::DELETE);
    assert_eq!(Method::Head.to_native(), reqwest::Method::HEAD);
    assert_eq!(Method::Options.to_native(), reqwest::Method::OPTIONS);
    assert_eq!(Method::Connect.to_native(), reqwest::Method::CONNECT);
    assert_eq!(Method::Patch.to_native(), reqwest::Method::PATCH);
    assert_eq!(Method::Trace.to_native(), reqwest::Method::TRACE);
}

#[test]
fn from_impl_agrees_with_to_native() {
    for method in ALL {
        let native: reqwest::Method = method.into();
        assert_eq!(native, method.to_native());
    }
}

#[test]
fn native_round_trip_is_lossless() {
    for method in ALL {
        let native = method.to_native();
        let back = Method::from_native(&native);
        assert_eq!(back, Ok(method));
        assert_eq!(back.unwrap().to_native(), native);
    }
}

#[test]
fn as_str_is_the_upper_case_verb() {
    assert_eq!(Method::Get.as_str(), "GET");
    assert_eq!(Method::Post.as_str(), "POST");
    assert_eq!(Method::Put.as_str(), "PUT");
    assert_eq!(Method::Delete.as_str(), "DELETE");
    assert_eq!(Method::Head.as_str(), "HEAD");
    assert_eq!(Method::Options.as_str(), "OPTIONS");
    assert_eq!(Method::Connect.as_str(), "CONNECT");
    assert_eq!(Method::Patch.as_str(), "PATCH");
    assert_eq!(Method::Trace.as_str(), "TRACE");
}

#[test]
fn from_text_reads_each_verb() {
    for method in ALL {
        assert_eq!(Method::from_text(method.as_str()), Ok(method));
    }
}

#[test]
fn from_text_is_exact() {
    assert_eq!(Method::from_text("get"), Err(UnsupportedMethod));
    assert_eq!(Method::from_text(""), Err(UnsupportedMethod));
    assert_eq!(Method::from_text("GET "), Err(UnsupportedMethod));
    assert_eq!(Method::from_text("GE"), Err(UnsupportedMethod));
    assert_eq!(Method::from_text("PURGE"), Err(UnsupportedMethod));
}

#[test]
fn extension_method_is_rejected() {
    let purge = reqwest::Method::from_bytes(b"PURGE").unwrap();
    assert_eq!(Method::from_native(&purge), Err(UnsupportedMethod));
    let lower = reqwest::Method::from_bytes(b"get").unwrap();
    assert_eq!(Method::from_native(&lower), Err(UnsupportedMethod));
}

#[test]
fn native_verb_parsed_from_bytes_is_accepted() {
    let native = reqwest::Method::from_bytes(b"PATCH").unwrap();
    assert_eq!(Method::from_native(&native), Ok(Method::Patch));
}
