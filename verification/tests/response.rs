use std::collections::HashSet;
use http_boundary::response::{clone_fields, fields_equal, Response};
use reqwest::header::{HeaderMap, HeaderName, HeaderValue};
use reqwest::StatusCode;

fn sample() -> Response {
    Response {
        status: 404,
        headers: vec![("Content-Type".to_string(), b"text/plain".to_vec())],
        body: b"not found".to_vec(),
    }
}

#[test]
fn repeated_headers_are_kept_in_order() {
    let response = Response {
        status: 200,
        headers: vec![("A".to_string(), b"1".to_vec()), ("A".to_string(), b"2".to_vec())],
        body: vec![],
    };
    assert_eq!(response.headers.len(), 2);
    assert_eq!(response.headers[0], ("A".to_string(), b"1".to_vec()));
    assert_eq!(response.headers[1], ("A".to_string(), b"2".to_vec()));
    let copy = response.clone();
    assert_eq!(copy.headers, response.headers);
}

#[test]
fn responses_built_alike_are_equal() {
    let a = sample();
    let mut b = Response { status: 0, headers: Vec::new(), body: Vec::new() };
    b.status = 404;
    b.headers.push((String::from("Content-Type"), "text/plain".as_bytes().to_vec()));
    b.body.extend_from_slice(b"not found");
    assert!(a == b);
    assert!(a.clone() == b);
}

#[test]
fn any_changed_field_breaks_equality() {
    let base = sample();
    let mut status = sample();
    status.status = 200;
    assert!(base != status);
    let mut body = sample();
    body.body[0] = b'N';
    assert!(base != body);
    let mut longer = sample();
    longer.body.push(0);
    assert!(base != longer);
    let mut name = sample();
    name.headers[0].0 = "content-type".to_string();
    assert!(base != name);
    let mut value = sample();
    value.headers[0].1 = b"text/html".to_vec();
    assert!(base != value);
    let mut extra = sample();
    extra.headers.push(("A".to_string(), vec![]));
    assert!(base != extra);
}

#[test]
fn header_order_matters_for_equality() {
    let a = Response {
        status: 200,
        headers: vec![("A".to_string(), b"1".to_vec()), ("B".to_string(), b"2".to_vec())],
        body: vec![],
    };
    let b = Response {
        status: 200,
        headers: vec![("B".to_string(), b"2".to_vec()), ("A".to_string(), b"1".to_vec())],
        body: vec![],
    };
    assert!(a != b);
}

#[test]
fn equal_responses_hash_alike() {
    let mut set = HashSet::new();
    set.insert(sample());
    set.insert(sample());
    assert_eq!(set.len(), 1);
}

#[test]
fn fields_equal_compares_names_and_bytes() {
    let a = vec![("A".to_string(), vec![0u8, 255])];
    assert!(fields_equal(&a, &vec![("A".to_string(), vec![0u8, 255])]));
    assert!(!fields_equal(&a, &vec![("A".to_string(), vec![0u8, 254])]));
    assert!(!fields_equal(&a, &vec![("a".to_string(), vec![0u8, 255])]));
    assert!(!fields_equal(&a, &vec![]));
    assert!(fields_equal(&vec![], &vec![]));
}

#[test]
fn clone_fields_copies_every_field() {
    let a = vec![("A".to_string(), vec![0u8, 255]), ("".to_string(), vec![])];
    assert_eq!(clone_fields(&a), a);
    assert_eq!(clone_fields(&vec![]), vec![]);
}

#[test]
fn from_native_parts_takes_status_headers_and_body() {
    let mut headers = HeaderMap::new();
    headers.insert("Content-Type", HeaderValue::from_static("text/plain"));
    let response =
        Response::from_native_parts(StatusCode::NOT_FOUND, &headers, b"not found".to_vec());
    let expected = Response {
        status: 404,
        headers: vec![("content-type".to_string(), b"text/plain".to_vec())],
        body: b"not found".to_vec(),
    };
    assert!(response == expected);
}

#[test]
fn from_native_parts_keeps_repeated_and_binary_headers() {
    let mut headers = HeaderMap::new();
    let name = HeaderName::from_static("x-a");
    headers.append(name.clone(), HeaderValue::from_bytes(&[0xFF, 0x80]).unwrap());
    headers.append(name, HeaderValue::from_static("2"));
    headers.append("x-b", HeaderValue::from_static(""));
    let response = Response::from_native_parts(StatusCode::OK, &headers, vec![0, 1, 2]);
    assert_eq!(response.status, 200);
    assert_eq!(
        response.headers,
        vec![
            ("x-a".to_string(), vec![0xFF, 0x80]),
            ("x-a".to_string(), b"2".to_vec()),
            ("x-b".to_string(), vec![]),
        ]
    );
    assert_eq!(response.body, vec![0, 1, 2]);
}

#[test]
fn from_native_parts_of_empty_response() {
    let response =
        Response::from_native_parts(StatusCode::from_u16(999).unwrap(), &HeaderMap::new(), vec![]);
    assert!(response == Response { status: 999, headers: vec![], body: vec![] });
}

#[test]
fn from_native_result_gives_the_full_response() {
    let mut headers = HeaderMap::new();
    headers.insert("Content-Type", HeaderValue::from_static("text/plain"));
    let drained: Result<Vec<u8>, String> = Ok(b"not found".to_vec());
    let result = Response::from_native_result(StatusCode::NOT_FOUND, &headers, drained);
    let expected = Response {
        status: 404,
        headers: vec![("content-type".to_string(), b"text/plain".to_vec())],
        body: b"not found".to_vec(),
    };
    assert!(result == Ok(expected));
}

#[test]
fn from_native_result_hands_the_failure_on() {
    let mut headers = HeaderMap::new();
    headers.insert("Content-Type", HeaderValue::from_static("text/plain"));
    let drained: Result<Vec<u8>, String> = Err("connection reset".to_string());
    let result = Response::from_native_result(StatusCode::NOT_FOUND, &headers, drained);
    assert!(result == Err("connection reset".to_string()));
}
