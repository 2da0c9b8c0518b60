use http_boundary::compact::DecodeError;
use http_boundary::header::Header;
use http_boundary::response::Response;

fn sample() -> Response {
    Response {
        status: 404,
        headers: vec![("Content-Type".to_string(), b"text/plain".to_vec())],
        body: b"not found".to_vec(),
    }
}

#[test]
fn header_compact_bytes_are_length_prefixed() {
    let header = Header::new("ab", [0xFFu8, 0x00]);
    let bytes = header.encode_compact();
    assert_eq!(
        bytes,
        vec![2, 0, 0, 0, 0, 0, 0, 0, b'a', b'b', 2, 0, 0, 0, 0, 0, 0, 0, 0xFF, 0x00]
    );
}

#[test]
fn response_compact_bytes_are_exact() {
    let response = Response {
        status: 0x0102,
        headers: vec![("A".to_string(), vec![9])],
        body: vec![7, 8],
    };
    let mut expected = vec![0x02, 0x01];
    expected.extend_from_slice(&[1, 0, 0, 0, 0, 0, 0, 0]);
    expected.extend_from_slice(&[1, 0, 0, 0, 0, 0, 0, 0, b'A']);
    expected.extend_from_slice(&[1, 0, 0, 0, 0, 0, 0, 0, 9]);
    expected.extend_from_slice(&[2, 0, 0, 0, 0, 0, 0, 0, 7, 8]);
    assert_eq!(response.encode_compact(), expected);
}

#[test]
fn binary_header_round_trips_compact() {
    let header = Header::new("X-Test", [0xFFu8, 0x00, 0x80]);
    let back = Header::decode_compact(&header.encode_compact());
    assert!(back == Ok(header));
    assert_eq!(back.ok().unwrap().value, vec![0xFF, 0x00, 0x80]);
}

#[test]
fn response_round_trips_compact() {
    let response = sample();
    assert!(Response::decode_compact(&response.encode_compact()) == Ok(response));
}

#[test]
fn empty_response_round_trips_compact() {
    let response = Response { status: 0, headers: vec![], body: vec![] };
    let bytes = response.encode_compact();
    assert_eq!(bytes.len(), 2 + 8 + 8);
    assert!(Response::decode_compact(&bytes) == Ok(response));
}

#[test]
fn binary_response_round_trips_compact() {
    let response = Response {
        status: u16::MAX,
        headers: vec![
            ("X-Bin".to_string(), vec![0x00, 0xC3, 0x28, 0xFF]),
            ("".to_string(), vec![]),
            ("naïve-ü".to_string(), vec![0x80]),
        ],
        body: vec![0x00, 0xFF, 0xFE, 0x00, 0xC0, 0x80],
    };
    assert!(Response::decode_compact(&response.encode_compact()) == Ok(response));
}

#[test]
fn repeated_headers_keep_their_order_compact() {
    let response = Response {
        status: 200,
        headers: vec![("A".to_string(), b"1".to_vec()), ("A".to_string(), b"2".to_vec())],
        body: vec![],
    };
    let back = Response::decode_compact(&response.encode_compact()).ok().unwrap();
    assert_eq!(
        back.headers,
        vec![("A".to_string(), b"1".to_vec()), ("A".to_string(), b"2".to_vec())]
    );
}

#[test]
fn truncated_input_is_unexpected_end() {
    let bytes = sample().encode_compact();
    for cut in 0..bytes.len() {
        assert!(Response::decode_compact(&bytes[..cut]) == Err(DecodeError::UnexpectedEnd));
    }
    assert!(Header::decode_compact(&[]) == Err(DecodeError::UnexpectedEnd));
    assert!(Header::decode_compact(&[1, 0, 0, 0, 0, 0, 0, 0]) == Err(DecodeError::UnexpectedEnd));
}

#[test]
fn huge_length_is_unexpected_end() {
    let mut bytes = vec![0xFF; 8];
    bytes.extend_from_slice(b"abc");
    assert!(Header::decode_compact(&bytes) == Err(DecodeError::UnexpectedEnd));
    let mut response = vec![0xC8, 0x00];
    response.extend_from_slice(&[0xFF; 8]);
    assert!(Response::decode_compact(&response) == Err(DecodeError::UnexpectedEnd));
}

#[test]
fn trailing_bytes_are_rejected() {
    let mut bytes = sample().encode_compact();
    bytes.push(0);
    assert!(Response::decode_compact(&bytes) == Err(DecodeError::TrailingBytes));
    let mut header = Header::new("a", [1u8]).encode_compact();
    header.push(7);
    assert!(Header::decode_compact(&header) == Err(DecodeError::TrailingBytes));
}

#[test]
fn name_that_is_not_utf8_is_invalid_text() {
    let mut bytes = vec![2, 0, 0, 0, 0, 0, 0, 0, 0xC3, 0x28];
    bytes.extend_from_slice(&[0, 0, 0, 0, 0, 0, 0, 0]);
    assert!(Header::decode_compact(&bytes) == Err(DecodeError::InvalidText));
    let mut response = vec![0xC8, 0x00, 1, 0, 0, 0, 0, 0, 0, 0];
    response.extend_from_slice(&bytes);
    response.extend_from_slice(&[0, 0, 0, 0, 0, 0, 0, 0]);
    assert!(Response::decode_compact(&response) == Err(DecodeError::InvalidText));
}
