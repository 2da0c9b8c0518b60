use http_boundary::diagnostic::hex_dump;
use http_boundary::header::Header;
use http_boundary::response::Response;

#[test]
fn hex_dump_has_two_digits_for_every_byte() {
    assert_eq!(hex_dump(&[]), "");
    assert_eq!(hex_dump(&[0]), "00");
    assert_eq!(hex_dump(&[0x0f, 0xf0]), "0ff0");
    assert_eq!(hex_dump(&[0xFF, 0x00, 0x80]), "ff0080");
    assert_eq!(hex_dump(&[0x01, 0x23, 0x45, 0x67, 0x89, 0xab, 0xcd, 0xef]), "0123456789abcdef");
    let all: Vec<u8> = (0..=255).collect();
    let text = hex_dump(&all);
    assert_eq!(text.len(), 512);
    for (i, byte) in all.iter().enumerate() {
        assert_eq!(&text[2 * i..2 * i + 2], format!("{:02x}", byte));
    }
}

#[test]
fn header_diagnostic_shows_value_as_hex() {
    let header = Header::new("X-Test", [0xFFu8, 0x00, 0x80]);
    assert_eq!(header.diagnostic(), "Header { name: \"X-Test\", value: ff0080 }");
    assert_eq!(Header::new("", "").diagnostic(), "Header { name: \"\", value:  }");
    assert_eq!(
        Header::new("Accept", "text").diagnostic(),
        "Header { name: \"Accept\", value: 74657874 }"
    );
}

#[test]
fn response_diagnostic_shows_body_as_hex() {
    let response = Response {
        status: 404,
        headers: vec![("Content-Type".to_string(), b"text".to_vec())],
        body: b"not found".to_vec(),
    };
    assert_eq!(
        response.diagnostic(),
        "Response { status: 404, headers: [(\"Content-Type\", [116, 101, 120, 116])], \
         body: 6e6f7420666f756e64 }"
    );
}

#[test]
fn response_diagnostic_of_empty_and_repeated_headers() {
    let empty = Response { status: 0, headers: vec![], body: vec![] };
    assert_eq!(empty.diagnostic(), "Response { status: 0, headers: [], body:  }");
    let response = Response {
        status: 65535,
        headers: vec![
            ("A".to_string(), vec![]),
            ("A".to_string(), vec![0]),
            ("B".to_string(), vec![255, 10, 100]),
        ],
        body: vec![0, 255],
    };
    assert_eq!(
        response.diagnostic(),
        "Response { status: 65535, headers: [(\"A\", []), (\"A\", [0]), \
         (\"B\", [255, 10, 100])], body: 00ff }"
    );
}

#[test]
fn response_diagnostic_writes_status_in_decimal() {
    for (status, text) in [(7u16, "7"), (10, "10"), (99, "99"), (100, "100"), (1000, "1000")] {
        let response = Response { status, headers: vec![], body: vec![] };
        assert_eq!(
            response.diagnostic(),
            format!("Response {{ status: {}, headers: [], body:  }}", text)
        );
    }
}
