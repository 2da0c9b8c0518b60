use std::collections::HashSet;
use http_boundary::header::Header;

#[test]
fn new_keeps_name_and_value() {
    let header = Header::new("X-Test", [0xFFu8, 0x00, 0x80]);
    assert_eq!(header.name, "X-Test");
    assert_eq!(header.value, vec![0xFF, 0x00, 0x80]);
}

#[test]
fn new_accepts_owned_and_borrowed_arguments() {
    let a = Header::new("Accept", b"*/*".to_vec());
    let b = Header::new(String::from("Accept"), "*/*");
    let c = Header::new("Accept", &b"*/*"[..]);
    assert!(a == b);
    assert!(b == c);
}

#[test]
fn new_does_not_validate() {
    let header = Header::new("bad name\r\n: x", vec![b'\n', 0, 255]);
    assert_eq!(header.name, "bad name\r\n: x");
    assert_eq!(header.value, vec![b'\n', 0, 255]);
    let empty = Header::new("", Vec::<u8>::new());
    assert_eq!(empty.name, "");
    assert!(empty.value.is_empty());
}

#[test]
fn from_parts_keeps_name_and_value() {
    let header = Header::from_parts("Host".to_string(), b"example.com".to_vec());
    assert_eq!(header.name, "Host");
    assert_eq!(header.value, b"example.com".to_vec());
    assert!(header == Header::new("Host", "example.com"));
}

#[test]
fn header_equality_is_exact() {
    let header = Header::new("Accept", "a");
    assert!(header == Header::new("Accept", "a"));
    assert!(header != Header::new("accept", "a"));
    assert!(header != Header::new("Accept", "A"));
    assert!(header != Header::new("Accept", "a "));
    assert!(header != Header::new("Accept ", "a"));
    assert!(header != Header::new("Accept", ""));
}

#[test]
fn header_clone_is_equal() {
    let header = Header::new("X-Bin", [0u8, 159, 146, 150]);
    let copy = header.clone();
    assert!(copy == header);
    assert_eq!(copy.name, "X-Bin");
    assert_eq!(copy.value, vec![0, 159, 146, 150]);
}

#[test]
fn equal_headers_hash_alike() {
    let mut set = HashSet::new();
    set.insert(Header::new("A", "1"));
    set.insert(Header::new("A", "1"));
    set.insert(Header::new("A", "2"));
    assert_eq!(set.len(), 2);
}
