use http_boundary::text::{bytes_equal, text_equal};

#[test]
fn bytes_equal_is_exact() {
    assert!(bytes_equal(&[], &[]));
    assert!(bytes_equal(&[0, 255, 128], &[0, 255, 128]));
    assert!(!bytes_equal(&[0, 255, 128], &[0, 255, 127]));
    assert!(!bytes_equal(&[0, 255], &[0, 255, 0]));
    assert!(!bytes_equal(&[1], &[]));
}

#[test]
fn text_equal_is_exact() {
    assert!(text_equal("", ""));
    assert!(text_equal("Content-Type", "Content-Type"));
    assert!(!text_equal("Content-Type", "content-type"));
    assert!(!text_equal("a", "a "));
    assert!(text_equal("naïve", "naïve"));
    assert!(!text_equal("naïve", "naive"));
}
