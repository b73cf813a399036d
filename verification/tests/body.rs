use fetch_mcp_rs::body::{ResponseBody, MAX_DOWNLOAD_BYTES};

#[test]
fn collects_chunks() {
    let mut body = ResponseBody::new();
    assert!(body.accept(b"caf\xc3"));
    assert!(body.accept(b"\xa9"));
    assert!(body.accept(b""));
    assert_eq!(body.text(), ("caf\u{e9}".to_string(), false));
}

#[test]
fn replaces_ill_formed_bytes() {
    let mut body = ResponseBody::new();
    assert!(body.accept(b"a\xffb"));
    assert_eq!(body.text(), ("a\u{fffd}b".to_string(), false));
}

#[test]
fn keeps_a_body_that_just_fits() {
    let mut body = ResponseBody::new();
    assert!(body.accept(&vec![b'x'; MAX_DOWNLOAD_BYTES]));
    let (text, truncated) = body.text();
    assert_eq!(text.len(), 5_000_000);
    assert!(!truncated);
}

#[test]
fn cuts_a_chunk_at_the_limit() {
    let mut body = ResponseBody::new();
    assert!(body.accept(&vec![b'x'; MAX_DOWNLOAD_BYTES - 2]));
    assert!(!body.accept(b"yyy"));
    let (text, truncated) = body.text();
    assert_eq!(text.len(), MAX_DOWNLOAD_BYTES);
    assert!(text.ends_with("xyy"));
    assert!(truncated);
}

#[test]
fn a_chunk_behind_the_limit_truncates() {
    let mut body = ResponseBody::new();
    assert!(body.accept(&vec![b'x'; MAX_DOWNLOAD_BYTES]));
    assert!(!body.accept(b""));
    let (text, truncated) = body.text();
    assert_eq!(text.len(), MAX_DOWNLOAD_BYTES);
    assert!(truncated);
}
