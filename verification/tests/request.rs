use fetch_mcp_rs::error::ErrorKind;
use fetch_mcp_rs::request::{
    accept_request, accept_url, parse_fetch_request, validate_url, FetchRequest,
};

fn request(url: &str, max_length: Option<usize>) -> FetchRequest {
    FetchRequest {
        url: url.to_string(),
        max_length,
        start_index: None,
        raw: None,
    }
}

#[test]
fn fills_in_defaults() {
    let options = parse_fetch_request(request("HTTP://Example.COM", None)).unwrap();
    assert_eq!(options.url, "http://example.com/");
    assert_eq!(options.max_length, 5000);
    assert_eq!(options.start_index, 0);
    assert!(!options.raw);
}

#[test]
fn takes_what_is_given() {
    let options = parse_fetch_request(FetchRequest {
        url: "https://example.com/a?b#c".to_string(),
        max_length: Some(12),
        start_index: Some(34),
        raw: Some(true),
    })
    .unwrap();
    assert_eq!(options.url, "https://example.com/a?b#c");
    assert_eq!(options.max_length, 12);
    assert_eq!(options.start_index, 34);
    assert!(options.raw);
}

#[test]
fn length_has_limits() {
    for bad in [0, 1_000_000, usize::MAX] {
        let error = parse_fetch_request(request("http://a", Some(bad))).unwrap_err();
        assert_eq!(error.kind, ErrorKind::InvalidParams);
        assert_eq!(error.message, "max_length must be between 1 and 999999");
    }
    for good in [1, 999_999] {
        let options = parse_fetch_request(request("http://a", Some(good))).unwrap();
        assert_eq!(options.max_length, good);
    }
}

#[test]
fn bad_url_is_reported_before_bad_length() {
    let error = parse_fetch_request(request("not a url", Some(0))).unwrap_err();
    assert_eq!(error.kind, ErrorKind::InvalidParams);
    assert_eq!(error.message, "Invalid URL: relative URL without a base");
}

#[test]
fn urls_are_normalized() {
    assert_eq!(validate_url("http://Example.com:80/a b").unwrap(), "http://example.com/a%20b");
    assert_eq!(validate_url("http://").unwrap_err().message, "Invalid URL: empty host");
}

#[test]
fn parser_results_are_taken_as_they_are() {
    assert_eq!(accept_url(Ok("x".to_string())).unwrap(), "x");
    assert_eq!(accept_url(Err("bad".to_string())).unwrap_err().message, "Invalid URL: bad");
    let options = accept_request(request("ignored", Some(7)), Ok("u".to_string())).unwrap();
    assert_eq!(options.url, "u");
    assert_eq!(options.max_length, 7);
}
