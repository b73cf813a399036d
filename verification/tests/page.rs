use fetch_mcp_rs::page::{
    is_html_page, page_from_markdown, page_head, page_send_failure, page_status_failure,
    render_page, Rendering,
};

fn page(rendering: Rendering) -> (String, String) {
    match rendering {
        Rendering::Page(page) => (page.prefix, page.content),
        Rendering::Convert { html, .. } => panic!("{html}"),
    }
}

#[test]
fn recognizes_html() {
    assert!(is_html_page("<html>", "text/plain"));
    assert!(is_html_page("x", "text/html; charset=utf-8"));
    assert!(is_html_page("x", ""));
    assert!(!is_html_page("<HTML>", "text/plain"));
    assert!(!is_html_page("x", "application/json"));
}

#[test]
fn only_the_head_is_searched() {
    let early = format!("{}<html>", " ".repeat(95));
    let late = format!("{}<html>", " ".repeat(96));
    assert!(is_html_page(&early, "text/plain"));
    assert!(!is_html_page(&late, "text/plain"));
}

#[test]
fn head_ends_with_a_whole_character() {
    assert_eq!(page_head(""), "");
    assert_eq!(page_head("caf\u{e9}"), "caf\u{e9}");
    let a = "a".repeat(99);
    assert_eq!(page_head(&format!("{a}bc")), format!("{a}b"));
    assert_eq!(page_head(&format!("{a}\u{e9}")), a);
    assert_eq!(page_head(&format!("{}\u{e9}tail", &a[1..])), format!("{}\u{e9}", &a[1..]));
    assert_eq!(page_head(&format!("{}\u{1f980}", &a[2..])), &a[2..]);
    assert_eq!(page_head(&"\u{20ac}".repeat(50)), "\u{20ac}".repeat(33));
}

#[test]
fn a_character_across_the_end_of_the_head_does_no_harm() {
    let text = format!("{}\u{e9}", "a".repeat(99));
    let (prefix, content) = page(render_page(text.clone(), false, "text/plain", false));
    assert_eq!(
        prefix,
        "Content type text/plain cannot be simplified to markdown, but here is the raw content:\n"
    );
    assert_eq!(content, text);
    let html = format!("<html>{}\u{e9}", "a".repeat(93));
    assert!(is_html_page(&html, "text/plain"));
}

#[test]
fn other_pages_come_as_they_are() {
    let (prefix, content) = page(render_page("{}".to_string(), false, "application/json", false));
    assert_eq!(
        prefix,
        "Content type application/json cannot be simplified to markdown, but here is the raw \
         content:\n"
    );
    assert_eq!(content, "{}");
}

#[test]
fn raw_pages_come_as_they_are() {
    let (prefix, content) = page(render_page("<html>a".to_string(), true, "", true));
    assert_eq!(
        prefix,
        "Response exceeded the internal safety download limit and was truncated before \
         processing.\nContent type unknown cannot be simplified to markdown, but here is the raw \
         content:\n"
    );
    assert_eq!(content, "<html>a");
}

#[test]
fn html_becomes_markdown() {
    let html = "<html><body><h3>Title</h3></body></html>".to_string();
    let (prefix, content) = page(render_page(html, true, "text/html", false));
    assert_eq!(
        prefix,
        "Response exceeded the internal safety download limit and was truncated before \
         processing.\n"
    );
    assert_eq!(content, "### Title ###");
}

#[test]
fn empty_markdown_is_replaced() {
    let html = "<html><body><script>x</script></body></html>".to_string();
    let (prefix, content) = page(render_page(html, false, "text/html", false));
    assert_eq!(prefix, "");
    assert_eq!(content, "<error>Page failed to be simplified from HTML</error>");
    let blank = page_from_markdown(" \n\u{a0}\u{3000}".to_string(), "p".to_string());
    assert_eq!(blank.content, "<error>Page failed to be simplified from HTML</error>");
    let text = page_from_markdown(" x ".to_string(), "p".to_string());
    assert_eq!(text.content, " x ");
    assert_eq!(text.prefix, "p");
}

#[test]
fn lists_are_handed_out_for_conversion() {
    let html = "<body><a><ul><li>a</li></ul></a><footer>f</footer></body>".to_string();
    match render_page(html, false, "", false) {
        Rendering::Convert { html, prefix } => {
            assert_eq!(html, "<body><a><ul><li>a</li></ul></a></body>");
            assert_eq!(prefix, "");
        }
        other => panic!("{other:?}"),
    }
}

#[test]
fn failures_name_the_page() {
    assert_eq!(page_send_failure("http://a/", "no route").message, "Failed to fetch http://a/: no route");
    assert_eq!(page_status_failure("http://a/", 503).message, "Failed to fetch http://a/ - status code 503");
}
