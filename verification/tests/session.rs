use fetch_mcp_rs::body::MAX_DOWNLOAD_BYTES;
use fetch_mcp_rs::config::ServerConfig;
use fetch_mcp_rs::error::{ErrorKind, FetchError};
use fetch_mcp_rs::request::FetchRequest;
use fetch_mcp_rs::server::{fetch_prompt_definition, prompt_url, FetchServer};
use fetch_mcp_rs::session::{Event, Reply, Session, Step};

fn server(ignore_robots_txt: bool, proxy_url: Option<&str>) -> FetchServer {
    FetchServer::new(ServerConfig {
        custom_user_agent: None,
        ignore_robots_txt,
        proxy_url: proxy_url.map(|url| url.to_string()),
    })
}

fn call(url: &str) -> FetchRequest {
    FetchRequest {
        url: url.to_string(),
        max_length: None,
        start_index: None,
        raw: None,
    }
}

fn get(step: Step) -> (Session, String) {
    match step {
        Step::Get { session, url } => (session, url),
        other => panic!("{other:?}"),
    }
}

fn read(step: Step) -> Session {
    match step {
        Step::Read { session } => session,
        other => panic!("{other:?}"),
    }
}

fn fail(step: Step) -> FetchError {
    match step {
        Step::Fail(error) => error,
        other => panic!("{other:?}"),
    }
}

fn head(status: u16, content_type: &str) -> Event {
    Event::Head {
        status,
        content_type: content_type.to_string(),
    }
}

#[test]
fn a_tool_call_asks_for_robots_txt_first() {
    let (session, url) = get(server(false, Some("http://proxy")).fetch(call("https://u:p@a.b/c?d")));
    assert_eq!(url, "https://a.b/robots.txt");
    assert!(session.errand.agent.contains("Autonomous"));
    assert_eq!(session.errand.proxy_url, Some("http://proxy".to_string()));
    assert_eq!(session.errand.goal.url(), "https://u:p@a.b/c?d");
}

#[test]
fn a_site_without_robots_txt_is_open() {
    let (session, _) = get(server(false, None).fetch(call("http://a/b")));
    let (session, url) = get(session.advance(head(404, "")));
    assert_eq!(url, "http://a/b");
    assert!(session.errand.agent.contains("Autonomous"));
}

#[test]
fn a_site_that_refuses_robots_txt_is_closed() {
    let (session, _) = get(server(false, None).fetch(call("http://a/b")));
    let error = fail(session.advance(head(403, "")));
    assert_eq!(error.kind, ErrorKind::Internal);
    assert_eq!(
        error.message,
        "When fetching robots.txt (http://a/robots.txt), received status 403 so assuming \
         autonomous fetching is not allowed."
    );
}

#[test]
fn rules_are_read_to_their_end() {
    let (session, _) = get(server(false, None).fetch(call("http://a/b")));
    let session = read(session.advance(head(200, "text/plain")));
    let session = read(session.advance(Event::Chunk(b"User-agent: *\nDis".to_vec())));
    let session = read(session.advance(Event::Chunk(b"allow: /c".to_vec())));
    let (_, url) = get(session.advance(Event::BodyEnd));
    assert_eq!(url, "http://a/b");
}

#[test]
fn rules_beyond_the_limit_are_not_read() {
    let (session, _) = get(server(false, None).fetch(call("http://a/b")));
    let session = read(session.advance(head(500, "")));
    let mut rules = b"User-agent: *\n#".to_vec();
    rules.resize(MAX_DOWNLOAD_BYTES - 1, b'x');
    rules.extend_from_slice(b"\nDisallow: /");
    let (_, url) = get(session.advance(Event::Chunk(rules)));
    assert_eq!(url, "http://a/b");

    let (session, _) = get(server(false, None).fetch(call("http://a/b")));
    let session = read(session.advance(head(500, "")));
    let session = read(session.advance(Event::Chunk(b"User-agent: *\nDisallow: /".to_vec())));
    let error = fail(session.advance(Event::BodyEnd));
    assert!(error.message.starts_with("The site's robots.txt (http://a/robots.txt) specifies"));
}

#[test]
fn unlocatable_robots_txt_fails_the_call() {
    let error = fail(server(false, None).fetch(call("ftp://a/b")));
    assert_eq!(error.message, "Failed to derive robots.txt URL: empty host");
    let error = fail(server(false, None).fetch(call("data:text/plain,x")));
    assert!(error.message.starts_with("Failed to derive robots.txt URL: "));
}

#[test]
fn failures_on_the_way_are_reported() {
    let start = || get(server(false, None).fetch(call("http://a/b"))).0;
    let error = fail(start().advance(Event::ProxyRejected("p".to_string())));
    assert_eq!(error.kind, ErrorKind::InvalidParams);
    assert_eq!(error.message, "Invalid proxy URL: p");
    let error = fail(start().advance(Event::ClientFailed("c".to_string())));
    assert_eq!(error.kind, ErrorKind::Internal);
    assert_eq!(error.message, "c");
    let error = fail(start().advance(Event::SendFailed("s".to_string())));
    assert_eq!(
        error.message,
        "Failed to fetch robots.txt http://a/robots.txt due to a connection issue: s"
    );
    let reading = read(start().advance(head(200, "")));
    let error = fail(reading.advance(Event::BodyFailed("b".to_string())));
    assert_eq!(error.message, "b");
}

#[test]
fn page_failures_are_reported() {
    let start = || get(server(true, None).fetch(call("http://a/b"))).0;
    let error = fail(start().advance(Event::SendFailed("s".to_string())));
    assert_eq!(error.message, "Failed to fetch http://a/b: s");
    let error = fail(start().advance(head(400, "")));
    assert_eq!(error.message, "Failed to fetch http://a/b - status code 400");
    let reading = read(start().advance(head(399, "")));
    let error = fail(reading.advance(Event::BodyFailed("b".to_string())));
    assert_eq!(error.message, "b");
}

#[test]
fn an_ignoring_server_asks_for_the_page_at_once() {
    let (session, url) = get(server(true, None).fetch(call("http://a/b")));
    assert_eq!(url, "http://a/b");
    assert!(session.errand.agent.contains("Autonomous"));
}

#[test]
fn a_truncated_page_says_so() {
    let (session, _) = get(server(true, None).fetch(call("http://a/b")));
    let session = read(session.advance(head(200, "text/plain")));
    match session.advance(Event::Chunk(vec![b'x'; MAX_DOWNLOAD_BYTES + 1])) {
        Step::Reply(Reply::Tool(text)) => {
            assert!(text.starts_with("Response exceeded the internal safety download limit"));
            assert!(text.contains("start_index of 5000 "));
        }
        other => panic!("{other:?}"),
    }
}

#[test]
fn a_page_with_a_character_across_its_head_is_shown() {
    let (session, _) = get(server(true, None).fetch(call("http://a/b")));
    let session = read(session.advance(head(200, "text/plain")));
    let page = format!("{}\u{e9}", "a".repeat(99));
    let session = read(session.advance(Event::Chunk(page.clone().into_bytes())));
    match session.advance(Event::BodyEnd) {
        Step::Reply(Reply::Tool(text)) => assert_eq!(
            text,
            format!(
                "Content type text/plain cannot be simplified to markdown, but here is the raw \
                 content:\nContents of http://a/b:\n{page}"
            )
        ),
        other => panic!("{other:?}"),
    }
}

#[test]
fn a_prompt_goes_to_the_page_at_once() {
    let (session, url) = get(server(false, None).get_prompt("fetch", Some(Ok("http://a".to_string()))));
    assert_eq!(url, "http://a/");
    assert!(session.errand.agent.contains("User-Specified"));
    let session = read(session.advance(head(200, "text/html")));
    let session = read(session.advance(Event::Chunk(b"<i><ul><li>x</li></ul></i>".to_vec())));
    match session.advance(Event::BodyEnd) {
        Step::Convert { session, html } => {
            assert_eq!(html, "<i><ul><li>x</li></ul></i>");
            assert!(!session.expects(&Event::BodyEnd));
            match session.advance(Event::Converted("* *x*".to_string())) {
                Step::Reply(Reply::Prompt { description, text }) => {
                    assert_eq!(description, "Contents of http://a/");
                    assert_eq!(text, "* *x*");
                }
                other => panic!("{other:?}"),
            }
        }
        other => panic!("{other:?}"),
    }
}

#[test]
fn prompts_are_checked() {
    let server = server(false, None);
    let error = fail(server.get_prompt("other", None));
    assert_eq!(error.kind, ErrorKind::InvalidParams);
    assert_eq!(error.message, "Unknown prompt: other");
    assert_eq!(fail(server.get_prompt("fetch", None)).message, "URL is required");
    let error = fail(server.get_prompt("fetch", Some(Err("missing field".to_string()))));
    assert_eq!(error.message, "missing field");
    let error = fail(server.get_prompt("fetch", Some(Ok("nowhere".to_string()))));
    assert_eq!(error.message, "Invalid URL: relative URL without a base");
    assert_eq!(prompt_url("fetch", Some(Ok("x".to_string()))).unwrap(), "x");
}

#[test]
fn the_prompt_is_described() {
    let prompt = fetch_prompt_definition();
    assert_eq!(prompt.name, "fetch");
    assert_eq!(prompt.description, "Fetch a URL and extract its contents as markdown");
    assert_eq!(prompt.arguments.len(), 1);
    assert_eq!(prompt.arguments[0].name, "url");
    assert_eq!(prompt.arguments[0].description, "URL to fetch");
    assert!(prompt.arguments[0].required);
}

#[test]
fn events_out_of_turn_are_not_expected() {
    let (session, _) = get(server(true, None).fetch(call("http://a/b")));
    assert!(session.expects(&head(200, "")));
    assert!(!session.expects(&Event::BodyEnd));
    assert!(!session.expects(&Event::Converted(String::new())));
}

#[test]
fn a_raw_call_gets_the_page_as_it_came() {
    let request = FetchRequest {
        url: "http://a/b".to_string(),
        max_length: None,
        start_index: None,
        raw: Some(true),
    };
    let (session, _) = get(server(true, None).fetch(request.clone()));
    let session = read(session.advance(head(200, "text/html")));
    let session = read(session.advance(Event::Chunk(b"<html><li>x".to_vec())));
    match session.advance(Event::BodyEnd) {
        Step::Reply(Reply::Tool(text)) => assert_eq!(
            text,
            "Content type text/html cannot be simplified to markdown, but here is the raw \
             content:\nContents of http://a/b:\n<html><li>x"
        ),
        other => panic!("{other:?}"),
    }
}
