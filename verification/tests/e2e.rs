use fetch_mcp_rs::config::{parse_server_config, ServerConfig};
use fetch_mcp_rs::error::{ErrorKind, FetchError};
use fetch_mcp_rs::request::FetchRequest;
use fetch_mcp_rs::server::FetchServer;
use fetch_mcp_rs::session::{Event, Reply, Step};

#[derive(Clone, Copy)]
struct MockResponse {
    path: &'static str,
    status: u16,
    content_type: &'static str,
    body: &'static str,
}

const NOT_FOUND: MockResponse = MockResponse {
    path: "/",
    status: 404,
    content_type: "text/plain; charset=utf-8",
    body: "not found",
};

/// Answers every request of a session from `responses`, in chunks of a few bytes, and
/// notes the paths that were asked for.
fn carry_out(
    first: Step,
    responses: &[MockResponse],
    paths: &mut Vec<String>,
) -> Result<Reply, FetchError> {
    let mut step = first;
    let mut pending: Vec<Vec<u8>> = Vec::new();
    loop {
        let (session, event) = match step {
            Step::Get { session, url } => {
                let path = reqwest::Url::parse(&url).unwrap().path().to_string();
                let response = responses
                    .iter()
                    .find(|candidate| candidate.path == path)
                    .copied()
                    .unwrap_or(NOT_FOUND);
                paths.push(path);
                pending = response
                    .body
                    .as_bytes()
                    .chunks(7)
                    .map(|chunk| chunk.to_vec())
                    .collect();
                pending.reverse();
                let event = Event::Head {
                    status: response.status,
                    content_type: response.content_type.to_string(),
                };
                (session, event)
            }
            Step::Read { session } => {
                let event = match pending.pop() {
                    Some(chunk) => Event::Chunk(chunk),
                    None => Event::BodyEnd,
                };
                (session, event)
            }
            Step::Convert { session, html } => {
                (session, Event::Converted(html2md::parse_html(&html)))
            }
            Step::Reply(reply) => return Ok(reply),
            Step::Fail(error) => return Err(error),
        };
        assert!(session.expects(&event));
        step = session.advance(event);
    }
}

fn server(args: &[&str]) -> FetchServer {
    let args: Vec<String> = args.iter().map(|arg| arg.to_string()).collect();
    FetchServer::new(parse_server_config(&args).unwrap())
}

fn request(url: &str) -> FetchRequest {
    FetchRequest {
        url: url.to_string(),
        max_length: None,
        start_index: None,
        raw: None,
    }
}

fn tool_text(reply: Result<Reply, FetchError>) -> String {
    match reply {
        Ok(Reply::Tool(text)) => text,
        other => panic!("no tool reply: {other:?}"),
    }
}

fn prompt_text(reply: Result<Reply, FetchError>) -> (String, String) {
    match reply {
        Ok(Reply::Prompt { description, text }) => (description, text),
        other => panic!("no prompt reply: {other:?}"),
    }
}

const ADDR: &str = "127.0.0.1:8080";

#[test]
fn e2e_fetch_tool_and_prompt() {
    let responses = [
        MockResponse {
            path: "/",
            status: 200,
            content_type: "text/plain; charset=utf-8",
            body: "abcdefghijklmnopqrstuvwxyz",
        },
        MockResponse {
            path: "/robots.txt",
            status: 404,
            content_type: "text/plain; charset=utf-8",
            body: "not found",
        },
    ];
    let service = server(&[]);

    let prompts = service.list_prompts();
    assert!(prompts.iter().any(|prompt| prompt.name == "fetch"));

    let mut paths = Vec::new();
    let call = FetchRequest {
        url: format!("http://{ADDR}"),
        max_length: Some(5),
        start_index: Some(2),
        raw: None,
    };
    let text = tool_text(carry_out(service.fetch(call), &responses, &mut paths));
    assert!(text.contains("Contents of http://"));
    assert!(text.contains("cdefg"));
    assert!(text.contains("start_index of 7"));
    assert_eq!(paths, vec!["/robots.txt".to_string(), "/".to_string()]);
    assert_eq!(
        text,
        "Content type text/plain; charset=utf-8 cannot be simplified to markdown, but here is the \
         raw content:\nContents of http://127.0.0.1:8080/:\ncdefg\n\n<error>Content truncated. \
         Call the fetch tool with a start_index of 7 to get more content.</error>"
    );

    let mut paths = Vec::new();
    let prompt = service.get_prompt("fetch", Some(Ok(format!("http://{ADDR}"))));
    let (description, text) = prompt_text(carry_out(prompt, &responses, &mut paths));
    assert!(text.contains("abcdefghijklmnopqrstuvwxyz"));
    assert_eq!(description, "Contents of http://127.0.0.1:8080/");
    assert_eq!(paths, vec!["/".to_string()]);
}

#[test]
fn e2e_obeys_robots_txt_unless_ignored() {
    let responses = [
        MockResponse {
            path: "/",
            status: 200,
            content_type: "text/plain; charset=utf-8",
            body: "visible body",
        },
        MockResponse {
            path: "/robots.txt",
            status: 200,
            content_type: "text/plain; charset=utf-8",
            body: "User-agent: *\nDisallow: /",
        },
    ];
    let url = format!("http://{ADDR}");
    let service = server(&[]);

    let mut paths = Vec::new();
    let error = carry_out(service.fetch(request(&url)), &responses, &mut paths)
        .expect_err("tool call should be blocked by robots.txt");
    assert!(error.message.contains("robots.txt"));
    assert_eq!(error.kind, ErrorKind::Internal);
    assert_eq!(paths, vec!["/robots.txt".to_string()]);
    assert_eq!(
        error.message,
        "The site's robots.txt (http://127.0.0.1:8080/robots.txt) specifies that autonomous \
         fetching is not allowed for ModelContextProtocol/1.0 (Autonomous; \
         +https://github.com/modelcontextprotocol/servers): http://127.0.0.1:8080/"
    );

    let mut paths = Vec::new();
    let prompt = service.get_prompt("fetch", Some(Ok(url.clone())));
    let (_, text) = prompt_text(carry_out(prompt, &responses, &mut paths));
    assert!(text.contains("visible body"));

    let mut paths = Vec::new();
    let ignoring = server(&["--ignore-robots-txt"]);
    let text = tool_text(carry_out(ignoring.fetch(request(&url)), &responses, &mut paths));
    assert!(text.contains("visible body"));
    assert_eq!(paths, vec!["/".to_string()]);
}

#[test]
fn e2e_prefers_main_content_when_simplifying_html() {
    let responses = [
        MockResponse {
            path: "/",
            status: 200,
            content_type: "text/html; charset=utf-8",
            body: r#"<!doctype html>
<html>
  <head>
    <title>Example</title>
    <script>window.banner = "noise";</script>
  </head>
  <body>
    <header>
      <nav>
        <a href="/models">Models</a>
        <a href="/pricing">Pricing</a>
      </nav>
    </header>
    <main>
      <article>
        <h1>Useful Title</h1>
        <p>Primary body text.</p>
        <ul>
          <li>First point</li>
          <li>Second point</li>
        </ul>
      </article>
      <nav><a href="/toc">Table of contents</a></nav>
      <aside>Sidebar noise</aside>
    </main>
    <footer>Footer noise</footer>
  </body>
</html>"#,
        },
        MockResponse {
            path: "/robots.txt",
            status: 404,
            content_type: "text/plain; charset=utf-8",
            body: "not found",
        },
    ];
    let mut paths = Vec::new();
    let step = server(&[]).fetch(request(&format!("http://{ADDR}")));
    let text = tool_text(carry_out(step, &responses, &mut paths));
    assert!(text.contains("Useful Title"));
    assert!(text.contains("Primary body text."));
    assert!(text.contains("First point"));
    assert!(!text.contains("window.banner"));
    assert!(!text.contains("Pricing"));
    assert!(!text.contains("Sidebar noise"));
    assert!(!text.contains("Footer noise"));
}

#[test]
fn converts_pages_itself() {
    let responses = [
        MockResponse {
            path: "/",
            status: 200,
            content_type: "text/html",
            body: "<html><body><nav>menu</nav><p>Hello <b>there</b></p></body></html>",
        },
        MockResponse {
            path: "/robots.txt",
            status: 200,
            content_type: "text/plain",
            body: "User-agent: *\nDisallow: /private",
        },
    ];
    let mut paths = Vec::new();
    let step = server(&[]).fetch(request(&format!("http://{ADDR}")));
    let text = tool_text(carry_out(step, &responses, &mut paths));
    assert_eq!(text, "Contents of http://127.0.0.1:8080/:\nHello **there**");
    assert_eq!(paths, vec!["/robots.txt".to_string(), "/".to_string()]);
}

#[test]
fn rules_for_a_custom_agent_are_found() {
    let responses = [
        MockResponse {
            path: "/page",
            status: 200,
            content_type: "text/plain",
            body: "text",
        },
        MockResponse {
            path: "/robots.txt",
            status: 200,
            content_type: "text/plain",
            body: "User-agent: probe\nDisallow: /page\n\nUser-agent: *\nAllow: /",
        },
    ];
    let url = format!("http://{ADDR}/page");
    let mut paths = Vec::new();
    let blocked = server(&["--user-agent", "Probe"]).fetch(request(&url));
    assert!(carry_out(blocked, &responses, &mut paths).is_err());
    let free = server(&["--user-agent=other"]).fetch(request(&url));
    assert!(carry_out(free, &responses, &mut paths).is_ok());
}

#[test]
fn default_server_has_default_settings() {
    let service = FetchServer::new(ServerConfig::default());
    let twin = service.clone();
    assert!(!twin.config.ignore_robots_txt);
    assert!(twin.config.custom_user_agent.is_none());
    assert!(twin.config.proxy_url.is_none());
}
