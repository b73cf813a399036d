use fetch_mcp_rs::config::{parse_server_config, ServerConfig};

fn parse(args: &[&str]) -> Result<ServerConfig, String> {
    let args: Vec<String> = args.iter().map(|arg| arg.to_string()).collect();
    parse_server_config(&args)
}

#[test]
fn defaults() {
    let config = parse(&[]).unwrap();
    assert!(!config.ignore_robots_txt);
    assert_eq!(config.proxy_url, None);
    assert_eq!(
        config.autonomous_user_agent(),
        "ModelContextProtocol/1.0 (Autonomous; +https://github.com/modelcontextprotocol/servers)"
    );
    assert_eq!(
        config.manual_user_agent(),
        "ModelContextProtocol/1.0 (User-Specified; +https://github.com/modelcontextprotocol/servers)"
    );
}

#[test]
fn custom_agent_overrides_both() {
    let config = parse(&["--user-agent", "probe/1"]).unwrap();
    assert_eq!(config.autonomous_user_agent(), "probe/1");
    assert_eq!(config.manual_user_agent(), "probe/1");
}

#[test]
fn both_flag_forms_agree() {
    let two = parse(&["--user-agent", "a", "--proxy-url", "http://p"]).unwrap();
    let one = parse(&["--user-agent=a", "--proxy-url=http://p"]).unwrap();
    assert_eq!(two.custom_user_agent, one.custom_user_agent);
    assert_eq!(two.proxy_url, one.proxy_url);
    assert_eq!(one.proxy_url, Some("http://p".to_string()));
    assert_eq!(parse(&["--user-agent="]).unwrap().custom_user_agent, Some(String::new()));
}

#[test]
fn last_flag_counts() {
    let config = parse(&["--user-agent", "a", "--user-agent=b", "--user-agent", "c"]).unwrap();
    assert_eq!(config.custom_user_agent, Some("c".to_string()));
    let config = parse(&["--proxy-url=p", "--ignore-robots-txt", "--proxy-url", "q"]).unwrap();
    assert_eq!(config.proxy_url, Some("q".to_string()));
}

#[test]
fn arguments_are_taken_in_order() {
    let config = parse(&["--ignore-robots-txt", "--user-agent", "--help"]).unwrap();
    assert!(config.ignore_robots_txt);
    assert_eq!(config.custom_user_agent, Some("--help".to_string()));
}

#[test]
fn missing_values_are_reported() {
    assert_eq!(parse(&["--user-agent"]).unwrap_err(), "--user-agent requires a value");
    assert_eq!(parse(&["--proxy-url"]).unwrap_err(), "--proxy-url requires a value");
}

#[test]
fn help_shows_usage() {
    let usage =
        "Usage: fetch-mcp-rs [--ignore-robots-txt] [--user-agent VALUE] [--proxy-url VALUE]";
    assert_eq!(parse(&["--help"]).unwrap_err(), usage);
    assert_eq!(parse(&["--ignore-robots-txt", "-h"]).unwrap_err(), usage);
}

#[test]
fn unknown_arguments_are_named() {
    assert_eq!(parse(&["--verbose"]).unwrap_err(), "Unknown argument: --verbose");
    assert_eq!(parse(&["--user-agents"]).unwrap_err(), "Unknown argument: --user-agents");
}
