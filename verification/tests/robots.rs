use fetch_mcp_rs::error::ErrorKind;
use fetch_mcp_rs::robots::{
    judge_robots_status, robots_connection_failure, robots_location_failure, robots_objection,
    robots_refusal, RobotsGate,
};

#[test]
fn statuses_are_judged() {
    for status in [401, 403] {
        assert_eq!(judge_robots_status(status), RobotsGate::Refused);
    }
    for status in [400, 402, 404, 410, 429, 499] {
        assert_eq!(judge_robots_status(status), RobotsGate::Open);
    }
    for status in [200, 204, 301, 399, 500, 503] {
        assert_eq!(judge_robots_status(status), RobotsGate::Rules);
    }
}

#[test]
fn rules_decide() {
    assert!(robots_objection("r", "agent", "u", Ok(true)).is_none());
    let error = robots_objection("r", "agent", "u", Ok(false)).unwrap();
    assert_eq!(
        error.message,
        "The site's robots.txt (r) specifies that autonomous fetching is not allowed for agent: u"
    );
    let error = robots_objection("r", "agent", "u", Err("bad".to_string())).unwrap();
    assert_eq!(error.message, "Failed to parse robots.txt r: bad");
    assert_eq!(error.kind, ErrorKind::Internal);
}

#[test]
fn failures_name_the_file() {
    assert_eq!(robots_location_failure("x").message, "Failed to derive robots.txt URL: x");
    assert_eq!(
        robots_connection_failure("r", "x").message,
        "Failed to fetch robots.txt r due to a connection issue: x"
    );
    assert_eq!(
        robots_refusal("r", 403).message,
        "When fetching robots.txt (r), received status 403 so assuming autonomous fetching is not \
         allowed."
    );
}
