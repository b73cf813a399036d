//! Whether a site lets its pages be fetched without a person asking for them.

use vstd::prelude::*;

use crate::error::{internal, internal_error, ErrorModel, FetchError};
use crate::request::text_outcome;
use crate::text::{append_decimal, decimal};

verus! {

/// Where the `robots.txt` of a page's site is found, or the text of the error that
/// says why there is none.
pub uninterp spec fn robots_location(url: Seq<char>) -> Result<Seq<char>, Seq<char>>;

/// Derives the address of `robots.txt` with `texting_robots::get_robots_url`. The
/// result, named [`robots_location`], depends on the URL alone. An error is handed on
/// as its text.
#[verifier::external_body]
pub(crate) fn locate_robots(url: &str) -> (res: Result<String, String>)
    ensures
        text_outcome(res) == robots_location(url@),
{
    match texting_robots::get_robots_url(url) {
        Ok(location) => Ok(location),
        Err(err) => Err(err.to_string()),
    }
}

/// What the rules of a `robots.txt` say of a user agent and a URL, or the text of the
/// error that the rules could not be read for.
pub uninterp spec fn robots_verdict(
    agent: Seq<char>,
    rules: Seq<u8>,
    url: Seq<char>,
) -> Result<bool, Seq<char>>;

/// What a verdict says.
pub open spec fn verdict_view(verdict: Result<bool, String>) -> Result<bool, Seq<char>> {
    match verdict {
        Ok(allowed) => Ok(allowed),
        Err(message) => Err(message@),
    }
}

/// Reads `rules` for `agent` with `texting_robots::Robot::new` and asks the rules
/// about `url` with `Robot::allowed`. The answer, named [`robots_verdict`], depends on
/// the three arguments alone. An error is handed on as its text.
#[verifier::external_body]
pub(crate) fn consult_rules(agent: &str, rules: &[u8], url: &str) -> (res: Result<bool, String>)
    ensures
        verdict_view(res) == robots_verdict(agent@, rules@, url@),
{
    match texting_robots::Robot::new(agent, rules) {
        Ok(robot) => Ok(robot.allowed(url)),
        Err(err) => Err(err.to_string()),
    }
}

/// What the status of the answer to the request for `robots.txt` settles.
#[derive(Debug, Clone, Copy, PartialEq, Eq, Structural)]
pub enum RobotsGate {
    /// The site refuses to say: nothing may be fetched.
    Refused,
    /// There are no rules: everything may be fetched.
    Open,
    /// The rules decide.
    Rules,
}

/// What a status settles: 401 and 403 refuse, any other client error means that there
/// are no rules, and with every other status the rules are read.
pub open spec fn robots_gate(status: u16) -> RobotsGate {
    if status == 401 || status == 403 {
        RobotsGate::Refused
    } else if 400 <= status < 500 {
        RobotsGate::Open
    } else {
        RobotsGate::Rules
    }
}

/// What the status of the answer to the request for `robots.txt` settles.
pub fn judge_robots_status(status: u16) -> (res: RobotsGate)
    ensures
        res == robots_gate(status),
{
    if status == 401 || status == 403 {
        RobotsGate::Refused
    } else if 400 <= status && status < 500 {
        RobotsGate::Open
    } else {
        RobotsGate::Rules
    }
}

/// The error for a page whose site has no address for `robots.txt`.
pub open spec fn location_failure(message: Seq<char>) -> ErrorModel {
    internal("Failed to derive robots.txt URL: "@ + message)
}

/// The error for a `robots.txt` that could not be asked for.
pub open spec fn connection_failure(robots_url: Seq<char>, message: Seq<char>) -> ErrorModel {
    internal(
        "Failed to fetch robots.txt "@ + robots_url + " due to a connection issue: "@ + message,
    )
}

/// The error for a site that refuses to show its `robots.txt`.
pub open spec fn refusal(robots_url: Seq<char>, status: nat) -> ErrorModel {
    internal(
        "When fetching robots.txt ("@ + robots_url + "), received status "@ + decimal(status)
            + " so assuming autonomous fetching is not allowed."@,
    )
}

/// The error for a `robots.txt` that could not be read.
pub open spec fn unreadable_rules(robots_url: Seq<char>, message: Seq<char>) -> ErrorModel {
    internal("Failed to parse robots.txt "@ + robots_url + ": "@ + message)
}

/// The error for a page that the rules keep from being fetched.
pub open spec fn disallowed(
    robots_url: Seq<char>,
    agent: Seq<char>,
    url: Seq<char>,
) -> ErrorModel {
    internal(
        "The site's robots.txt ("@ + robots_url
            + ") specifies that autonomous fetching is not allowed for "@ + agent + ": "@ + url,
    )
}

/// Why a page may not be fetched, given what the rules say of it.
pub open spec fn objection(
    robots_url: Seq<char>,
    agent: Seq<char>,
    url: Seq<char>,
    verdict: Result<bool, Seq<char>>,
) -> Option<ErrorModel> {
    match verdict {
        Err(message) => Some(unreadable_rules(robots_url, message)),
        Ok(allowed) => if allowed {
            None
        } else {
            Some(disallowed(robots_url, agent, url))
        },
    }
}

/// The error for a page whose site has no address for `robots.txt`.
pub fn robots_location_failure(message: &str) -> (res: FetchError)
    ensures
        res@ == location_failure(message@),
{
    let mut text = "Failed to derive robots.txt URL: ".to_owned();
    text.append(message);
    internal_error(text)
}

/// The error for a `robots.txt` that could not be asked for.
pub fn robots_connection_failure(robots_url: &str, message: &str) -> (res: FetchError)
    ensures
        res@ == connection_failure(robots_url@, message@),
{
    let mut text = "Failed to fetch robots.txt ".to_owned();
    text.append(robots_url);
    text.append(" due to a connection issue: ");
    text.append(message);
    internal_error(text)
}

/// The error for a site that refuses to show its `robots.txt`.
pub fn robots_refusal(robots_url: &str, status: u16) -> (res: FetchError)
    ensures
        res@ == refusal(robots_url@, status as nat),
{
    let mut text = "When fetching robots.txt (".to_owned();
    text.append(robots_url);
    text.append("), received status ");
    append_decimal(&mut text, status as usize);
    text.append(" so assuming autonomous fetching is not allowed.");
    internal_error(text)
}

/// Why a page may not be fetched, given what the rules say of it.
pub fn robots_objection(
    robots_url: &str,
    agent: &str,
    url: &str,
    verdict: Result<bool, String>,
) -> (res: Option<FetchError>)
    ensures
        (match res {
            Some(error) => Some(error@),
            None => None,
        }) == objection(robots_url@, agent@, url@, verdict_view(verdict)),
{
    match verdict {
        Err(message) => {
            let mut text = "Failed to parse robots.txt ".to_owned();
            text.append(robots_url);
            text.append(": ");
            text.append(message.as_str());
            Some(internal_error(text))
        },
        Ok(allowed) => {
            if allowed {
                return None;
            }
            let mut text = "The site's robots.txt (".to_owned();
            text.append(robots_url);
            text.append(") specifies that autonomous fetching is not allowed for ");
            text.append(agent);
            text.append(": ");
            text.append(url);
            Some(internal_error(text))
        },
    }
}

} // verus!
