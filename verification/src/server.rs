//! The server: how tool calls and prompts begin, and what the server says of
//! itself.

use vstd::prelude::*;

use crate::config::{ConfigModel, ServerConfig};
use crate::error::{invalid, invalid_params, outcome, ErrorModel, FetchError};
use crate::request::{parse_fetch_request, parsed_url, requested, text_outcome, validate_url,
    validated, FetchOptions, FetchRequest, OptionsModel};
use crate::robots::robots_location;
use crate::session::{Errand, ErrandModel, Goal, GoalModel, Step, StepModel};
use crate::text::same_text;

verus! {

/// The name of the server's only prompt.
pub const FETCH_PROMPT: &'static str = "fetch";

/// How many redirects a client follows.
pub const MAX_REDIRECTS: usize = 5;

/// How long a client waits for a response.
pub const REQUEST_TIMEOUT_SECS: u64 = 30;

/// What the server tells its clients about itself.
pub const SERVER_INSTRUCTIONS: &'static str =
    "Fetch MCP server: fetch URLs, return markdown-ish text, and expose a fetch prompt.";

/// The server.
#[derive(Debug)]
pub struct FetchServer {
    pub config: ServerConfig,
}

impl Clone for FetchServer {
    fn clone(&self) -> (res: FetchServer)
        ensures
            res.config@ == self.config@,
    {
        FetchServer { config: self.config.clone() }
    }
}

/// An argument of a prompt.
#[derive(Debug)]
pub struct PromptArgumentDefinition {
    pub name: String,
    pub description: String,
    pub required: bool,
}

/// A prompt that the server offers.
#[derive(Debug)]
pub struct PromptDefinition {
    pub name: String,
    pub description: String,
    pub arguments: Vec<PromptArgumentDefinition>,
}

/// How the request that a tool call makes is carried out.
pub open spec fn tool_errand(config: ConfigModel, options: OptionsModel) -> ErrandModel {
    ErrandModel {
        agent: config.autonomous_agent(),
        proxy_url: config.proxy_url,
        goal: GoalModel::Tool(options),
    }
}

/// How the request that a prompt makes is carried out.
pub open spec fn prompt_errand(config: ConfigModel, url: Seq<char>) -> ErrandModel {
    ErrandModel {
        agent: config.manual_agent(),
        proxy_url: config.proxy_url,
        goal: GoalModel::Prompt(url),
    }
}

/// The first step of a tool call that has been checked: `robots.txt` comes before the
/// page, unless the server is told to ignore it.
pub open spec fn tool_started(config: ConfigModel, options: OptionsModel) -> StepModel {
    if config.ignore_robots_txt {
        tool_errand(config, options).page_request()
    } else {
        tool_errand(config, options).robots_request(robots_location(options.url))
    }
}

/// The first step of a tool call, given what the checks made of it.
pub open spec fn tool_checked(
    config: ConfigModel,
    checked: Result<OptionsModel, ErrorModel>,
) -> StepModel {
    match checked {
        Err(error) => StepModel::Fail(error),
        Ok(options) => tool_started(config, options),
    }
}

/// The URL that a prompt is for, as far as that can be told without parsing it.
/// `argument` is the prompt's argument where it has arguments at all, or the message
/// that says why they could not be read.
pub open spec fn prompt_subject(
    name: Seq<char>,
    argument: Option<Result<Seq<char>, Seq<char>>>,
) -> Result<Seq<char>, ErrorModel> {
    if name != FETCH_PROMPT@ {
        Err(invalid("Unknown prompt: "@ + name))
    } else {
        match argument {
            None => Err(invalid("URL is required"@)),
            Some(Err(message)) => Err(invalid(message)),
            Some(Ok(url)) => Ok(url),
        }
    }
}

/// The first step of a prompt, given what was made of its URL.
pub open spec fn prompt_checked(
    config: ConfigModel,
    checked: Result<Seq<char>, ErrorModel>,
) -> StepModel {
    match checked {
        Err(error) => StepModel::Fail(error),
        Ok(url) => prompt_errand(config, url).page_request(),
    }
}

/// The first step of a prompt.
pub open spec fn prompt_started(
    config: ConfigModel,
    name: Seq<char>,
    argument: Option<Result<Seq<char>, Seq<char>>>,
) -> StepModel {
    match prompt_subject(name, argument) {
        Err(error) => StepModel::Fail(error),
        Ok(url) => prompt_checked(config, validated(parsed_url(url))),
    }
}

/// What the argument of a prompt says.
pub open spec fn argument_view(argument: Option<Result<String, String>>) -> Option<
    Result<Seq<char>, Seq<char>>,
> {
    match argument {
        None => None,
        Some(result) => Some(text_outcome(result)),
    }
}

/// The URL that a prompt is for, unless it has none.
pub fn prompt_url(name: &str, argument: Option<Result<String, String>>) -> (res: Result<
    String,
    FetchError,
>)
    ensures
        outcome(res) == prompt_subject(name@, argument_view(argument)),
{
    if !same_text(name, FETCH_PROMPT) {
        let mut text = "Unknown prompt: ".to_owned();
        text.append(name);
        return Err(invalid_params(text));
    }
    match argument {
        None => Err(invalid_params("URL is required".to_owned())),
        Some(Err(message)) => Err(invalid_params(message)),
        Some(Ok(url)) => Ok(url),
    }
}

impl FetchServer {
    /// A server with these settings.
    pub fn new(config: ServerConfig) -> (res: FetchServer)
        ensures
            res.config == config,
    {
        FetchServer { config }
    }

    /// Begins a tool call that has been checked.
    pub fn start_tool(&self, options: FetchOptions) -> (res: Step)
        ensures
            res@ == tool_started(self.config@, options@),
    {
        let errand = Errand {
            agent: self.config.autonomous_user_agent().to_owned(),
            proxy_url: self.config.proxy_url.clone(),
            goal: Goal::Tool(options),
        };
        if self.config.ignore_robots_txt {
            errand.request_page()
        } else {
            errand.start_with_robots()
        }
    }

    /// Begins a tool call, given what the checks made of it.
    pub fn fetch_checked(&self, checked: Result<FetchOptions, FetchError>) -> (res: Step)
        ensures
            res@ == tool_checked(self.config@, outcome(checked)),
    {
        match checked {
            Err(error) => Step::Fail(error),
            Ok(options) => self.start_tool(options),
        }
    }

    /// Begins a tool call.
    pub fn fetch(&self, request: FetchRequest) -> (res: Step)
        ensures
            res@ == tool_checked(self.config@, requested(request@, parsed_url(request@.url))),
    {
        self.fetch_checked(parse_fetch_request(request))
    }

    /// Begins a prompt, given what was made of its URL.
    pub fn prompt_for(&self, checked: Result<String, FetchError>) -> (res: Step)
        ensures
            res@ == prompt_checked(self.config@, outcome(checked)),
    {
        match checked {
            Err(error) => Step::Fail(error),
            Ok(url) => Errand {
                agent: self.config.manual_user_agent().to_owned(),
                proxy_url: self.config.proxy_url.clone(),
                goal: Goal::Prompt(url),
            }.request_page(),
        }
    }

    /// Begins a prompt. `argument` is the prompt's argument where it has arguments at
    /// all, or the message that says why they could not be read.
    pub fn get_prompt(&self, name: &str, argument: Option<Result<String, String>>) -> (res: Step)
        ensures
            res@ == prompt_started(self.config@, name@, argument_view(argument)),
    {
        match prompt_url(name, argument) {
            Err(error) => Step::Fail(error),
            Ok(url) => self.prompt_for(validate_url(url.as_str())),
        }
    }

    /// The prompts that the server offers.
    pub fn list_prompts(&self) -> (res: Vec<PromptDefinition>)
        ensures
            res@.len() == 1,
            is_fetch_prompt(res@[0]),
    {
        let mut prompts: Vec<PromptDefinition> = Vec::new();
        prompts.push(fetch_prompt_definition());
        prompts
    }
}

/// The definition is that of the `fetch` prompt: it takes one argument, the URL, which
/// must be given.
pub open spec fn is_fetch_prompt(prompt: PromptDefinition) -> bool {
    &&& prompt.name@ == FETCH_PROMPT@
    &&& prompt.description@ == "Fetch a URL and extract its contents as markdown"@
    &&& prompt.arguments@.len() == 1
    &&& prompt.arguments@[0].name@ == "url"@
    &&& prompt.arguments@[0].description@ == "URL to fetch"@
    &&& prompt.arguments@[0].required
}

/// The definition of the `fetch` prompt.
pub fn fetch_prompt_definition() -> (res: PromptDefinition)
    ensures
        is_fetch_prompt(res),
{
    let mut arguments: Vec<PromptArgumentDefinition> = Vec::new();
    arguments.push(
        PromptArgumentDefinition {
            name: "url".to_owned(),
            description: "URL to fetch".to_owned(),
            required: true,
        },
    );
    PromptDefinition {
        name: FETCH_PROMPT.to_owned(),
        description: "Fetch a URL and extract its contents as markdown".to_owned(),
        arguments,
    }
}

} // verus!
