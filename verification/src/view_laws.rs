//! The models that contracts speak of say all that the values hold, and nothing else.

use vstd::prelude::*;

use crate::body::{BodyModel, ResponseBody, MAX_DOWNLOAD_BYTES};
use crate::config::{config_outcome, text_view, texts, ConfigModel, ServerConfig};
use crate::error::{outcome, ErrorModel, FetchError};
use crate::html::str_view;
use crate::markdown::{Simplified, SimplifiedModel};
use crate::page::{FetchedPage, PageModel, Rendering, RenderingModel, HEAD_BYTES};
use crate::request::{text_outcome, FetchOptions, FetchRequest, OptionsModel, RequestModel,
    DEFAULT_MAX_LENGTH, MAX_ALLOWED_LENGTH};
use crate::robots::verdict_view;
use crate::server::{argument_view, is_fetch_prompt, PromptDefinition, FETCH_PROMPT, MAX_REDIRECTS,
    REQUEST_TIMEOUT_SECS, SERVER_INSTRUCTIONS};
use crate::session::{ErrandModel, Event, EventModel, Goal, GoalModel, Phase, PhaseModel, Reply,
    ReplyModel, Session, SessionModel, Step, StepModel};

verus! {

/// Texts are seen whole, in whatever they are wrapped.
pub proof fn law_texts_are_seen_whole(
    s: String,
    slice: &str,
    args: Seq<String>,
    i: int,
    allowed: bool,
    config: ServerConfig,
)
    ensures
        text_view(Some(s)) == Some(s@) && text_view(None) == None::<Seq<char>>,
        str_view(Some(slice)) == Some(slice@) && str_view(None) == None::<Seq<char>>,
        text_outcome(Ok(s)) == Ok::<Seq<char>, Seq<char>>(s@),
        text_outcome(Err(s)) == Err::<Seq<char>, Seq<char>>(s@),
        verdict_view(Ok(allowed)) == Ok::<bool, Seq<char>>(allowed),
        verdict_view(Err(s)) == Err::<bool, Seq<char>>(s@),
        config_outcome(Ok(config)) == Ok::<ConfigModel, Seq<char>>(config@),
        config_outcome(Err(s)) == Err::<ConfigModel, Seq<char>>(s@),
        argument_view(None) == None::<Result<Seq<char>, Seq<char>>>,
        argument_view(Some(Ok(s))) == Some(Ok::<Seq<char>, Seq<char>>(s@)),
        argument_view(Some(Err(s))) == Some(Err::<Seq<char>, Seq<char>>(s@)),
        texts(args).len() == args.len(),
        0 <= i < args.len() ==> texts(args)[i] == args[i]@,
{
}

/// Results are seen whole.
pub proof fn law_results_are_seen_whole(s: String, options: FetchOptions, error: FetchError)
    ensures
        error@ == (ErrorModel { kind: error.kind, message: error.message@ }),
        outcome(Ok::<String, FetchError>(s)) == Ok::<Seq<char>, ErrorModel>(s@),
        outcome(Err::<String, FetchError>(error)) == Err::<Seq<char>, ErrorModel>(error@),
        outcome(Ok::<FetchOptions, FetchError>(options)) == Ok::<OptionsModel, ErrorModel>(options@),
        outcome(Err::<FetchOptions, FetchError>(error)) == Err::<OptionsModel, ErrorModel>(error@),
{
}

/// Settings, requests, bodies and pages are seen whole.
pub proof fn law_data_is_seen_whole(
    config: ServerConfig,
    request: FetchRequest,
    options: FetchOptions,
    body: ResponseBody,
    page: FetchedPage,
)
    ensures
        config@.custom_user_agent == text_view(config.custom_user_agent),
        config@.ignore_robots_txt == config.ignore_robots_txt,
        config@.proxy_url == text_view(config.proxy_url),
        request@ == (RequestModel {
            url: request.url@,
            max_length: request.max_length,
            start_index: request.start_index,
            raw: request.raw,
        }),
        options@ == (OptionsModel {
            url: options.url@,
            max_length: options.max_length as nat,
            start_index: options.start_index as nat,
            raw: options.raw,
        }),
        body@ == (BodyModel { bytes: body.bytes@, truncated: body.truncated }),
        page@ == (PageModel { content: page.content@, prefix: page.prefix@ }),
{
}

/// What is made of a page is seen whole.
pub proof fn law_renderings_are_seen_whole(s: String, prefix: String, page: FetchedPage)
    ensures
        Simplified::Markdown(s)@ == SimplifiedModel::Markdown(s@),
        Simplified::Html(s)@ == SimplifiedModel::Html(s@),
        Rendering::Page(page)@ == RenderingModel::Page(page@),
        (Rendering::Convert { html: s, prefix })@ == (RenderingModel::Convert {
            html: s@,
            prefix: prefix@,
        }),
{
}

/// The state of a request is seen whole.
pub proof fn law_sessions_are_seen_whole(
    session: Session,
    options: FetchOptions,
    s: String,
    body: ResponseBody,
)
    ensures
        session@ == (SessionModel { errand: session.errand@, phase: session.phase@ }),
        session.errand@ == (ErrandModel {
            agent: session.errand.agent@,
            proxy_url: text_view(session.errand.proxy_url),
            goal: session.errand.goal@,
        }),
        Goal::Tool(options)@ == GoalModel::Tool(options@),
        Goal::Prompt(s)@ == GoalModel::Prompt(s@),
        (Phase::RobotsHead { robots_url: s })@ == (PhaseModel::RobotsHead { robots_url: s@ }),
        (Phase::RobotsBody { robots_url: s, body })@ == (PhaseModel::RobotsBody {
            robots_url: s@,
            body: body@,
        }),
        Phase::PageHead@ == PhaseModel::PageHead,
        (Phase::PageBody { content_type: s, body })@ == (PhaseModel::PageBody {
            content_type: s@,
            body: body@,
        }),
        (Phase::Conversion { prefix: s })@ == (PhaseModel::Conversion { prefix: s@ }),
{
}

/// Events are seen whole.
pub proof fn law_events_are_seen_whole(s: String, status: u16, bytes: Vec<u8>)
    ensures
        Event::ProxyRejected(s)@ == EventModel::ProxyRejected(s@),
        Event::ClientFailed(s)@ == EventModel::ClientFailed(s@),
        Event::SendFailed(s)@ == EventModel::SendFailed(s@),
        (Event::Head { status, content_type: s })@ == (EventModel::Head {
            status,
            content_type: s@,
        }),
        Event::Chunk(bytes)@ == EventModel::Chunk(bytes@),
        Event::BodyFailed(s)@ == EventModel::BodyFailed(s@),
        Event::BodyEnd@ == EventModel::BodyEnd,
        Event::Converted(s)@ == EventModel::Converted(s@),
{
}

/// Steps and replies are seen whole.
pub proof fn law_steps_are_seen_whole(
    session: Session,
    s: String,
    text: String,
    error: FetchError,
    reply: Reply,
)
    ensures
        (Step::Get { session, url: s })@ == (StepModel::Get { session: session@, url: s@ }),
        (Step::Read { session })@ == (StepModel::Read { session: session@ }),
        (Step::Convert { session, html: s })@ == (StepModel::Convert {
            session: session@,
            html: s@,
        }),
        Step::Reply(reply)@ == StepModel::Reply(reply@),
        Step::Fail(error)@ == StepModel::Fail(error@),
        Reply::Tool(s)@ == ReplyModel::Tool(s@),
        (Reply::Prompt { description: s, text })@ == (ReplyModel::Prompt {
            description: s@,
            text: text@,
        }),
{
}

/// The limits that the server keeps, and what it says of itself.
pub proof fn law_limits_of_the_server(prompt: PromptDefinition)
    ensures
        MAX_REDIRECTS == 5,
        REQUEST_TIMEOUT_SECS == 30,
        MAX_DOWNLOAD_BYTES == 5_000_000,
        DEFAULT_MAX_LENGTH == 5_000,
        MAX_ALLOWED_LENGTH == 1_000_000,
        HEAD_BYTES == 100,
        FETCH_PROMPT@ == "fetch"@,
        SERVER_INSTRUCTIONS@
            == "Fetch MCP server: fetch URLs, return markdown-ish text, and expose a fetch prompt."@,
        is_fetch_prompt(prompt) ==> {
            &&& prompt.name@ == "fetch"@
            &&& prompt.description@ == "Fetch a URL and extract its contents as markdown"@
            &&& prompt.arguments@.len() == 1
            &&& prompt.arguments@[0].name@ == "url"@
            &&& prompt.arguments@[0].description@ == "URL to fetch"@
            &&& prompt.arguments@[0].required
        },
{
}

} // verus!
