//! What each step of a request leads to, said of the addresses, texts and errors themselves.

use vstd::prelude::*;
use vstd::utf8::encode_utf8;

use crate::body::{utf8_lossy, BodyModel};
use crate::config::ConfigModel;
use crate::error::{ErrorKind, ErrorModel};
use crate::page::{markdown_page, rendered, PageModel, RenderingModel};
use crate::pagination::paginated;
use crate::request::{parsed_url, OptionsModel};
use crate::robots::{robots_gate, robots_location, robots_verdict, RobotsGate};
use crate::server::{prompt_started, tool_checked};
use crate::session::{ErrandModel, EventModel, GoalModel, PhaseModel, ReplyModel, SessionModel,
    StepModel};
use crate::text::decimal;
use crate::text_laws::{is_numeral, law_numeral_reads_back, number};

verus! {

/// The address that a request is for.
pub open spec fn address(goal: GoalModel) -> Seq<char> {
    match goal {
        GoalModel::Tool(options) => options.url,
        GoalModel::Prompt(url) => url,
    }
}

/// The step that asks for the page of `errand`.
pub open spec fn asks_for_page(errand: ErrandModel) -> StepModel {
    StepModel::Get {
        session: SessionModel { errand, phase: PhaseModel::PageHead },
        url: address(errand.goal),
    }
}

/// The step that answers with an error of the server's own.
pub open spec fn fails(message: Seq<char>) -> StepModel {
    StepModel::Fail(ErrorModel { kind: ErrorKind::Internal, message })
}

/// The step that answers with an error of the caller's.
pub open spec fn blames(message: Seq<char>) -> StepModel {
    StepModel::Fail(ErrorModel { kind: ErrorKind::InvalidParams, message })
}

/// The step that the rules of a site lead to: the page is asked for exactly where they allow
/// it to this agent, and otherwise the reason is given.
pub open spec fn obeys(
    errand: ErrandModel,
    robots_url: Seq<char>,
    verdict: Result<bool, Seq<char>>,
) -> StepModel {
    match verdict {
        Ok(true) => asks_for_page(errand),
        Ok(false) => fails(
            "The site's robots.txt ("@ + robots_url
                + ") specifies that autonomous fetching is not allowed for "@ + errand.agent + ": "@
                + address(errand.goal),
        ),
        Err(message) => fails("Failed to parse robots.txt "@ + robots_url + ": "@ + message),
    }
}

/// Behind the end of `robots.txt` the rules in all of its text decide, whatever its length:
/// asked for the agent of the request and the address of its page.
pub proof fn law_rules_decide(errand: ErrandModel, robots_url: Seq<char>, body: BodyModel)
    ensures
        (SessionModel { errand, phase: PhaseModel::RobotsBody { robots_url, body } }).advance(
            EventModel::BodyEnd,
        ) == obeys(
            errand,
            robots_url,
            robots_verdict(
                errand.agent,
                encode_utf8(utf8_lossy(body.bytes)),
                address(errand.goal),
            ),
        ),
{
}

/// Where the text of a `robots.txt` is known, the rules in all of it decide.
pub proof fn law_rules_in_text_decide(errand: ErrandModel, robots_url: Seq<char>, text: Seq<char>)
    ensures
        errand.robots_judged(robots_url, errand.verdict(text)) == obeys(
            errand,
            robots_url,
            robots_verdict(errand.agent, encode_utf8(text), address(errand.goal)),
        ),
        (SessionModel {
            errand,
            phase: PhaseModel::RobotsBody { robots_url, body: BodyModel::empty() },
        }).arrived(text, false) == obeys(
            errand,
            robots_url,
            robots_verdict(errand.agent, encode_utf8(text), address(errand.goal)),
        ),
{
}

/// A part of `robots.txt` is kept and more is waited for, until a part does not fit; then the
/// rules in what has been kept decide.
pub proof fn law_robots_txt_is_gathered(
    errand: ErrandModel,
    robots_url: Seq<char>,
    body: BodyModel,
    chunk: Seq<u8>,
)
    ensures
        (SessionModel { errand, phase: PhaseModel::RobotsBody { robots_url, body } }).advance(
            EventModel::Chunk(chunk),
        ) == if body.accept(chunk).truncated {
            obeys(
                errand,
                robots_url,
                robots_verdict(
                    errand.agent,
                    encode_utf8(utf8_lossy(body.accept(chunk).bytes)),
                    address(errand.goal),
                ),
            )
        } else {
            StepModel::Read {
                session: SessionModel {
                    errand,
                    phase: PhaseModel::RobotsBody { robots_url, body: body.accept(chunk) },
                },
            }
        },
{
}

/// The status of `robots.txt` settles whether its rules are read at all.
pub proof fn law_status_of_robots_txt_settles(
    errand: ErrandModel,
    robots_url: Seq<char>,
    status: u16,
    content_type: Seq<char>,
)
    ensures
        ({
            let next = SessionModel {
                errand,
                phase: PhaseModel::RobotsHead { robots_url },
            }.advance(EventModel::Head { status, content_type });
            &&& status == 401 || status == 403 ==> exists|digits: Seq<char>|
                {
                    &&& next == fails(
                        "When fetching robots.txt ("@ + robots_url + "), received status "@ + digits
                            + " so assuming autonomous fetching is not allowed."@,
                    )
                    &&& is_numeral(digits)
                    &&& #[trigger] number(digits) == status
                }
            &&& 400 <= status < 500 && status != 401 && status != 403 ==> next == asks_for_page(
                errand,
            )
            &&& status < 400 || status >= 500 ==> next == (StepModel::Read {
                session: SessionModel {
                    errand,
                    phase: PhaseModel::RobotsBody {
                        robots_url,
                        body: BodyModel { bytes: Seq::empty(), truncated: false },
                    },
                },
            })
        }),
        robots_gate(status) == RobotsGate::Refused <==> (status == 401 || status == 403),
        robots_gate(status) == RobotsGate::Open <==> (400 <= status < 500 && status != 401 && status
            != 403),
{
    law_numeral_reads_back(status as nat);
    let digits = decimal(status as nat);
    assert(number(digits) == status);
}

/// The status of the page settles whether it is read at all.
pub proof fn law_status_of_page_settles(
    errand: ErrandModel,
    status: u16,
    content_type: Seq<char>,
)
    ensures
        ({
            let next = SessionModel { errand, phase: PhaseModel::PageHead }.advance(
                EventModel::Head { status, content_type },
            );
            &&& status >= 400 ==> exists|digits: Seq<char>|
                {
                    &&& next == fails(
                        "Failed to fetch "@ + address(errand.goal) + " - status code "@ + digits,
                    )
                    &&& is_numeral(digits)
                    &&& #[trigger] number(digits) == status
                }
            &&& status < 400 ==> next == (StepModel::Read {
                session: SessionModel {
                    errand,
                    phase: PhaseModel::PageBody {
                        content_type,
                        body: BodyModel { bytes: Seq::empty(), truncated: false },
                    },
                },
            })
        }),
{
    law_numeral_reads_back(status as nat);
    let digits = decimal(status as nat);
    assert(number(digits) == status);
}

/// What a request is answered with once its page is ready: a tool call with the piece that was
/// asked for, a prompt with all of the page.
pub open spec fn answers(errand: ErrandModel, page: PageModel) -> StepModel {
    StepModel::Reply(
        match errand.goal {
            GoalModel::Tool(options) => ReplyModel::Tool(
                paginated(
                    options.url,
                    page.content,
                    page.prefix,
                    options.start_index,
                    options.max_length,
                ),
            ),
            GoalModel::Prompt(url) => ReplyModel::Prompt {
                description: "Contents of "@ + url,
                text: page.prefix + page.content,
            },
        },
    )
}

/// The step that the rendering of a page leads to.
pub open spec fn shows(errand: ErrandModel, rendering: RenderingModel) -> StepModel {
    match rendering {
        RenderingModel::Page(page) => answers(errand, page),
        RenderingModel::Convert { html, prefix } => StepModel::Convert {
            session: SessionModel { errand, phase: PhaseModel::Conversion { prefix } },
            html,
        },
    }
}

/// Whether a request wants its page as it is: a tool call may, a prompt never does.
pub open spec fn wants_raw(goal: GoalModel) -> bool {
    goal matches GoalModel::Tool(options) && options.raw
}

/// Behind the end of the page all of its text is shown, whatever its length.
pub proof fn law_page_is_shown_at_its_end(
    errand: ErrandModel,
    content_type: Seq<char>,
    body: BodyModel,
)
    ensures
        (SessionModel { errand, phase: PhaseModel::PageBody { content_type, body } }).advance(
            EventModel::BodyEnd,
        ) == shows(
            errand,
            rendered(
                utf8_lossy(body.bytes),
                body.truncated,
                content_type,
                wants_raw(errand.goal),
            ),
        ),
{
}

/// Where the text of a page is known, all of it is shown.
pub proof fn law_text_of_page_is_shown(
    errand: ErrandModel,
    content_type: Seq<char>,
    body: BodyModel,
    text: Seq<char>,
    truncated: bool,
)
    ensures
        (SessionModel { errand, phase: PhaseModel::PageBody { content_type, body } }).arrived(
            text,
            truncated,
        ) == shows(errand, rendered(text, truncated, content_type, wants_raw(errand.goal))),
{
}

/// A part of the page is kept and more is waited for, until a part does not fit; then what has
/// been kept is shown.
pub proof fn law_page_is_gathered(
    errand: ErrandModel,
    content_type: Seq<char>,
    body: BodyModel,
    chunk: Seq<u8>,
)
    ensures
        (SessionModel { errand, phase: PhaseModel::PageBody { content_type, body } }).advance(
            EventModel::Chunk(chunk),
        ) == if body.accept(chunk).truncated {
            shows(
                errand,
                rendered(
                    utf8_lossy(body.accept(chunk).bytes),
                    true,
                    content_type,
                    wants_raw(errand.goal),
                ),
            )
        } else {
            StepModel::Read {
                session: SessionModel {
                    errand,
                    phase: PhaseModel::PageBody { content_type, body: body.accept(chunk) },
                },
            }
        },
{
}

/// Whatever Markdown comes of a page, all of it is shown.
pub proof fn law_converted_page_is_shown(
    errand: ErrandModel,
    prefix: Seq<char>,
    markdown: Seq<char>,
)
    ensures
        (SessionModel { errand, phase: PhaseModel::Conversion { prefix } }).advance(
            EventModel::Converted(markdown),
        ) == answers(errand, markdown_page(markdown, prefix)),
{
}

/// What goes wrong on the way is answered with its own message.
pub proof fn law_failures_are_answered(session: SessionModel, message: Seq<char>)
    ensures
        session.advance(EventModel::ProxyRejected(message)) == blames(
            "Invalid proxy URL: "@ + message,
        ),
        session.advance(EventModel::ClientFailed(message)) == fails(message),
        session.advance(EventModel::BodyFailed(message)) == fails(message),
        session.phase is PageHead ==> session.advance(EventModel::SendFailed(message)) == fails(
            "Failed to fetch "@ + address(session.errand.goal) + ": "@ + message,
        ),
        session.phase matches PhaseModel::RobotsHead { robots_url } ==> session.advance(
            EventModel::SendFailed(message),
        ) == fails(
            "Failed to fetch robots.txt "@ + robots_url + " due to a connection issue: "@ + message,
        ),
{
}

/// A request waits for what its outside work can give: the head of a response or the reason
/// why there is none, the parts of a body and its end, or Markdown.
pub proof fn law_requests_wait_for_their_work(session: SessionModel, event: EventModel)
    ensures
        session.expects(event) <==> match event {
            EventModel::ProxyRejected(_)
            | EventModel::ClientFailed(_)
            | EventModel::SendFailed(_)
            | EventModel::Head { .. } => session.phase is RobotsHead || session.phase is PageHead,
            EventModel::Chunk(_)
            | EventModel::BodyFailed(_)
            | EventModel::BodyEnd => session.phase is RobotsBody || session.phase is PageBody,
            EventModel::Converted(_) => session.phase is Conversion,
        },
{
}

/// The agent that is configured, or else `usual`.
pub open spec fn agent_or(config: ConfigModel, usual: Seq<char>) -> Seq<char> {
    match config.custom_user_agent {
        Some(agent) => agent,
        None => usual,
    }
}

/// A tool call that has been checked goes to `robots.txt` first, under the agent of tool calls
/// and through the configured proxy; only a server that ignores `robots.txt` goes to the page at
/// once.
pub proof fn law_tool_call_begins(config: ConfigModel, options: OptionsModel, error: ErrorModel)
    ensures
        ({
            let errand = ErrandModel {
                agent: agent_or(
                    config,
                    "ModelContextProtocol/1.0 (Autonomous; +https://github.com/modelcontextprotocol/servers)"@,
                ),
                proxy_url: config.proxy_url,
                goal: GoalModel::Tool(options),
            };
            &&& config.ignore_robots_txt ==> tool_checked(config, Ok(options)) == asks_for_page(
                errand,
            )
            &&& !config.ignore_robots_txt ==> tool_checked(config, Ok(options)) == match robots_location(
                options.url,
            ) {
                Ok(robots_url) => StepModel::Get {
                    session: SessionModel { errand, phase: PhaseModel::RobotsHead { robots_url } },
                    url: robots_url,
                },
                Err(message) => fails("Failed to derive robots.txt URL: "@ + message),
            }
        }),
        tool_checked(config, Err(error)) == StepModel::Fail(error),
{
}

/// A prompt goes to its page at once, under the agent of prompts and through the configured
/// proxy, and only the `fetch` prompt with an acceptable URL does.
pub proof fn law_prompt_begins(
    config: ConfigModel,
    name: Seq<char>,
    argument: Option<Result<Seq<char>, Seq<char>>>,
)
    ensures
        prompt_started(config, name, argument) == if name != "fetch"@ {
            blames("Unknown prompt: "@ + name)
        } else {
            match argument {
                None => blames("URL is required"@),
                Some(Err(message)) => blames(message),
                Some(Ok(url)) => match parsed_url(url) {
                    Err(message) => blames("Invalid URL: "@ + message),
                    Ok(parsed) => asks_for_page(
                        ErrandModel {
                            agent: agent_or(
                                config,
                                "ModelContextProtocol/1.0 (User-Specified; +https://github.com/modelcontextprotocol/servers)"@,
                            ),
                            proxy_url: config.proxy_url,
                            goal: GoalModel::Prompt(parsed),
                        },
                    ),
                },
            }
        },
{
}

} // verus!
