//! What holds of a request from its first step to its last, whatever happens in
//! between.

use vstd::prelude::*;

use crate::body::{utf8_lossy, BodyModel};
use crate::config::ConfigModel;
use crate::error::ErrorModel;
use crate::markdown::markdown_of;
use crate::page::{markdown_page, shown, status_failure};
use crate::request::OptionsModel;
use crate::robots::{disallowed, location_failure, refusal, robots_gate, robots_location,
    unreadable_rules, RobotsGate};
use crate::server::{prompt_started, tool_checked, tool_errand, tool_started};
use crate::session::{ErrandModel, EventModel, PhaseModel, SessionModel, StepModel};

verus! {

/// The step that is due once `events` have happened. An event that cannot happen ends
/// the run.
pub open spec fn run(step: StepModel, events: Seq<EventModel>) -> StepModel
    decreases events.len(),
{
    if events.len() == 0 {
        step
    } else {
        match step.session() {
            None => step,
            Some(session) => if session.expects(events[0]) {
                run(session.advance(events[0]), events.drop_first())
            } else {
                step
            },
        }
    }
}

/// `event` is the site's leave to fetch the page: `robots.txt` does not exist, or it has
/// been read and its rules allow the page.
pub open spec fn grants(session: SessionModel, event: EventModel) -> bool {
    match (session.phase, event) {
        (PhaseModel::RobotsHead { .. }, EventModel::Head { status, .. }) => robots_gate(status)
            == RobotsGate::Open,
        (PhaseModel::RobotsBody { body, .. }, EventModel::BodyEnd) => session.errand.verdict(
            utf8_lossy(body.bytes),
        ) == Ok::<bool, Seq<char>>(true),
        (PhaseModel::RobotsBody { body, .. }, EventModel::Chunk(bytes)) => {
            &&& body.accept(bytes).truncated
            &&& session.errand.verdict(utf8_lossy(body.accept(bytes).bytes)) == Ok::<
                bool,
                Seq<char>,
            >(true)
        },
        _ => false,
    }
}

/// The request is still about `robots.txt`, or it has failed.
pub open spec fn held_back(step: StepModel) -> bool {
    match step.session() {
        Some(session) => session.phase.about_robots(),
        None => step is Fail,
    }
}

/// The `i`th of the events comes at a point of the run where it is the site's leave.
pub open spec fn granted_at(step: StepModel, events: Seq<EventModel>, i: int) -> bool {
    &&& 0 <= i < events.len()
    &&& run(step, events.take(i)).session() matches Some(session) && session.expects(events[i])
        && grants(session, events[i])
}

proof fn lemma_granted_later(
    step: StepModel,
    session: SessionModel,
    events: Seq<EventModel>,
    i: int,
)
    requires
        events.len() > 0,
        step.session() == Some(session),
        session.expects(events[0]),
        granted_at(session.advance(events[0]), events.drop_first(), i),
    ensures
        granted_at(step, events, i + 1),
{
    let front = events.take(i + 1);
    assert(front.drop_first() =~= events.drop_first().take(i));
    assert(run(step, front) == run(session.advance(events[0]), events.drop_first().take(i)));
}

/// A request that is held back goes on to its page only with the site's leave.
pub proof fn law_page_needs_leave(step: StepModel, events: Seq<EventModel>)
    requires
        held_back(step),
    ensures
        !held_back(run(step, events)) ==> exists|i: int| #[trigger] granted_at(step, events, i),
    decreases events.len(),
{
    if events.len() > 0 {
        if let Some(session) = step.session() {
            if session.expects(events[0]) {
                let next = session.advance(events[0]);
                if held_back(next) {
                    law_page_needs_leave(next, events.drop_first());
                    if !held_back(run(step, events)) {
                        let i = choose|i: int| #[trigger]
                            granted_at(next, events.drop_first(), i);
                        lemma_granted_later(step, session, events, i);
                        assert(granted_at(step, events, i + 1));
                    }
                } else {
                    assert(events.take(0) =~= Seq::empty());
                    assert(run(step, events.take(0)) == step);
                    assert(grants(session, events[0]));
                    assert(granted_at(step, events, 0));
                }
            }
        }
    }
}

/// A tool call obeys `robots.txt`: unless the server is told to ignore it, the page is
/// asked for, and the call answered from it, only with the site's leave.
pub proof fn law_tool_call_obeys_robots(
    config: ConfigModel,
    checked: Result<OptionsModel, ErrorModel>,
    events: Seq<EventModel>,
)
    requires
        !config.ignore_robots_txt,
    ensures
        held_back(tool_checked(config, checked)),
        !held_back(run(tool_checked(config, checked), events)) ==> exists|i: int| #[trigger]
            granted_at(tool_checked(config, checked), events, i),
{
    law_page_needs_leave(tool_checked(config, checked), events);
}

/// The rules that are asked are those of the page's own site, for the agent that asks.
pub proof fn law_robots_txt_is_of_the_site(config: ConfigModel, options: OptionsModel)
    requires
        !config.ignore_robots_txt,
    ensures
        match robots_location(options.url) {
            Ok(robots_url) => tool_started(config, options) == (StepModel::Get {
                session: tool_errand(config, options).at(PhaseModel::RobotsHead { robots_url }),
                url: robots_url,
            }),
            Err(message) => tool_started(config, options) == StepModel::Fail(
                location_failure(message),
            ),
        },
{
}

/// The step does not go back to `robots.txt`.
pub open spec fn past_robots(step: StepModel) -> bool {
    match step.session() {
        Some(session) => !session.phase.about_robots(),
        None => true,
    }
}

/// A request that is past `robots.txt` stays past it.
pub proof fn law_robots_are_asked_once(step: StepModel, events: Seq<EventModel>)
    requires
        past_robots(step),
    ensures
        past_robots(run(step, events)),
    decreases events.len(),
{
    if events.len() > 0 {
        if let Some(session) = step.session() {
            if session.expects(events[0]) {
                law_robots_are_asked_once(session.advance(events[0]), events.drop_first());
            }
        }
    }
}

/// A prompt never asks for `robots.txt`.
pub proof fn law_prompt_ignores_robots(
    config: ConfigModel,
    name: Seq<char>,
    argument: Option<Result<Seq<char>, Seq<char>>>,
    events: Seq<EventModel>,
)
    ensures
        past_robots(run(prompt_started(config, name, argument), events)),
{
    law_robots_are_asked_once(prompt_started(config, name, argument), events);
}

/// A server that is told to ignore `robots.txt` never asks for it.
pub proof fn law_ignoring_server_skips_robots(
    config: ConfigModel,
    checked: Result<OptionsModel, ErrorModel>,
    events: Seq<EventModel>,
)
    requires
        config.ignore_robots_txt,
    ensures
        past_robots(run(tool_checked(config, checked), events)),
{
    law_robots_are_asked_once(tool_checked(config, checked), events);
}

/// Whatever happens, a request keeps its agent, its proxy and its goal.
pub proof fn law_errand_is_kept(step: StepModel, errand: ErrandModel, events: Seq<EventModel>)
    requires
        step.session() matches Some(session) ==> session.errand == errand,
    ensures
        run(step, events).session() matches Some(session) ==> session.errand == errand,
    decreases events.len(),
{
    if events.len() > 0 {
        if let Some(session) = step.session() {
            if session.expects(events[0]) {
                law_errand_is_kept(session.advance(events[0]), errand, events.drop_first());
            }
        }
    }
}

/// What a step asks for is what its state says: the page itself, or the `robots.txt` that
/// was located for it.
pub open spec fn asks_rightly(step: StepModel) -> bool {
    match step {
        StepModel::Get { session, url } => match session.phase {
            PhaseModel::RobotsHead { robots_url } => url == robots_url,
            PhaseModel::PageHead => url == session.errand.goal.url(),
            _ => false,
        },
        StepModel::Read { session } => session.phase is RobotsBody || session.phase is PageBody,
        StepModel::Convert { session, .. } => session.phase is Conversion,
        _ => true,
    }
}

/// No request ever asks for anything but its page and the `robots.txt` located for it, and
/// every step awaits the events that its work can have.
pub proof fn law_steps_ask_rightly(step: StepModel, events: Seq<EventModel>)
    requires
        asks_rightly(step),
    ensures
        asks_rightly(run(step, events)),
    decreases events.len(),
{
    if events.len() > 0 {
        if let Some(session) = step.session() {
            if session.expects(events[0]) {
                law_steps_ask_rightly(session.advance(events[0]), events.drop_first());
            }
        }
    }
}

/// Tool calls and prompts begin with steps that ask rightly, for their own agent.
pub proof fn law_requests_begin_rightly(
    config: ConfigModel,
    checked: Result<OptionsModel, ErrorModel>,
    name: Seq<char>,
    argument: Option<Result<Seq<char>, Seq<char>>>,
)
    ensures
        asks_rightly(tool_checked(config, checked)),
        tool_checked(config, checked).session() matches Some(session) ==> {
            &&& checked matches Ok(options)
            &&& session.errand == tool_errand(config, options)
        },
        asks_rightly(prompt_started(config, name, argument)),
        prompt_started(config, name, argument).session() matches Some(session) ==> {
            &&& session.errand.agent == config.manual_agent()
            &&& session.errand.proxy_url == config.proxy_url
        },
{
}

/// The events of a response that arrives as `chunks` and is then complete.
pub open spec fn response(chunks: Seq<Seq<u8>>) -> Seq<EventModel> {
    Seq::new(chunks.len(), |i: int| EventModel::Chunk(chunks[i])).push(EventModel::BodyEnd)
}

proof fn lemma_response_step(chunks: Seq<Seq<u8>>)
    requires
        chunks.len() > 0,
    ensures
        response(chunks)[0] == EventModel::Chunk(chunks[0]),
        response(chunks).drop_first() == response(chunks.drop_first()),
{
    assert(response(chunks).drop_first() =~= response(chunks.drop_first()));
}

/// A page that arrives in parts is shown from what the download limit keeps of all of
/// them.
pub proof fn law_page_is_read_to_the_limit(
    errand: ErrandModel,
    content_type: Seq<char>,
    body: BodyModel,
    chunks: Seq<Seq<u8>>,
)
    requires
        !body.truncated,
    ensures
        run(
            StepModel::Read { session: errand.at(PhaseModel::PageBody { content_type, body }) },
            response(chunks),
        ) == errand.page_read(content_type, body.accept_all(chunks)),
    decreases chunks.len(),
{
    let step = StepModel::Read { session: errand.at(PhaseModel::PageBody { content_type, body }) };
    if chunks.len() == 0 {
        assert(response(chunks).drop_first() =~= Seq::empty());
        assert(run(step, response(chunks)) == run(
            errand.page_read(content_type, body),
            response(chunks).drop_first(),
        ));
    } else {
        lemma_response_step(chunks);
        let next = body.accept(chunks[0]);
        let rest = response(chunks.drop_first());
        if next.truncated {
            assert(next.accept_all(chunks.drop_first()) == next);
            assert(run(step, response(chunks)) == run(errand.page_read(content_type, next), rest));
            assert(rest[0] is Chunk || rest[0] is BodyEnd);
        } else {
            law_page_is_read_to_the_limit(errand, content_type, next, chunks.drop_first());
        }
    }
}

/// A `robots.txt` that arrives in parts is judged by what the download limit keeps of all
/// of them.
pub proof fn law_robots_txt_is_read_to_the_limit(
    errand: ErrandModel,
    robots_url: Seq<char>,
    body: BodyModel,
    chunks: Seq<Seq<u8>>,
)
    requires
        !body.truncated,
    ensures
        run(
            StepModel::Read { session: errand.at(PhaseModel::RobotsBody { robots_url, body }) },
            response(chunks),
        ) == errand.robots_read(robots_url, body.accept_all(chunks)),
    decreases chunks.len(),
{
    let step = StepModel::Read { session: errand.at(PhaseModel::RobotsBody { robots_url, body }) };
    if chunks.len() == 0 {
        assert(response(chunks).drop_first() =~= Seq::empty());
        assert(run(step, response(chunks)) == run(
            errand.robots_read(robots_url, body),
            response(chunks).drop_first(),
        ));
    } else {
        lemma_response_step(chunks);
        let next = body.accept(chunks[0]);
        let rest = response(chunks.drop_first());
        if next.truncated {
            assert(next.accept_all(chunks.drop_first()) == next);
            assert(run(step, response(chunks)) == run(errand.robots_read(robots_url, next), rest));
            assert(rest[0] is Chunk || rest[0] is BodyEnd);
        } else {
            law_robots_txt_is_read_to_the_limit(errand, robots_url, next, chunks.drop_first());
        }
    }
}

/// What the rules of a site say of a tool call, where its `robots.txt` arrives as `chunks`.
pub open spec fn ruled(
    config: ConfigModel,
    options: OptionsModel,
    chunks: Seq<Seq<u8>>,
) -> Result<bool, Seq<char>> {
    tool_errand(config, options).verdict(utf8_lossy(BodyModel::empty().accept_all(chunks).bytes))
}

/// The site decides on a tool call, by the status of its `robots.txt` and by the rules in
/// it: the page is asked for, or the call is answered with the reason why it is not.
pub proof fn law_site_decides_on_tool_call(
    config: ConfigModel,
    options: OptionsModel,
    robots_url: Seq<char>,
    status: u16,
    content_type: Seq<char>,
    chunks: Seq<Seq<u8>>,
)
    requires
        !config.ignore_robots_txt,
    ensures
        robots_location(options.url) == Ok::<Seq<char>, Seq<char>>(robots_url) ==> run(
            tool_started(config, options),
            seq![EventModel::Head { status, content_type }] + response(chunks),
        ) == match robots_gate(status) {
            RobotsGate::Refused => StepModel::Fail(refusal(robots_url, status as nat)),
            RobotsGate::Open => tool_errand(config, options).page_request(),
            RobotsGate::Rules => match ruled(config, options, chunks) {
                Ok(true) => tool_errand(config, options).page_request(),
                Ok(false) => StepModel::Fail(
                    disallowed(robots_url, config.autonomous_agent(), options.url),
                ),
                Err(message) => StepModel::Fail(unreadable_rules(robots_url, message)),
            },
        },
{
    let errand = tool_errand(config, options);
    let first = EventModel::Head { status, content_type };
    let events = seq![first] + response(chunks);
    assert(events.drop_first() =~= response(chunks));
    if robots_location(options.url) == Ok::<Seq<char>, Seq<char>>(robots_url) {
        let next = errand.robots_answered(robots_url, status);
        assert(run(tool_started(config, options), events) == run(next, response(chunks)));
        match robots_gate(status) {
            RobotsGate::Rules => {
                law_robots_txt_is_read_to_the_limit(
                    errand,
                    robots_url,
                    BodyModel::empty(),
                    chunks,
                );
            },
            _ => {
                assert(response(chunks)[0] is Chunk || response(chunks)[0] is BodyEnd);
            },
        }
    }
}

/// Once a page is asked for, it answers the request: with what is made of all that the
/// download limit keeps of it, or, where its status is a failure, with that status.
pub proof fn law_page_answers_request(
    errand: ErrandModel,
    status: u16,
    content_type: Seq<char>,
    chunks: Seq<Seq<u8>>,
)
    ensures
        run(
            errand.page_request(),
            seq![EventModel::Head { status, content_type }] + response(chunks),
        ) == if status >= 400 {
            StepModel::Fail(status_failure(errand.goal.url(), status as nat))
        } else {
            errand.page_read(content_type, BodyModel::empty().accept_all(chunks))
        },
{
    let first = EventModel::Head { status, content_type };
    let events = seq![first] + response(chunks);
    assert(events.drop_first() =~= response(chunks));
    assert(run(errand.page_request(), events) == run(
        errand.page_answered(status, content_type),
        response(chunks),
    ));
    if status < 400 {
        law_page_is_read_to_the_limit(errand, content_type, BodyModel::empty(), chunks);
    }
}

/// HTML that is converted outside gives the page that conversion inside would give.
pub proof fn law_conversion_may_be_outside(
    errand: ErrandModel,
    html: Seq<char>,
    prefix: Seq<char>,
)
    ensures
        errand.at(PhaseModel::Conversion { prefix }).advance(
            EventModel::Converted(markdown_of(html)),
        ) == StepModel::Reply(errand.reply(markdown_page(markdown_of(html), prefix))),
{
}

/// Every page that has arrived is shown: the request is answered with it at once, or once
/// its HTML has been converted outside, and it is the same page either way.
pub proof fn law_every_page_is_shown(
    errand: ErrandModel,
    content_type: Seq<char>,
    text: Seq<char>,
    truncated: bool,
)
    ensures
        ({
            let reply = errand.reply(shown(text, truncated, content_type, errand.goal.raw()));
            match errand.page_arrived(content_type, text, truncated) {
                StepModel::Reply(given) => given == reply,
                StepModel::Convert { session, html } => {
                    &&& session.expects(EventModel::Converted(markdown_of(html)))
                    &&& session.advance(EventModel::Converted(markdown_of(html)))
                        == StepModel::Reply(reply)
                },
                _ => false,
            }
        }),
{
}

proof fn lemma_reply_fits_goal(step: StepModel, is_tool: bool, events: Seq<EventModel>)
    requires
        step.session() matches Some(session) ==> (session.errand.goal is Tool) == is_tool,
        step matches StepModel::Reply(reply) ==> (reply is Tool) == is_tool,
    ensures
        run(step, events) matches StepModel::Reply(reply) ==> (reply is Tool) == is_tool,
    decreases events.len(),
{
    if events.len() > 0 {
        if let Some(session) = step.session() {
            if session.expects(events[0]) {
                lemma_reply_fits_goal(session.advance(events[0]), is_tool, events.drop_first());
            }
        }
    }
}

/// A tool call is answered with the text of a tool call, and a prompt with the message of
/// a prompt.
pub proof fn law_reply_fits_request(
    config: ConfigModel,
    checked: Result<OptionsModel, ErrorModel>,
    name: Seq<char>,
    argument: Option<Result<Seq<char>, Seq<char>>>,
    events: Seq<EventModel>,
)
    ensures
        run(tool_checked(config, checked), events) matches StepModel::Reply(reply) ==> reply
            is Tool,
        run(prompt_started(config, name, argument), events) matches StepModel::Reply(reply) ==>
            reply is Prompt,
{
    lemma_reply_fits_goal(tool_checked(config, checked), true, events);
    lemma_reply_fits_goal(prompt_started(config, name, argument), false, events);
}

} // verus!
