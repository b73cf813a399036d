//! A request in progress: which exchange comes next, and what is made of each
//! event in it.
//!
//! A [`Step`] names the outside work that is due. Whoever performs it hands the
//! outcome to [`Session::advance`] as an [`Event`] and gets the next step.

use vstd::prelude::*;
use vstd::utf8::{decode_utf8, encode_utf8, valid_utf8};

use crate::body::{utf8_lossy, BodyModel, ResponseBody};
use crate::config::text_view;
use crate::error::{internal, internal_error, invalid, invalid_params, ErrorModel, FetchError};
use crate::page::{markdown_page, page_from_markdown, page_send_failure, page_status_failure,
    render_page, rendered, send_failure, status_failure, FetchedPage, PageModel, Rendering,
    RenderingModel};
use crate::pagination::{paginate_content, paginated};
use crate::request::{text_outcome, FetchOptions, OptionsModel};
use crate::robots::{connection_failure, consult_rules, judge_robots_status, location_failure,
    locate_robots, objection, refusal, robots_connection_failure, robots_gate, robots_location,
    robots_location_failure, robots_objection, robots_refusal, robots_verdict, verdict_view,
    RobotsGate};

verus! {

/// What a page is fetched for.
#[derive(Debug)]
pub enum Goal {
    /// A tool call, on the caller's own initiative.
    Tool(FetchOptions),
    /// A prompt for the page at this address, which a person asked for.
    Prompt(String),
}

/// What a [`Goal`] says.
pub enum GoalModel {
    Tool(OptionsModel),
    Prompt(Seq<char>),
}

impl View for Goal {
    type V = GoalModel;

    open spec fn view(&self) -> GoalModel {
        match self {
            Goal::Tool(options) => GoalModel::Tool(options@),
            Goal::Prompt(url) => GoalModel::Prompt(url@),
        }
    }
}

impl GoalModel {
    /// The address of the page.
    pub open spec fn url(self) -> Seq<char> {
        match self {
            GoalModel::Tool(options) => options.url,
            GoalModel::Prompt(url) => url,
        }
    }

    /// The page is wanted as it is.
    pub open spec fn raw(self) -> bool {
        match self {
            GoalModel::Tool(options) => options.raw,
            GoalModel::Prompt(_) => false,
        }
    }
}

/// How far a request has come.
#[derive(Debug)]
pub enum Phase {
    /// `robots.txt` has been asked for.
    RobotsHead { robots_url: String },
    /// `robots.txt` is being read.
    RobotsBody { robots_url: String, body: ResponseBody },
    /// The page has been asked for.
    PageHead,
    /// The page is being read.
    PageBody { content_type: String, body: ResponseBody },
    /// The page is being converted; these remarks go before it.
    Conversion { prefix: String },
}

/// What a [`Phase`] says.
pub enum PhaseModel {
    RobotsHead { robots_url: Seq<char> },
    RobotsBody { robots_url: Seq<char>, body: BodyModel },
    PageHead,
    PageBody { content_type: Seq<char>, body: BodyModel },
    Conversion { prefix: Seq<char> },
}

impl View for Phase {
    type V = PhaseModel;

    open spec fn view(&self) -> PhaseModel {
        match self {
            Phase::RobotsHead { robots_url } => PhaseModel::RobotsHead { robots_url: robots_url@ },
            Phase::RobotsBody { robots_url, body } => PhaseModel::RobotsBody {
                robots_url: robots_url@,
                body: body@,
            },
            Phase::PageHead => PhaseModel::PageHead,
            Phase::PageBody { content_type, body } => PhaseModel::PageBody {
                content_type: content_type@,
                body: body@,
            },
            Phase::Conversion { prefix } => PhaseModel::Conversion { prefix: prefix@ },
        }
    }
}

/// How all exchanges of a request are made, and what it is for.
#[derive(Debug)]
pub struct Errand {
    /// The user agent of every exchange.
    pub agent: String,
    /// The proxy that every exchange goes through.
    pub proxy_url: Option<String>,
    pub goal: Goal,
}

/// What an [`Errand`] says.
pub struct ErrandModel {
    pub agent: Seq<char>,
    pub proxy_url: Option<Seq<char>>,
    pub goal: GoalModel,
}

impl View for Errand {
    type V = ErrandModel;

    open spec fn view(&self) -> ErrandModel {
        ErrandModel {
            agent: self.agent@,
            proxy_url: text_view(self.proxy_url),
            goal: self.goal@,
        }
    }
}

/// A request in progress.
#[derive(Debug)]
pub struct Session {
    pub errand: Errand,
    pub phase: Phase,
}

/// What a [`Session`] says.
pub struct SessionModel {
    pub errand: ErrandModel,
    pub phase: PhaseModel,
}

impl View for Session {
    type V = SessionModel;

    open spec fn view(&self) -> SessionModel {
        SessionModel { errand: self.errand@, phase: self.phase@ }
    }
}

/// What came of the outside work.
#[derive(Debug)]
pub enum Event {
    /// The proxy's address is not acceptable.
    ProxyRejected(String),
    /// No client could be set up.
    ClientFailed(String),
    /// The request could not be sent.
    SendFailed(String),
    /// The head of the response has arrived.
    Head { status: u16, content_type: String },
    /// The next part of the response has arrived.
    Chunk(Vec<u8>),
    /// The response broke off.
    BodyFailed(String),
    /// The response is complete.
    BodyEnd,
    /// The HTML has been converted to this Markdown.
    Converted(String),
}

/// What an [`Event`] says.
pub enum EventModel {
    ProxyRejected(Seq<char>),
    ClientFailed(Seq<char>),
    SendFailed(Seq<char>),
    Head { status: u16, content_type: Seq<char> },
    Chunk(Seq<u8>),
    BodyFailed(Seq<char>),
    BodyEnd,
    Converted(Seq<char>),
}

impl View for Event {
    type V = EventModel;

    open spec fn view(&self) -> EventModel {
        match self {
            Event::ProxyRejected(message) => EventModel::ProxyRejected(message@),
            Event::ClientFailed(message) => EventModel::ClientFailed(message@),
            Event::SendFailed(message) => EventModel::SendFailed(message@),
            Event::Head { status, content_type } => EventModel::Head {
                status: *status,
                content_type: content_type@,
            },
            Event::Chunk(bytes) => EventModel::Chunk(bytes@),
            Event::BodyFailed(message) => EventModel::BodyFailed(message@),
            Event::BodyEnd => EventModel::BodyEnd,
            Event::Converted(markdown) => EventModel::Converted(markdown@),
        }
    }
}

/// What a request is answered with.
#[derive(Debug)]
pub enum Reply {
    /// The text that a tool call returns.
    Tool(String),
    /// The message of a prompt and what it is about.
    Prompt { description: String, text: String },
}

/// What a [`Reply`] says.
pub enum ReplyModel {
    Tool(Seq<char>),
    Prompt { description: Seq<char>, text: Seq<char> },
}

impl View for Reply {
    type V = ReplyModel;

    open spec fn view(&self) -> ReplyModel {
        match self {
            Reply::Tool(text) => ReplyModel::Tool(text@),
            Reply::Prompt { description, text } => ReplyModel::Prompt {
                description: description@,
                text: text@,
            },
        }
    }
}

/// What is due next.
#[derive(Debug)]
pub enum Step {
    /// Set up a client for the session's agent and proxy and ask for `url` with it.
    Get { session: Session, url: String },
    /// Wait for the next part of the response.
    Read { session: Session },
    /// Convert `html` to Markdown.
    Convert { session: Session, html: String },
    /// Answer the request.
    Reply(Reply),
    /// Answer the request with an error.
    Fail(FetchError),
}

/// What a [`Step`] says.
pub enum StepModel {
    Get { session: SessionModel, url: Seq<char> },
    Read { session: SessionModel },
    Convert { session: SessionModel, html: Seq<char> },
    Reply(ReplyModel),
    Fail(ErrorModel),
}

impl View for Step {
    type V = StepModel;

    open spec fn view(&self) -> StepModel {
        match self {
            Step::Get { session, url } => StepModel::Get { session: session@, url: url@ },
            Step::Read { session } => StepModel::Read { session: session@ },
            Step::Convert { session, html } => StepModel::Convert {
                session: session@,
                html: html@,
            },
            Step::Reply(reply) => StepModel::Reply(reply@),
            Step::Fail(error) => StepModel::Fail(error@),
        }
    }
}

impl StepModel {
    /// The request that goes on, if it does.
    pub open spec fn session(self) -> Option<SessionModel> {
        match self {
            StepModel::Get { session, .. } => Some(session),
            StepModel::Read { session } => Some(session),
            StepModel::Convert { session, .. } => Some(session),
            _ => None,
        }
    }
}

impl PhaseModel {
    /// The request is still about `robots.txt`.
    pub open spec fn about_robots(self) -> bool {
        self is RobotsHead || self is RobotsBody
    }
}

impl ErrandModel {
    /// This request with `phase` as its state.
    pub open spec fn at(self, phase: PhaseModel) -> SessionModel {
        SessionModel { errand: self, phase }
    }

    /// The step that asks for the page.
    pub open spec fn page_request(self) -> StepModel {
        StepModel::Get { session: self.at(PhaseModel::PageHead), url: self.goal.url() }
    }

    /// The step that asks for `robots.txt`, given where it is found.
    pub open spec fn robots_request(self, location: Result<Seq<char>, Seq<char>>) -> StepModel {
        match location {
            Err(message) => StepModel::Fail(location_failure(message)),
            Ok(robots_url) => StepModel::Get {
                session: self.at(PhaseModel::RobotsHead { robots_url }),
                url: robots_url,
            },
        }
    }

    /// The step behind the head of `robots.txt`.
    pub open spec fn robots_answered(self, robots_url: Seq<char>, status: u16) -> StepModel {
        match robots_gate(status) {
            RobotsGate::Refused => StepModel::Fail(refusal(robots_url, status as nat)),
            RobotsGate::Open => self.page_request(),
            RobotsGate::Rules => StepModel::Read {
                session: self.at(PhaseModel::RobotsBody { robots_url, body: BodyModel::empty() }),
            },
        }
    }

    /// What the rules in the text of a `robots.txt` say of this request.
    pub open spec fn verdict(self, text: Seq<char>) -> Result<bool, Seq<char>> {
        robots_verdict(self.agent, encode_utf8(text), self.goal.url())
    }

    /// The step behind the end of `robots.txt`, given what its rules say.
    pub open spec fn robots_judged(
        self,
        robots_url: Seq<char>,
        verdict: Result<bool, Seq<char>>,
    ) -> StepModel {
        match objection(robots_url, self.agent, self.goal.url(), verdict) {
            Some(error) => StepModel::Fail(error),
            None => self.page_request(),
        }
    }

    /// The step behind the end of `robots.txt`.
    pub open spec fn robots_read(self, robots_url: Seq<char>, body: BodyModel) -> StepModel {
        self.robots_judged(robots_url, self.verdict(utf8_lossy(body.bytes)))
    }

    /// The step behind the head of the page.
    pub open spec fn page_answered(self, status: u16, content_type: Seq<char>) -> StepModel {
        if status >= 400 {
            StepModel::Fail(status_failure(self.goal.url(), status as nat))
        } else {
            StepModel::Read {
                session: self.at(PhaseModel::PageBody { content_type, body: BodyModel::empty() }),
            }
        }
    }

    /// What the request is answered with, given the page.
    pub open spec fn reply(self, page: PageModel) -> ReplyModel {
        match self.goal {
            GoalModel::Tool(options) => ReplyModel::Tool(
                paginated(
                    options.url,
                    page.content,
                    page.prefix,
                    options.start_index,
                    options.max_length,
                ),
            ),
            GoalModel::Prompt(url) => ReplyModel::Prompt {
                description: "Contents of "@ + url,
                text: page.prefix + page.content,
            },
        }
    }

    /// The step behind the rendering of the page.
    pub open spec fn page_rendered(self, rendering: RenderingModel) -> StepModel {
        match rendering {
            RenderingModel::Page(page) => StepModel::Reply(self.reply(page)),
            RenderingModel::Convert { html, prefix } => StepModel::Convert {
                session: self.at(PhaseModel::Conversion { prefix }),
                html,
            },
        }
    }

    /// The step behind the end of the page, given its text.
    pub open spec fn page_arrived(
        self,
        content_type: Seq<char>,
        text: Seq<char>,
        truncated: bool,
    ) -> StepModel {
        self.page_rendered(rendered(text, truncated, content_type, self.goal.raw()))
    }

    /// The step behind the end of the page.
    pub open spec fn page_read(self, content_type: Seq<char>, body: BodyModel) -> StepModel {
        self.page_arrived(content_type, utf8_lossy(body.bytes), body.truncated)
    }
}

impl SessionModel {
    /// `event` can happen now.
    pub open spec fn expects(self, event: EventModel) -> bool {
        match self.phase {
            PhaseModel::RobotsHead { .. } | PhaseModel::PageHead => event is ProxyRejected
                || event is ClientFailed || event is SendFailed || event is Head,
            PhaseModel::RobotsBody { .. } | PhaseModel::PageBody { .. } => event is Chunk
                || event is BodyFailed || event is BodyEnd,
            PhaseModel::Conversion { .. } => event is Converted,
        }
    }

    /// The step that an expected event leads to.
    pub open spec fn advance(self, event: EventModel) -> StepModel {
        let errand = self.errand;
        match (self.phase, event) {
            (_, EventModel::ProxyRejected(message)) => StepModel::Fail(
                invalid("Invalid proxy URL: "@ + message),
            ),
            (_, EventModel::ClientFailed(message)) => StepModel::Fail(internal(message)),
            (_, EventModel::BodyFailed(message)) => StepModel::Fail(internal(message)),
            (PhaseModel::RobotsHead { robots_url }, EventModel::SendFailed(message)) =>
                StepModel::Fail(connection_failure(robots_url, message)),
            (PhaseModel::RobotsHead { robots_url }, EventModel::Head { status, .. }) =>
                errand.robots_answered(robots_url, status),
            (PhaseModel::RobotsBody { robots_url, body }, EventModel::Chunk(bytes)) => {
                let body = body.accept(bytes);
                if body.truncated {
                    errand.robots_read(robots_url, body)
                } else {
                    StepModel::Read {
                        session: errand.at(PhaseModel::RobotsBody { robots_url, body }),
                    }
                }
            },
            (PhaseModel::RobotsBody { robots_url, body }, EventModel::BodyEnd) =>
                errand.robots_read(robots_url, body),
            (PhaseModel::PageHead, EventModel::SendFailed(message)) => StepModel::Fail(
                send_failure(errand.goal.url(), message),
            ),
            (PhaseModel::PageHead, EventModel::Head { status, content_type }) =>
                errand.page_answered(status, content_type),
            (PhaseModel::PageBody { content_type, body }, EventModel::Chunk(bytes)) => {
                let body = body.accept(bytes);
                if body.truncated {
                    errand.page_read(content_type, body)
                } else {
                    StepModel::Read {
                        session: errand.at(PhaseModel::PageBody { content_type, body }),
                    }
                }
            },
            (PhaseModel::PageBody { content_type, body }, EventModel::BodyEnd) =>
                errand.page_read(content_type, body),
            (PhaseModel::Conversion { prefix }, EventModel::Converted(markdown)) =>
                StepModel::Reply(errand.reply(markdown_page(markdown, prefix))),
            _ => arbitrary(),
        }
    }

    /// The body that `event` completes: the response ends, or the download limit is reached.
    pub open spec fn completed(self, event: EventModel) -> Option<BodyModel> {
        match self.phase {
            PhaseModel::RobotsBody { body, .. } | PhaseModel::PageBody { body, .. } => match event {
                EventModel::BodyEnd => Some(body),
                EventModel::Chunk(bytes) => if body.accept(bytes).truncated {
                    Some(body.accept(bytes))
                } else {
                    None
                },
                _ => None,
            },
            _ => None,
        }
    }

    /// The step behind a body that has been read and stands for `text`.
    pub open spec fn arrived(self, text: Seq<char>, truncated: bool) -> StepModel {
        match self.phase {
            PhaseModel::RobotsBody { robots_url, .. } => self.errand.robots_judged(
                robots_url,
                self.errand.verdict(text),
            ),
            PhaseModel::PageBody { content_type, .. } => self.errand.page_arrived(
                content_type,
                text,
                truncated,
            ),
            _ => arbitrary(),
        }
    }
}

impl Goal {
    /// The address of the page.
    pub fn url(&self) -> (res: &str)
        ensures
            res@ == self@.url(),
    {
        match self {
            Goal::Tool(options) => options.url.as_str(),
            Goal::Prompt(url) => url.as_str(),
        }
    }

    /// Whether the page is wanted as it is.
    pub fn raw(&self) -> (res: bool)
        ensures
            res == self@.raw(),
    {
        match self {
            Goal::Tool(options) => options.raw,
            Goal::Prompt(_) => false,
        }
    }
}

impl Errand {
    /// Asks for the page.
    pub fn request_page(self) -> (res: Step)
        ensures
            res@ == self@.page_request(),
    {
        let url = self.goal.url().to_owned();
        Step::Get { session: Session { errand: self, phase: Phase::PageHead }, url }
    }

    /// Asks for `robots.txt`, given what was said about where it is found.
    pub fn request_robots(self, location: Result<String, String>) -> (res: Step)
        ensures
            res@ == self@.robots_request(text_outcome(location)),
    {
        match location {
            Err(message) => Step::Fail(robots_location_failure(message.as_str())),
            Ok(robots_url) => {
                let url = robots_url.clone();
                Step::Get {
                    session: Session { errand: self, phase: Phase::RobotsHead { robots_url } },
                    url,
                }
            },
        }
    }

    /// Begins a request that `robots.txt` has a say in.
    pub fn start_with_robots(self) -> (res: Step)
        ensures
            res@ == self@.robots_request(robots_location(self@.goal.url())),
    {
        let location = locate_robots(self.goal.url());
        self.request_robots(location)
    }

    /// Takes the status of the answer to the request for `robots.txt`.
    pub fn robots_status(self, robots_url: String, status: u16) -> (res: Step)
        ensures
            res@ == self@.robots_answered(robots_url@, status),
    {
        match judge_robots_status(status) {
            RobotsGate::Refused => Step::Fail(robots_refusal(robots_url.as_str(), status)),
            RobotsGate::Open => self.request_page(),
            RobotsGate::Rules => Step::Read {
                session: Session {
                    errand: self,
                    phase: Phase::RobotsBody { robots_url, body: ResponseBody::new() },
                },
            },
        }
    }

    /// Takes what the rules of `robots.txt` say of the page.
    pub fn robots_ruled(self, robots_url: &str, verdict: Result<bool, String>) -> (res: Step)
        ensures
            res@ == self@.robots_judged(robots_url@, verdict_view(verdict)),
    {
        match robots_objection(robots_url, self.agent.as_str(), self.goal.url(), verdict) {
            Some(error) => Step::Fail(error),
            None => self.request_page(),
        }
    }

    /// Takes the whole of `robots.txt`.
    pub fn robots_complete(self, robots_url: &str, body: ResponseBody) -> (res: Step)
        ensures
            res@ == self@.robots_read(robots_url@, body@),
            valid_utf8(body@.bytes) ==> res@ == self@.robots_judged(
                robots_url@,
                self@.verdict(decode_utf8(body@.bytes)),
            ),
    {
        let (text, _truncated) = body.text();
        let verdict = consult_rules(self.agent.as_str(), text.as_str().as_bytes(), self.goal.url());
        self.robots_ruled(robots_url, verdict)
    }

    /// Takes the head of the page.
    pub fn page_status(self, status: u16, content_type: String) -> (res: Step)
        ensures
            res@ == self@.page_answered(status, content_type@),
    {
        if status >= 400 {
            Step::Fail(page_status_failure(self.goal.url(), status))
        } else {
            Step::Read {
                session: Session {
                    errand: self,
                    phase: Phase::PageBody { content_type, body: ResponseBody::new() },
                },
            }
        }
    }

    /// Answers the request with the page.
    pub fn answer(self, page: FetchedPage) -> (res: Reply)
        ensures
            res@ == self@.reply(page@),
    {
        match self.goal {
            Goal::Tool(options) => Reply::Tool(
                paginate_content(
                    options.url.as_str(),
                    page.content.as_str(),
                    page.prefix.as_str(),
                    options.start_index,
                    options.max_length,
                ),
            ),
            Goal::Prompt(url) => {
                let mut description = "Contents of ".to_owned();
                description.append(url.as_str());
                let mut text = page.prefix;
                text.append(page.content.as_str());
                Reply::Prompt { description, text }
            },
        }
    }

    /// Takes what comes of the page.
    pub fn page_ready(self, rendering: Rendering) -> (res: Step)
        ensures
            res@ == self@.page_rendered(rendering@),
    {
        match rendering {
            Rendering::Page(page) => Step::Reply(self.answer(page)),
            Rendering::Convert { html, prefix } => Step::Convert {
                session: Session { errand: self, phase: Phase::Conversion { prefix } },
                html,
            },
        }
    }

    /// Takes the text of the page.
    pub fn page_text(self, content_type: &str, text: String, truncated: bool) -> (res: Step)
        ensures
            res@ == self@.page_arrived(content_type@, text@, truncated),
    {
        let raw = self.goal.raw();
        self.page_ready(render_page(text, truncated, content_type, raw))
    }

    /// Takes the whole of the page.
    pub fn page_complete(self, content_type: &str, body: ResponseBody) -> (res: Step)
        ensures
            res@ == self@.page_read(content_type@, body@),
            valid_utf8(body@.bytes) ==> res@ == self@.page_arrived(
                content_type@,
                decode_utf8(body@.bytes),
                body@.truncated,
            ),
    {
        let (text, truncated) = body.text();
        self.page_text(content_type, text, truncated)
    }
}

impl Session {
    /// Whether `event` can happen now.
    pub fn expects(&self, event: &Event) -> (res: bool)
        ensures
            res == self@.expects(event@),
    {
        match &self.phase {
            Phase::RobotsHead { .. } | Phase::PageHead => match event {
                Event::ProxyRejected(_) | Event::ClientFailed(_) | Event::SendFailed(_)
                | Event::Head { .. } => true,
                _ => false,
            },
            Phase::RobotsBody { .. } | Phase::PageBody { .. } => match event {
                Event::Chunk(_) | Event::BodyFailed(_) | Event::BodyEnd => true,
                _ => false,
            },
            Phase::Conversion { .. } => match event {
                Event::Converted(_) => true,
                _ => false,
            },
        }
    }

    /// Takes an event that can happen now and says what is due next. A body that is
    /// well-formed UTF-8 is taken as it was sent.
    pub fn advance(self, event: Event) -> (res: Step)
        requires
            self@.expects(event@),
        ensures
            res@ == self@.advance(event@),
            self@.completed(event@) matches Some(body) ==> (valid_utf8(body.bytes) ==> res@
                == self@.arrived(decode_utf8(body.bytes), body.truncated)),
    {
        let Session { errand, phase } = self;
        match (phase, event) {
            (_, Event::ProxyRejected(message)) => {
                let mut text = "Invalid proxy URL: ".to_owned();
                text.append(message.as_str());
                Step::Fail(invalid_params(text))
            },
            (_, Event::ClientFailed(message)) => Step::Fail(internal_error(message)),
            (_, Event::BodyFailed(message)) => Step::Fail(internal_error(message)),
            (Phase::RobotsHead { robots_url }, Event::SendFailed(message)) => Step::Fail(
                robots_connection_failure(robots_url.as_str(), message.as_str()),
            ),
            (Phase::RobotsHead { robots_url }, Event::Head { status, .. }) => errand.robots_status(
                robots_url,
                status,
            ),
            (Phase::RobotsBody { robots_url, body }, Event::Chunk(bytes)) => {
                let mut body = body;
                if body.accept(bytes.as_slice()) {
                    Step::Read {
                        session: Session { errand, phase: Phase::RobotsBody { robots_url, body } },
                    }
                } else {
                    errand.robots_complete(robots_url.as_str(), body)
                }
            },
            (Phase::RobotsBody { robots_url, body }, Event::BodyEnd) => errand.robots_complete(
                robots_url.as_str(),
                body,
            ),
            (Phase::PageHead, Event::SendFailed(message)) => Step::Fail(
                page_send_failure(errand.goal.url(), message.as_str()),
            ),
            (Phase::PageHead, Event::Head { status, content_type }) => errand.page_status(
                status,
                content_type,
            ),
            (Phase::PageBody { content_type, body }, Event::Chunk(bytes)) => {
                let mut body = body;
                if body.accept(bytes.as_slice()) {
                    Step::Read {
                        session: Session { errand, phase: Phase::PageBody { content_type, body } },
                    }
                } else {
                    errand.page_complete(content_type.as_str(), body)
                }
            },
            (Phase::PageBody { content_type, body }, Event::BodyEnd) => errand.page_complete(
                content_type.as_str(),
                body,
            ),
            (Phase::Conversion { prefix }, Event::Converted(markdown)) => Step::Reply(
                errand.answer(page_from_markdown(markdown, prefix)),
            ),
            _ => vstd::pervasive::unreached(),
        }
    }
}

} // verus!
