//! The server's settings and the command line that gives them.

use vstd::prelude::*;

use crate::text::{same_text, starts_with, strip_prefix};
use crate::text_laws::law_beginning_comes_first;

verus! {

/// The user agent of tool calls, where none is configured.
pub const DEFAULT_USER_AGENT_AUTONOMOUS: &'static str =
    "ModelContextProtocol/1.0 (Autonomous; +https://github.com/modelcontextprotocol/servers)";

/// The user agent of prompts, where none is configured.
pub const DEFAULT_USER_AGENT_MANUAL: &'static str =
    "ModelContextProtocol/1.0 (User-Specified; +https://github.com/modelcontextprotocol/servers)";

/// The answer to a request for help.
pub const USAGE: &'static str =
    "Usage: fetch-mcp-rs [--ignore-robots-txt] [--user-agent VALUE] [--proxy-url VALUE]";

/// The server's settings.
#[derive(Debug)]
pub struct ServerConfig {
    /// The user agent for all requests, in place of the two defaults.
    pub custom_user_agent: Option<String>,
    /// Tool calls do not ask `robots.txt`.
    pub ignore_robots_txt: bool,
    /// The proxy that requests go through.
    pub proxy_url: Option<String>,
}

/// What a [`ServerConfig`] says.
pub struct ConfigModel {
    pub custom_user_agent: Option<Seq<char>>,
    pub ignore_robots_txt: bool,
    pub proxy_url: Option<Seq<char>>,
}

/// The text of an optional string.
pub open spec fn text_view(s: Option<String>) -> Option<Seq<char>> {
    match s {
        Some(s) => Some(s@),
        None => None,
    }
}

impl View for ServerConfig {
    type V = ConfigModel;

    open spec fn view(&self) -> ConfigModel {
        ConfigModel {
            custom_user_agent: text_view(self.custom_user_agent),
            ignore_robots_txt: self.ignore_robots_txt,
            proxy_url: text_view(self.proxy_url),
        }
    }
}

impl ConfigModel {
    /// The settings of a server that was given none.
    pub open spec fn initial() -> ConfigModel {
        ConfigModel { custom_user_agent: None, ignore_robots_txt: false, proxy_url: None }
    }

    /// The user agent of tool calls.
    pub open spec fn autonomous_agent(self) -> Seq<char> {
        match self.custom_user_agent {
            Some(agent) => agent,
            None => DEFAULT_USER_AGENT_AUTONOMOUS@,
        }
    }

    /// The user agent of prompts.
    pub open spec fn manual_agent(self) -> Seq<char> {
        match self.custom_user_agent {
            Some(agent) => agent,
            None => DEFAULT_USER_AGENT_MANUAL@,
        }
    }

    pub open spec fn with_user_agent(self, value: Seq<char>) -> ConfigModel {
        ConfigModel { custom_user_agent: Some(value), ..self }
    }

    pub open spec fn with_proxy_url(self, value: Seq<char>) -> ConfigModel {
        ConfigModel { proxy_url: Some(value), ..self }
    }

    pub open spec fn ignoring_robots_txt(self) -> ConfigModel {
        ConfigModel { ignore_robots_txt: true, ..self }
    }
}

impl Default for ServerConfig {
    fn default() -> (res: ServerConfig)
        ensures
            res@ == ConfigModel::initial(),
    {
        ServerConfig { custom_user_agent: None, ignore_robots_txt: false, proxy_url: None }
    }
}

impl Clone for ServerConfig {
    fn clone(&self) -> (res: ServerConfig)
        ensures
            res@ == self@,
    {
        ServerConfig {
            custom_user_agent: self.custom_user_agent.clone(),
            ignore_robots_txt: self.ignore_robots_txt,
            proxy_url: self.proxy_url.clone(),
        }
    }
}

impl ServerConfig {
    /// The user agent of tool calls.
    pub fn autonomous_user_agent(&self) -> (res: &str)
        ensures
            res@ == self@.autonomous_agent(),
    {
        match &self.custom_user_agent {
            Some(agent) => agent.as_str(),
            None => DEFAULT_USER_AGENT_AUTONOMOUS,
        }
    }

    /// The user agent of prompts.
    pub fn manual_user_agent(&self) -> (res: &str)
        ensures
            res@ == self@.manual_agent(),
    {
        match &self.custom_user_agent {
            Some(agent) => agent.as_str(),
            None => DEFAULT_USER_AGENT_MANUAL,
        }
    }
}

/// The texts of a list of arguments.
pub open spec fn texts(args: Seq<String>) -> Seq<Seq<char>> {
    Seq::new(args.len(), |i: int| args[i]@)
}

/// What a command line asks for: the settings that `config` becomes when its
/// arguments are taken from left to right, or the message that the first
/// argument that cannot be taken is answered with.
pub open spec fn configured(args: Seq<Seq<char>>, config: ConfigModel) -> Result<
    ConfigModel,
    Seq<char>,
>
    decreases args.len(),
{
    if args.len() == 0 {
        Ok(config)
    } else {
        let arg = args[0];
        let rest = args.skip(1);
        if arg == "--ignore-robots-txt"@ {
            configured(rest, config.ignoring_robots_txt())
        } else if arg == "--user-agent"@ {
            if rest.len() == 0 {
                Err("--user-agent requires a value"@)
            } else {
                configured(rest.skip(1), config.with_user_agent(rest[0]))
            }
        } else if arg == "--proxy-url"@ {
            if rest.len() == 0 {
                Err("--proxy-url requires a value"@)
            } else {
                configured(rest.skip(1), config.with_proxy_url(rest[0]))
            }
        } else if starts_with(arg, "--user-agent="@) {
            configured(rest, config.with_user_agent(arg.skip("--user-agent="@.len() as int)))
        } else if starts_with(arg, "--proxy-url="@) {
            configured(rest, config.with_proxy_url(arg.skip("--proxy-url="@.len() as int)))
        } else if arg == "--help"@ || arg == "-h"@ {
            Err(USAGE@)
        } else {
            Err("Unknown argument: "@ + arg)
        }
    }
}

/// What the result of reading a command line says.
pub open spec fn config_outcome(result: Result<ServerConfig, String>) -> Result<
    ConfigModel,
    Seq<char>,
> {
    match result {
        Ok(config) => Ok(config@),
        Err(message) => Err(message@),
    }
}

/// Reads the server's settings from the arguments of its command line, without
/// the program's own name. Each flag may be given more than once; the last one
/// counts.
pub fn parse_server_config(args: &Vec<String>) -> (res: Result<ServerConfig, String>)
    ensures
        config_outcome(res) == configured(texts(args@), ConfigModel::initial()),
{
    let mut config = ServerConfig::default();
    let mut i: usize = 0;
    let ghost all = texts(args@);
    assert(all.skip(0) =~= all);
    while i < args.len()
        invariant
            i <= args@.len(),
            all == texts(args@),
            configured(all.skip(i as int), config@) == configured(all, ConfigModel::initial()),
        decreases args.len() - i,
    {
        let arg = args[i].as_str();
        let ghost rest = all.skip(i as int).skip(1);
        assert(rest =~= all.skip(i + 1));
        assert(rest.len() > 0 ==> rest.skip(1) =~= all.skip(i + 2));
        i = i + 1;
        if same_text(arg, "--ignore-robots-txt") {
            config.ignore_robots_txt = true;
        } else if same_text(arg, "--user-agent") {
            if i == args.len() {
                return Err("--user-agent requires a value".to_owned());
            }
            config.custom_user_agent = Some(args[i].clone());
            i = i + 1;
        } else if same_text(arg, "--proxy-url") {
            if i == args.len() {
                return Err("--proxy-url requires a value".to_owned());
            }
            config.proxy_url = Some(args[i].clone());
            i = i + 1;
        } else if let Some(value) = strip_prefix(arg, "--user-agent=") {
            config.custom_user_agent = Some(value);
        } else if let Some(value) = strip_prefix(arg, "--proxy-url=") {
            config.proxy_url = Some(value);
        } else if same_text(arg, "--help") || same_text(arg, "-h") {
            return Err(USAGE.to_owned());
        } else {
            let mut message = "Unknown argument: ".to_owned();
            message.append(arg);
            return Err(message);
        }
    }
    Ok(config)
}

/// A configured user agent takes the place of both defaults.
pub proof fn law_custom_agent_serves_both(config: ConfigModel, agent: Seq<char>)
    ensures
        config.with_user_agent(agent).autonomous_agent() == agent,
        config.with_user_agent(agent).manual_agent() == agent,
{
}

/// The flags that take a value, and what they have in common with each other.
proof fn lemma_flags_differ()
    ensures
        "--user-agent"@ != "--ignore-robots-txt"@,
        "--proxy-url"@ != "--ignore-robots-txt"@,
        "--proxy-url"@ != "--user-agent"@,
        forall|v: Seq<char>| #[trigger] ("--user-agent="@ + v) != "--ignore-robots-txt"@,
        forall|v: Seq<char>| #[trigger] ("--user-agent="@ + v) != "--user-agent"@,
        forall|v: Seq<char>| #[trigger] ("--user-agent="@ + v) != "--proxy-url"@,
        forall|v: Seq<char>| #[trigger] ("--proxy-url="@ + v) != "--ignore-robots-txt"@,
        forall|v: Seq<char>| #[trigger] ("--proxy-url="@ + v) != "--user-agent"@,
        forall|v: Seq<char>| #[trigger] ("--proxy-url="@ + v) != "--proxy-url"@,
        forall|v: Seq<char>| !starts_with(#[trigger] ("--proxy-url="@ + v), "--user-agent="@),
{
    reveal_strlit("--user-agent");
    reveal_strlit("--user-agent=");
    reveal_strlit("--proxy-url");
    reveal_strlit("--proxy-url=");
    reveal_strlit("--ignore-robots-txt");
    assert("--user-agent"@[2] == 'u');
    assert("--proxy-url"@[2] == 'p');
    assert("--ignore-robots-txt"@[2] == 'i');
    assert forall|v: Seq<char>| true implies ({
        &&& #[trigger] ("--user-agent="@ + v) != "--ignore-robots-txt"@
        &&& "--user-agent="@ + v != "--user-agent"@
        &&& "--user-agent="@ + v != "--proxy-url"@
    }) by {
        assert(("--user-agent="@ + v)[2] == 'u');
        assert(("--user-agent="@ + v).len() >= 13);
    }
    assert forall|v: Seq<char>| true implies ({
        &&& #[trigger] ("--proxy-url="@ + v) != "--ignore-robots-txt"@
        &&& "--proxy-url="@ + v != "--user-agent"@
        &&& "--proxy-url="@ + v != "--proxy-url"@
        &&& !starts_with("--proxy-url="@ + v, "--user-agent="@)
    }) by {
        let s = "--proxy-url="@ + v;
        assert(s[2] == 'p');
        assert(s.len() >= 12);
        if starts_with(s, "--user-agent="@) {
            assert(s.subrange(0, 13)[2] == "--user-agent="@[2]);
        }
    }
}

/// A value may follow its flag as an argument of its own or behind `=`; it comes to
/// the same.
pub proof fn law_flag_forms_agree(value: Seq<char>, rest: Seq<Seq<char>>, config: ConfigModel)
    ensures
        configured(seq!["--user-agent"@, value] + rest, config) == configured(
            seq!["--user-agent="@ + value] + rest,
            config,
        ),
        configured(seq!["--proxy-url"@, value] + rest, config) == configured(
            seq!["--proxy-url="@ + value] + rest,
            config,
        ),
{
    lemma_flags_differ();
    let agent = "--user-agent="@;
    let proxy = "--proxy-url="@;
    let two = seq!["--user-agent"@, value] + rest;
    let one = seq![agent + value] + rest;
    assert(two.skip(1).skip(1) =~= rest);
    assert(one.skip(1) =~= rest);
    assert((agent + value).subrange(0, agent.len() as int) =~= agent);
    assert((agent + value).skip(agent.len() as int) =~= value);
    let two = seq!["--proxy-url"@, value] + rest;
    let one = seq![proxy + value] + rest;
    assert(two.skip(1).skip(1) =~= rest);
    assert(one.skip(1) =~= rest);
    assert((proxy + value).subrange(0, proxy.len() as int) =~= proxy);
    assert((proxy + value).skip(proxy.len() as int) =~= value);
}

/// Where the first part of a command line is accepted, the whole asks for what its second
/// part asks for behind the first.
pub proof fn law_arguments_are_taken_in_order(
    first: Seq<Seq<char>>,
    second: Seq<Seq<char>>,
    config: ConfigModel,
)
    ensures
        configured(first, config) matches Ok(between) ==> configured(first + second, config)
            == configured(second, between),
    decreases first.len(),
{
    let all = first + second;
    if first.len() == 0 {
        assert(all =~= second);
    } else if configured(first, config) is Ok {
        let arg = first[0];
        let rest = first.skip(1);
        assert(all.skip(1) =~= rest + second);
        if arg == "--ignore-robots-txt"@ {
            law_arguments_are_taken_in_order(rest, second, config.ignoring_robots_txt());
        } else if arg == "--user-agent"@ {
            assert(all.skip(1).skip(1) =~= rest.skip(1) + second);
            law_arguments_are_taken_in_order(
                rest.skip(1),
                second,
                config.with_user_agent(rest[0]),
            );
        } else if arg == "--proxy-url"@ {
            assert(all.skip(1).skip(1) =~= rest.skip(1) + second);
            law_arguments_are_taken_in_order(rest.skip(1), second, config.with_proxy_url(rest[0]));
        } else if starts_with(arg, "--user-agent="@) {
            law_arguments_are_taken_in_order(
                rest,
                second,
                config.with_user_agent(arg.skip("--user-agent="@.len() as int)),
            );
        } else if starts_with(arg, "--proxy-url="@) {
            law_arguments_are_taken_in_order(
                rest,
                second,
                config.with_proxy_url(arg.skip("--proxy-url="@.len() as int)),
            );
        }
    }
}

/// The last flag of a kind counts: whatever comes before it, it settles the value.
pub proof fn law_last_flag_counts(first: Seq<Seq<char>>, value: Seq<char>, config: ConfigModel)
    ensures
        configured(first, config) matches Ok(before) ==> {
            &&& configured(first + seq!["--user-agent"@, value], config) == Ok::<
                ConfigModel,
                Seq<char>,
            >(before.with_user_agent(value))
            &&& configured(first + seq!["--proxy-url"@, value], config) == Ok::<
                ConfigModel,
                Seq<char>,
            >(before.with_proxy_url(value))
        },
{
    if let Ok(before) = configured(first, config) {
        lemma_flags_differ();
        let agent = seq!["--user-agent"@, value];
        let proxy = seq!["--proxy-url"@, value];
        law_arguments_are_taken_in_order(first, agent, config);
        law_arguments_are_taken_in_order(first, proxy, config);
        assert(agent.skip(1).skip(1) =~= Seq::empty());
        assert(proxy.skip(1).skip(1) =~= Seq::empty());
        assert(configured(Seq::empty(), before.with_user_agent(value)) == Ok::<
            ConfigModel,
            Seq<char>,
        >(before.with_user_agent(value)));
        assert(configured(Seq::empty(), before.with_proxy_url(value)) == Ok::<
            ConfigModel,
            Seq<char>,
        >(before.with_proxy_url(value)));
    }
}

/// A command line without arguments asks for nothing, and nothing asked for means: no agent
/// and no proxy of one's own, and `robots.txt` is obeyed.
pub proof fn law_empty_command_line_changes_nothing(config: ConfigModel)
    ensures
        configured(Seq::empty(), config) == Ok::<ConfigModel, Seq<char>>(config),
        ConfigModel::initial().custom_user_agent == None::<Seq<char>>,
        ConfigModel::initial().proxy_url == None::<Seq<char>>,
        !ConfigModel::initial().ignore_robots_txt,
{
}

/// Each flag sets what it is for to the value that is given, whatever its length, and leaves
/// the rest of the settings alone.
pub proof fn law_flags_set_what_they_are_for(
    agent: Option<Seq<char>>,
    ignore: bool,
    proxy: Option<Seq<char>>,
    value: Seq<char>,
    rest: Seq<Seq<char>>,
)
    ensures
        ({
            let config = ConfigModel {
                custom_user_agent: agent,
                ignore_robots_txt: ignore,
                proxy_url: proxy,
            };
            &&& configured(seq!["--ignore-robots-txt"@] + rest, config) == configured(
                rest,
                ConfigModel { custom_user_agent: agent, ignore_robots_txt: true, proxy_url: proxy },
            )
            &&& configured(seq!["--user-agent"@, value] + rest, config) == configured(
                rest,
                ConfigModel {
                    custom_user_agent: Some(value),
                    ignore_robots_txt: ignore,
                    proxy_url: proxy,
                },
            )
            &&& configured(seq!["--user-agent="@ + value] + rest, config) == configured(
                rest,
                ConfigModel {
                    custom_user_agent: Some(value),
                    ignore_robots_txt: ignore,
                    proxy_url: proxy,
                },
            )
            &&& configured(seq!["--proxy-url"@, value] + rest, config) == configured(
                rest,
                ConfigModel {
                    custom_user_agent: agent,
                    ignore_robots_txt: ignore,
                    proxy_url: Some(value),
                },
            )
            &&& configured(seq!["--proxy-url="@ + value] + rest, config) == configured(
                rest,
                ConfigModel {
                    custom_user_agent: agent,
                    ignore_robots_txt: ignore,
                    proxy_url: Some(value),
                },
            )
        }),
{
    lemma_flags_differ();
    let config = ConfigModel {
        custom_user_agent: agent,
        ignore_robots_txt: ignore,
        proxy_url: proxy,
    };
    law_flag_forms_agree(value, rest, config);
    assert((seq!["--ignore-robots-txt"@] + rest).skip(1) =~= rest);
    assert((seq!["--user-agent"@, value] + rest).skip(1).skip(1) =~= rest);
    assert((seq!["--proxy-url"@, value] + rest).skip(1).skip(1) =~= rest);
}

/// A flag at the end of the command line that needs a value is refused by name.
pub proof fn law_missing_value_is_refused(config: ConfigModel)
    ensures
        configured(seq!["--user-agent"@], config) == Err::<ConfigModel, Seq<char>>(
            "--user-agent requires a value"@,
        ),
        configured(seq!["--proxy-url"@], config) == Err::<ConfigModel, Seq<char>>(
            "--proxy-url requires a value"@,
        ),
{
    lemma_flags_differ();
    assert(seq!["--user-agent"@].skip(1) =~= Seq::empty());
    assert(seq!["--proxy-url"@].skip(1) =~= Seq::empty());
}

/// An argument that is no flag ends the command line: a request for help with the usage, any
/// other with a message that repeats it.
pub proof fn law_other_arguments_are_refused(
    arg: Seq<char>,
    rest: Seq<Seq<char>>,
    config: ConfigModel,
)
    requires
        arg != "--ignore-robots-txt"@,
        arg != "--user-agent"@,
        arg != "--proxy-url"@,
        forall|value: Seq<char>| arg != #[trigger] ("--user-agent="@ + value),
        forall|value: Seq<char>| arg != #[trigger] ("--proxy-url="@ + value),
    ensures
        configured(seq![arg] + rest, config) == Err::<ConfigModel, Seq<char>>(
            if arg == "--help"@ || arg == "-h"@ {
                "Usage: fetch-mcp-rs [--ignore-robots-txt] [--user-agent VALUE] [--proxy-url VALUE]"@
            } else {
                "Unknown argument: "@ + arg
            },
        ),
{
    let all = seq![arg] + rest;
    assert(all[0] == arg);
    if starts_with(arg, "--user-agent="@) {
        law_beginning_comes_first(arg, "--user-agent="@);
        assert(arg == "--user-agent="@ + arg.skip("--user-agent="@.len() as int));
    }
    if starts_with(arg, "--proxy-url="@) {
        law_beginning_comes_first(arg, "--proxy-url="@);
        assert(arg == "--proxy-url="@ + arg.skip("--proxy-url="@.len() as int));
    }
}

/// The agent that is configured is used for all requests; where none is, tool calls and prompts
/// each have their own.
pub proof fn law_agents_are_told_apart_by_default(config: ConfigModel)
    ensures
        config.custom_user_agent matches Some(agent) ==> config.autonomous_agent() == agent
            && config.manual_agent() == agent,
        config.custom_user_agent is None ==> {
            &&& config.autonomous_agent()
                == "ModelContextProtocol/1.0 (Autonomous; +https://github.com/modelcontextprotocol/servers)"@
            &&& config.manual_agent()
                == "ModelContextProtocol/1.0 (User-Specified; +https://github.com/modelcontextprotocol/servers)"@
        },
{
}

} // verus!
