//! What a tool call asks for, and the checks it has to pass.

use vstd::prelude::*;

use crate::error::{invalid, invalid_params, outcome, ErrorKind, ErrorModel, FetchError};

verus! {

/// The length of a piece, where none is asked for.
pub const DEFAULT_MAX_LENGTH: usize = 5_000;

/// No piece may be this long or longer.
pub const MAX_ALLOWED_LENGTH: usize = 1_000_000;

/// The answer to a length that is not allowed.
pub const LENGTH_OUT_OF_RANGE: &'static str = "max_length must be between 1 and 999999";

/// The arguments of a tool call.
#[derive(Debug)]
pub struct FetchRequest {
    /// The address to fetch.
    pub url: String,
    /// The largest number of characters to return.
    pub max_length: Option<usize>,
    /// The character to start at.
    pub start_index: Option<usize>,
    /// Whether the page is returned as it is, without conversion.
    pub raw: Option<bool>,
}

/// The arguments of a tool call, checked and complete.
#[derive(Debug)]
pub struct FetchOptions {
    pub url: String,
    pub max_length: usize,
    pub start_index: usize,
    pub raw: bool,
}

/// What a [`FetchRequest`] says.
pub struct RequestModel {
    pub url: Seq<char>,
    pub max_length: Option<usize>,
    pub start_index: Option<usize>,
    pub raw: Option<bool>,
}

/// What [`FetchOptions`] say.
pub struct OptionsModel {
    pub url: Seq<char>,
    pub max_length: nat,
    pub start_index: nat,
    pub raw: bool,
}

impl View for FetchRequest {
    type V = RequestModel;

    open spec fn view(&self) -> RequestModel {
        RequestModel {
            url: self.url@,
            max_length: self.max_length,
            start_index: self.start_index,
            raw: self.raw,
        }
    }
}

impl Clone for FetchRequest {
    fn clone(&self) -> (res: FetchRequest)
        ensures
            res@ == self@,
    {
        FetchRequest {
            url: self.url.clone(),
            max_length: self.max_length,
            start_index: self.start_index,
            raw: self.raw,
        }
    }
}

impl View for FetchOptions {
    type V = OptionsModel;

    open spec fn view(&self) -> OptionsModel {
        OptionsModel {
            url: self.url@,
            max_length: self.max_length as nat,
            start_index: self.start_index as nat,
            raw: self.raw,
        }
    }
}

/// What a result of two texts says.
pub open spec fn text_outcome(result: Result<String, String>) -> Result<Seq<char>, Seq<char>> {
    match result {
        Ok(text) => Ok(text@),
        Err(message) => Err(message@),
    }
}

/// What the URL parser makes of a text: the serialized URL, or the text of the
/// parser's error.
pub uninterp spec fn parsed_url(url: Seq<char>) -> Result<Seq<char>, Seq<char>>;

/// Parses `url` with `reqwest::Url::parse` and serializes the URL it gives. The
/// result, named [`parsed_url`], depends on the text alone: no base URL and no
/// setting goes into it. An error is handed on as its text.
#[verifier::external_body]
fn parse_url(url: &str) -> (res: Result<String, String>)
    ensures
        text_outcome(res) == parsed_url(url@),
{
    match reqwest::Url::parse(url) {
        Ok(parsed) => Ok(parsed.to_string()),
        Err(err) => Err(err.to_string()),
    }
}

/// What a URL is taken for, given what the parser made of it.
pub open spec fn validated(parsed: Result<Seq<char>, Seq<char>>) -> Result<Seq<char>, ErrorModel> {
    match parsed {
        Ok(url) => Ok(url),
        Err(message) => Err(invalid("Invalid URL: "@ + message)),
    }
}

/// Takes what the URL parser returned for a URL: the URL it gave, or an error that
/// names its complaint.
pub fn accept_url(parsed: Result<String, String>) -> (res: Result<String, FetchError>)
    ensures
        outcome(res) == validated(text_outcome(parsed)),
{
    match parsed {
        Ok(url) => Ok(url),
        Err(message) => {
            let mut text = "Invalid URL: ".to_owned();
            text.append(message.as_str());
            Err(invalid_params(text))
        },
    }
}

/// Checks that `url` is an absolute URL and gives it back in serialized form.
pub fn validate_url(url: &str) -> (res: Result<String, FetchError>)
    ensures
        outcome(res) == validated(parsed_url(url@)),
{
    accept_url(parse_url(url))
}

/// The number of characters that a request asks for.
pub open spec fn wanted_length(request: RequestModel) -> usize {
    match request.max_length {
        Some(max) => max,
        None => DEFAULT_MAX_LENGTH,
    }
}

/// What a tool call is taken for, given what the URL parser made of its URL. A bad
/// URL is reported before a bad length.
pub open spec fn requested(
    request: RequestModel,
    parsed: Result<Seq<char>, Seq<char>>,
) -> Result<OptionsModel, ErrorModel> {
    match validated(parsed) {
        Err(error) => Err(error),
        Ok(url) => if 1 <= wanted_length(request) < MAX_ALLOWED_LENGTH {
            Ok(
                OptionsModel {
                    url,
                    max_length: wanted_length(request) as nat,
                    start_index: match request.start_index {
                        Some(start) => start as nat,
                        None => 0,
                    },
                    raw: request.raw == Some(true),
                },
            )
        } else {
            Err(invalid(LENGTH_OUT_OF_RANGE@))
        },
    }
}

/// Checks a tool call whose URL the parser has been asked about, and fills in what
/// it leaves open.
pub fn accept_request(
    request: FetchRequest,
    parsed: Result<String, String>,
) -> (res: Result<FetchOptions, FetchError>)
    ensures
        outcome(res) == requested(request@, text_outcome(parsed)),
{
    let url = match accept_url(parsed) {
        Ok(url) => url,
        Err(error) => {
            return Err(error);
        },
    };
    let max_length = request.max_length.unwrap_or(DEFAULT_MAX_LENGTH);
    if max_length == 0 || max_length >= MAX_ALLOWED_LENGTH {
        return Err(invalid_params(LENGTH_OUT_OF_RANGE.to_owned()));
    }
    Ok(
        FetchOptions {
            url,
            max_length,
            start_index: request.start_index.unwrap_or(0),
            raw: request.raw.unwrap_or(false),
        },
    )
}

/// Checks a tool call and fills in what it leaves open.
pub fn parse_fetch_request(request: FetchRequest) -> (res: Result<FetchOptions, FetchError>)
    ensures
        outcome(res) == requested(request@, parsed_url(request@.url)),
{
    let parsed = parse_url(request.url.as_str());
    accept_request(request, parsed)
}

/// What a tool call leaves open has its default: a piece of 5000 characters from the
/// start, converted to Markdown.
pub proof fn law_omitted_arguments_have_defaults(url: Seq<char>)
    ensures
        requested(
            RequestModel { url, max_length: None, start_index: None, raw: None },
            Ok(url),
        ) == Ok::<OptionsModel, ErrorModel>(
            OptionsModel { url, max_length: 5000, start_index: 0, raw: false },
        ),
{
}

/// A tool call that is accepted asks for a length between 1 and 999999, and for the
/// URL that the parser gave.
pub proof fn law_accepted_call_is_in_range(
    request: RequestModel,
    parsed: Result<Seq<char>, Seq<char>>,
)
    ensures
        requested(request, parsed) matches Ok(options) ==> {
            &&& 1 <= options.max_length <= 999999
            &&& parsed == Ok::<Seq<char>, Seq<char>>(options.url)
        },
{
}

/// A tool call is accepted exactly when its URL is parsed and the length it asks for, 5000
/// where it asks for none, is between 1 and 999999; what it asks for is then taken as it is.
pub proof fn law_tool_call_is_checked(
    url: Seq<char>,
    max_length: Option<usize>,
    start_index: Option<usize>,
    raw: Option<bool>,
    parsed: Result<Seq<char>, Seq<char>>,
)
    ensures
        ({
            let wanted: usize = match max_length {
                Some(max) => max,
                None => 5000,
            };
            requested(RequestModel { url, max_length, start_index, raw }, parsed) == match parsed {
                Err(message) => Err::<OptionsModel, ErrorModel>(
                    ErrorModel {
                        kind: ErrorKind::InvalidParams,
                        message: "Invalid URL: "@ + message,
                    },
                ),
                Ok(address) => if 1 <= wanted <= 999999 {
                    Ok(
                        OptionsModel {
                            url: address,
                            max_length: wanted as nat,
                            start_index: match start_index {
                                Some(start) => start as nat,
                                None => 0,
                            },
                            raw: match raw {
                                Some(raw) => raw,
                                None => false,
                            },
                        },
                    )
                } else {
                    Err(
                        ErrorModel {
                            kind: ErrorKind::InvalidParams,
                            message: "max_length must be between 1 and 999999"@,
                        },
                    )
                },
            }
        }),
        validated(parsed) == match parsed {
            Ok(address) => Ok::<Seq<char>, ErrorModel>(address),
            Err(message) => Err(
                ErrorModel {
                    kind: ErrorKind::InvalidParams,
                    message: "Invalid URL: "@ + message,
                },
            ),
        },
{
}

} // verus!
