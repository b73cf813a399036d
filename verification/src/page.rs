//! From a response to the page that is shown.

use vstd::prelude::*;
use vstd::utf8::{decode_utf8, decode_utf8_split, encode_utf8, encode_utf8_decode_utf8,
    encode_utf8_valid_utf8, is_char_boundary, is_char_boundary_start_end_of_seq};

use crate::error::{internal, internal_error, ErrorModel, FetchError};
use crate::html::cleaned_html;
use crate::markdown::{markdown_of, simplified, simplify, Simplified, SimplifiedModel};
use crate::text::{append_decimal, blank, contains, decimal, is_blank, is_white_space, starts_with,
    str_contains};

verus! {

/// How many bytes of a page are searched for an `html` tag.
pub const HEAD_BYTES: usize = 100;

/// The remark on a page that was cut at the download limit.
pub const TRUNCATION_NOTICE: &'static str =
    "Response exceeded the internal safety download limit and was truncated before processing.\n";

/// What stands in place of a page of which conversion leaves nothing.
pub const SIMPLIFICATION_FAILED: &'static str =
    "<error>Page failed to be simplified from HTML</error>";

/// A page ready to be shown.
#[derive(Debug)]
pub struct FetchedPage {
    pub content: String,
    /// Remarks that go before the content.
    pub prefix: String,
}

/// What a [`FetchedPage`] says.
pub struct PageModel {
    pub content: Seq<char>,
    pub prefix: Seq<char>,
}

impl View for FetchedPage {
    type V = PageModel;

    open spec fn view(&self) -> PageModel {
        PageModel { content: self.content@, prefix: self.prefix@ }
    }
}

/// The last position at or before `end` that does not lie inside a character.
pub open spec fn boundary_before(bytes: Seq<u8>, end: int) -> int
    decreases end,
{
    if end <= 0 || is_char_boundary(bytes, end) {
        end
    } else {
        boundary_before(bytes, end - 1)
    }
}

/// The number of bytes that the head of a page takes: as many whole characters as fit into
/// [`HEAD_BYTES`].
pub open spec fn head_length(page: Seq<char>) -> int {
    if encode_utf8(page).len() <= HEAD_BYTES {
        encode_utf8(page).len() as int
    } else {
        boundary_before(encode_utf8(page), HEAD_BYTES as int)
    }
}

/// The head of a page.
pub open spec fn head(page: Seq<char>) -> Seq<char> {
    decode_utf8(encode_utf8(page).subrange(0, head_length(page)))
}

/// The page counts as HTML: its head says so, or its content type does, or it has no
/// content type.
pub open spec fn looks_like_html(page: Seq<char>, content_type: Seq<char>) -> bool {
    ||| contains(head(page), "<html"@)
    ||| contains(content_type, "text/html"@)
    ||| content_type.len() == 0
}

/// The remark on a page that was cut short, if it was.
pub open spec fn truncation_notice(truncated: bool) -> Seq<char> {
    if truncated {
        TRUNCATION_NOTICE@
    } else {
        Seq::empty()
    }
}

/// A page that is shown as it came.
pub open spec fn raw_page(page: Seq<char>, truncated: bool, content_type: Seq<char>) -> PageModel {
    PageModel {
        content: page,
        prefix: truncation_notice(truncated) + "Content type "@ + (if content_type.len() == 0 {
            "unknown"@
        } else {
            content_type
        }) + " cannot be simplified to markdown, but here is the raw content:\n"@,
    }
}

/// A page that is shown as Markdown.
pub open spec fn markdown_page(markdown: Seq<char>, prefix: Seq<char>) -> PageModel {
    PageModel {
        content: if is_blank(markdown) {
            SIMPLIFICATION_FAILED@
        } else {
            markdown
        },
        prefix,
    }
}

/// What comes of a response.
#[derive(Debug)]
pub enum Rendering {
    /// The page to show.
    Page(FetchedPage),
    /// HTML still to be converted; the remarks go before what comes of it.
    Convert { html: String, prefix: String },
}

/// What a [`Rendering`] says.
pub enum RenderingModel {
    Page(PageModel),
    Convert { html: Seq<char>, prefix: Seq<char> },
}

impl View for Rendering {
    type V = RenderingModel;

    open spec fn view(&self) -> RenderingModel {
        match self {
            Rendering::Page(page) => RenderingModel::Page(page@),
            Rendering::Convert { html, prefix } => RenderingModel::Convert {
                html: html@,
                prefix: prefix@,
            },
        }
    }
}

/// What is shown of HTML that has been simplified.
pub open spec fn rendered_html(simple: SimplifiedModel, prefix: Seq<char>) -> RenderingModel {
    match simple {
        SimplifiedModel::Markdown(markdown) => RenderingModel::Page(
            markdown_page(markdown, prefix),
        ),
        SimplifiedModel::Html(html) => RenderingModel::Convert { html, prefix },
    }
}

/// What is shown of a response: HTML as Markdown, unless the raw page is asked for,
/// and anything else as it came.
pub open spec fn rendered(
    page: Seq<char>,
    truncated: bool,
    content_type: Seq<char>,
    force_raw: bool,
) -> RenderingModel {
    if looks_like_html(page, content_type) && !force_raw {
        rendered_html(simplified(page), truncation_notice(truncated))
    } else {
        RenderingModel::Page(raw_page(page, truncated, content_type))
    }
}

/// The head of `page`.
pub fn page_head(page: &str) -> (res: &str)
    ensures
        res@ == head(page@),
{
    let length = page.as_bytes().len();
    let ghost bytes = encode_utf8(page@);
    proof {
        encode_utf8_valid_utf8(page@);
        is_char_boundary_start_end_of_seq(bytes);
    }
    let mut end: usize = length;
    if length > HEAD_BYTES {
        end = HEAD_BYTES;
        while !page.is_char_boundary(end)
            invariant
                bytes == encode_utf8(page@),
                is_char_boundary(bytes, 0),
                boundary_before(bytes, end as int) == boundary_before(bytes, HEAD_BYTES as int),
            decreases end,
        {
            end = end - 1;
        }
    }
    let (first, _rest) = page.split_at(end);
    proof {
        encode_utf8_decode_utf8(first@);
    }
    first
}

/// Whether a page counts as HTML.
pub fn is_html_page(page: &str, content_type: &str) -> (res: bool)
    ensures
        res == looks_like_html(page@, content_type@),
{
    str_contains(page_head(page), "<html") || str_contains(content_type, "text/html")
        || content_type.is_empty()
}

/// The page that is shown of a response, wherever it is converted.
pub open spec fn shown(
    page: Seq<char>,
    truncated: bool,
    content_type: Seq<char>,
    force_raw: bool,
) -> PageModel {
    if looks_like_html(page, content_type) && !force_raw {
        markdown_page(markdown_of(cleaned_html(page)), truncation_notice(truncated))
    } else {
        raw_page(page, truncated, content_type)
    }
}

/// The page that is shown for the Markdown that conversion gave.
pub fn page_from_markdown(markdown: String, prefix: String) -> (res: FetchedPage)
    ensures
        res@ == markdown_page(markdown@, prefix@),
{
    if blank(markdown.as_str()) {
        FetchedPage { content: SIMPLIFICATION_FAILED.to_owned(), prefix }
    } else {
        FetchedPage { content: markdown, prefix }
    }
}

/// What is shown of HTML that has been simplified.
pub fn render_simplified(simple: Simplified, prefix: String) -> (res: Rendering)
    ensures
        res@ == rendered_html(simple@, prefix@),
{
    match simple {
        Simplified::Markdown(markdown) => Rendering::Page(page_from_markdown(markdown, prefix)),
        Simplified::Html(html) => Rendering::Convert { html, prefix },
    }
}

/// What is shown of a response.
pub fn render_page(
    page: String,
    truncated: bool,
    content_type: &str,
    force_raw: bool,
) -> (res: Rendering)
    ensures
        res@ == rendered(page@, truncated, content_type@, force_raw),
{
    let mut prefix = String::new();
    if truncated {
        prefix.append(TRUNCATION_NOTICE);
    }
    assert(prefix@ =~= truncation_notice(truncated));
    if is_html_page(page.as_str(), content_type) && !force_raw {
        return render_simplified(simplify(page.as_str()), prefix);
    }
    prefix.append("Content type ");
    if content_type.is_empty() {
        prefix.append("unknown");
    } else {
        prefix.append(content_type);
    }
    prefix.append(" cannot be simplified to markdown, but here is the raw content:\n");
    Rendering::Page(FetchedPage { content: page, prefix })
}

/// The error for a page that could not be asked for.
pub open spec fn send_failure(url: Seq<char>, message: Seq<char>) -> ErrorModel {
    internal("Failed to fetch "@ + url + ": "@ + message)
}

/// The error for a page that is answered with a failure status.
pub open spec fn status_failure(url: Seq<char>, status: nat) -> ErrorModel {
    internal("Failed to fetch "@ + url + " - status code "@ + decimal(status))
}

/// The error for a page that could not be asked for.
pub fn page_send_failure(url: &str, message: &str) -> (res: FetchError)
    ensures
        res@ == send_failure(url@, message@),
{
    let mut text = "Failed to fetch ".to_owned();
    text.append(url);
    text.append(": ");
    text.append(message);
    internal_error(text)
}

/// The error for a page that is answered with a failure status.
pub fn page_status_failure(url: &str, status: u16) -> (res: FetchError)
    ensures
        res@ == status_failure(url@, status as nat),
{
    let mut text = "Failed to fetch ".to_owned();
    text.append(url);
    text.append(" - status code ");
    append_decimal(&mut text, status as usize);
    internal_error(text)
}

proof fn lemma_boundary_before(bytes: Seq<u8>, end: int)
    requires
        0 <= end,
        is_char_boundary(bytes, 0),
    ensures
        0 <= boundary_before(bytes, end) <= end,
        is_char_boundary(bytes, boundary_before(bytes, end)),
        forall|j: int|
            boundary_before(bytes, end) < j <= end ==> !#[trigger] is_char_boundary(bytes, j),
    decreases end,
{
    if end > 0 && !is_char_boundary(bytes, end) {
        lemma_boundary_before(bytes, end - 1);
    }
}

/// The head of a page is its beginning: all of it where that fits into [`HEAD_BYTES`], and
/// otherwise all characters that end within them.
pub proof fn law_head_is_beginning_of_page(page: Seq<char>)
    ensures
        head(page).is_prefix_of(page),
        encode_utf8(page).len() <= HEAD_BYTES ==> head(page) == page,
        is_char_boundary(encode_utf8(page), head_length(page)),
        0 <= head_length(page) <= HEAD_BYTES,
        forall|j: int|
            head_length(page) < j <= HEAD_BYTES ==> !#[trigger] is_char_boundary(
                encode_utf8(page),
                j,
            ),
{
    let bytes = encode_utf8(page);
    encode_utf8_valid_utf8(page);
    encode_utf8_decode_utf8(page);
    is_char_boundary_start_end_of_seq(bytes);
    lemma_boundary_before(bytes, HEAD_BYTES as int);
    decode_utf8_split(bytes, head_length(page));
    assert(bytes.subrange(0, bytes.len() as int) =~= bytes);
    assert(page.subrange(0, head(page).len() as int) =~= head(page));
}

/// A page that is wanted raw is shown as it came, whatever it holds.
pub proof fn law_raw_page_is_shown_as_it_came(
    page: Seq<char>,
    truncated: bool,
    content_type: Seq<char>,
)
    ensures
        rendered(page, truncated, content_type, true) matches RenderingModel::Page(shown)
            && shown.content == page,
{
}

/// A page that is shown as Markdown is never blank.
pub proof fn law_markdown_page_is_not_blank(markdown: Seq<char>, prefix: Seq<char>)
    ensures
        !is_blank(markdown_page(markdown, prefix).content),
{
    reveal_strlit("<error>Page failed to be simplified from HTML</error>");
    assert(!is_white_space(SIMPLIFICATION_FAILED@[0]));
}

/// A page that was cut at the download limit says so before anything else, and no other
/// page does.
pub proof fn law_truncation_is_announced(
    page: Seq<char>,
    truncated: bool,
    content_type: Seq<char>,
    force_raw: bool,
)
    ensures
        ({
            let prefix = match rendered(page, truncated, content_type, force_raw) {
                RenderingModel::Page(shown) => shown.prefix,
                RenderingModel::Convert { prefix, .. } => prefix,
            };
            starts_with(prefix, TRUNCATION_NOTICE@) == truncated
        }),
{
    reveal_strlit(
        "Response exceeded the internal safety download limit and was truncated before processing.\n",
    );
    reveal_strlit("Content type ");
    let notice = TRUNCATION_NOTICE@;
    let raw = raw_page(page, truncated, content_type).prefix;
    if truncated {
        assert(raw.subrange(0, notice.len() as int) =~= notice);
        assert(notice.subrange(0, notice.len() as int) =~= notice);
    } else {
        assert(raw[0] == 'C');
        if starts_with(raw, notice) {
            assert(raw.subrange(0, notice.len() as int)[0] == notice[0]);
        }
    }
}

} // verus!
