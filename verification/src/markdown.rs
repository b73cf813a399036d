//! From HTML to Markdown.

use vstd::prelude::*;

use crate::html::{cleaned_html, close_pattern, closing, extract_primary_html_fragment,
    open_pattern, opening, strip_unwanted_html_blocks};
use crate::text::{find_from, lemma_find_either, lower, matches_at, occurs_at, search,
    to_lower_chars};

verus! {

/// `c` is white space between the parts of a tag.
pub open spec fn is_tag_space(c: char) -> bool {
    c == '\t' || c == '\n' || c == '\u{c}' || c == '\r' || c == ' '
}

/// `c` ends the name of a tag.
pub open spec fn ends_name(c: char) -> bool {
    is_tag_space(c) || c == '/' || c == '>'
}

/// `c` may stand in the name of a plainly written attribute. The text has no capital
/// letters.
pub open spec fn is_attribute_char(c: char) -> bool {
    ('a' <= c && c <= 'z') || ('0' <= c && c <= '9') || c == '-' || c == '_' || c == ':' || c == '.'
}

/// An opening tag named `tag` begins in `text` at `i`.
pub open spec fn tag_begins_at(text: Seq<char>, tag: Seq<char>, i: int) -> bool {
    &&& occurs_at(text, open_pattern(tag), i)
    &&& i + open_pattern(tag).len() < text.len()
    &&& ends_name(text[i + open_pattern(tag).len()])
}

/// A closing tag named `tag` begins in `text` at `i`.
pub open spec fn closing_tag_at(text: Seq<char>, tag: Seq<char>, i: int) -> bool {
    &&& occurs_at(text, close_pattern(tag), i)
    &&& i + close_pattern(tag).len() < text.len()
    &&& ends_name(text[i + close_pattern(tag).len()])
}

/// The end of the white space that stands at `from`.
pub open spec fn space_end(text: Seq<char>, from: int) -> int
    decreases text.len() - from,
{
    if 0 <= from < text.len() && is_tag_space(text[from]) {
        space_end(text, from + 1)
    } else {
        from
    }
}

/// The end of the attribute name that stands at `from`.
pub open spec fn attribute_end(text: Seq<char>, from: int) -> int
    decreases text.len() - from,
{
    if 0 <= from < text.len() && is_attribute_char(text[from]) {
        attribute_end(text, from + 1)
    } else {
        from
    }
}

/// The position behind an opening tag whose name or last attribute ends at `from`, where
/// the rest of it is written plainly: attributes behind white space, each a name alone or
/// a name, `=` and a value in quotes.
pub open spec fn plain_tag_end(text: Seq<char>, from: int) -> Option<int>
    decreases text.len() + 1 - from,
    when 0 <= from
{
    let at = space_end(text, from);
    let end = attribute_end(text, at);
    if at >= text.len() {
        None
    } else if text[at] == '>' {
        Some(at + 1)
    } else if text[at] == '/' && at + 1 < text.len() && text[at + 1] == '>' {
        Some(at + 2)
    } else if at == from || end == at {
        None
    } else if end < text.len() && text[end] == '=' {
        if end + 1 < text.len() && (text[end + 1] == '"' || text[end + 1] == '\'') {
            match find_from(text, seq![text[end + 1]], end + 2) {
                None => None,
                Some(quote) => {
                    proof {
                        lemma_space_end(text, from);
                        lemma_attribute_end(text, at);
                        lemma_find_either(
                            text,
                            seq![text[end + 1]],
                            seq![text[end + 1]],
                            end + 2,
                        );
                    }
                    plain_tag_end(text, quote + 1)
                },
            }
        } else {
            None
        }
    } else {
        proof {
            lemma_space_end(text, from);
            lemma_attribute_end(text, at);
        }
        plain_tag_end(text, end)
    }
}

/// White space ends at or behind where it begins, inside the text.
pub proof fn lemma_space_end(text: Seq<char>, from: int)
    ensures
        from <= space_end(text, from),
        from <= text.len() ==> space_end(text, from) <= text.len(),
    decreases text.len() - from,
{
    if 0 <= from < text.len() && is_tag_space(text[from]) {
        lemma_space_end(text, from + 1);
    }
}

/// An attribute name ends at or behind where it begins, inside the text.
pub proof fn lemma_attribute_end(text: Seq<char>, from: int)
    ensures
        from <= attribute_end(text, from),
        from <= text.len() ==> attribute_end(text, from) <= text.len(),
    decreases text.len() - from,
{
    if 0 <= from < text.len() && is_attribute_char(text[from]) {
        lemma_attribute_end(text, from + 1);
    }
}

/// The opening tag named `tag` that begins at `i` is written plainly, and the next tag
/// behind it closes it.
pub open spec fn closed_at_once(text: Seq<char>, tag: Seq<char>, i: int) -> bool {
    match plain_tag_end(text, i + open_pattern(tag).len()) {
        None => false,
        Some(end) => match find_from(text, seq!['<'], end) {
            None => false,
            Some(next) => closing_tag_at(text, tag, next),
        },
    }
}

/// An opening tag named `tag` begins at `i`, and other tags may stand in its element.
pub open spec fn left_open_at(text: Seq<char>, tag: Seq<char>, i: int) -> bool {
    tag_begins_at(text, tag, i) && !closed_at_once(text, tag, i)
}

/// A link, a quotation or a stretch in another style begins at `i`, and other tags may
/// stand in it.
pub open spec fn markup_left_open_at(text: Seq<char>, i: int) -> bool {
    ||| left_open_at(text, "a"@, i)
    ||| left_open_at(text, "q"@, i)
    ||| left_open_at(text, "cite"@, i)
    ||| left_open_at(text, "blockquote"@, i)
    ||| left_open_at(text, "b"@, i)
    ||| left_open_at(text, "i"@, i)
    ||| left_open_at(text, "s"@, i)
    ||| left_open_at(text, "strong"@, i)
    ||| left_open_at(text, "em"@, i)
    ||| left_open_at(text, "del"@, i)
}

/// A list item begins at `j`, behind the beginning of a link, a quotation or a style at `i`
/// that it may stand in.
pub open spec fn item_may_stand_in_markup(text: Seq<char>, i: int, j: int) -> bool {
    i < j && markup_left_open_at(text, i) && tag_begins_at(text, "li"@, j)
}

/// `html` holds a list item that may stand in a link, a quotation or a style.
pub open spec fn may_break_converter(html: Seq<char>) -> bool {
    exists|i: int, j: int| item_may_stand_in_markup(lower(html), i, j)
}

/// The Markdown that the converter makes of an HTML text.
pub uninterp spec fn markdown_of(html: Seq<char>) -> Seq<char>;

/// Converts `html` with `html2md::parse_html`. The result, named [`markdown_of`],
/// depends on the text alone.
///
/// Texts in which a list item may stand in a link, a quotation or a style are left out.
/// Links, quotations and styles note down a position in what is written and insert there
/// when they end. A list item that stands in no list drops white space from the beginning
/// of what is written, so that the position noted by an element around it may lie behind
/// the end, or inside a character, where the converter panics. Which item stands in no list
/// only the converter's parser can tell. An element around an item begins before it, and
/// one whose opening tag is followed by text alone and then by its closing tag has ended
/// there; so in all texts that are let through, the noted positions stay valid.
///
/// Two things grow with the depth of nesting and are not bounded here: the stack, as the
/// converter walks the elements of a text recursively, and the time, as it converts each
/// cell of a table more than once, and so the cells of a table in a table many times over.
#[verifier::external_body]
fn convert(html: &str) -> (res: String)
    requires
        !may_break_converter(html@),
    ensures
        res@ == markdown_of(html@),
{
    html2md::parse_html(html)
}

/// What an HTML page is reduced to.
#[derive(Debug)]
pub enum Simplified {
    /// The Markdown of the page.
    Markdown(String),
    /// The cleaned HTML of the page, which the converter may not be up to and which is
    /// still to be converted.
    Html(String),
}

/// What a [`Simplified`] says.
pub enum SimplifiedModel {
    Markdown(Seq<char>),
    Html(Seq<char>),
}

impl View for Simplified {
    type V = SimplifiedModel;

    open spec fn view(&self) -> SimplifiedModel {
        match self {
            Simplified::Markdown(text) => SimplifiedModel::Markdown(text@),
            Simplified::Html(text) => SimplifiedModel::Html(text@),
        }
    }
}

/// What a page is reduced to: its primary fragment, or else all of it, without
/// clutter, as Markdown where the converter is known to take it.
pub open spec fn simplified(html: Seq<char>) -> SimplifiedModel {
    if may_break_converter(cleaned_html(html)) {
        SimplifiedModel::Html(cleaned_html(html))
    } else {
        SimplifiedModel::Markdown(markdown_of(cleaned_html(html)))
    }
}

/// Whether `c` is white space between the parts of a tag.
fn tag_space(c: char) -> (res: bool)
    ensures
        res == is_tag_space(c),
{
    c == '\t' || c == '\n' || c == '\u{c}' || c == '\r' || c == ' '
}

/// Whether `c` may stand in the name of a plainly written attribute.
fn attribute_char(c: char) -> (res: bool)
    ensures
        res == is_attribute_char(c),
{
    ('a' <= c && c <= 'z') || ('0' <= c && c <= '9') || c == '-' || c == '_' || c == ':' || c
        == '.'
}

/// Whether `pattern` stands in `text` at `i` with the end of a name behind it.
fn name_matches_at(text: &[char], pattern: &[char], i: usize) -> (res: bool)
    ensures
        res == (occurs_at(text@, pattern@, i as int) && i + pattern@.len() < text@.len()
            && ends_name(text@[i + pattern@.len()])),
{
    if !matches_at(text, pattern, i) || pattern.len() == text.len() - i {
        return false;
    }
    let c = text[i + pattern.len()];
    tag_space(c) || c == '/' || c == '>'
}

/// The position behind an opening tag whose name ends at `from`, where the rest of it is
/// written plainly.
fn search_plain_tag_end(text: &[char], from: usize) -> (res: Option<usize>)
    requires
        from <= text@.len(),
    ensures
        match res {
            Some(p) => plain_tag_end(text@, from as int) == Some(p as int) && p <= text@.len(),
            None => plain_tag_end(text@, from as int) == None::<int>,
        },
{
    let mut start: usize = from;
    loop
        invariant
            start <= text@.len() == text.len(),
            plain_tag_end(text@, start as int) == plain_tag_end(text@, from as int),
        decreases text@.len() - start,
    {
        let mut at: usize = start;
        while at < text.len() && tag_space(text[at])
            invariant
                start <= at <= text@.len() == text.len(),
                space_end(text@, start as int) == space_end(text@, at as int),
            decreases text@.len() - at,
        {
            at = at + 1;
        }
        if at == text.len() {
            return None;
        }
        if text[at] == '>' {
            return Some(at + 1);
        }
        if text[at] == '/' && at + 1 < text.len() && text[at + 1] == '>' {
            return Some(at + 2);
        }
        let mut end: usize = at;
        while end < text.len() && attribute_char(text[end])
            invariant
                at <= end <= text@.len() == text.len(),
                attribute_end(text@, at as int) == attribute_end(text@, end as int),
            decreases text@.len() - end,
        {
            end = end + 1;
        }
        if at == start || end == at {
            return None;
        }
        if end < text.len() && text[end] == '=' {
            if end + 1 == text.len() {
                return None;
            }
            let mark = text[end + 1];
            if mark != '"' && mark != '\'' {
                return None;
            }
            let quote: Vec<char> = vec![mark];
            assert(quote@ =~= seq![mark]);
            proof {
                lemma_find_either(text@, quote@, quote@, end + 2);
            }
            match search(text, quote.as_slice(), end + 2) {
                None => {
                    return None;
                },
                Some(p) => {
                    start = p + 1;
                },
            }
        } else {
            start = end;
        }
    }
}

/// Whether an opening tag named `tag` begins at `i` and other tags may stand in its
/// element.
fn leaves_open(text: &[char], tag: &str, i: usize) -> (res: bool)
    ensures
        res == left_open_at(text@, tag@, i as int),
{
    let open = opening(tag);
    if !name_matches_at(text, open.as_slice(), i) {
        return false;
    }
    assert(text.len() == text@.len());
    let end = match search_plain_tag_end(text, i + open.len()) {
        Some(end) => end,
        None => {
            return true;
        },
    };
    let angle: Vec<char> = vec!['<'];
    assert(angle@ =~= seq!['<']);
    let next = match search(text, angle.as_slice(), end) {
        Some(next) => next,
        None => {
            return true;
        },
    };
    let shut = closing(tag);
    !name_matches_at(text, shut.as_slice(), next)
}

/// Whether a link, a quotation or a style begins at `i` and other tags may stand in it.
fn leaves_markup_open(text: &[char], i: usize) -> (res: bool)
    ensures
        res == markup_left_open_at(text@, i as int),
{
    leaves_open(text, "a", i) || leaves_open(text, "q", i) || leaves_open(text, "cite", i)
        || leaves_open(text, "blockquote", i) || leaves_open(text, "b", i) || leaves_open(
        text,
        "i",
        i,
    ) || leaves_open(text, "s", i) || leaves_open(text, "strong", i) || leaves_open(text, "em", i)
        || leaves_open(text, "del", i)
}

/// Whether `html` holds a list item that may stand in a link, a quotation or a style.
pub fn may_break(html: &str) -> (res: bool)
    ensures
        res == may_break_converter(html@),
{
    let folded = to_lower_chars(html);
    let text = folded.as_slice();
    let item = opening("li");
    let mut open = false;
    let ghost mut first: int = 0;
    let mut i: usize = 0;
    while i < text.len()
        invariant
            text@ == lower(html@),
            text@.len() == text.len(),
            i <= text@.len(),
            item@ == open_pattern("li"@),
            open ==> first < i && markup_left_open_at(text@, first),
            !open ==> forall|k: int| 0 <= k < i ==> !#[trigger] markup_left_open_at(text@, k),
            forall|k: int, j: int| j < i ==> !#[trigger] item_may_stand_in_markup(text@, k, j),
        decreases text@.len() - i,
    {
        if open && name_matches_at(text, item.as_slice(), i) {
            assert(item_may_stand_in_markup(text@, first, i as int));
            return true;
        }
        if !open && leaves_markup_open(text, i) {
            open = true;
            proof {
                first = i as int;
            }
        }
        i = i + 1;
    }
    false
}

/// The HTML of a page that is left for conversion: its primary fragment, or else all of
/// it, without clutter.
pub fn clean_html(html: &str) -> (res: String)
    ensures
        res@ == cleaned_html(html@),
{
    match extract_primary_html_fragment(html) {
        Some(fragment) => strip_unwanted_html_blocks(fragment),
        None => strip_unwanted_html_blocks(html),
    }
}

/// Reduces a page to its content: the primary fragment without clutter, converted to
/// Markdown. The converter must be up to what is left of the page.
pub fn simplify_html_to_markdown(html: &str) -> (res: String)
    requires
        !may_break_converter(cleaned_html(html@)),
    ensures
        res@ == markdown_of(cleaned_html(html@)),
{
    convert(clean_html(html).as_str())
}

/// Reduces a page to its content, as Markdown where the converter is known to be up to it,
/// and otherwise as HTML, to be converted where a panic can be borne.
pub fn simplify(html: &str) -> (res: Simplified)
    ensures
        res@ == simplified(html@),
{
    let cleaned = clean_html(html);
    if may_break(cleaned.as_str()) {
        Simplified::Html(cleaned)
    } else {
        Simplified::Markdown(simplify_html_to_markdown(html))
    }
}

} // verus!
