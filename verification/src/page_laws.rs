//! What is made of a response, said of the texts that go in and come out.

use vstd::prelude::*;
use vstd::utf8::{decode_utf8_encode_utf8, encode_utf8, encode_utf8_decode_utf8,
    encode_utf8_first_scalar, encode_utf8_valid_utf8, is_char_boundary,
    is_char_boundary_start_end_of_seq, length_of_first_scalar, pop_first_scalar, valid_utf8_split};

use crate::body::BodyModel;
use crate::html::cleaned_html;
use crate::markdown::{markdown_of, may_break_converter};
use crate::page::{head, head_length, law_head_is_beginning_of_page, looks_like_html,
    markdown_page, rendered, PageModel, RenderingModel};
use crate::pagination::{continuation, paginated, piece};
use crate::text::{contains, decimal, is_white_space};
use crate::text_laws::{is_numeral, law_held_text_has_a_place, law_numeral_reads_back,
    law_text_stands_where_it_was_put, number};

verus! {

/// A piece is the part of the content that begins at its start: as long as was asked for,
/// or all that is left.
pub proof fn law_piece_is_part_of_content(before: Seq<char>, part: Seq<char>, after: Seq<char>)
    ensures
        piece(before + part + after, before.len(), part.len()) == part,
        forall|max: nat| #[trigger] piece(before + part, before.len(), part.len() + max) == part,
        forall|start: nat, max: nat|
            start >= before.len() ==> #[trigger] piece(before, start, max) == Seq::<char>::empty(),
{
    let all = before + part + after;
    assert(piece(all, before.len(), part.len()) =~= part);
    assert forall|max: nat| #[trigger]
        piece(before + part, before.len(), part.len() + max) == part by {
        assert(piece(before + part, before.len(), part.len() + max) =~= part);
    }
    assert forall|start: nat, max: nat| start >= before.len() implies #[trigger] piece(
        before,
        start,
        max,
    ) == Seq::<char>::empty() by {
        assert(piece(before, start, max) =~= Seq::<char>::empty());
    }
}

/// The note behind a piece is the remark that content was left out around a numeral, and
/// that numeral, read as a number, is where the next piece starts.
pub proof fn law_note_reads_as_next_start(next: nat)
    ensures
        exists|digits: Seq<char>|
            {
                &&& continuation(next)
                    == "\n\n<error>Content truncated. Call the fetch tool with a start_index of "@
                    + digits + " to get more content.</error>"@
                &&& is_numeral(digits)
                &&& #[trigger] number(digits) == next
            },
{
    law_numeral_reads_back(next);
    assert(number(decimal(next)) == next);
}

/// A page whose piece has content behind it shows the piece and a note; the number in the
/// note is where that content begins, so that asking for it goes on without a gap.
pub proof fn law_page_goes_on_where_it_ends(
    url: Seq<char>,
    prefix: Seq<char>,
    before: Seq<char>,
    part: Seq<char>,
    after: Seq<char>,
)
    requires
        part.len() > 0,
        after.len() > 0,
    ensures
        exists|digits: Seq<char>|
            {
                &&& paginated(url, before + part + after, prefix, before.len(), part.len())
                    == prefix + "Contents of "@ + url + ":\n"@ + part
                    + "\n\n<error>Content truncated. Call the fetch tool with a start_index of "@
                    + digits + " to get more content.</error>"@
                &&& is_numeral(digits)
                &&& #[trigger] number(digits) == (before + part).len()
            },
{
    let content = before + part + after;
    let next = before.len() + part.len();
    law_piece_is_part_of_content(before, part, after);
    law_numeral_reads_back(next);
    let d = decimal(next);
    assert(number(d) == (before + part).len());
    assert(paginated(url, content, prefix, before.len(), part.len()) =~= prefix + "Contents of "@
        + url + ":\n"@ + part
        + "\n\n<error>Content truncated. Call the fetch tool with a start_index of "@ + d
        + " to get more content.</error>"@);
}

/// A page whose piece is the last shows the piece and nothing else, however much was asked
/// for.
pub proof fn law_last_page_shows_its_piece_alone(
    url: Seq<char>,
    prefix: Seq<char>,
    before: Seq<char>,
    part: Seq<char>,
    more: nat,
)
    requires
        part.len() > 0,
    ensures
        paginated(url, before + part, prefix, before.len(), part.len() + more) == prefix
            + "Contents of "@ + url + ":\n"@ + part,
{
    let content = before + part;
    law_piece_is_part_of_content(before, part, Seq::empty());
    assert(piece(content, before.len(), part.len() + more) == part);
}

/// A page that begins behind the content, or that is to show nothing, says that nothing is
/// left.
pub proof fn law_empty_page_says_so(
    url: Seq<char>,
    prefix: Seq<char>,
    content: Seq<char>,
    start: nat,
    max: nat,
)
    requires
        start >= content.len() || max == 0,
    ensures
        paginated(url, content, prefix, start, max) == prefix + "Contents of "@ + url + ":\n"@
            + "<error>No more content available.</error>"@,
{
    assert(piece(content, start, max) =~= Seq::<char>::empty());
}

/// Markdown in which any character is not white space is shown as it is, whatever its length.
pub proof fn law_markdown_is_shown_as_it_is(
    a: Seq<char>,
    c: char,
    b: Seq<char>,
    prefix: Seq<char>,
)
    requires
        !is_white_space(c),
    ensures
        markdown_page(a.push(c) + b, prefix) == (PageModel { content: a.push(c) + b, prefix }),
{
    assert((a.push(c) + b)[a.len() as int] == c);
}

/// Markdown of white space alone is replaced by the remark that the page could not be
/// simplified.
pub proof fn law_blank_markdown_is_replaced(markdown: Seq<char>, prefix: Seq<char>)
    requires
        forall|i: int| 0 <= i < markdown.len() ==> is_white_space(#[trigger] markdown[i]),
    ensures
        markdown_page(markdown, prefix) == (PageModel {
            content: "<error>Page failed to be simplified from HTML</error>"@,
            prefix,
        }),
{
}

/// A text is encoded part by part.
proof fn lemma_encoded_in_parts(a: Seq<char>, b: Seq<char>)
    ensures
        encode_utf8(a + b) == encode_utf8(a) + encode_utf8(b),
    decreases a.len(),
{
    if a.len() == 0 {
        assert(a + b =~= b);
        assert(encode_utf8(a) + encode_utf8(b) =~= encode_utf8(b));
    } else {
        lemma_encoded_in_parts(a.drop_first(), b);
        assert((a + b).drop_first() =~= a.drop_first() + b);
        assert(encode_utf8(a + b) =~= encode_utf8(a) + encode_utf8(b));
    }
}

/// The encoding of a text that is not empty is not empty.
proof fn lemma_encoding_takes_bytes(a: Seq<char>)
    requires
        a.len() > 0,
    ensures
        encode_utf8(a).len() > 0,
{
    encode_utf8_valid_utf8(a);
    encode_utf8_decode_utf8(a);
}

/// A part of a text ends between two characters.
proof fn lemma_part_ends_at_boundary(a: Seq<char>, b: Seq<char>)
    ensures
        is_char_boundary(encode_utf8(a + b), encode_utf8(a).len() as int),
    decreases a.len(),
{
    let s = a + b;
    encode_utf8_valid_utf8(s);
    is_char_boundary_start_end_of_seq(encode_utf8(s));
    if a.len() > 0 {
        lemma_part_ends_at_boundary(a.drop_first(), b);
        assert(s.drop_first() =~= a.drop_first() + b);
        encode_utf8_first_scalar(s);
        lemma_encoded_in_parts(a, b);
        assert(pop_first_scalar(encode_utf8(s)) =~= encode_utf8(s.drop_first()));
        assert(encode_utf8(a).len() == length_of_first_scalar(encode_utf8(s)) + encode_utf8(
            a.drop_first(),
        ).len());
    }
}

/// `page` begins with a part that ends in an `html` tag and takes no more than 100 bytes.
pub open spec fn begins_as_html(page: Seq<char>) -> bool {
    exists|a: Seq<char>, b: Seq<char>|
        page == #[trigger] (a + "<html"@ + b) && encode_utf8(a + "<html"@).len() <= 100
}

proof fn lemma_head_shows_html(page: Seq<char>)
    ensures
        contains(head(page), "<html"@) == begins_as_html(page),
{
    let tag = "<html"@;
    let h = head(page);
    let bytes = encode_utf8(page);
    law_head_is_beginning_of_page(page);
    encode_utf8_valid_utf8(page);
    valid_utf8_split(bytes, head_length(page));
    decode_utf8_encode_utf8(bytes.subrange(0, head_length(page)));
    assert(encode_utf8(h).len() == head_length(page));
    let rest = page.skip(h.len() as int);
    assert(page =~= h + rest);
    if contains(h, tag) {
        law_held_text_has_a_place(h, tag);
        let (a, b) = choose|a: Seq<char>, b: Seq<char>| h == #[trigger] (a + tag + b);
        lemma_encoded_in_parts(a + tag, b);
        assert(page =~= a + tag + (b + rest));
        assert(begins_as_html(page));
    }
    if begins_as_html(page) {
        let (a, b) = choose|a: Seq<char>, b: Seq<char>|
            page == #[trigger] (a + tag + b) && encode_utf8(a + tag).len() <= 100;
        let p = a + tag;
        lemma_part_ends_at_boundary(p, b);
        lemma_encoded_in_parts(p, b);
        let n = encode_utf8(p).len() as int;
        assert(n <= head_length(page)) by {
            if n > head_length(page) {
                assert(!is_char_boundary(bytes, n));
            }
        }
        if h.len() < p.len() {
            let more = p.skip(h.len() as int);
            assert(p =~= h + more) by {
                assert forall|i: int| 0 <= i < h.len() implies h[i] == p[i] by {
                    assert(page[i] == h[i]);
                    assert(page[i] == p[i]);
                }
            }
            lemma_encoded_in_parts(h, more);
            lemma_encoding_takes_bytes(more);
        }
        let tail = h.skip(p.len() as int);
        assert(h =~= a + tag + tail) by {
            assert forall|i: int| 0 <= i < p.len() implies h[i] == p[i] by {
                assert(page[i] == h[i]);
                assert(page[i] == p[i]);
            }
        }
        law_text_stands_where_it_was_put(a, tag, tail);
    }
}

/// A page counts as HTML exactly when it has no content type, when `text/html` stands in its
/// content type, or when an `html` tag stands within its first 100 bytes.
pub proof fn law_html_is_told_by_type_or_beginning(page: Seq<char>, content_type: Seq<char>)
    ensures
        looks_like_html(page, content_type) <==> {
            ||| content_type.len() == 0
            ||| exists|a: Seq<char>, b: Seq<char>| content_type == #[trigger] (a + "text/html"@ + b)
            ||| begins_as_html(page)
        },
{
    lemma_head_shows_html(page);
    let kind = "text/html"@;
    if contains(content_type, kind) {
        law_held_text_has_a_place(content_type, kind);
    }
    if exists|a: Seq<char>, b: Seq<char>| content_type == #[trigger] (a + kind + b) {
        let (a, b) = choose|a: Seq<char>, b: Seq<char>| content_type == #[trigger] (a + kind + b);
        law_text_stands_where_it_was_put(a, kind, b);
    }
}

/// The remarks that go before a page: that it was cut at the download limit, if it was.
pub open spec fn cut_remark(truncated: bool) -> Seq<char> {
    if truncated {
        "Response exceeded the internal safety download limit and was truncated before processing.\n"@
    } else {
        Seq::empty()
    }
}

/// A page that is wanted raw, or that does not count as HTML, is shown whole and unchanged,
/// with a remark that names its content type.
pub proof fn law_other_pages_are_shown_unchanged(
    page: Seq<char>,
    truncated: bool,
    content_type: Seq<char>,
    force_raw: bool,
)
    requires
        force_raw || !looks_like_html(page, content_type),
    ensures
        rendered(page, truncated, content_type, force_raw) == RenderingModel::Page(
            PageModel {
                content: page,
                prefix: cut_remark(truncated) + "Content type "@ + (if content_type.len() == 0 {
                    "unknown"@
                } else {
                    content_type
                }) + " cannot be simplified to markdown, but here is the raw content:\n"@,
            },
        ),
{
}

/// A page that counts as HTML is shown as the Markdown of what is left of it, or handed out
/// as that HTML where an item in it may break the converter.
pub proof fn law_html_is_shown_as_markdown(
    page: Seq<char>,
    truncated: bool,
    content_type: Seq<char>,
)
    requires
        looks_like_html(page, content_type),
    ensures
        rendered(page, truncated, content_type, false) == if may_break_converter(
            cleaned_html(page),
        ) {
            RenderingModel::Convert { html: cleaned_html(page), prefix: cut_remark(truncated) }
        } else {
            RenderingModel::Page(
                markdown_page(markdown_of(cleaned_html(page)), cut_remark(truncated)),
            )
        },
{
}

/// What is kept once a chunk has arrived is the beginning of all that has arrived, at most
/// 5000000 bytes; the body counts as truncated once a chunk has found no room, or not enough.
pub proof fn law_chunk_is_kept_up_to_the_limit(bytes: Seq<u8>, chunk: Seq<u8>)
    requires
        bytes.len() <= 5_000_000,
    ensures
        ({
            let next = BodyModel { bytes, truncated: false }.accept(chunk);
            &&& bytes.len() + chunk.len() <= 5_000_000 ==> next.bytes == bytes + chunk
            &&& bytes.len() + chunk.len() > 5_000_000 ==> next.bytes == (bytes + chunk).take(
                5_000_000,
            )
            &&& next.truncated <==> (bytes.len() == 5_000_000 || bytes.len() + chunk.len()
                > 5_000_000)
        }),
{
    let next = BodyModel { bytes, truncated: false }.accept(chunk);
    if bytes.len() + chunk.len() <= 5_000_000 {
        assert(next.bytes =~= bytes + chunk);
    } else {
        assert(next.bytes =~= (bytes + chunk).take(5_000_000));
    }
}

/// Nothing has been read of a new body.
pub proof fn law_new_body_is_empty()
    ensures
        BodyModel::empty().bytes.len() == 0,
        !BodyModel::empty().truncated,
{
}

} // verus!
