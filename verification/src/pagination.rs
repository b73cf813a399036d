//! Handing out long content piece by piece.

use vstd::prelude::*;

use crate::text::{append_decimal, decimal, law_decimal_is_injective};

verus! {

/// The piece of `content` that starts at character `start` and is at most `max`
/// characters long.
pub open spec fn piece(content: Seq<char>, start: nat, max: nat) -> Seq<char> {
    let from = if start <= content.len() { start } else { content.len() };
    let to = if start + max <= content.len() { start + max } else { content.len() };
    content.subrange(from as int, to as int)
}

/// What stands in place of a piece that is empty.
pub const NO_MORE_CONTENT: &'static str = "<error>No more content available.</error>";

/// The note behind a piece that is not the last: where the next one starts.
pub open spec fn continuation(next: nat) -> Seq<char> {
    "\n\n<error>Content truncated. Call the fetch tool with a start_index of "@ + decimal(next)
        + " to get more content.</error>"@
}

/// The piece of `content` from `start` on, with a note where the next one starts if
/// there is one.
pub open spec fn page_body(content: Seq<char>, start: nat, max: nat) -> Seq<char> {
    let part = piece(content, start, max);
    if part.len() == 0 {
        NO_MORE_CONTENT@
    } else if start + part.len() < content.len() {
        part + continuation(start + part.len())
    } else {
        part
    }
}

/// A page as it is sent: the remarks about it, its address, its body.
pub open spec fn paginated(
    url: Seq<char>,
    content: Seq<char>,
    prefix: Seq<char>,
    start: nat,
    max: nat,
) -> Seq<char> {
    prefix + "Contents of "@ + url + ":\n"@ + page_body(content, start, max)
}

/// The characters of `input` from `start` on, at most `max_length` of them.
pub fn slice_chars(input: &str, start: usize, max_length: usize) -> (res: String)
    ensures
        res@ == piece(input@, start as nat, max_length as nat),
{
    let len = input.unicode_len();
    if start >= len {
        return String::new();
    }
    let to = if max_length <= len - start {
        start + max_length
    } else {
        len
    };
    input.substring_char(start, to).to_owned()
}

/// The text that a tool call is answered with: `prefix`, a line that names `url`,
/// and the piece of `content` that was asked for.
pub fn paginate_content(
    url: &str,
    content: &str,
    prefix: &str,
    start_index: usize,
    max_length: usize,
) -> (res: String)
    ensures
        res@ == paginated(url@, content@, prefix@, start_index as nat, max_length as nat),
{
    let original_length = content.unicode_len();
    let mut page = prefix.to_owned();
    page.append("Contents of ");
    page.append(url);
    page.append(":\n");
    let part = slice_chars(content, start_index, max_length);
    let part_length = part.as_str().unicode_len();
    let ghost head = page@;
    if part_length == 0 {
        page.append(NO_MORE_CONTENT);
    } else {
        page.append(part.as_str());
        if start_index + part_length < original_length {
            page.append("\n\n<error>Content truncated. Call the fetch tool with a start_index of ");
            append_decimal(&mut page, start_index + part_length);
            page.append(" to get more content.</error>");
        }
    }
    assert(page@ =~= head + page_body(content@, start_index as nat, max_length as nat));
    page
}

/// The pieces that a caller gets who starts at `start` and then follows the notes.
pub open spec fn pieces(content: Seq<char>, start: nat, max: nat) -> Seq<Seq<char>>
    decreases content.len() - start,
{
    let part = piece(content, start, max);
    if part.len() == 0 {
        Seq::empty()
    } else {
        seq![part] + pieces(content, start + part.len(), max)
    }
}

/// A piece is never longer than the length that was asked for.
pub proof fn law_piece_length(content: Seq<char>, start: nat, max: nat)
    ensures
        piece(content, start, max).len() <= max,
{
}

/// Where the length is positive, following the notes from the start gives the
/// whole content back, nothing left out and nothing twice.
pub proof fn law_pieces_cover_content(content: Seq<char>, start: nat, max: nat)
    requires
        0 < max,
        start <= content.len(),
    ensures
        pieces(content, start, max).flatten() == content.skip(start as int),
    decreases content.len() - start,
{
    let part = piece(content, start, max);
    if part.len() == 0 {
        assert(content.skip(start as int) =~= Seq::<char>::empty());
        assert(pieces(content, start, max) =~= Seq::empty());
    } else {
        let rest = pieces(content, start + part.len(), max);
        law_pieces_cover_content(content, start + part.len(), max);
        assert((seq![part] + rest).drop_first() =~= rest);
        assert(content.skip(start as int) =~= part + content.skip((start + part.len()) as int));
    }
}

/// A page carries the note exactly when content is left behind its piece, and the
/// note names the position where the piece ends.
pub proof fn law_note_names_next_start(content: Seq<char>, start: nat, max: nat)
    requires
        0 < max,
        start < content.len(),
    ensures
        start + max < content.len() ==> page_body(content, start, max) == piece(
            content,
            start,
            max,
        ) + continuation(start + max) && piece(content, start, max).len() == max,
        start + max >= content.len() ==> page_body(content, start, max) == content.skip(start as int),
{
}

/// Behind the end of the content there is no piece, only the remark that says so.
pub proof fn law_no_piece_behind_the_end(content: Seq<char>, start: nat, max: nat)
    requires
        start >= content.len(),
    ensures
        page_body(content, start, max) == NO_MORE_CONTENT@,
{
}

/// Two notes are alike only where they name the same position.
pub proof fn law_note_tells_position(a: nat, b: nat)
    requires
        continuation(a) == continuation(b),
    ensures
        a == b,
{
    let before = "\n\n<error>Content truncated. Call the fetch tool with a start_index of "@;
    let after = " to get more content.</error>"@;
    let n = before.len() as int;
    let x = continuation(a);
    let y = continuation(b);
    assert(x.len() == n + decimal(a).len() + after.len());
    assert(y.len() == n + decimal(b).len() + after.len());
    assert(x.subrange(n, n + decimal(a).len()) =~= decimal(a));
    assert(y.subrange(n, n + decimal(b).len()) =~= decimal(b));
    law_decimal_is_injective(a, b);
}

} // verus!
