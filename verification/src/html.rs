//! HTML reduction: picking the primary fragment of a page and cutting
//! comments and unwanted blocks out of it, on the text of the page alone.

use vstd::prelude::*;

use crate::text::{append_range, find_either, find_from, lemma_find_either, lower, matches_at,
    occurs_at, search, search_either, to_chars, to_lower_chars};

verus! {

/// What an opening tag of `tag` begins with.
pub open spec fn open_pattern(tag: Seq<char>) -> Seq<char> {
    seq!['<'] + tag
}

/// What a closing tag of `tag` begins with.
pub open spec fn close_pattern(tag: Seq<char>) -> Seq<char> {
    seq!['<', '/'] + tag
}

/// The position of the first `>` at or after `from`.
pub open spec fn tag_close(text: Seq<char>, from: int) -> Option<int> {
    find_from(text, seq!['>'], from)
}

/// An opening or closing tag found in a text.
pub struct Mark {
    /// The position just behind its `>`.
    pub end: int,
    /// It is an opening tag.
    pub opens: bool,
    /// It ends in `/>`.
    pub void: bool,
}

/// The tag that begins at `start` and whose `>` stands at `close`.
pub open spec fn mark_at(text: Seq<char>, tag: Seq<char>, start: int, close: int) -> Mark {
    Mark {
        end: close + 1,
        opens: occurs_at(text, open_pattern(tag), start),
        void: start < close && text[close - 1] == '/',
    }
}

/// The opening and closing tags of `tag` from position `from` on, each sought
/// behind the end of the one before; a tag without a `>` ends the list.
pub open spec fn marks(text: Seq<char>, tag: Seq<char>, from: int) -> Seq<Mark>
    decreases text.len() + 1 - from,
    when 0 <= from
{
    match find_either(text, open_pattern(tag), close_pattern(tag), from) {
        None => Seq::empty(),
        Some(start) => match tag_close(text, start) {
            None => Seq::empty(),
            Some(close) => {
                proof {
                    lemma_find_either(text, open_pattern(tag), close_pattern(tag), from);
                    lemma_find_either(text, seq!['>'], seq!['>'], start);
                }
                seq![mark_at(text, tag, start, close)] + marks(text, tag, close + 1)
            },
        },
    }
}

/// How a tag changes the nesting depth. A void opening tag adds a level only
/// where `voids_nest` says so.
pub open spec fn weight(m: Mark, voids_nest: bool) -> int {
    if !m.opens {
        -1
    } else if m.void && !voids_nest {
        0
    } else {
        1
    }
}

/// The first of the tags that brings the nesting, which is `depth` before
/// them, down to zero.
pub open spec fn closing_mark(ms: Seq<Mark>, depth: int, voids_nest: bool) -> Option<Mark>
    decreases ms.len(),
{
    if ms.len() == 0 {
        None
    } else if depth + weight(ms[0], voids_nest) <= 0 {
        Some(ms[0])
    } else {
        closing_mark(ms.drop_first(), depth + weight(ms[0], voids_nest), voids_nest)
    }
}

/// The end of the block whose opening tag begins at `start` and has its `>` at
/// `close`: a void tag is the whole block, a block that is never closed runs to
/// the end of the text.
pub open spec fn block_end(text: Seq<char>, tag: Seq<char>, start: int, close: int) -> int {
    if mark_at(text, tag, start, close).void {
        close + 1
    } else {
        match closing_mark(marks(text, tag, close + 1), 1, false) {
            Some(m) => m.end,
            None => text.len() as int,
        }
    }
}

/// A `>` that is found stands in the text, at or behind `from`, and is the first.
pub proof fn lemma_tag_close(text: Seq<char>, from: int)
    requires
        0 <= from,
    ensures
        match tag_close(text, from) {
            Some(c) => from <= c < text.len() && text[c] == '>' && forall|j: int|
                from <= j < c ==> text[j] != '>',
            None => forall|j: int| from <= j < text.len() ==> text[j] != '>',
        },
{
    let gt = seq!['>'];
    lemma_find_either(text, gt, gt, from);
    assert forall|j: int| 0 <= j < text.len() implies (text[j] == '>') == #[trigger] occurs_at(
        text,
        gt,
        j,
    ) by {
        assert(text.subrange(j, j + 1)[0] == text[j]);
        if text[j] == '>' {
            assert(text.subrange(j, j + 1) =~= gt);
        }
    }
    match tag_close(text, from) {
        Some(c) => {
            assert forall|j: int| from <= j < c implies text[j] != '>' by {
                assert(!occurs_at(text, gt, j));
            }
        },
        None => {
            assert forall|j: int| from <= j < text.len() implies text[j] != '>' by {
                assert(!occurs_at(text, gt, j));
            }
        },
    }
}

/// Every tag in the list ends inside the text, behind `from`.
pub proof fn lemma_marks_bounds(text: Seq<char>, tag: Seq<char>, from: int)
    requires
        0 <= from,
    ensures
        forall|i: int|
            0 <= i < marks(text, tag, from).len() ==> from < (#[trigger] marks(
                text,
                tag,
                from,
            )[i]).end <= text.len(),
    decreases text.len() + 1 - from,
{
    lemma_find_either(text, open_pattern(tag), close_pattern(tag), from);
    if let Some(start) = find_either(text, open_pattern(tag), close_pattern(tag), from) {
        lemma_tag_close(text, start);
        if let Some(close) = tag_close(text, start) {
            lemma_marks_bounds(text, tag, close + 1);
            let rest = marks(text, tag, close + 1);
            let all = marks(text, tag, from);
            assert forall|i: int| 0 <= i < all.len() implies from < (#[trigger] all[i]).end
                <= text.len() by {
                if i > 0 {
                    assert(all[i] == rest[i - 1]);
                }
            }
        }
    }
}

/// The closing tag, where there is one, is one of the list.
pub proof fn lemma_closing_mark_member(ms: Seq<Mark>, depth: int, voids_nest: bool)
    ensures
        closing_mark(ms, depth, voids_nest) matches Some(m) ==> ms.contains(m),
    decreases ms.len(),
{
    if ms.len() > 0 && depth + weight(ms[0], voids_nest) > 0 {
        lemma_closing_mark_member(ms.drop_first(), depth + weight(ms[0], voids_nest), voids_nest);
        if let Some(m) = closing_mark(ms.drop_first(), depth + weight(ms[0], voids_nest), voids_nest) {
            let i = choose|i: int| 0 <= i < ms.drop_first().len() && ms.drop_first()[i] == m;
            assert(ms[i + 1] == m);
        }
    }
}

/// A block ends behind its opening tag and inside the text.
pub proof fn lemma_block_end_bounds(text: Seq<char>, tag: Seq<char>, start: int, close: int)
    requires
        0 <= start <= close < text.len(),
    ensures
        close < block_end(text, tag, start, close) <= text.len(),
{
    lemma_marks_bounds(text, tag, close + 1);
    lemma_closing_mark_member(marks(text, tag, close + 1), 1, false);
}

/// `s` from position `from` on without its `tag` blocks; `folded` is `s` in lower
/// case. An opening tag without a `>` ends the cutting.
pub open spec fn without_blocks_from(
    s: Seq<char>,
    folded: Seq<char>,
    tag: Seq<char>,
    from: int,
) -> Seq<char>
    decreases folded.len() + 1 - from,
    when 0 <= from
{
    match find_from(folded, open_pattern(tag), from) {
        None => s.subrange(from, s.len() as int),
        Some(start) => match tag_close(folded, start) {
            None => s.subrange(from, s.len() as int),
            Some(close) => {
                proof {
                    lemma_find_either(folded, open_pattern(tag), open_pattern(tag), from);
                    lemma_find_either(folded, seq!['>'], seq!['>'], start);
                    lemma_block_end_bounds(folded, tag, start, close);
                }
                s.subrange(from, start) + without_blocks_from(
                    s,
                    folded,
                    tag,
                    block_end(folded, tag, start, close),
                )
            },
        },
    }
}

/// `s` without its `tag` blocks.
pub open spec fn without_blocks(s: Seq<char>, tag: Seq<char>) -> Seq<char> {
    without_blocks_from(s, lower(s), tag, 0)
}

/// The first `tag` block of `s`, from its opening tag to the closing tag that
/// balances it. Every opening tag counts, void or not.
pub open spec fn tag_block(s: Seq<char>, tag: Seq<char>) -> Option<Seq<char>> {
    match find_from(lower(s), open_pattern(tag), 0) {
        None => None,
        Some(start) => match closing_mark(marks(lower(s), tag, start), 0, true) {
            None => None,
            Some(m) => Some(s.subrange(start, m.end)),
        },
    }
}

/// The part of a page to render: its first `main` block, else its first
/// `article` block, else its first `body` block.
pub open spec fn primary_fragment(s: Seq<char>) -> Option<Seq<char>> {
    if tag_block(s, "main"@) is Some {
        tag_block(s, "main"@)
    } else if tag_block(s, "article"@) is Some {
        tag_block(s, "article"@)
    } else {
        tag_block(s, "body"@)
    }
}

/// What a comment begins with.
pub open spec fn comment_open() -> Seq<char> {
    seq!['<', '!', '-', '-']
}

/// What a comment ends with.
pub open spec fn comment_close() -> Seq<char> {
    seq!['-', '-', '>']
}

/// `s` from position `from` on without its comments; a comment that is never
/// closed takes the rest with it.
pub open spec fn without_comments_from(s: Seq<char>, from: int) -> Seq<char>
    decreases s.len() + 1 - from,
    when 0 <= from
{
    match find_from(s, comment_open(), from) {
        None => s.subrange(from, s.len() as int),
        Some(start) => match find_from(s, comment_close(), start + 4) {
            None => s.subrange(from, start),
            Some(end) => {
                proof {
                    lemma_find_either(s, comment_open(), comment_open(), from);
                    lemma_find_either(s, comment_close(), comment_close(), start + 4);
                }
                s.subrange(from, start) + without_comments_from(s, end + 3)
            },
        },
    }
}

/// `s` without its comments.
pub open spec fn without_comments(s: Seq<char>) -> Seq<char> {
    without_comments_from(s, 0)
}

/// `s` without comments, and then without the blocks that carry no content of
/// the page, one kind after the other.
pub open spec fn without_clutter(s: Seq<char>) -> Seq<char> {
    let s = without_blocks(without_comments(s), "script"@);
    let s = without_blocks(s, "style"@);
    let s = without_blocks(s, "noscript"@);
    let s = without_blocks(s, "svg"@);
    let s = without_blocks(s, "nav"@);
    let s = without_blocks(s, "footer"@);
    without_blocks(s, "aside"@)
}

/// The HTML that is left of a page for conversion.
pub open spec fn cleaned_html(s: Seq<char>) -> Seq<char> {
    match primary_fragment(s) {
        Some(fragment) => without_clutter(fragment),
        None => without_clutter(s),
    }
}

/// The pattern that an opening tag begins with.
pub(crate) fn opening(tag: &str) -> (res: Vec<char>)
    ensures
        res@ == open_pattern(tag@),
{
    let mut res: Vec<char> = Vec::new();
    res.push('<');
    let mut name = to_chars(tag);
    res.append(&mut name);
    assert(res@ =~= open_pattern(tag@));
    res
}

/// The pattern that a closing tag begins with.
pub(crate) fn closing(tag: &str) -> (res: Vec<char>)
    ensures
        res@ == close_pattern(tag@),
{
    let mut res: Vec<char> = Vec::new();
    res.push('<');
    res.push('/');
    let mut name = to_chars(tag);
    res.append(&mut name);
    assert(res@ =~= close_pattern(tag@));
    res
}

/// The position of the first `>` at or after `from`.
fn search_tag_close(text: &[char], from: usize) -> (res: Option<usize>)
    requires
        from <= text@.len(),
    ensures
        match res {
            Some(c) => tag_close(text@, from as int) == Some(c as int) && from <= c < text@.len(),
            None => tag_close(text@, from as int) == None::<int>,
        },
{
    let gt: Vec<char> = vec!['>'];
    assert(gt@ =~= seq!['>']);
    proof {
        lemma_tag_close(text@, from as int);
    }
    search(text, gt.as_slice(), from)
}

/// The end of the block whose opening tag begins at `start` and has its `>` at
/// `close`.
fn search_block_end(
    text: &[char],
    open: &[char],
    shut: &[char],
    start: usize,
    close: usize,
    Ghost(tag): Ghost<Seq<char>>,
) -> (res: usize)
    requires
        start <= close < text@.len(),
        open@ == open_pattern(tag),
        shut@ == close_pattern(tag),
    ensures
        res == block_end(text@, tag, start as int, close as int),
        close < res <= text@.len(),
{
    proof {
        lemma_block_end_bounds(text@, tag, start as int, close as int);
    }
    if start < close && text[close - 1] == '/' {
        return close + 1;
    }
    assert(text.len() == text@.len());
    let mut scan: usize = close + 1;
    let mut depth: usize = 1;
    loop
        invariant
            close < scan <= text@.len() == text.len(),
            1 <= depth <= scan,
            open@ == open_pattern(tag),
            shut@ == close_pattern(tag),
            closing_mark(marks(text@, tag, scan as int), depth as int, false) == closing_mark(
                marks(text@, tag, close + 1),
                1,
                false,
            ),
            block_end(text@, tag, start as int, close as int) == match closing_mark(
                marks(text@, tag, close + 1),
                1,
                false,
            ) {
                Some(m) => m.end,
                None => text@.len() as int,
            },
            close < block_end(text@, tag, start as int, close as int) <= text@.len(),
        decreases text@.len() - scan,
    {
        let at = match search_either(text, open, shut, scan) {
            Some(at) => at,
            None => {
                return text.len();
            },
        };
        let end = match search_tag_close(text, at) {
            Some(gt) => gt,
            None => {
                return text.len();
            },
        };
        let ghost here = marks(text@, tag, scan as int);
        assert(here.drop_first() =~= marks(text@, tag, end + 1));
        if matches_at(text, open, at) {
            if !(at < end && text[end - 1] == '/') {
                depth = depth + 1;
            }
        } else {
            depth = depth - 1;
            if depth == 0 {
                return end + 1;
            }
        }
        scan = end + 1;
    }
}

/// `html` without its `tag` blocks.
///
/// A block runs from an opening tag to the closing tag that balances it, nested
/// blocks of the same name included; a void tag is a block of its own, and a
/// block that is never closed runs to the end. Letter case does not matter in
/// `html`.
pub fn strip_html_tag_blocks(html: &str, tag: &str) -> (res: String)
    ensures
        res@ == without_blocks(html@, tag@),
{
    let text = to_chars(html);
    let folded = to_lower_chars(html);
    let open = opening(tag);
    let shut = closing(tag);
    let mut cleaned = String::new();
    let mut cursor: usize = 0;
    assert(cleaned@ + without_blocks(html@, tag@) =~= without_blocks(html@, tag@));
    loop
        invariant_except_break
            cursor <= text@.len(),
            cleaned@ + without_blocks_from(text@, folded@, tag@, cursor as int) == without_blocks(
                html@,
                tag@,
            ),
        invariant
            text@ == html@,
            folded@ == lower(html@),
            open@ == open_pattern(tag@),
            shut@ == close_pattern(tag@),
        ensures
            cursor <= text@.len(),
            cleaned@ + text@.subrange(cursor as int, text@.len() as int) == without_blocks(
                html@,
                tag@,
            ),
        decreases text@.len() - cursor,
    {
        let start = match search(folded.as_slice(), open.as_slice(), cursor) {
            Some(start) => start,
            None => {
                break;
            },
        };
        let close = match search_tag_close(folded.as_slice(), start) {
            Some(close) => close,
            None => {
                break;
            },
        };
        let end = search_block_end(
            folded.as_slice(),
            open.as_slice(),
            shut.as_slice(),
            start,
            close,
            Ghost(tag@),
        );
        let ghost kept = cleaned@;
        append_range(&mut cleaned, text.as_slice(), cursor, start);
        assert(cleaned@ + without_blocks_from(text@, folded@, tag@, end as int) =~= kept
            + without_blocks_from(text@, folded@, tag@, cursor as int));
        cursor = end;
    }
    append_range(&mut cleaned, text.as_slice(), cursor, text.len());
    cleaned
}

/// The text of an optional string slice.
pub open spec fn str_view(s: Option<&str>) -> Option<Seq<char>> {
    match s {
        Some(s) => Some(s@),
        None => None,
    }
}

/// The first `tag` block of `html`.
///
/// The block starts at the first opening tag and ends with the closing tag that
/// balances it; without one there is no block. Letter case does not matter in
/// `html`.
pub fn extract_html_tag_block<'a>(html: &'a str, tag: &str) -> (res: Option<&'a str>)
    ensures
        str_view(res) == tag_block(html@, tag@),
{
    let folded = to_lower_chars(html);
    let open = opening(tag);
    let shut = closing(tag);
    let text = folded.as_slice();
    proof {
        lemma_find_either(text@, open_pattern(tag@), open_pattern(tag@), 0);
    }
    let start = match search(text, open.as_slice(), 0) {
        Some(start) => start,
        None => {
            return None;
        },
    };
    let mut cursor: usize = start;
    let mut depth: usize = 0;
    loop
        invariant
            text@ == lower(html@),
            text@.len() == text.len(),
            start <= cursor <= text@.len(),
            depth <= cursor,
            depth == 0 ==> cursor == start,
            open@ == open_pattern(tag@),
            shut@ == close_pattern(tag@),
            occurs_at(text@, open@, start as int),
            find_from(text@, open@, 0) == Some(start as int),
            closing_mark(marks(text@, tag@, cursor as int), depth as int, true) == closing_mark(
                marks(text@, tag@, start as int),
                0,
                true,
            ),
        decreases text@.len() - cursor,
    {
        let at = match search_either(text, open.as_slice(), shut.as_slice(), cursor) {
            Some(at) => at,
            None => {
                return None;
            },
        };
        let close = match search_tag_close(text, at) {
            Some(close) => close,
            None => {
                return None;
            },
        };
        let ghost here = marks(text@, tag@, cursor as int);
        assert(here.drop_first() =~= marks(text@, tag@, close + 1));
        if matches_at(text, open.as_slice(), at) {
            depth = depth + 1;
        } else {
            assert(depth > 0);
            depth = depth - 1;
            if depth == 0 {
                return Some(html.substring_char(start, close + 1));
            }
        }
        cursor = close + 1;
    }
}

/// The part of `html` to render: its `main` block, else its `article` block,
/// else its `body` block.
pub fn extract_primary_html_fragment(html: &str) -> (res: Option<&str>)
    ensures
        str_view(res) == primary_fragment(html@),
{
    if let Some(block) = extract_html_tag_block(html, "main") {
        return Some(block);
    }
    if let Some(block) = extract_html_tag_block(html, "article") {
        return Some(block);
    }
    extract_html_tag_block(html, "body")
}

/// `html` without its comments; a comment that is never closed takes the rest
/// with it.
pub fn strip_html_comments(html: &str) -> (res: String)
    ensures
        res@ == without_comments(html@),
{
    let text = to_chars(html);
    let open: Vec<char> = vec!['<', '!', '-', '-'];
    let close: Vec<char> = vec!['-', '-', '>'];
    assert(open@ =~= comment_open());
    assert(close@ =~= comment_close());
    let mut cleaned = String::new();
    let mut cursor: usize = 0;
    assert(cleaned@ + without_comments(html@) =~= without_comments(html@));
    loop
        invariant
            text@ == html@,
            open@ == comment_open(),
            close@ == comment_close(),
            cursor <= text@.len() == text.len(),
            cleaned@ + without_comments_from(text@, cursor as int) == without_comments(html@),
        decreases text@.len() - cursor,
    {
        proof {
            lemma_find_either(text@, open@, open@, cursor as int);
        }
        let ghost kept = cleaned@;
        let start = match search(text.as_slice(), open.as_slice(), cursor) {
            Some(start) => start,
            None => {
                append_range(&mut cleaned, text.as_slice(), cursor, text.len());
                return cleaned;
            },
        };
        append_range(&mut cleaned, text.as_slice(), cursor, start);
        proof {
            lemma_find_either(text@, close@, close@, start + 4);
        }
        let end = match search(text.as_slice(), close.as_slice(), start + 4) {
            Some(end) => end,
            None => {
                return cleaned;
            },
        };
        assert(cleaned@ + without_comments_from(text@, end + 3) =~= kept + without_comments_from(
            text@,
            cursor as int,
        ));
        cursor = end + 3;
    }
}

/// `html` without comments and without the blocks that carry no content of the
/// page: scripts, styles, vector graphics, navigation, footers and sidebars.
pub fn strip_unwanted_html_blocks(html: &str) -> (res: String)
    ensures
        res@ == without_clutter(html@),
{
    let cleaned = strip_html_comments(html);
    let cleaned = strip_html_tag_blocks(cleaned.as_str(), "script");
    let cleaned = strip_html_tag_blocks(cleaned.as_str(), "style");
    let cleaned = strip_html_tag_blocks(cleaned.as_str(), "noscript");
    let cleaned = strip_html_tag_blocks(cleaned.as_str(), "svg");
    let cleaned = strip_html_tag_blocks(cleaned.as_str(), "nav");
    let cleaned = strip_html_tag_blocks(cleaned.as_str(), "footer");
    strip_html_tag_blocks(cleaned.as_str(), "aside")
}

} // verus!
