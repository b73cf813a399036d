//! What holds of cutting and extracting, whatever the text.

use vstd::prelude::*;

use crate::html::{block_end, cleaned_html, close_pattern, closing_mark, comment_close, comment_open,
    lemma_block_end_bounds, lemma_closing_mark_member, lemma_marks_bounds, lemma_tag_close, mark_at,
    marks, open_pattern, tag_block, tag_close, weight, without_blocks, without_blocks_from,
    without_clutter, without_comments, without_comments_from, Mark};
use crate::text::{contains, find_either, find_from, lemma_find_either, lower, lower_char, occurs_at,
    starts_with};

verus! {

/// The position moved on by `k`.
pub open spec fn moved(p: Option<int>, k: int) -> Option<int> {
    match p {
        Some(p) => Some(p + k),
        None => None,
    }
}

/// The tag moved on by `k`.
pub open spec fn moved_mark(m: Mark, k: int) -> Mark {
    Mark { end: m.end + k, ..m }
}

/// What stands behind position `k` does not depend on what stands before it.
pub(crate) proof fn lemma_occurs_skip(s: Seq<char>, pat: Seq<char>, k: int, i: int)
    requires
        0 <= k <= s.len(),
        k <= i,
    ensures
        occurs_at(s, pat, i) == occurs_at(s.skip(k), pat, i - k),
{
    if i + pat.len() <= s.len() {
        assert(s.subrange(i, i + pat.len()) =~= s.skip(k).subrange(i - k, i - k + pat.len()));
    }
}

pub(crate) proof fn lemma_find_skip(s: Seq<char>, a: Seq<char>, b: Seq<char>, k: int, from: int)
    requires
        0 <= k <= s.len(),
        k <= from,
    ensures
        find_either(s, a, b, from) == moved(find_either(s.skip(k), a, b, from - k), k),
    decreases s.len() + 1 - from,
{
    lemma_occurs_skip(s, a, k, from);
    lemma_occurs_skip(s, b, k, from);
    if from <= s.len() {
        lemma_find_skip(s, a, b, k, from + 1);
    }
}

proof fn lemma_mark_skip(text: Seq<char>, tag: Seq<char>, k: int, start: int, close: int)
    requires
        0 <= k <= start <= close < text.len(),
    ensures
        mark_at(text, tag, start, close) == moved_mark(
            mark_at(text.skip(k), tag, start - k, close - k),
            k,
        ),
{
    lemma_occurs_skip(text, open_pattern(tag), k, start);
}

pub(crate) proof fn lemma_marks_skip(text: Seq<char>, tag: Seq<char>, k: int, from: int)
    requires
        0 <= k <= text.len(),
        k <= from,
    ensures
        marks(text, tag, from).len() == marks(text.skip(k), tag, from - k).len(),
        forall|i: int|
            0 <= i < marks(text, tag, from).len() ==> (#[trigger] marks(text, tag, from)[i])
                == moved_mark(marks(text.skip(k), tag, from - k)[i], k),
    decreases text.len() + 1 - from,
{
    let open = open_pattern(tag);
    let shut = close_pattern(tag);
    lemma_find_skip(text, open, shut, k, from);
    lemma_find_either(text, open, shut, from);
    if let Some(start) = find_either(text, open, shut, from) {
        lemma_find_skip(text, seq!['>'], seq!['>'], k, start);
        lemma_tag_close(text, start);
        if let Some(close) = tag_close(text, start) {
            lemma_mark_skip(text, tag, k, start, close);
            lemma_marks_skip(text, tag, k, close + 1);
            let all = marks(text, tag, from);
            let rest = marks(text, tag, close + 1);
            let all_k = marks(text.skip(k), tag, from - k);
            let rest_k = marks(text.skip(k), tag, close + 1 - k);
            assert forall|i: int| 0 <= i < all.len() implies #[trigger] all[i] == moved_mark(
                all_k[i],
                k,
            ) by {
                if i > 0 {
                    assert(all[i] == rest[i - 1]);
                    assert(all_k[i] == rest_k[i - 1]);
                }
            }
        }
    }
}

pub(crate) proof fn lemma_closing_moved(ms: Seq<Mark>, mk: Seq<Mark>, k: int, depth: int, voids_nest: bool)
    requires
        ms.len() == mk.len(),
        forall|i: int| 0 <= i < ms.len() ==> #[trigger] ms[i] == moved_mark(mk[i], k),
    ensures
        closing_mark(ms, depth, voids_nest) == match closing_mark(mk, depth, voids_nest) {
            Some(m) => Some(moved_mark(m, k)),
            None => None,
        },
    decreases ms.len(),
{
    if ms.len() > 0 {
        assert(ms[0] == moved_mark(mk[0], k));
        let d = depth + weight(ms[0], voids_nest);
        if d > 0 {
            assert forall|i: int| 0 <= i < ms.drop_first().len() implies #[trigger] ms.drop_first()[i]
                == moved_mark(mk.drop_first()[i], k) by {
                assert(ms[i + 1] == moved_mark(mk[i + 1], k));
            }
            lemma_closing_moved(ms.drop_first(), mk.drop_first(), k, d, voids_nest);
        }
    }
}

proof fn lemma_block_end_skip(text: Seq<char>, tag: Seq<char>, k: int, start: int, close: int)
    requires
        0 <= k <= start <= close < text.len(),
    ensures
        block_end(text, tag, start, close) == block_end(text.skip(k), tag, start - k, close - k) + k,
{
    lemma_mark_skip(text, tag, k, start, close);
    lemma_marks_skip(text, tag, k, close + 1);
    lemma_closing_moved(
        marks(text, tag, close + 1),
        marks(text.skip(k), tag, close + 1 - k),
        k,
        1,
        false,
    );
}

/// Cutting that begins at position `k` sees nothing of what stands before it.
pub(crate) proof fn lemma_without_blocks_skip(
    s: Seq<char>,
    folded: Seq<char>,
    tag: Seq<char>,
    k: int,
    from: int,
)
    requires
        s.len() == folded.len(),
        0 <= k <= from <= s.len(),
    ensures
        without_blocks_from(s, folded, tag, from) == without_blocks_from(
            s.skip(k),
            folded.skip(k),
            tag,
            from - k,
        ),
    decreases s.len() + 1 - from,
{
    let open = open_pattern(tag);
    lemma_find_skip(folded, open, open, k, from);
    lemma_find_either(folded, open, open, from);
    assert(s.subrange(from, s.len() as int) =~= s.skip(k).subrange(
        from - k,
        s.skip(k).len() as int,
    ));
    if let Some(start) = find_from(folded, open, from) {
        lemma_find_skip(folded, seq!['>'], seq!['>'], k, start);
        lemma_tag_close(folded, start);
        if let Some(close) = tag_close(folded, start) {
            lemma_block_end_skip(folded, tag, k, start, close);
            lemma_block_end_bounds(folded, tag, start, close);
            lemma_without_blocks_skip(s, folded, tag, k, block_end(folded, tag, start, close));
            assert(s.subrange(from, start) =~= s.skip(k).subrange(from - k, start - k));
        }
    }
}

/// A text without an opening tag of the kind is left as it is.
pub proof fn law_text_without_tag_is_kept(s: Seq<char>, tag: Seq<char>)
    requires
        !contains(lower(s), open_pattern(tag)),
    ensures
        without_blocks(s, tag) == s,
{
    lemma_find_either(lower(s), open_pattern(tag), open_pattern(tag), 0);
    assert(s.subrange(0, s.len() as int) =~= s);
}

/// Cutting removes the first block and goes on behind it as if the text began there.
pub proof fn law_first_block_is_cut(s: Seq<char>, tag: Seq<char>, start: int, close: int)
    requires
        find_from(lower(s), open_pattern(tag), 0) == Some(start),
        tag_close(lower(s), start) == Some(close),
    ensures
        0 <= start <= close < block_end(lower(s), tag, start, close) <= s.len(),
        without_blocks(s, tag) == s.take(start) + without_blocks(
            s.skip(block_end(lower(s), tag, start, close)),
            tag,
        ),
{
    let folded = lower(s);
    lemma_find_either(folded, open_pattern(tag), open_pattern(tag), 0);
    lemma_tag_close(folded, start);
    lemma_block_end_bounds(folded, tag, start, close);
    let end = block_end(folded, tag, start, close);
    lemma_without_blocks_skip(s, folded, tag, end, end);
    assert(folded.skip(end) =~= lower(s.skip(end)));
    assert(s.subrange(0, start) =~= s.take(start));
}

/// What stands in a text stands there whatever follows it.
pub(crate) proof fn lemma_occurs_prefix(x: Seq<char>, z: Seq<char>, pat: Seq<char>, i: int)
    requires
        0 <= i,
        i + pat.len() <= x.len(),
    ensures
        occurs_at(x + z, pat, i) == occurs_at(x, pat, i),
{
    assert((x + z).subrange(i, i + pat.len()) =~= x.subrange(i, i + pat.len()));
}

proof fn lemma_tag_close_prefix(x: Seq<char>, z: Seq<char>, from: int)
    requires
        0 <= from,
    ensures
        tag_close(x, from) is Some ==> tag_close(x + z, from) == tag_close(x, from),
        tag_close(x + z, from) matches Some(c) ==> (c < x.len() ==> tag_close(x, from) == Some(c)),
{
    lemma_tag_close(x, from);
    lemma_tag_close(x + z, from);
    assert(forall|j: int| 0 <= j < x.len() ==> (x + z)[j] == x[j]);
    if let Some(c) = tag_close(x, from) {
        assert((x + z)[c] == '>');
        let d = tag_close(x + z, from)->0;
        if d < c {
            assert(x[d] == '>');
        }
        if c < d {
            assert((x + z)[c] != '>');
        }
    }
    if let Some(c) = tag_close(x + z, from) {
        if c < x.len() {
            assert(x[c] == '>');
            let d = tag_close(x, from)->0;
            if d < c {
                assert((x + z)[d] == '>');
            }
            if c < d {
                assert(x[c] != '>');
            }
        }
    }
}

/// A tag that is found is found whatever follows the text.
proof fn lemma_find_prefix(x: Seq<char>, z: Seq<char>, tag: Seq<char>, from: int)
    requires
        0 <= from,
    ensures
        find_either(x, open_pattern(tag), close_pattern(tag), from) matches Some(p) ==> {
            &&& find_either(x + z, open_pattern(tag), close_pattern(tag), from) == Some(p)
            &&& occurs_at(x + z, open_pattern(tag), p) == occurs_at(x, open_pattern(tag), p)
        },
{
    let open = open_pattern(tag);
    let shut = close_pattern(tag);
    let y = x + z;
    lemma_find_either(x, open, shut, from);
    lemma_find_either(y, open, shut, from);
    if let Some(p) = find_either(x, open, shut, from) {
        lemma_occurs_prefix(x, z, open, p);
        if occurs_at(x, shut, p) {
            lemma_occurs_prefix(x, z, shut, p);
        }
        let q = find_either(y, open, shut, from)->0;
        assert(occurs_at(y, open, p) || occurs_at(y, shut, p));
        if q < p {
            if occurs_at(y, open, q) {
                lemma_occurs_prefix(x, z, open, q);
            } else {
                lemma_occurs_prefix(x, z, shut, q);
            }
            assert(!occurs_at(x, open, q) && !occurs_at(x, shut, q));
        }
    }
}

/// A closing tag that is found is found whatever follows the text.
proof fn lemma_closing_prefix(
    x: Seq<char>,
    z: Seq<char>,
    tag: Seq<char>,
    from: int,
    depth: int,
    voids_nest: bool,
)
    requires
        0 <= from,
    ensures
        closing_mark(marks(x, tag, from), depth, voids_nest) matches Some(m) ==> closing_mark(
            marks(x + z, tag, from),
            depth,
            voids_nest,
        ) == Some(m),
    decreases x.len() + 1 - from,
{
    let open = open_pattern(tag);
    let shut = close_pattern(tag);
    lemma_find_either(x, open, shut, from);
    lemma_find_prefix(x, z, tag, from);
    if let Some(p) = find_either(x, open, shut, from) {
        lemma_tag_close(x, p);
        lemma_tag_close_prefix(x, z, p);
        if let Some(c) = tag_close(x, p) {
            let m = mark_at(x, tag, p, c);
            assert(m == mark_at(x + z, tag, p, c));
            let here = marks(x, tag, from);
            let long = marks(x + z, tag, from);
            assert(here.drop_first() =~= marks(x, tag, c + 1));
            assert(long.drop_first() =~= marks(x + z, tag, c + 1));
            lemma_closing_prefix(x, z, tag, c + 1, depth + weight(m, voids_nest), voids_nest);
        }
    }
}

/// `block` is one whole block: a void opening tag alone, or an opening tag with all up
/// to the closing tag that balances it.
pub open spec fn is_block(block: Seq<char>, tag: Seq<char>) -> bool {
    let text = lower(block);
    &&& occurs_at(text, open_pattern(tag), 0)
    &&& tag_close(text, 0) matches Some(close) && (if mark_at(text, tag, 0, close).void {
        block.len() == close + 1
    } else {
        closing_mark(marks(text, tag, close + 1), 1, false) matches Some(m) && m.end == block.len()
    })
}

/// Where no opening tag begins before it, the one that `text` begins with is the first.
pub(crate) proof fn lemma_first_opening(before: Seq<char>, text: Seq<char>, after: Seq<char>, tag: Seq<char>)
    requires
        occurs_at(text, open_pattern(tag), 0),
        !contains(lower(before), open_pattern(tag)),
        forall|i: int| 0 <= i < tag.len() ==> tag[i] != '<',
    ensures
        find_from(lower(before) + text + after, open_pattern(tag), 0) == Some(before.len() as int),
{
    let open = open_pattern(tag);
    let folded = lower(before) + text + after;
    let n = before.len() as int;
    let rest = text + after;
    assert(folded.skip(n) =~= rest);
    lemma_occurs_prefix(text, after, open, 0);
    lemma_occurs_skip(folded, open, n, n);
    assert(occurs_at(folded, open, n));
    lemma_find_either(folded, open, open, 0);
    let p = find_from(folded, open, 0)->0;
    if p < n {
        if p + open.len() <= n {
            assert(folded =~= lower(before) + rest);
            lemma_occurs_prefix(lower(before), rest, open, p);
            assert(occurs_at(lower(before), open, p));
        } else {
            assert(folded.subrange(p, p + open.len())[n - p] == open[n - p]);
            assert(folded[n] == rest[0]);
            assert(text.subrange(0, open.len() as int)[0] == open[0]);
            assert(open[n - p] == tag[n - p - 1]);
        }
    }
}

/// A whole block is cut, wherever it stands: what is before it stays, and what is
/// behind it is treated as if the text began there.
pub proof fn law_block_is_cut(
    before: Seq<char>,
    block: Seq<char>,
    after: Seq<char>,
    tag: Seq<char>,
)
    requires
        is_block(block, tag),
        !contains(lower(before), open_pattern(tag)),
        forall|i: int| 0 <= i < tag.len() ==> tag[i] != '<',
    ensures
        without_blocks(before + block + after, tag) == before + without_blocks(after, tag),
{
    let open = open_pattern(tag);
    let s = before + block + after;
    let folded = lower(s);
    let text = lower(block);
    let n = before.len() as int;
    let rest = text + lower(after);
    assert(folded.skip(n) =~= rest);
    assert(folded =~= lower(before) + text + lower(after));
    lemma_first_opening(before, text, lower(after), tag);
    let close = tag_close(text, 0)->0;
    lemma_tag_close(text, 0);
    lemma_tag_close_prefix(text, lower(after), 0);
    lemma_find_skip(folded, seq!['>'], seq!['>'], n, n);
    law_first_block_is_cut(s, tag, n, n + close);
    lemma_block_end_skip(folded, tag, n, n, n + close);
    lemma_occurs_prefix(text, lower(after), open, 0);
    assert(mark_at(text, tag, 0, close) == mark_at(rest, tag, 0, close));
    lemma_closing_prefix(text, lower(after), tag, close + 1, 1, false);
    assert(block_end(rest, tag, 0, close) == block.len());
    assert(s.take(n) =~= before);
    assert(s.skip(n + block.len()) =~= after);
}

/// No complete opening tag of the kind stands in `s`: one that stands there has no `>`.
pub open spec fn free_of_tag(s: Seq<char>, tag: Seq<char>) -> bool {
    match find_from(lower(s), open_pattern(tag), 0) {
        Some(start) => tag_close(lower(s), start) is None,
        None => true,
    }
}

/// The stretches of `s` from `from` on that cutting leaves.
pub open spec fn stretches(
    s: Seq<char>,
    folded: Seq<char>,
    tag: Seq<char>,
    from: int,
) -> Seq<Seq<char>>
    decreases folded.len() + 1 - from,
    when 0 <= from
{
    match find_from(folded, open_pattern(tag), from) {
        None => seq![s.subrange(from, s.len() as int)],
        Some(start) => match tag_close(folded, start) {
            None => seq![s.subrange(from, s.len() as int)],
            Some(close) => {
                proof {
                    lemma_find_either(folded, open_pattern(tag), open_pattern(tag), from);
                    lemma_find_either(folded, seq!['>'], seq!['>'], start);
                    lemma_block_end_bounds(folded, tag, start, close);
                }
                seq![s.subrange(from, start)] + stretches(
                    s,
                    folded,
                    tag,
                    block_end(folded, tag, start, close),
                )
            },
        },
    }
}

proof fn lemma_stretches(s: Seq<char>, tag: Seq<char>, from: int)
    requires
        0 <= from <= s.len(),
    ensures
        stretches(s, lower(s), tag, from).flatten() == without_blocks_from(s, lower(s), tag, from),
        forall|i: int|
            0 <= i < stretches(s, lower(s), tag, from).len() ==> free_of_tag(
                #[trigger] stretches(s, lower(s), tag, from)[i],
                tag,
            ),
    decreases s.len() + 1 - from,
{
    let folded = lower(s);
    let open = open_pattern(tag);
    let all = stretches(s, folded, tag, from);
    lemma_find_either(folded, open, open, from);
    let last = s.subrange(from, s.len() as int);
    assert(lower(last) =~= folded.skip(from));
    lemma_find_skip(folded, open, open, from, from);
    if let Some(start) = find_from(folded, open, from) {
        lemma_tag_close(folded, start);
        lemma_find_skip(folded, seq!['>'], seq!['>'], from, start);
        if let Some(close) = tag_close(folded, start) {
            lemma_block_end_bounds(folded, tag, start, close);
            let end = block_end(folded, tag, start, close);
            lemma_stretches(s, tag, end);
            let rest = stretches(s, folded, tag, end);
            let first = s.subrange(from, start);
            assert(all.drop_first() =~= rest);
            assert(all.first() == first);
            lemma_find_either(lower(first), open, open, 0);
            if let Some(q) = find_from(lower(first), open, 0) {
                assert(lower(first).subrange(q, q + open.len()) =~= folded.subrange(
                    from + q,
                    from + q + open.len(),
                ));
                assert(occurs_at(folded, open, from + q));
            }
            assert forall|i: int| 0 <= i < all.len() implies free_of_tag(#[trigger] all[i], tag) by {
                if i > 0 {
                    assert(all[i] == rest[i - 1]);
                }
            }
            assert(all.flatten() =~= first + rest.flatten());
        } else {
            assert(all =~= seq![last]);
            seq![last].lemma_flatten_one_element();
        }
    } else {
        assert(all =~= seq![last]);
        seq![last].lemma_flatten_one_element();
    }
}

/// What cutting leaves is made of stretches of the text, and none of them holds a
/// complete opening tag of the kind.
pub proof fn law_stretches_are_free_of_tag(s: Seq<char>, tag: Seq<char>)
    ensures
        stretches(s, lower(s), tag, 0).flatten() == without_blocks(s, tag),
        forall|i: int|
            0 <= i < stretches(s, lower(s), tag, 0).len() ==> free_of_tag(
                #[trigger] stretches(s, lower(s), tag, 0)[i],
                tag,
            ),
{
    lemma_stretches(s, tag, 0);
}

/// The closing tag ends where a `>` stands.
proof fn lemma_marks_end_in_gt(text: Seq<char>, tag: Seq<char>, from: int)
    requires
        0 <= from,
    ensures
        forall|i: int|
            0 <= i < marks(text, tag, from).len() ==> text[(#[trigger] marks(text, tag, from)[i]).end
                - 1] == '>',
    decreases text.len() + 1 - from,
{
    lemma_find_either(text, open_pattern(tag), close_pattern(tag), from);
    if let Some(start) = find_either(text, open_pattern(tag), close_pattern(tag), from) {
        lemma_tag_close(text, start);
        if let Some(close) = tag_close(text, start) {
            lemma_marks_end_in_gt(text, tag, close + 1);
            let all = marks(text, tag, from);
            let rest = marks(text, tag, close + 1);
            assert forall|i: int| 0 <= i < all.len() implies text[(#[trigger] all[i]).end - 1]
                == '>' by {
                if i > 0 {
                    assert(all[i] == rest[i - 1]);
                }
            }
        }
    }
}

/// Where the block starts and ends that is taken out of a text.
proof fn lemma_tag_block_place(s: Seq<char>, tag: Seq<char>)
    ensures
        match (find_from(lower(s), open_pattern(tag), 0), tag_block(s, tag)) {
            (Some(start), Some(block)) => {
                &&& closing_mark(marks(lower(s), tag, start), 0, true) matches Some(m)
                &&& 0 <= start < m.end <= s.len()
                &&& block == s.subrange(start, m.end)
                &&& occurs_at(lower(s), open_pattern(tag), start)
                &&& lower(s)[m.end - 1] == '>'
            },
            (None, Some(_)) => false,
            _ => true,
        },
{
    let text = lower(s);
    lemma_find_either(text, open_pattern(tag), open_pattern(tag), 0);
    if let Some(start) = find_from(text, open_pattern(tag), 0) {
        lemma_marks_bounds(text, tag, start);
        lemma_marks_end_in_gt(text, tag, start);
        lemma_closing_mark_member(marks(text, tag, start), 0, true);
    }
}

/// A block that is taken out is a stretch of the text that begins with an opening tag
/// and ends with a `>`.
pub proof fn law_block_is_stretch(s: Seq<char>, tag: Seq<char>)
    requires
        forall|i: int| 0 <= i < tag.len() ==> tag[i] != '>',
    ensures
        tag_block(s, tag) matches Some(block) ==> {
            &&& block.len() > 0
            &&& starts_with(lower(block), open_pattern(tag))
            &&& block.last() == '>'
            &&& contains(s, block)
        },
{
    lemma_tag_block_place(s, tag);
    if let Some(block) = tag_block(s, tag) {
        let open = open_pattern(tag);
        let text = lower(s);
        let start = find_from(text, open, 0)->0;
        let m = closing_mark(marks(text, tag, start), 0, true)->0;
        assert(lower(block) =~= text.subrange(start, m.end));
        assert(s.subrange(start, start + block.len()) =~= block);
        assert(occurs_at(s, block, start));
        // The `>` at the end lies behind the opening pattern, which holds none.
        if m.end < start + open.len() {
            assert(text.subrange(start, start + open.len())[m.end - 1 - start] == open[m.end - 1
                - start]);
            if m.end - 1 - start > 0 {
                assert(open[m.end - 1 - start] == tag[m.end - 2 - start]);
            }
        }
        assert(lower(block).subrange(0, open.len() as int) =~= text.subrange(
            start,
            start + open.len(),
        ));
    }
}

/// A closing tag that ends inside the first part of a text is found there alone.
proof fn lemma_closing_within(
    x: Seq<char>,
    z: Seq<char>,
    tag: Seq<char>,
    from: int,
    depth: int,
    voids_nest: bool,
)
    requires
        0 <= from,
        forall|i: int| 0 <= i < tag.len() ==> tag[i] != '>',
    ensures
        closing_mark(marks(x + z, tag, from), depth, voids_nest) matches Some(m) ==> (m.end
            <= x.len() ==> closing_mark(marks(x, tag, from), depth, voids_nest) == Some(m)),
    decreases x.len() + z.len() + 1 - from,
{
    let open = open_pattern(tag);
    let shut = close_pattern(tag);
    let y = x + z;
    lemma_find_either(y, open, shut, from);
    lemma_find_either(x, open, shut, from);
    if let Some(m) = closing_mark(marks(y, tag, from), depth, voids_nest) {
        if m.end <= x.len() {
            let p = find_either(y, open, shut, from)->0;
            lemma_tag_close(y, p);
            let c = tag_close(y, p)->0;
            lemma_marks_bounds(y, tag, c + 1);
            let first = mark_at(y, tag, p, c);
            let all = marks(y, tag, from);
            let d = depth + weight(first, voids_nest);
            assert(all.drop_first() =~= marks(y, tag, c + 1));
            lemma_closing_mark_member(marks(y, tag, c + 1), d, voids_nest);
            assert(c < x.len());
            // Neither pattern holds a `>`, so the one that stands at `p` ends before `c`.
            let pat = if occurs_at(y, open, p) {
                open
            } else {
                shut
            };
            if c < p + pat.len() {
                assert(y.subrange(p, p + pat.len())[c - p] == pat[c - p]);
                if pat == open {
                    if c > p {
                        assert(pat[c - p] == tag[c - p - 1]);
                    }
                } else if c > p + 1 {
                    assert(pat[c - p] == tag[c - p - 2]);
                }
            }
            lemma_occurs_prefix(x, z, pat, p);
            lemma_occurs_prefix(x, z, open, p);
            assert(occurs_at(x, open, p) || occurs_at(x, shut, p));
            lemma_find_prefix(x, z, tag, from);
            lemma_tag_close_prefix(x, z, p);
            assert(mark_at(x, tag, p, c) == first);
            assert(marks(x, tag, from).drop_first() =~= marks(x, tag, c + 1));
            lemma_closing_within(x, z, tag, c + 1, d, voids_nest);
        }
    }
}

/// A block that is taken out is whole: taking the block out of itself gives all of it.
pub proof fn law_extraction_is_idempotent(s: Seq<char>, tag: Seq<char>)
    requires
        forall|i: int| 0 <= i < tag.len() ==> tag[i] != '>',
    ensures
        tag_block(s, tag) matches Some(block) ==> tag_block(block, tag) == Some(block),
{
    lemma_tag_block_place(s, tag);
    law_block_is_stretch(s, tag);
    if let Some(block) = tag_block(s, tag) {
        let open = open_pattern(tag);
        let text = lower(s);
        let start = find_from(text, open, 0)->0;
        let m = closing_mark(marks(text, tag, start), 0, true)->0;
        let x = lower(block);
        let z = text.skip(m.end);
        assert(text.skip(start) =~= x + z);
        assert(find_from(x, open, 0) == Some(0int));
        lemma_marks_skip(text, tag, start, start);
        lemma_closing_moved(marks(text, tag, start), marks(x + z, tag, 0), start, 0, true);
        lemma_closing_within(x, z, tag, 0, 0, true);
        assert(block.subrange(0, block.len() as int) =~= block);
    }
}

/// A text with something before and behind it, part by part.
proof fn lemma_parts_of_three(before: Seq<char>, block: Seq<char>, after: Seq<char>)
    ensures
        lower(before + block + after) == lower(before) + lower(block) + lower(after),
        lower(before + block + after).skip(before.len() as int) == lower(block) + lower(after),
        (before + block + after).subrange(before.len() as int, before.len() + block.len() as int)
            == block,
{
    let s = before + block + after;
    let n = before.len() as int;
    assert(lower(s) =~= lower(before) + lower(block) + lower(after));
    assert(lower(s).skip(n) =~= lower(block) + lower(after));
    assert(s.subrange(n, n + block.len()) =~= block);
}

/// A block that is all of its text begins at its beginning and ends at its end.
proof fn lemma_whole_block(block: Seq<char>, tag: Seq<char>)
    requires
        tag_block(block, tag) == Some(block),
    ensures
        find_from(lower(block), open_pattern(tag), 0) == Some(0int),
        occurs_at(lower(block), open_pattern(tag), 0),
        closing_mark(marks(lower(block), tag, 0), 0, true) matches Some(m) && m.end == block.len(),
{
    lemma_tag_block_place(block, tag);
    let start = find_from(lower(block), open_pattern(tag), 0)->0;
    let m = closing_mark(marks(lower(block), tag, start), 0, true)->0;
    assert(block.len() == block.subrange(start, m.end).len());
}

/// A block is taken out of whatever stands around it: text behind it does not matter, nor
/// does text before it in which no opening tag of the kind begins.
#[verifier::spinoff_prover]
pub proof fn law_surroundings_do_not_matter(
    before: Seq<char>,
    block: Seq<char>,
    after: Seq<char>,
    tag: Seq<char>,
)
    requires
        tag_block(block, tag) == Some(block),
        !contains(lower(before), open_pattern(tag)),
        forall|i: int| 0 <= i < tag.len() ==> tag[i] != '<',
    ensures
        tag_block(before + block + after, tag) == Some(block),
{
    let text = lower(block);
    let folded = lower(before + block + after);
    let n = before.len() as int;
    lemma_parts_of_three(before, block, after);
    lemma_whole_block(block, tag);
    lemma_first_opening(before, text, lower(after), tag);
    lemma_closing_prefix(text, lower(after), tag, 0, 0, true);
    lemma_marks_skip(folded, tag, n, n);
    lemma_closing_moved(marks(folded, tag, n), marks(text + lower(after), tag, 0), n, 0, true);
}

/// Folding a text twice comes to folding it once.
proof fn lemma_lower_twice(s: Seq<char>)
    ensures
        lower(lower(s)) == lower(s),
{
    assert forall|i: int| 0 <= i < s.len() implies lower_char(lower_char(#[trigger] s[i]))
        == lower_char(s[i]) by {}
    assert(lower(lower(s)) =~= lower(s));
}

proof fn lemma_without_blocks_folds(s: Seq<char>, folded: Seq<char>, tag: Seq<char>, from: int)
    requires
        s.len() == folded.len(),
        0 <= from <= s.len(),
    ensures
        without_blocks_from(lower(s), folded, tag, from) == lower(
            without_blocks_from(s, folded, tag, from),
        ),
    decreases s.len() + 1 - from,
{
    let open = open_pattern(tag);
    lemma_find_either(folded, open, open, from);
    assert(lower(s).subrange(from, s.len() as int) =~= lower(s.subrange(from, s.len() as int)));
    if let Some(start) = find_from(folded, open, from) {
        lemma_tag_close(folded, start);
        if let Some(close) = tag_close(folded, start) {
            lemma_block_end_bounds(folded, tag, start, close);
            let end = block_end(folded, tag, start, close);
            lemma_without_blocks_folds(s, folded, tag, end);
            let first = s.subrange(from, start);
            let rest = without_blocks_from(s, folded, tag, end);
            assert(lower(s).subrange(from, start) =~= lower(first));
            assert(lower(first + rest) =~= lower(first) + lower(rest));
        }
    }
}

/// Cutting and taking out do not depend on letter case: folding the text before comes to
/// folding what is left of it, or taken out of it, afterwards.
pub proof fn law_letter_case_does_not_matter(s: Seq<char>, tag: Seq<char>)
    ensures
        without_blocks(lower(s), tag) == lower(without_blocks(s, tag)),
        tag_block(lower(s), tag) == match tag_block(s, tag) {
            Some(block) => Some(lower(block)),
            None => None,
        },
{
    lemma_lower_twice(s);
    lemma_without_blocks_folds(s, lower(s), tag, 0);
    lemma_tag_block_place(s, tag);
    if tag_block(s, tag) is Some {
        let start = find_from(lower(s), open_pattern(tag), 0)->0;
        let m = closing_mark(marks(lower(s), tag, start), 0, true)->0;
        assert(lower(s).subrange(start, m.end) =~= lower(s.subrange(start, m.end)));
    }
}

/// A text in which no comment begins is left as it is.
pub proof fn law_text_without_comment_is_kept(s: Seq<char>)
    requires
        !contains(s, comment_open()),
    ensures
        without_comments(s) == s,
{
    lemma_find_either(s, comment_open(), comment_open(), 0);
    assert(s.subrange(0, s.len() as int) =~= s);
}

proof fn lemma_without_comments_skip(s: Seq<char>, k: int, from: int)
    requires
        0 <= k <= from <= s.len(),
    ensures
        without_comments_from(s, from) == without_comments_from(s.skip(k), from - k),
    decreases s.len() + 1 - from,
{
    let open = comment_open();
    let close = comment_close();
    lemma_find_skip(s, open, open, k, from);
    lemma_find_either(s, open, open, from);
    assert(s.subrange(from, s.len() as int) =~= s.skip(k).subrange(
        from - k,
        s.skip(k).len() as int,
    ));
    if let Some(start) = find_from(s, open, from) {
        lemma_find_skip(s, close, close, k, start + 4);
        lemma_find_either(s, close, close, start + 4);
        assert(s.subrange(from, start) =~= s.skip(k).subrange(from - k, start - k));
        if let Some(end) = find_from(s, close, start + 4) {
            lemma_without_comments_skip(s, k, end + 3);
        }
    }
}

/// A pattern that is found is found whatever follows the text.
pub(crate) proof fn lemma_find_one_prefix(x: Seq<char>, z: Seq<char>, pat: Seq<char>)
    ensures
        find_from(x, pat, 0) matches Some(p) ==> find_from(x + z, pat, 0) == Some(p),
{
    lemma_find_either(x, pat, pat, 0);
    lemma_find_either(x + z, pat, pat, 0);
    if let Some(p) = find_from(x, pat, 0) {
        lemma_occurs_prefix(x, z, pat, p);
        assert(occurs_at(x + z, pat, p));
        let q = find_from(x + z, pat, 0)->0;
        if q < p {
            lemma_occurs_prefix(x, z, pat, q);
            assert(!occurs_at(x, pat, q));
        }
    }
}

/// A comment is cut, wherever it stands: what is before it stays, and what is behind it
/// is treated as if the text began there.
pub proof fn law_comment_is_cut(before: Seq<char>, inside: Seq<char>, after: Seq<char>)
    requires
        find_from(before + comment_open(), comment_open(), 0) == Some(before.len() as int),
        find_from(inside + comment_close(), comment_close(), 0) == Some(inside.len() as int),
    ensures
        without_comments(before + comment_open() + inside + comment_close() + after) == before
            + without_comments(after),
{
    let open = comment_open();
    let close = comment_close();
    let s = before + open + inside + close + after;
    let n = before.len() as int;
    let k = n + 4 + inside.len();
    assert(s =~= (before + open) + (inside + close + after));
    lemma_find_one_prefix(before + open, inside + close + after, open);
    assert(s.skip(n + 4) =~= (inside + close) + after);
    lemma_find_one_prefix(inside + close, after, close);
    lemma_find_skip(s, close, close, n + 4, n + 4);
    assert(find_from(s, close, n + 4) == Some(k));
    lemma_without_comments_skip(s, k + 3, k + 3);
    assert(s.skip(k + 3) =~= after);
    assert(s.subrange(0, n) =~= before);
}

/// A comment that is never closed takes the rest of the text with it.
pub proof fn law_open_comment_takes_the_rest(before: Seq<char>, inside: Seq<char>)
    requires
        find_from(before + comment_open(), comment_open(), 0) == Some(before.len() as int),
        !contains(inside, comment_close()),
    ensures
        without_comments(before + comment_open() + inside) == before,
{
    let open = comment_open();
    let close = comment_close();
    let s = before + open + inside;
    let n = before.len() as int;
    lemma_find_one_prefix(before + open, inside, open);
    assert(s.skip(n + 4) =~= inside);
    lemma_find_skip(s, close, close, n + 4, n + 4);
    lemma_find_either(inside, close, close, 0);
    assert(s.subrange(0, n) =~= before);
}

/// No comment and no block that is cut as clutter begins in `s`.
pub open spec fn free_of_clutter(s: Seq<char>) -> bool {
    &&& !contains(s, comment_open())
    &&& !contains(lower(s), open_pattern("script"@))
    &&& !contains(lower(s), open_pattern("style"@))
    &&& !contains(lower(s), open_pattern("noscript"@))
    &&& !contains(lower(s), open_pattern("svg"@))
    &&& !contains(lower(s), open_pattern("nav"@))
    &&& !contains(lower(s), open_pattern("footer"@))
    &&& !contains(lower(s), open_pattern("aside"@))
}

/// A text without clutter loses nothing.
pub proof fn law_text_without_clutter_is_kept(s: Seq<char>)
    requires
        free_of_clutter(s),
    ensures
        without_clutter(s) == s,
{
    law_text_without_comment_is_kept(s);
    law_text_without_tag_is_kept(s, "script"@);
    law_text_without_tag_is_kept(s, "style"@);
    law_text_without_tag_is_kept(s, "noscript"@);
    law_text_without_tag_is_kept(s, "svg"@);
    law_text_without_tag_is_kept(s, "nav"@);
    law_text_without_tag_is_kept(s, "footer"@);
    law_text_without_tag_is_kept(s, "aside"@);
}

/// Where a page has a `main` block, nothing outside that block has a part in what is
/// left of the page.
pub proof fn law_only_main_block_matters(s: Seq<char>)
    ensures
        tag_block(s, "main"@) matches Some(block) ==> cleaned_html(s) == without_clutter(block)
            && cleaned_html(block) == cleaned_html(s),
{
    reveal_strlit("main");
    law_extraction_is_idempotent(s, "main"@);
}

} // verus!
