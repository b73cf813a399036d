//! What cutting and extracting make of HTML that is written out: texts, and blocks of one
//! kind nested in each other to any depth.

use vstd::prelude::*;

use crate::html::{block_end, cleaned_html, close_pattern, closing_mark, comment_close, comment_open,
    lemma_tag_close, mark_at, marks, open_pattern, primary_fragment, tag_block, tag_close,
    without_blocks, without_blocks_from, without_clutter, without_comments, Mark};
use crate::html_laws::{law_comment_is_cut, law_first_block_is_cut, law_open_comment_takes_the_rest,
    law_text_without_comment_is_kept, law_text_without_tag_is_kept, lemma_closing_moved,
    lemma_find_skip, lemma_first_opening, lemma_marks_skip, lemma_occurs_prefix,
    lemma_without_blocks_skip, moved_mark};
use crate::text::{contains, find_either, find_from, lemma_find_either, lower, lower_char,
    occurs_at};

verus! {

/// Texts and blocks of one kind, properly nested.
pub enum Content {
    /// A text alone.
    Text(Seq<char>),
    /// A text, a block behind it, and what follows the block.
    Block {
        lead: Seq<char>,
        /// The name in the opening tag, in any letter case, and what follows it there.
        name: Seq<char>,
        attributes: Seq<char>,
        inside: Box<Content>,
        /// The name in the closing tag, in any letter case, and what follows it there.
        shut: Seq<char>,
        ending: Seq<char>,
        rest: Box<Content>,
    },
    /// A text, a tag that closes itself, and what follows the tag.
    Void { lead: Seq<char>, name: Seq<char>, attributes: Seq<char>, rest: Box<Content> },
}

/// An opening tag as it is written.
pub open spec fn opening_tag(name: Seq<char>, attributes: Seq<char>) -> Seq<char> {
    seq!['<'] + name + attributes + seq!['>']
}

/// A closing tag as it is written.
pub open spec fn closing_tag(name: Seq<char>, ending: Seq<char>) -> Seq<char> {
    seq!['<', '/'] + name + ending + seq!['>']
}

/// The content as it is written.
pub open spec fn written(c: Content) -> Seq<char>
    decreases c,
{
    match c {
        Content::Text(text) => text,
        Content::Block { lead, name, attributes, inside, shut, ending, rest } => lead
            + opening_tag(name, attributes) + written(*inside) + closing_tag(shut, ending)
            + written(*rest),
        Content::Void { lead, name, attributes, rest } => lead + opening_tag(
            name,
            attributes.push('/'),
        ) + written(*rest),
    }
}

/// The texts of the content that stand in none of its blocks.
pub open spec fn texts_outside(c: Content) -> Seq<char>
    decreases c,
{
    match c {
        Content::Text(text) => text,
        Content::Block { lead, rest, .. } => lead + texts_outside(*rest),
        Content::Void { lead, rest, .. } => lead + texts_outside(*rest),
    }
}

/// `c` does not stand in `s`.
pub open spec fn lacks(s: Seq<char>, c: char) -> bool {
    forall|i: int| 0 <= i < s.len() ==> #[trigger] s[i] != c
}

/// `tag` can be the name of a block: it is not empty, it has no ASCII capitals, and no part
/// of a tag but its name stands in it.
pub open spec fn is_name(tag: Seq<char>) -> bool {
    &&& tag.len() > 0
    &&& lower(tag) == tag
    &&& lacks(tag, '<')
    &&& lacks(tag, '>')
    &&& lacks(tag, '/')
}

/// Neither an opening nor a closing tag of the kind begins in `s`.
pub open spec fn is_plain(s: Seq<char>, tag: Seq<char>) -> bool {
    &&& !contains(lower(s), seq!['<'] + tag)
    &&& !contains(lower(s), seq!['<', '/'] + tag)
}

/// The content is made of `tag` blocks: its texts hold no tags of the kind, its tags are
/// named `tag`, and no tag ends early.
pub open spec fn is_of(c: Content, tag: Seq<char>) -> bool
    decreases c,
{
    match c {
        Content::Text(text) => is_plain(text, tag),
        Content::Block { lead, name, attributes, inside, shut, ending, rest } => {
            &&& is_plain(lead, tag)
            &&& lower(name) == tag
            &&& lacks(attributes, '>')
            &&& attributes.len() > 0 ==> attributes.last() != '/'
            &&& is_of(*inside, tag)
            &&& lower(shut) == tag
            &&& lacks(ending, '>')
            &&& is_of(*rest, tag)
        },
        Content::Void { lead, name, attributes, rest } => {
            &&& is_plain(lead, tag)
            &&& lower(name) == tag
            &&& lacks(attributes, '>')
            &&& is_of(*rest, tag)
        },
    }
}

/// No tag of the content closes itself.
pub open spec fn has_no_void(c: Content) -> bool
    decreases c,
{
    match c {
        Content::Text(_) => true,
        Content::Block { inside, rest, .. } => has_no_void(*inside) && has_no_void(*rest),
        Content::Void { .. } => false,
    }
}

proof fn lemma_lower_add(a: Seq<char>, b: Seq<char>)
    ensures
        lower(a + b) == lower(a) + lower(b),
{
    assert(lower(a + b) =~= lower(a) + lower(b));
}

/// Folding changes letters only.
proof fn lemma_lower_marks(s: Seq<char>)
    ensures
        forall|i: int|
            0 <= i < s.len() ==> {
                &&& (#[trigger] lower(s)[i] == '<') == (s[i] == '<')
                &&& (lower(s)[i] == '>') == (s[i] == '>')
                &&& (lower(s)[i] == '/') == (s[i] == '/')
            },
{
    assert forall|i: int| 0 <= i < s.len() implies {
        &&& (#[trigger] lower(s)[i] == '<') == (s[i] == '<')
        &&& (lower(s)[i] == '>') == (s[i] == '>')
        &&& (lower(s)[i] == '/') == (s[i] == '/')
    } by {
        assert(lower(s)[i] == lower_char(s[i]));
    }
}

/// The closing tag that is found in a text is found in the same text behind another.
proof fn lemma_closing_behind(x: Seq<char>, y: Seq<char>, tag: Seq<char>, depth: int, nest: bool)
    ensures
        closing_mark(marks(x + y, tag, x.len() as int), depth, nest) == match closing_mark(
            marks(y, tag, 0),
            depth,
            nest,
        ) {
            Some(m) => Some(moved_mark(m, x.len() as int)),
            None => None,
        },
{
    let k = x.len() as int;
    assert((x + y).skip(k) =~= y);
    lemma_marks_skip(x + y, tag, k, k);
    lemma_closing_moved(marks(x + y, tag, k), marks(y, tag, 0), k, depth, nest);
}

/// No tag begins in `t` where it is followed by a tag or by nothing.
proof fn lemma_plain_before(t: Seq<char>, z: Seq<char>, tag: Seq<char>, j: int)
    requires
        is_name(tag),
        !contains(t, open_pattern(tag)),
        !contains(t, close_pattern(tag)),
        z.len() == 0 || z[0] == '<',
        0 <= j < t.len(),
    ensures
        !occurs_at(t + z, open_pattern(tag), j),
        !occurs_at(t + z, close_pattern(tag), j),
{
    let open = open_pattern(tag);
    let shut = close_pattern(tag);
    let s = t + z;
    let n = t.len() as int;
    if occurs_at(s, open, j) {
        if j + open.len() <= n {
            lemma_occurs_prefix(t, z, open, j);
            assert(occurs_at(t, open, j));
        } else {
            assert(s.subrange(j, j + open.len())[n - j] == open[n - j]);
            assert(s[n] == z[0]);
            assert(open[n - j] == tag[n - j - 1]);
        }
    }
    if occurs_at(s, shut, j) {
        if j + shut.len() <= n {
            lemma_occurs_prefix(t, z, shut, j);
            assert(occurs_at(t, shut, j));
        } else {
            assert(s.subrange(j, j + shut.len())[n - j] == shut[n - j]);
            assert(s[n] == z[0]);
            if n - j > 1 {
                assert(shut[n - j] == tag[n - j - 2]);
            }
        }
    }
}

/// A text without `>` holds no tag that ends.
proof fn lemma_no_marks(s: Seq<char>, tag: Seq<char>, from: int)
    requires
        0 <= from,
        forall|i: int| from <= i < s.len() ==> s[i] != '>',
    ensures
        marks(s, tag, from) == Seq::<Mark>::empty(),
{
    lemma_find_either(s, open_pattern(tag), close_pattern(tag), from);
    if let Some(start) = find_either(s, open_pattern(tag), close_pattern(tag), from) {
        lemma_tag_close(s, start);
    }
}

/// What follows a text settles how it is taken: a tag, or nothing that ends a tag.
spec fn settles(z: Seq<char>) -> bool {
    z.len() == 0 || z[0] == '<' || lacks(z, '>')
}

/// A text without tags of the kind does not matter for where a block ends.
proof fn lemma_text_passes(t: Seq<char>, z: Seq<char>, tag: Seq<char>, depth: int, nest: bool)
    requires
        is_name(tag),
        !contains(t, open_pattern(tag)),
        !contains(t, close_pattern(tag)),
        settles(z),
    ensures
        closing_mark(marks(t + z, tag, 0), depth, nest) == match closing_mark(
            marks(z, tag, 0),
            depth,
            nest,
        ) {
            Some(m) => Some(moved_mark(m, t.len() as int)),
            None => None,
        },
{
    let open = open_pattern(tag);
    let shut = close_pattern(tag);
    let s = t + z;
    let n = t.len() as int;
    lemma_find_either(s, open, shut, 0);
    lemma_find_either(s, open, shut, n);
    if z.len() == 0 || z[0] == '<' {
        if let Some(p) = find_either(s, open, shut, 0) {
            if p < n {
                lemma_plain_before(t, z, tag, p);
            }
        }
        assert(find_either(s, open, shut, 0) == find_either(s, open, shut, n));
        assert(marks(s, tag, 0) == marks(s, tag, n));
        lemma_closing_behind(t, z, tag, depth, nest);
    } else {
        lemma_no_marks(z, tag, 0);
        if let Some(p) = find_either(s, open, shut, 0) {
            if p < n {
                let pat = if occurs_at(s, open, p) {
                    open
                } else {
                    shut
                };
                if p + pat.len() <= n {
                    lemma_occurs_prefix(t, z, pat, p);
                    assert(occurs_at(t, pat, p));
                }
                assert forall|i: int| p <= i < s.len() implies s[i] != '>' by {
                    if i < n {
                        assert(s.subrange(p, p + pat.len())[i - p] == pat[i - p]);
                        if pat == open {
                            if i > p {
                                assert(pat[i - p] == tag[i - p - 1]);
                            }
                        } else if i > p + 1 {
                            assert(pat[i - p] == tag[i - p - 2]);
                        }
                    } else {
                        assert(s[i] == z[i - n]);
                    }
                }
            }
            lemma_tag_close(s, p);
            assert(forall|i: int| n <= i < s.len() ==> s[i] == z[i - n]);
        }
        assert(marks(s, tag, 0) == Seq::<Mark>::empty());
    }
}

/// An opening tag at the beginning of a text is its first tag.
proof fn lemma_opening_first(name: Seq<char>, attributes: Seq<char>, z: Seq<char>, tag: Seq<char>)
    requires
        is_name(tag),
        lower(name) == tag,
        lacks(attributes, '>'),
    ensures
        ({
            let o = lower(opening_tag(name, attributes));
            let k = o.len() as int;
            let m = mark_at(o + z, tag, 0, k - 1);
            &&& occurs_at(o + z, open_pattern(tag), 0)
            &&& tag_close(o + z, 0) == Some(k - 1)
            &&& m.end == k && m.opens
            &&& m.void == (attributes.len() > 0 && attributes.last() == '/')
            &&& marks(o + z, tag, 0) == seq![m] + marks(o + z, tag, k)
        }),
{
    let o = lower(opening_tag(name, attributes));
    let k = o.len() as int;
    let y = o + z;
    let a = lower(attributes);
    lemma_lower_marks(attributes);
    assert(o =~= seq!['<'] + tag + a + seq!['>']);
    assert(y.subrange(0, open_pattern(tag).len() as int) =~= open_pattern(tag));
    assert(find_either(y, open_pattern(tag), close_pattern(tag), 0) == Some(0int));
    lemma_tag_close(y, 0);
    assert forall|i: int| 0 <= i < k - 1 implies y[i] != '>' by {
        if i > tag.len() {
            assert(y[i] == a[i - 1 - tag.len()]);
        } else if i > 0 {
            assert(y[i] == tag[i - 1]);
        }
    }
    assert(y[k - 1] == '>');
    if attributes.len() > 0 {
        assert(y[k - 2] == a.last());
    } else {
        assert(y[k - 2] == tag.last());
    }
}

/// A closing tag at the beginning of a text is its first tag.
proof fn lemma_closing_first(name: Seq<char>, ending: Seq<char>, z: Seq<char>, tag: Seq<char>)
    requires
        is_name(tag),
        lower(name) == tag,
        lacks(ending, '>'),
    ensures
        ({
            let o = lower(closing_tag(name, ending));
            let k = o.len() as int;
            let m = mark_at(o + z, tag, 0, k - 1);
            &&& m.end == k && !m.opens
            &&& marks(o + z, tag, 0) == seq![m] + marks(o + z, tag, k)
        }),
{
    let o = lower(closing_tag(name, ending));
    let k = o.len() as int;
    let y = o + z;
    let a = lower(ending);
    lemma_lower_marks(ending);
    assert(o =~= seq!['<', '/'] + tag + a + seq!['>']);
    assert(y.subrange(0, close_pattern(tag).len() as int) =~= close_pattern(tag));
    assert(find_either(y, open_pattern(tag), close_pattern(tag), 0) == Some(0int));
    lemma_tag_close(y, 0);
    assert forall|i: int| 0 <= i < k - 1 implies y[i] != '>' by {
        if i > tag.len() + 1 {
            assert(y[i] == a[i - 2 - tag.len()]);
        } else if i > 1 {
            assert(y[i] == tag[i - 2]);
        }
    }
    assert(y[k - 1] == '>');
    if occurs_at(y, open_pattern(tag), 0) {
        assert(y.subrange(0, open_pattern(tag).len() as int)[1] == open_pattern(tag)[1]);
        assert(open_pattern(tag)[1] == tag[0]);
    }
}

/// The folded text of a block, with a text before it and one behind, part by part.
proof fn lemma_block_folds(
    lead: Seq<char>,
    o: Seq<char>,
    i: Seq<char>,
    e: Seq<char>,
    r: Seq<char>,
    z: Seq<char>,
)
    ensures
        lower(lead + o + i + e + r) + z == lower(lead) + (lower(o) + (lower(i) + (lower(e) + (lower(
            r,
        ) + z)))),
{
    assert(lower(lead + o + i + e + r) + z =~= lower(lead) + (lower(o) + (lower(i) + (lower(e) + (
    lower(r) + z)))));
}

/// A tag that closes itself does not matter for where the block around it ends.
proof fn lemma_void_passes(
    name: Seq<char>,
    attributes: Seq<char>,
    z: Seq<char>,
    tag: Seq<char>,
    depth: int,
)
    requires
        is_name(tag),
        lower(name) == tag,
        lacks(attributes, '>'),
        depth >= 1,
    ensures
        ({
            let o = lower(opening_tag(name, attributes.push('/')));
            closing_mark(marks(o + z, tag, 0), depth, false) == match closing_mark(
                marks(z, tag, 0),
                depth,
                false,
            ) {
                Some(m) => Some(moved_mark(m, o.len() as int)),
                None => None,
            }
        }),
{
    let full = attributes.push('/');
    let o = lower(opening_tag(name, full));
    lemma_opening_first(name, full, z, tag);
    assert(marks(o + z, tag, 0).drop_first() =~= marks(o + z, tag, o.len() as int));
    lemma_closing_behind(o, z, tag, depth, false);
}

/// Properly nested content does not matter for where the block around it ends.
#[verifier::spinoff_prover]
#[verifier::rlimit(40)]
proof fn lemma_content_passes(c: Content, z: Seq<char>, tag: Seq<char>, depth: int, nest: bool)
    requires
        is_name(tag),
        is_of(c, tag),
        nest ==> has_no_void(c),
        settles(z),
        depth >= 1,
    ensures
        closing_mark(marks(lower(written(c)) + z, tag, 0), depth, nest) == match closing_mark(
            marks(z, tag, 0),
            depth,
            nest,
        ) {
            Some(m) => Some(moved_mark(m, written(c).len() as int)),
            None => None,
        },
    decreases c, 0int,
{
    match c {
        Content::Text(text) => {
            lemma_text_passes(lower(text), z, tag, depth, nest);
        },
        Content::Block { lead, name, attributes, inside, shut, ending, rest } => {
            let o = opening_tag(name, attributes);
            let e = closing_tag(shut, ending);
            let z3 = lower(written(*rest)) + z;
            let y = lower(o) + (lower(written(*inside)) + (lower(e) + z3));
            lemma_block_folds(lead, o, written(*inside), e, written(*rest), z);
            assert(y[0] == '<') by {
                assert(o[0] == '<');
            }
            lemma_text_passes(lower(lead), y, tag, depth, nest);
            lemma_block_passes(name, attributes, *inside, shut, ending, z3, tag, depth, nest);
            lemma_content_passes(*rest, z, tag, depth, nest);
        },
        Content::Void { lead, name, attributes, rest } => {
            let o = opening_tag(name, attributes.push('/'));
            let z1 = lower(written(*rest)) + z;
            let y = lower(o) + z1;
            assert(lower(written(c)) + z == lower(lead) + y) by {
                assert(lower(lead + o + written(*rest)) + z =~= lower(lead) + (lower(o) + z1));
            }
            assert(y[0] == '<') by {
                assert(o[0] == '<');
            }
            lemma_text_passes(lower(lead), y, tag, depth, nest);
            lemma_void_passes(name, attributes, z1, tag, depth);
            lemma_content_passes(*rest, z, tag, depth, nest);
        },
    }
}

/// A block ends with its own closing tag: there the nesting is back to what it was.
proof fn lemma_block_passes(
    name: Seq<char>,
    attributes: Seq<char>,
    inside: Content,
    shut: Seq<char>,
    ending: Seq<char>,
    z: Seq<char>,
    tag: Seq<char>,
    depth: int,
    nest: bool,
)
    requires
        is_name(tag),
        lower(name) == tag,
        lacks(attributes, '>'),
        nest || attributes.len() == 0 || attributes.last() != '/',
        is_of(inside, tag),
        nest ==> has_no_void(inside),
        lower(shut) == tag,
        lacks(ending, '>'),
        depth >= 0,
    ensures
        ({
            let o = lower(opening_tag(name, attributes));
            let b = o + lower(written(inside)) + lower(closing_tag(shut, ending));
            let y = o + (lower(written(inside)) + (lower(closing_tag(shut, ending)) + z));
            &&& closing_mark(marks(y, tag, o.len() as int), depth + 1, nest) == closing_mark(
                marks(y, tag, 0),
                depth,
                nest,
            )
            &&& depth > 0 ==> closing_mark(marks(y, tag, 0), depth, nest) == match closing_mark(
                marks(z, tag, 0),
                depth,
                nest,
            ) {
                Some(m) => Some(moved_mark(m, b.len() as int)),
                None => None,
            }
            &&& depth == 0 ==> {
                &&& closing_mark(marks(y, tag, 0), depth, nest) matches Some(m)
                &&& m.end == b.len()
            }
        }),
    decreases inside, 1int,
{
    let o = lower(opening_tag(name, attributes));
    let e = lower(closing_tag(shut, ending));
    let wi = lower(written(inside));
    let z2 = e + z;
    let z1 = wi + z2;
    let y = o + z1;
    lemma_opening_first(name, attributes, z1, tag);
    assert(marks(y, tag, 0).drop_first() =~= marks(y, tag, o.len() as int));
    lemma_closing_behind(o, z1, tag, depth + 1, nest);
    assert(z2[0] == '<');
    lemma_content_passes(inside, z2, tag, depth + 1, nest);
    lemma_closing_first(shut, ending, z, tag);
    assert(marks(z2, tag, 0).drop_first() =~= marks(z2, tag, e.len() as int));
    lemma_closing_behind(e, z, tag, depth, nest);
}

/// Plain text does not matter for cutting what follows it.
proof fn lemma_cut_behind_text(t: Seq<char>, z: Seq<char>, tag: Seq<char>)
    requires
        is_name(tag),
        is_plain(t, tag),
        z.len() == 0 || z[0] == '<',
    ensures
        without_blocks(t + z, tag) == t + without_blocks(z, tag),
{
    let open = open_pattern(tag);
    let s = t + z;
    let n = t.len() as int;
    let folded = lower(s);
    lemma_lower_add(t, z);
    lemma_lower_marks(z);
    lemma_find_either(folded, open, open, 0);
    lemma_find_either(folded, open, open, n);
    if let Some(p) = find_from(folded, open, 0) {
        if p < n {
            lemma_plain_before(lower(t), lower(z), tag, p);
        }
    }
    assert(find_from(folded, open, 0) == find_from(folded, open, n));
    assert(folded.skip(n) =~= lower(z));
    assert(s.skip(n) =~= z);
    lemma_without_blocks_skip(s, folded, tag, n, n);
    assert(s.subrange(0, s.len() as int) =~= t + s.subrange(n, s.len() as int));
    if let Some(start) = find_from(folded, open, 0) {
        lemma_tag_close(folded, start);
        assert(s.subrange(0, start) =~= t + s.subrange(n, start));
        if let Some(close) = tag_close(folded, start) {
            let tail = without_blocks_from(s, folded, tag, block_end(folded, tag, start, close));
            assert(s.subrange(0, start) + tail =~= t + (s.subrange(n, start) + tail));
        }
    }
}

/// A block is cut from the beginning of a text.
proof fn lemma_cut_block(
    name: Seq<char>,
    attributes: Seq<char>,
    inside: Content,
    shut: Seq<char>,
    ending: Seq<char>,
    z: Seq<char>,
    tag: Seq<char>,
)
    requires
        is_name(tag),
        lower(name) == tag,
        lacks(attributes, '>'),
        attributes.len() == 0 || attributes.last() != '/',
        is_of(inside, tag),
        lower(shut) == tag,
        lacks(ending, '>'),
    ensures
        without_blocks(
            opening_tag(name, attributes) + (written(inside) + (closing_tag(shut, ending) + z)),
            tag,
        ) == without_blocks(z, tag),
{
    let o = opening_tag(name, attributes);
    let e = closing_tag(shut, ending);
    let s = o + (written(inside) + (e + z));
    let y = lower(o) + (lower(written(inside)) + (lower(e) + lower(z)));
    assert(lower(s) =~= y);
    let k = o.len() as int;
    lemma_opening_first(name, attributes, lower(written(inside)) + (lower(e) + lower(z)), tag);
    lemma_block_passes(name, attributes, inside, shut, ending, lower(z), tag, 0, false);
    assert(find_from(y, open_pattern(tag), 0) == Some(0int));
    law_first_block_is_cut(s, tag, 0, k - 1);
    let end = block_end(y, tag, 0, k - 1);
    assert(end == k + written(inside).len() + e.len());
    assert(s.skip(end) =~= z);
    assert(s.take(0) + without_blocks(z, tag) =~= without_blocks(z, tag));
}

/// Cutting leaves of properly nested content the texts that stand in no block, and goes on
/// behind it as if the text began there.
pub proof fn law_content_leaves_its_texts(c: Content, after: Seq<char>, tag: Seq<char>)
    requires
        is_name(tag),
        is_of(c, tag),
        after.len() == 0 || after[0] == '<',
    ensures
        without_blocks(written(c) + after, tag) == texts_outside(c) + without_blocks(after, tag),
    decreases c,
{
    match c {
        Content::Text(text) => {
            lemma_cut_behind_text(text, after, tag);
        },
        Content::Block { lead, name, attributes, inside, shut, ending, rest } => {
            let z = written(*rest) + after;
            let b = opening_tag(name, attributes) + (written(*inside) + (closing_tag(shut, ending)
                + z));
            assert(written(c) + after =~= lead + b);
            assert(b[0] == '<');
            lemma_cut_behind_text(lead, b, tag);
            lemma_cut_block(name, attributes, *inside, shut, ending, z, tag);
            law_content_leaves_its_texts(*rest, after, tag);
            assert(lead + (texts_outside(*rest) + without_blocks(after, tag)) =~= texts_outside(c)
                + without_blocks(after, tag));
        },
        Content::Void { lead, name, attributes, rest } => {
            let full = attributes.push('/');
            let z = written(*rest) + after;
            let o = opening_tag(name, full);
            let b = o + z;
            let k = o.len() as int;
            assert(written(c) + after =~= lead + b);
            assert(b[0] == '<');
            lemma_cut_behind_text(lead, b, tag);
            lemma_lower_add(o, z);
            lemma_opening_first(name, full, lower(z), tag);
            assert(find_from(lower(b), open_pattern(tag), 0) == Some(0int));
            law_first_block_is_cut(b, tag, 0, k - 1);
            assert(b.skip(k) =~= z);
            assert(b.take(0) + without_blocks(z, tag) =~= without_blocks(z, tag));
            law_content_leaves_its_texts(*rest, after, tag);
            assert(lead + (texts_outside(*rest) + without_blocks(after, tag)) =~= texts_outside(c)
                + without_blocks(after, tag));
        },
    }
}

/// A block that is written out is cut, whatever its length: from an opening tag that does
/// not close itself to the closing tag.
pub proof fn law_written_block_is_cut(
    before: Seq<char>,
    tag: Seq<char>,
    attributes: Seq<char>,
    inside: Seq<char>,
    after: Seq<char>,
)
    requires
        is_name(tag),
        !contains(lower(before), seq!['<'] + tag),
        lacks(attributes, '>'),
        attributes.len() == 0 || attributes.last() != '/',
        !contains(lower(inside), seq!['<'] + tag),
        !contains(lower(inside), seq!['<', '/'] + tag),
    ensures
        without_blocks(
            before + seq!['<'] + tag + attributes + seq!['>'] + inside + seq!['<', '/'] + tag
                + seq!['>'] + after,
            tag,
        ) == before + without_blocks(after, tag),
{
    let none = Seq::<char>::empty();
    let s = opening_tag(tag, attributes) + (inside + (closing_tag(tag, none) + after));
    let rest = lower(inside) + (lower(closing_tag(tag, none)) + lower(after));
    lemma_cut_block(tag, attributes, Content::Text(inside), tag, none, after, tag);
    lemma_opening_first(tag, attributes, rest, tag);
    assert(lower(s) =~= lower(opening_tag(tag, attributes)) + rest);
    lemma_cut_behind_opening(before, s, tag);
    assert(before + seq!['<'] + tag + attributes + seq!['>'] + inside + seq!['<', '/'] + tag
        + seq!['>'] + after =~= before + s);
}

/// A tag that closes itself is a block of its own: what follows it is treated as if the text
/// began there.
pub proof fn law_void_tag_is_cut_alone(
    before: Seq<char>,
    tag: Seq<char>,
    attributes: Seq<char>,
    after: Seq<char>,
)
    requires
        is_name(tag),
        !contains(lower(before), seq!['<'] + tag),
        lacks(attributes, '>'),
    ensures
        without_blocks(
            before + seq!['<'] + tag + attributes + seq!['/', '>'] + after,
            tag,
        ) == before + without_blocks(after, tag),
{
    let full = attributes.push('/');
    let o = opening_tag(tag, full);
    let s = o + after;
    let k = o.len() as int;
    lemma_lower_add(o, after);
    lemma_opening_first(tag, full, lower(after), tag);
    assert(find_from(lower(s), open_pattern(tag), 0) == Some(0int));
    law_first_block_is_cut(s, tag, 0, k - 1);
    assert(s.skip(k) =~= after);
    assert(s.take(0) + without_blocks(after, tag) =~= without_blocks(after, tag));
    lemma_cut_behind_opening(before, s, tag);
    assert(before + seq!['<'] + tag + attributes + seq!['/', '>'] + after =~= before + s);
}

/// Text in which no opening tag begins does not matter for cutting what follows it, where
/// that begins with an opening tag.
proof fn lemma_cut_behind_opening(before: Seq<char>, z: Seq<char>, tag: Seq<char>)
    requires
        is_name(tag),
        !contains(lower(before), open_pattern(tag)),
        occurs_at(lower(z), open_pattern(tag), 0),
    ensures
        without_blocks(before + z, tag) == before + without_blocks(z, tag),
{
    let open = open_pattern(tag);
    let s = before + z;
    let n = before.len() as int;
    let none = Seq::<char>::empty();
    lemma_lower_add(before, z);
    lemma_first_opening(before, lower(z), none, tag);
    assert(lower(before) + lower(z) + none =~= lower(s));
    assert(lower(s).skip(n) =~= lower(z));
    assert(s.skip(n) =~= z);
    lemma_find_skip(lower(s), open, open, n, n);
    lemma_find_skip(lower(s), seq!['>'], seq!['>'], n, n);
    lemma_without_blocks_skip(s, lower(s), tag, n, n);
    assert(find_from(lower(s), open, n) == Some(n));
    lemma_tag_close(lower(s), n);
    if let Some(close) = tag_close(lower(s), n) {
        let tail = without_blocks_from(s, lower(s), tag, block_end(lower(s), tag, n, close));
        assert(s.subrange(0, n) + tail =~= before + (s.subrange(n, n) + tail));
    } else {
        assert(s.subrange(0, s.len() as int) =~= before + s.subrange(n, s.len() as int));
    }
}

/// A block that is never closed is cut to the end of the text, with whatever blocks are
/// nested in it.
pub proof fn law_unclosed_block_is_cut_to_the_end(
    c: Content,
    name: Seq<char>,
    attributes: Seq<char>,
    inside: Content,
    tail: Seq<char>,
    tag: Seq<char>,
)
    requires
        is_name(tag),
        is_of(c, tag),
        lower(name) == tag,
        lacks(attributes, '>'),
        attributes.len() == 0 || attributes.last() != '/',
        is_of(inside, tag),
        lacks(tail, '>'),
    ensures
        without_blocks(
            written(c) + opening_tag(name, attributes) + written(inside) + tail,
            tag,
        ) == texts_outside(c),
{
    let o = opening_tag(name, attributes);
    let s = o + (written(inside) + tail);
    let z = lower(written(inside)) + lower(tail);
    let k = o.len() as int;
    let none = Seq::<char>::empty();
    lemma_lower_marks(tail);
    assert(lower(s) =~= lower(o) + z);
    lemma_opening_first(name, attributes, z, tag);
    lemma_closing_behind(lower(o), z, tag, 1, false);
    lemma_content_passes(inside, lower(tail), tag, 1, false);
    lemma_no_marks(lower(tail), tag, 0);
    assert(find_from(lower(s), open_pattern(tag), 0) == Some(0int));
    law_first_block_is_cut(s, tag, 0, k - 1);
    assert(s.skip(s.len() as int) =~= none);
    assert(s.take(0) =~= none);
    lemma_find_either(lower(none), open_pattern(tag), open_pattern(tag), 0);
    assert(without_blocks(none, tag) =~= none);
    assert(without_blocks(s, tag) =~= none);
    assert(s[0] == '<');
    law_content_leaves_its_texts(c, s, tag);
    assert(written(c) + opening_tag(name, attributes) + written(inside) + tail =~= written(c) + s);
    assert(texts_outside(c) + none =~= texts_outside(c));
}

/// An opening tag that never ends is kept, with all that follows it.
pub proof fn law_endless_tag_is_kept(c: Content, name: Seq<char>, tail: Seq<char>, tag: Seq<char>)
    requires
        is_name(tag),
        is_of(c, tag),
        lower(name) == tag,
        lacks(tail, '>'),
    ensures
        without_blocks(written(c) + seq!['<'] + name + tail, tag) == texts_outside(c) + seq!['<']
            + name + tail,
{
    let s = seq!['<'] + name + tail;
    let open = open_pattern(tag);
    lemma_lower_marks(tail);
    assert(lower(s) =~= open + lower(tail));
    assert(lower(s).subrange(0, open.len() as int) =~= open);
    assert(find_from(lower(s), open, 0) == Some(0int));
    lemma_tag_close(lower(s), 0);
    assert forall|i: int| 0 <= i < s.len() implies lower(s)[i] != '>' by {
        if i >= open.len() {
            assert(lower(s)[i] == lower(tail)[i - open.len()]);
        } else if i > 0 {
            assert(lower(s)[i] == tag[i - 1]);
        }
    }
    assert(s.subrange(0, s.len() as int) =~= s);
    assert(s[0] == '<');
    law_content_leaves_its_texts(c, s, tag);
    assert(written(c) + seq!['<'] + name + tail =~= written(c) + s);
    assert(texts_outside(c) + seq!['<'] + name + tail =~= texts_outside(c) + s);
}

/// The first block is taken out whole, whatever its length and whatever blocks are nested in
/// it, where no opening tag begins before it. What stands around it does not matter.
pub proof fn law_nested_block_is_taken(
    before: Seq<char>,
    name: Seq<char>,
    attributes: Seq<char>,
    inside: Content,
    shut: Seq<char>,
    ending: Seq<char>,
    after: Seq<char>,
    tag: Seq<char>,
)
    requires
        is_name(tag),
        !contains(lower(before), seq!['<'] + tag),
        lower(name) == tag,
        lacks(attributes, '>'),
        is_of(inside, tag),
        has_no_void(inside),
        lower(shut) == tag,
        lacks(ending, '>'),
    ensures
        ({
            let block = opening_tag(name, attributes) + written(inside) + closing_tag(shut, ending);
            tag_block(before + block + after, tag) == Some(block)
        }),
{
    let o = opening_tag(name, attributes);
    let e = closing_tag(shut, ending);
    let block = o + written(inside) + e;
    let s = before + block + after;
    let n = before.len() as int;
    let y = lower(o) + (lower(written(inside)) + (lower(e) + lower(after)));
    assert(lower(s) =~= lower(before) + y);
    lemma_opening_first(name, attributes, lower(written(inside)) + (lower(e) + lower(after)), tag);
    lemma_block_passes(name, attributes, inside, shut, ending, lower(after), tag, 0, true);
    lemma_first_opening(before, y, Seq::empty(), tag);
    assert(lower(before) + y + Seq::empty() =~= lower(s));
    lemma_closing_behind(lower(before), y, tag, 0, true);
    assert(s.subrange(n, n + block.len()) =~= block);
}

/// A block that is written out is taken out whole, whatever its length.
pub proof fn law_written_block_is_taken(
    before: Seq<char>,
    tag: Seq<char>,
    attributes: Seq<char>,
    inside: Seq<char>,
    after: Seq<char>,
)
    requires
        is_name(tag),
        !contains(lower(before), seq!['<'] + tag),
        lacks(attributes, '>'),
        !contains(lower(inside), seq!['<'] + tag),
        !contains(lower(inside), seq!['<', '/'] + tag),
    ensures
        ({
            let block = seq!['<'] + tag + attributes + seq!['>'] + inside + seq!['<', '/'] + tag
                + seq!['>'];
            tag_block(before + block + after, tag) == Some(block)
        }),
{
    let none = Seq::<char>::empty();
    law_nested_block_is_taken(
        before,
        tag,
        attributes,
        Content::Text(inside),
        tag,
        none,
        after,
        tag,
    );
    assert(seq!['<'] + tag + attributes + seq!['>'] + inside + seq!['<', '/'] + tag + seq!['>']
        =~= opening_tag(tag, attributes) + inside + closing_tag(tag, none));
}

/// A block that is never closed is not taken out, with whatever blocks are nested in it.
pub proof fn law_unclosed_block_is_not_taken(
    before: Seq<char>,
    name: Seq<char>,
    attributes: Seq<char>,
    inside: Content,
    tail: Seq<char>,
    tag: Seq<char>,
)
    requires
        is_name(tag),
        !contains(lower(before), seq!['<'] + tag),
        lower(name) == tag,
        lacks(attributes, '>'),
        is_of(inside, tag),
        has_no_void(inside),
        lacks(tail, '>'),
    ensures
        tag_block(before + opening_tag(name, attributes) + written(inside) + tail, tag) == None::<
            Seq<char>,
        >,
{
    let o = opening_tag(name, attributes);
    let s = before + o + written(inside) + tail;
    let z = lower(written(inside)) + lower(tail);
    let y = lower(o) + z;
    lemma_lower_marks(tail);
    assert(lower(s) =~= lower(before) + y);
    lemma_opening_first(name, attributes, z, tag);
    assert(marks(y, tag, 0).drop_first() =~= marks(y, tag, o.len() as int));
    lemma_closing_behind(lower(o), z, tag, 1, true);
    lemma_content_passes(inside, lower(tail), tag, 1, true);
    lemma_no_marks(lower(tail), tag, 0);
    lemma_first_opening(before, y, Seq::empty(), tag);
    assert(lower(before) + y + Seq::empty() =~= lower(s));
    lemma_closing_behind(lower(before), y, tag, 0, true);
}

/// Where no opening tag begins, there is no block to take out.
pub proof fn law_no_block_without_opening_tag(s: Seq<char>, tag: Seq<char>)
    requires
        !contains(lower(s), seq!['<'] + tag),
    ensures
        tag_block(s, tag) == None::<Seq<char>>,
{
    lemma_find_either(lower(s), open_pattern(tag), open_pattern(tag), 0);
}

/// A comment that is written out is cut, whatever its length, and what follows it is treated
/// as if the text began there.
pub proof fn law_written_comment_is_cut(before: Seq<char>, inside: Seq<char>, after: Seq<char>)
    requires
        !contains(before, seq!['<', '!', '-', '-']),
        !contains(inside, seq!['-', '-', '>']),
    ensures
        without_comments(
            before + seq!['<', '!', '-', '-'] + inside + seq!['-', '-', '>'] + after,
        ) == before + without_comments(after),
{
    lemma_comment_begins_behind(before);
    lemma_comment_ends_behind(inside);
    law_comment_is_cut(before, inside, after);
}

/// A comment that is never closed takes the rest of the text with it.
pub proof fn law_written_comment_takes_the_rest(before: Seq<char>, inside: Seq<char>)
    requires
        !contains(before, seq!['<', '!', '-', '-']),
        !contains(inside, seq!['-', '-', '>']),
    ensures
        without_comments(before + seq!['<', '!', '-', '-'] + inside) == before,
{
    lemma_comment_begins_behind(before);
    law_open_comment_takes_the_rest(before, inside);
}

/// A text that is put behind another is found there, where it stands nowhere before.
proof fn lemma_found_where_put(a: Seq<char>, pat: Seq<char>)
    requires
        !contains(a, pat),
        forall|j: int|
            0 <= j < a.len() < j + pat.len() ==> !#[trigger] occurs_at(a + pat, pat, j),
    ensures
        find_from(a + pat, pat, 0) == Some(a.len() as int),
{
    let s = a + pat;
    let n = a.len() as int;
    lemma_find_either(s, pat, pat, 0);
    assert(occurs_at(s, pat, n)) by {
        assert(s.subrange(n, n + pat.len()) =~= pat);
    }
    assert forall|j: int| 0 <= j < n implies !#[trigger] occurs_at(s, pat, j) by {
        if occurs_at(s, pat, j) && j + pat.len() <= n {
            lemma_occurs_prefix(a, pat, pat, j);
            assert(occurs_at(a, pat, j));
        }
    }
}

proof fn lemma_comment_begins_behind(before: Seq<char>)
    requires
        !contains(before, comment_open()),
    ensures
        find_from(before + comment_open(), comment_open(), 0) == Some(before.len() as int),
{
    let open = comment_open();
    let s = before + open;
    let n = before.len() as int;
    assert forall|j: int| 0 <= j < n < j + open.len() implies !#[trigger] occurs_at(s, open, j) by {
        if occurs_at(s, open, j) {
            assert(s[n] == '<');
            assert(s.subrange(j, j + open.len())[n - j] == s[n]);
            assert(open[n - j] != '<');
        }
    }
    lemma_found_where_put(before, open);
}

proof fn lemma_comment_ends_behind(inside: Seq<char>)
    requires
        !contains(inside, comment_close()),
    ensures
        find_from(inside + comment_close(), comment_close(), 0) == Some(inside.len() as int),
{
    let close = comment_close();
    let s = inside + close;
    let n = inside.len() as int;
    assert forall|j: int| 0 <= j < n < j + close.len() implies !#[trigger] occurs_at(
        s,
        close,
        j,
    ) by {
        if occurs_at(s, close, j) {
            assert(s[j + 2] == '-');
            assert(s.subrange(j, j + close.len())[2] == s[j + 2]);
            assert(close[2] == '>');
        }
    }
    lemma_found_where_put(inside, close);
}

/// The kinds of blocks that carry no content of a page.
pub open spec fn is_clutter(tag: Seq<char>) -> bool {
    ||| tag == "script"@
    ||| tag == "style"@
    ||| tag == "noscript"@
    ||| tag == "svg"@
    ||| tag == "nav"@
    ||| tag == "footer"@
    ||| tag == "aside"@
}

proof fn lemma_clutter_is_named(tag: Seq<char>)
    requires
        is_clutter(tag),
    ensures
        is_name(tag),
{
    reveal_strlit("script");
    reveal_strlit("style");
    reveal_strlit("noscript");
    reveal_strlit("svg");
    reveal_strlit("nav");
    reveal_strlit("footer");
    reveal_strlit("aside");
    assert(lower(tag) =~= tag);
}

/// No comment begins in `s`, and no clutter of another kind than `tag`.
pub open spec fn no_clutter_but(s: Seq<char>, tag: Seq<char>) -> bool {
    &&& !contains(s, seq!['<', '!', '-', '-'])
    &&& tag != "script"@ ==> !contains(lower(s), seq!['<'] + "script"@)
    &&& tag != "style"@ ==> !contains(lower(s), seq!['<'] + "style"@)
    &&& tag != "noscript"@ ==> !contains(lower(s), seq!['<'] + "noscript"@)
    &&& tag != "svg"@ ==> !contains(lower(s), seq!['<'] + "svg"@)
    &&& tag != "nav"@ ==> !contains(lower(s), seq!['<'] + "nav"@)
    &&& tag != "footer"@ ==> !contains(lower(s), seq!['<'] + "footer"@)
    &&& tag != "aside"@ ==> !contains(lower(s), seq!['<'] + "aside"@)
}

/// No comment and no clutter begins in `s`.
pub open spec fn no_clutter(s: Seq<char>) -> bool {
    &&& !contains(s, seq!['<', '!', '-', '-'])
    &&& !contains(lower(s), seq!['<'] + "script"@)
    &&& !contains(lower(s), seq!['<'] + "style"@)
    &&& !contains(lower(s), seq!['<'] + "noscript"@)
    &&& !contains(lower(s), seq!['<'] + "svg"@)
    &&& !contains(lower(s), seq!['<'] + "nav"@)
    &&& !contains(lower(s), seq!['<'] + "footer"@)
    &&& !contains(lower(s), seq!['<'] + "aside"@)
}

/// A block of any kind of clutter, written out, is cut from a text that holds no other clutter,
/// whatever its length.
pub proof fn law_each_kind_of_clutter_is_cut(
    before: Seq<char>,
    tag: Seq<char>,
    attributes: Seq<char>,
    inside: Seq<char>,
    after: Seq<char>,
)
    requires
        is_clutter(tag),
        lacks(attributes, '>'),
        attributes.len() == 0 || attributes.last() != '/',
        is_plain(inside, tag),
        no_clutter_but(
            before + seq!['<'] + tag + attributes + seq!['>'] + inside + seq!['<', '/'] + tag
                + seq!['>'] + after,
            tag,
        ),
        no_clutter(before),
        no_clutter(after),
        no_clutter(before + after),
    ensures
        without_clutter(
            before + seq!['<'] + tag + attributes + seq!['>'] + inside + seq!['<', '/'] + tag
                + seq!['>'] + after,
        ) == before + after,
{
    let s = before + seq!['<'] + tag + attributes + seq!['>'] + inside + seq!['<', '/'] + tag
        + seq!['>'] + after;
    let t = before + after;
    lemma_clutter_is_named(tag);
    law_written_block_is_cut(before, tag, attributes, inside, after);
    law_text_without_tag_is_kept(after, tag);
    law_text_without_comment_is_kept(s);
    assert(without_blocks(s, tag) == t);
    lemma_clutter_step(s, t, tag, "script"@);
    lemma_clutter_step(s, t, tag, "style"@);
    lemma_clutter_step(s, t, tag, "noscript"@);
    lemma_clutter_step(s, t, tag, "svg"@);
    lemma_clutter_step(s, t, tag, "nav"@);
    lemma_clutter_step(s, t, tag, "footer"@);
    lemma_clutter_step(s, t, tag, "aside"@);
    lemma_clutter_kinds_differ();
}

/// Cutting one kind does nothing to a text that holds none of it.
proof fn lemma_clutter_step(s: Seq<char>, t: Seq<char>, tag: Seq<char>, other: Seq<char>)
    requires
        other != tag ==> !contains(lower(s), seq!['<'] + other),
        !contains(lower(t), seq!['<'] + other),
    ensures
        other != tag ==> without_blocks(s, other) == s,
        without_blocks(t, other) == t,
{
    if other != tag {
        law_text_without_tag_is_kept(s, other);
    }
    law_text_without_tag_is_kept(t, other);
}

proof fn lemma_clutter_kinds_differ()
    ensures
        "script"@ != "style"@ && "script"@ != "noscript"@ && "script"@ != "svg"@ && "script"@
            != "nav"@ && "script"@ != "footer"@ && "script"@ != "aside"@,
        "style"@ != "noscript"@ && "style"@ != "svg"@ && "style"@ != "nav"@ && "style"@ != "footer"@
            && "style"@ != "aside"@,
        "noscript"@ != "svg"@ && "noscript"@ != "nav"@ && "noscript"@ != "footer"@ && "noscript"@
            != "aside"@,
        "svg"@ != "nav"@ && "svg"@ != "footer"@ && "svg"@ != "aside"@,
        "nav"@ != "footer"@ && "nav"@ != "aside"@ && "footer"@ != "aside"@,
{
    reveal_strlit("script");
    reveal_strlit("style");
    reveal_strlit("noscript");
    reveal_strlit("svg");
    reveal_strlit("nav");
    reveal_strlit("footer");
    reveal_strlit("aside");
    assert("noscript"@.len() == 8);
    assert("script"@[1] == 'c' && "footer"@[1] == 'o');
    assert("style"@[1] == 't' && "aside"@[1] == 's');
    assert("svg"@[0] == 's' && "nav"@[0] == 'n');
}

/// Comments go first, and then each kind of clutter from what the kinds before it have left.
pub proof fn law_clutter_is_cut_kind_by_kind(s: Seq<char>)
    ensures
        exists|a: Seq<char>, b: Seq<char>, c: Seq<char>, d: Seq<char>, e: Seq<char>, f: Seq<char>|
            {
                &&& a == without_blocks(without_comments(s), "script"@)
                &&& b == #[trigger] without_blocks(a, "style"@)
                &&& c == #[trigger] without_blocks(b, "noscript"@)
                &&& d == #[trigger] without_blocks(c, "svg"@)
                &&& e == #[trigger] without_blocks(d, "nav"@)
                &&& f == #[trigger] without_blocks(e, "footer"@)
                &&& without_clutter(s) == #[trigger] without_blocks(f, "aside"@)
            },
{
    let a = without_blocks(without_comments(s), "script"@);
    let b = without_blocks(a, "style"@);
    let c = without_blocks(b, "noscript"@);
    let d = without_blocks(c, "svg"@);
    let e = without_blocks(d, "nav"@);
    let f = without_blocks(e, "footer"@);
    assert(without_clutter(s) == without_blocks(f, "aside"@));
}

/// A `main` block that is written out is what is left of a page for conversion, whatever its
/// length and whatever stands around it, an `article` or `body` block included.
pub proof fn law_main_block_is_rendered(
    before: Seq<char>,
    attributes: Seq<char>,
    inside: Seq<char>,
    after: Seq<char>,
)
    requires
        !contains(lower(before), seq!['<'] + "main"@),
        lacks(attributes, '>'),
        is_plain(inside, "main"@),
    ensures
        ({
            let block = seq!['<'] + "main"@ + attributes + seq!['>'] + inside + seq!['<', '/']
                + "main"@ + seq!['>'];
            &&& primary_fragment(before + block + after) == Some(block)
            &&& cleaned_html(before + block + after) == without_clutter(block)
        }),
{
    reveal_strlit("main");
    assert(lower("main"@) =~= "main"@);
    law_written_block_is_taken(before, "main"@, attributes, inside, after);
}

/// Where no `main` tag begins in a page, its `article` block is what is left of it.
pub proof fn law_article_block_comes_second(
    before: Seq<char>,
    attributes: Seq<char>,
    inside: Seq<char>,
    after: Seq<char>,
)
    requires
        ({
            let block = seq!['<'] + "article"@ + attributes + seq!['>'] + inside + seq!['<', '/']
                + "article"@ + seq!['>'];
            !contains(lower(before + block + after), seq!['<'] + "main"@)
        }),
        !contains(lower(before), seq!['<'] + "article"@),
        lacks(attributes, '>'),
        is_plain(inside, "article"@),
    ensures
        ({
            let block = seq!['<'] + "article"@ + attributes + seq!['>'] + inside + seq!['<', '/']
                + "article"@ + seq!['>'];
            &&& primary_fragment(before + block + after) == Some(block)
            &&& cleaned_html(before + block + after) == without_clutter(block)
        }),
{
    reveal_strlit("article");
    assert(lower("article"@) =~= "article"@);
    let block = seq!['<'] + "article"@ + attributes + seq!['>'] + inside + seq!['<', '/']
        + "article"@ + seq!['>'];
    law_written_block_is_taken(before, "article"@, attributes, inside, after);
    law_no_block_without_opening_tag(before + block + after, "main"@);
}

/// Where neither a `main` nor an `article` tag begins in a page, its `body` block is what is
/// left of it.
pub proof fn law_body_block_comes_last(
    before: Seq<char>,
    attributes: Seq<char>,
    inside: Seq<char>,
    after: Seq<char>,
)
    requires
        ({
            let block = seq!['<'] + "body"@ + attributes + seq!['>'] + inside + seq!['<', '/']
                + "body"@ + seq!['>'];
            &&& !contains(lower(before + block + after), seq!['<'] + "main"@)
            &&& !contains(lower(before + block + after), seq!['<'] + "article"@)
        }),
        !contains(lower(before), seq!['<'] + "body"@),
        lacks(attributes, '>'),
        is_plain(inside, "body"@),
    ensures
        ({
            let block = seq!['<'] + "body"@ + attributes + seq!['>'] + inside + seq!['<', '/']
                + "body"@ + seq!['>'];
            &&& primary_fragment(before + block + after) == Some(block)
            &&& cleaned_html(before + block + after) == without_clutter(block)
        }),
{
    reveal_strlit("body");
    assert(lower("body"@) =~= "body"@);
    let block = seq!['<'] + "body"@ + attributes + seq!['>'] + inside + seq!['<', '/'] + "body"@
        + seq!['>'];
    law_written_block_is_taken(before, "body"@, attributes, inside, after);
    law_no_block_without_opening_tag(before + block + after, "main"@);
    law_no_block_without_opening_tag(before + block + after, "article"@);
}

/// A page in which none of the three begins is left whole, but for its clutter.
pub proof fn law_page_without_fragment_is_left_whole(s: Seq<char>)
    requires
        !contains(lower(s), seq!['<'] + "main"@),
        !contains(lower(s), seq!['<'] + "article"@),
        !contains(lower(s), seq!['<'] + "body"@),
    ensures
        primary_fragment(s) == None::<Seq<char>>,
        cleaned_html(s) == without_clutter(s),
{
    law_no_block_without_opening_tag(s, "main"@);
    law_no_block_without_opening_tag(s, "article"@);
    law_no_block_without_opening_tag(s, "body"@);
}

/// Whatever a page holds, its fragment is its first `main` block, or else its first `article`
/// block, or else its first `body` block, and that is what is left of it.
pub proof fn law_fragment_is_chosen_in_order(s: Seq<char>)
    ensures
        tag_block(s, "main"@) matches Some(block) ==> primary_fragment(s) == Some(block)
            && cleaned_html(s) == without_clutter(block),
        tag_block(s, "main"@) is None ==> (tag_block(s, "article"@) matches Some(block) ==>
            primary_fragment(s) == Some(block) && cleaned_html(s) == without_clutter(block)),
        tag_block(s, "main"@) is None && tag_block(s, "article"@) is None ==> {
            &&& primary_fragment(s) == tag_block(s, "body"@)
            &&& tag_block(s, "body"@) matches Some(block) ==> cleaned_html(s) == without_clutter(
                block,
            )
            &&& tag_block(s, "body"@) is None ==> cleaned_html(s) == without_clutter(s)
        },
{
}

} // verus!
