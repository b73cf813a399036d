//! Which texts are kept from the converter, said of the texts themselves.

use vstd::prelude::*;

use crate::html::{close_pattern, cleaned_html, open_pattern};
use crate::html_content::lacks;
use crate::markdown::{attribute_end, closed_at_once, closing_tag_at, ends_name, is_attribute_char,
    item_may_stand_in_markup, markdown_of, markup_left_open_at,
    may_break_converter, plain_tag_end, simplified, space_end, tag_begins_at, SimplifiedModel};
use crate::text::{contains, find_from, lemma_find_either, lower, occurs_at};
use crate::text_laws::law_text_falls_apart_where_another_stands;

verus! {

/// The tags of links, quotations and styles.
pub open spec fn is_markup(tag: Seq<char>) -> bool {
    ||| tag == "a"@
    ||| tag == "q"@
    ||| tag == "cite"@
    ||| tag == "blockquote"@
    ||| tag == "b"@
    ||| tag == "i"@
    ||| tag == "s"@
    ||| tag == "strong"@
    ||| tag == "em"@
    ||| tag == "del"@
}

/// A name ends before white space, a slash or the end of its tag.
pub proof fn law_names_end(c: char)
    ensures
        ends_name(c) <==> (c as u32 == 9 || c as u32 == 10 || c as u32 == 12 || c as u32 == 13 || c
            == ' ' || c == '/' || c == '>'),
{
}

/// A tag begins where `<`, its name and the end of the name stand, and only there.
pub proof fn law_tag_begins_with_its_name(
    before: Seq<char>,
    tag: Seq<char>,
    c: char,
    after: Seq<char>,
)
    ensures
        tag_begins_at(before + (seq!['<'] + tag).push(c) + after, tag, before.len() as int)
            == ends_name(c),
        closing_tag_at(before + (seq!['<', '/'] + tag).push(c) + after, tag, before.len() as int)
            == ends_name(c),
{
    let n = before.len() as int;
    let open = open_pattern(tag);
    let s = before + (seq!['<'] + tag).push(c) + after;
    assert(s.subrange(n, n + open.len()) =~= open);
    assert(s[n + open.len()] == c);
    let shut = close_pattern(tag);
    let t = before + (seq!['<', '/'] + tag).push(c) + after;
    assert(t.subrange(n, n + shut.len()) =~= shut);
    assert(t[n + shut.len()] == c);
}

/// Where a tag begins, the text falls apart at its name.
pub proof fn law_text_falls_apart_at_a_tag(s: Seq<char>, tag: Seq<char>, i: int)
    requires
        tag_begins_at(s, tag, i),
    ensures
        s == s.take(i) + seq!['<'] + tag + s.skip(i + 1 + tag.len()),
        i + 1 + tag.len() < s.len(),
        ends_name(s[i + 1 + tag.len()]),
{
    law_text_falls_apart_where_another_stands(s, seq!['<'] + tag, i);
    assert(s.take(i) + (seq!['<'] + tag) + s.skip(i + 1 + tag.len()) =~= s.take(i) + seq!['<'] + tag
        + s.skip(i + 1 + tag.len()));
}

/// A text is kept from the converter exactly when a list item begins in it behind a link, a
/// quotation or a style that is not closed at once. Letter case does not matter.
pub proof fn law_converter_is_kept_from_items_in_markup(html: Seq<char>)
    ensures
        may_break_converter(html) <==> exists|tag: Seq<char>, i: int, j: int|
            {
                &&& is_markup(tag)
                &&& #[trigger] tag_begins_at(lower(html), tag, i)
                &&& !closed_at_once(lower(html), tag, i)
                &&& i < j
                &&& #[trigger] tag_begins_at(lower(html), "li"@, j)
            },
{
    let text = lower(html);
    if may_break_converter(html) {
        let (i, j) = choose|i: int, j: int| item_may_stand_in_markup(text, i, j);
        assert(markup_left_open_at(text, i));
        let tag = choose|tag: Seq<char>|
            is_markup(tag) && #[trigger] tag_begins_at(text, tag, i) && !closed_at_once(text, tag, i);
        assert(is_markup(tag) && tag_begins_at(text, tag, i) && !closed_at_once(text, tag, i));
        assert(tag_begins_at(text, "li"@, j));
    }
    if exists|tag: Seq<char>, i: int, j: int|
        {
            &&& is_markup(tag)
            &&& #[trigger] tag_begins_at(text, tag, i)
            &&& !closed_at_once(text, tag, i)
            &&& i < j
            &&& #[trigger] tag_begins_at(text, "li"@, j)
        } {
        let (tag, i, j) = choose|tag: Seq<char>, i: int, j: int|
            {
                &&& is_markup(tag)
                &&& #[trigger] tag_begins_at(text, tag, i)
                &&& !closed_at_once(text, tag, i)
                &&& i < j
                &&& #[trigger] tag_begins_at(text, "li"@, j)
            };
        assert(item_may_stand_in_markup(text, i, j));
    }
}

/// A text in which no list item begins goes to the converter.
pub proof fn law_text_without_items_is_converted(page: Seq<char>)
    requires
        !contains(lower(cleaned_html(page)), seq!['<'] + "li"@),
    ensures
        simplified(page) == SimplifiedModel::Markdown(markdown_of(cleaned_html(page))),
{
    let text = lower(cleaned_html(page));
    if may_break_converter(cleaned_html(page)) {
        let (i, j) = choose|i: int, j: int| item_may_stand_in_markup(text, i, j);
        assert(occurs_at(text, open_pattern("li"@), j));
    }
}

/// What is not converted is handed back as it would have been converted.
pub proof fn law_unconverted_page_is_handed_back(page: Seq<char>)
    ensures
        match simplified(page) {
            SimplifiedModel::Markdown(markdown) => markdown == markdown_of(cleaned_html(page))
                && !may_break_converter(cleaned_html(page)),
            SimplifiedModel::Html(html) => html == cleaned_html(page) && may_break_converter(
                cleaned_html(page),
            ),
        },
{
}

/// The first `<` behind a text without any stands where it was put.
proof fn lemma_next_angle(s: Seq<char>, from: int, at: int)
    requires
        0 <= from <= at < s.len(),
        s[at] == '<',
        forall|i: int| from <= i < at ==> s[i] != '<',
    ensures
        find_from(s, seq!['<'], from) == Some(at),
{
    let angle = seq!['<'];
    lemma_find_either(s, angle, angle, from);
    assert(occurs_at(s, angle, at)) by {
        assert(s.subrange(at, at + 1) =~= angle);
    }
    assert forall|j: int| from <= j < at implies !#[trigger] occurs_at(s, angle, j) by {
        if occurs_at(s, angle, j) {
            assert(s.subrange(j, j + 1)[0] == s[j]);
        }
    }
}

/// A tag without attributes is closed at once exactly when the next tag behind it closes it.
pub proof fn law_plain_markup_is_closed_by_the_next_tag(
    before: Seq<char>,
    tag: Seq<char>,
    inside: Seq<char>,
    after: Seq<char>,
)
    requires
        lacks(inside, '<'),
        after.len() > 0,
        after[0] == '<',
    ensures
        ({
            let s = before + seq!['<'] + tag + seq!['>'] + inside + after;
            closed_at_once(s, tag, before.len() as int) == closing_tag_at(
                s,
                tag,
                (before.len() + tag.len() + 2 + inside.len()) as int,
            )
        }),
{
    let s = before + seq!['<'] + tag + seq!['>'] + inside + after;
    let p = (before.len() + 1 + tag.len()) as int;
    assert(s[p] == '>');
    assert(space_end(s, p) == p);
    assert(plain_tag_end(s, p) == Some(p + 1));
    let at = p + 1 + inside.len();
    assert(s[at] == '<');
    assert forall|i: int| p + 1 <= i < at implies s[i] != '<' by {
        assert(s[i] == inside[i - p - 1]);
    }
    lemma_next_angle(s, p + 1, at);
}

/// An attribute name ends where another character stands.
proof fn lemma_attribute_runs(s: Seq<char>, from: int, to: int)
    requires
        0 <= from <= to < s.len(),
        forall|i: int| from <= i < to ==> is_attribute_char(s[i]),
        !is_attribute_char(s[to]),
    ensures
        attribute_end(s, from) == to,
    decreases to - from,
{
    if from < to {
        lemma_attribute_runs(s, from + 1, to);
    }
}

/// A tag with an attribute whose value stands in quotes ends behind the quotes, whatever the
/// value holds.
pub proof fn law_quoted_value_does_not_end_its_tag(
    before: Seq<char>,
    name: Seq<char>,
    value: Seq<char>,
    quote: char,
    after: Seq<char>,
)
    requires
        name.len() > 0,
        forall|i: int| 0 <= i < name.len() ==> 'a' <= #[trigger] name[i] <= 'z',
        quote == '"' || quote == '\'',
        lacks(value, quote),
    ensures
        ({
            let tail = seq![' '] + name + seq!['=', quote] + value + seq![quote, '>'];
            plain_tag_end(before + tail + after, before.len() as int) == Some(
                (before + tail).len() as int,
            )
        }),
{
    let tail = seq![' '] + name + seq!['=', quote] + value + seq![quote, '>'];
    let s = before + tail + after;
    let n = before.len() as int;
    let at = n + 1;
    let end = at + name.len();
    let start = end + 2;
    let close = start + value.len();
    assert(s[n] == ' ');
    assert(s[at] == name[0]);
    assert(space_end(s, at) == at);
    assert(space_end(s, n) == at);
    assert forall|i: int| at <= i < end implies is_attribute_char(s[i]) by {
        assert(s[i] == name[i - at]);
    }
    assert(s[end] == '=');
    lemma_attribute_runs(s, at, end);
    assert(s[end + 1] == quote);
    assert(s[close] == quote);
    assert(s[close + 1] == '>');
    let pat = seq![quote];
    lemma_find_either(s, pat, pat, start);
    assert(occurs_at(s, pat, close)) by {
        assert(s.subrange(close, close + 1) =~= pat);
    }
    assert forall|j: int| start <= j < close implies !#[trigger] occurs_at(s, pat, j) by {
        if occurs_at(s, pat, j) {
            assert(s.subrange(j, j + 1)[0] == s[j]);
            assert(s[j] == value[j - start]);
        }
    }
    assert(find_from(s, pat, start) == Some(close));
    assert(space_end(s, close + 1) == close + 1);
    assert(plain_tag_end(s, close + 1) == Some(close + 2));
}

} // verus!
