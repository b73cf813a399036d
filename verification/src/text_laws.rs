//! What the text tools mean, said of the texts themselves.

use vstd::prelude::*;

use crate::text::{contains, decimal, digit, find_either, find_from, is_blank, is_white_space,
    lemma_find_either, lower, lower_char, occurs_at, starts_with};

verus! {

/// Folding leaves no ASCII capital, and changes nothing but ASCII capitals, each to the letter
/// 32 places on.
pub proof fn law_folding_changes_capitals_only(c: char)
    ensures
        !('A' <= lower_char(c) <= 'Z'),
        lower_char(c) == c || ('A' <= c <= 'Z' && lower_char(c) as int == c as int + 32),
{
}

/// A text is folded character by character.
pub proof fn law_text_is_folded_by_character(s: Seq<char>, c: char)
    ensures
        lower(Seq::empty()) == Seq::<char>::empty(),
        lower(s.push(c)) == lower(s).push(lower_char(c)),
{
    assert(lower(Seq::empty()) =~= Seq::<char>::empty());
    assert(lower(s.push(c)) =~= lower(s).push(lower_char(c)));
}

/// A text stands where it was put.
pub proof fn law_text_stands_where_it_was_put(a: Seq<char>, pat: Seq<char>, b: Seq<char>)
    ensures
        occurs_at(a + pat + b, pat, a.len() as int),
        contains(a + pat + b, pat),
        starts_with(pat + b, pat),
{
    assert((a + pat + b).subrange(a.len() as int, (a.len() + pat.len()) as int) =~= pat);
    assert(occurs_at(a + pat + b, pat, a.len() as int));
    assert((pat + b).subrange(0, pat.len() as int) =~= pat);
}

/// Where a text stands, the text around it falls into what is before it, itself and what is
/// behind it.
pub proof fn law_text_falls_apart_where_another_stands(s: Seq<char>, pat: Seq<char>, i: int)
    requires
        occurs_at(s, pat, i),
    ensures
        0 <= i,
        i + pat.len() <= s.len(),
        s == s.take(i) + pat + s.skip(i + pat.len()),
{
    assert(s =~= s.take(i) + s.subrange(i, i + pat.len()) + s.skip(i + pat.len()));
}

/// A text that holds another falls apart at one place at least.
pub proof fn law_held_text_has_a_place(s: Seq<char>, pat: Seq<char>)
    requires
        contains(s, pat),
    ensures
        exists|a: Seq<char>, b: Seq<char>| s == #[trigger] (a + pat + b),
{
    let i = choose|i: int| occurs_at(s, pat, i);
    law_text_falls_apart_where_another_stands(s, pat, i);
    assert(s == s.take(i) + pat + s.skip(i + pat.len()));
}

/// A text that begins with another is that text with something behind it.
pub proof fn law_beginning_comes_first(s: Seq<char>, prefix: Seq<char>)
    requires
        starts_with(s, prefix),
    ensures
        s == prefix + s.skip(prefix.len() as int),
{
    law_text_falls_apart_where_another_stands(s, prefix, 0);
    assert(s.take(0) + prefix + s.skip(prefix.len() as int) =~= prefix + s.skip(
        prefix.len() as int,
    ));
}

/// A search finds the leftmost place, and finds one wherever there is one.
pub proof fn law_search_finds_the_leftmost(s: Seq<char>, pat: Seq<char>, from: int)
    requires
        0 <= from,
    ensures
        match find_from(s, pat, from) {
            Some(p) => {
                &&& from <= p <= p + pat.len() <= s.len()
                &&& s.subrange(p, p + pat.len()) == pat
                &&& forall|j: int|
                    from <= j < p && j + pat.len() <= s.len() ==> #[trigger] s.subrange(
                        j,
                        j + pat.len(),
                    ) != pat
            },
            None => forall|j: int|
                from <= j && j + pat.len() <= s.len() ==> #[trigger] s.subrange(j, j + pat.len())
                    != pat,
        },
{
    lemma_find_either(s, pat, pat, from);
    if let Some(p) = find_from(s, pat, from) {
        assert(occurs_at(s, pat, p));
        assert forall|j: int| from <= j < p && j + pat.len() <= s.len() implies #[trigger] s.subrange(
            j,
            j + pat.len(),
        ) != pat by {
            assert(!occurs_at(s, pat, j));
        }
    } else {
        assert forall|j: int| from <= j && j + pat.len() <= s.len() implies #[trigger] s.subrange(
            j,
            j + pat.len(),
        ) != pat by {
            assert(!occurs_at(s, pat, j));
        }
    }
}

/// A search for two texts finds what the nearer of two searches finds.
pub proof fn law_search_for_two_finds_the_nearer(
    s: Seq<char>,
    a: Seq<char>,
    b: Seq<char>,
    from: int,
)
    requires
        0 <= from,
    ensures
        find_either(s, a, b, from) == match (find_from(s, a, from), find_from(s, b, from)) {
            (Some(p), Some(q)) => Some(if p <= q {
                p
            } else {
                q
            }),
            (Some(p), None) => Some(p),
            (None, q) => q,
        },
{
    lemma_find_either(s, a, b, from);
    lemma_find_either(s, a, a, from);
    lemma_find_either(s, b, b, from);
    if let Some(r) = find_either(s, a, b, from) {
        if let Some(p) = find_from(s, a, from) {
            assert(r <= p) by {
                if p < r {
                    assert(!occurs_at(s, a, p));
                }
            }
        }
        if let Some(q) = find_from(s, b, from) {
            assert(r <= q) by {
                if q < r {
                    assert(!occurs_at(s, b, q));
                }
            }
        }
    }
}

/// The number that a row of decimal digits stands for.
pub open spec fn number(digits: Seq<char>) -> int
    decreases digits.len(),
{
    if digits.len() == 0 {
        0
    } else {
        10 * number(digits.drop_last()) + (digits.last() as int - '0' as int)
    }
}

/// `s` is a decimal numeral: a row of digits that does not begin with a zero, but for zero
/// itself.
pub open spec fn is_numeral(s: Seq<char>) -> bool {
    &&& s.len() > 0
    &&& forall|i: int| 0 <= i < s.len() ==> '0' <= #[trigger] s[i] <= '9'
    &&& s.len() > 1 ==> s[0] != '0'
}

/// The numeral of a number is a numeral, and read as a number it is that number.
pub proof fn law_numeral_reads_back(n: nat)
    ensures
        is_numeral(decimal(n)),
        number(decimal(n)) == n,
        n > 0 ==> decimal(n)[0] != '0',
    decreases n,
{
    let d = decimal(n);
    let x = digit(n % 10);
    assert(x as int == '0' as int + n % 10);
    if n < 10 {
        assert(d.drop_last() =~= Seq::empty());
        assert(number(d.drop_last()) == 0);
    } else {
        law_numeral_reads_back(n / 10);
        let front = decimal(n / 10);
        assert(d == front.push(x));
        assert(d.drop_last() =~= front);
        assert(d[0] == front[0]);
    }
}

/// White space is what Unicode counts as such.
pub proof fn law_white_space_of_unicode(c: char)
    ensures
        is_white_space(c) <==> {
            let n = c as u32;
            ||| 9 <= n <= 13
            ||| n == 32 || n == 133 || n == 160 || n == 5760
            ||| 8192 <= n <= 8202
            ||| n == 8232 || n == 8233 || n == 8239 || n == 8287 || n == 12288
        },
{
}

/// A text is blank exactly when none of its characters is anything but white space.
pub proof fn law_one_character_ends_blankness(a: Seq<char>, c: char, b: Seq<char>)
    ensures
        is_blank(Seq::empty()),
        is_blank(a.push(c) + b) == (is_blank(a) && is_white_space(c) && is_blank(b)),
{
    let s = a.push(c) + b;
    assert(s[a.len() as int] == c);
    assert forall|i: int| 0 <= i < a.len() implies s[i] == #[trigger] a[i] by {}
    assert forall|i: int| 0 <= i < b.len() implies s[a.len() + 1 + i] == #[trigger] b[i] by {}
    if is_blank(a) && is_white_space(c) && is_blank(b) {
        assert forall|i: int| 0 <= i < s.len() implies is_white_space(#[trigger] s[i]) by {
            if i < a.len() {
                assert(s[i] == a[i]);
            } else if i > a.len() {
                assert(s[i] == b[i - a.len() - 1]);
            }
        }
    }
    if is_blank(s) {
        assert forall|i: int| 0 <= i < a.len() implies is_white_space(#[trigger] a[i]) by {
            assert(s[i] == a[i]);
        }
        assert forall|i: int| 0 <= i < b.len() implies is_white_space(#[trigger] b[i]) by {
            assert(s[a.len() + 1 + i] == b[i]);
        }
    }
}

} // verus!
