//! Character-level text tools: ASCII case folding, leftmost search, decimal
//! rendering and the handful of string operations the other modules share.

use vstd::prelude::*;

verus! {

/// `String::push` appends one character to the end of the string.
pub assume_specification[ String::push ](s: &mut String, c: char)
    ensures
        final(s)@ == old(s)@.push(c),
;

/// The ASCII lower-case form of `c`; every other character stands for itself.
pub open spec fn lower_char(c: char) -> char {
    if 'A' <= c && c <= 'Z' {
        ((c as u32) + 32) as char
    } else {
        c
    }
}

/// `s` with its ASCII letters in lower case. Lengths and positions are kept.
pub open spec fn lower(s: Seq<char>) -> Seq<char> {
    Seq::new(s.len(), |i: int| lower_char(s[i]))
}

/// `pat` stands in `s` at position `i`.
pub open spec fn occurs_at(s: Seq<char>, pat: Seq<char>, i: int) -> bool {
    &&& 0 <= i
    &&& i + pat.len() <= s.len()
    &&& s.subrange(i, i + pat.len()) == pat
}

/// `pat` stands somewhere in `s`.
pub open spec fn contains(s: Seq<char>, pat: Seq<char>) -> bool {
    exists|i: int| occurs_at(s, pat, i)
}

/// The leftmost position at or after `from` where `a` or `b` stands in `s`.
pub open spec fn find_either(s: Seq<char>, a: Seq<char>, b: Seq<char>, from: int) -> Option<int>
    decreases s.len() + 1 - from,
{
    if from > s.len() {
        None
    } else if occurs_at(s, a, from) || occurs_at(s, b, from) {
        Some(from)
    } else {
        find_either(s, a, b, from + 1)
    }
}

/// The leftmost position at or after `from` where `pat` stands in `s`.
pub open spec fn find_from(s: Seq<char>, pat: Seq<char>, from: int) -> Option<int> {
    find_either(s, pat, pat, from)
}

/// What the recursive search finds: the first hit at or after `from`, and
/// nothing exactly when no hit is left.
pub proof fn lemma_find_either(s: Seq<char>, a: Seq<char>, b: Seq<char>, from: int)
    requires
        0 <= from,
    ensures
        match find_either(s, a, b, from) {
            Some(p) => {
                &&& from <= p <= s.len()
                &&& occurs_at(s, a, p) || occurs_at(s, b, p)
                &&& forall|j: int|
                    from <= j < p ==> !#[trigger] occurs_at(s, a, j) && !occurs_at(s, b, j)
                &&& forall|j: int|
                    from <= j < p ==> !occurs_at(s, a, j) && !#[trigger] occurs_at(s, b, j)
            },
            None => {
                &&& forall|j: int| from <= j ==> !#[trigger] occurs_at(s, a, j)
                &&& forall|j: int| from <= j ==> !#[trigger] occurs_at(s, b, j)
            },
        },
    decreases s.len() + 1 - from,
{
    if from <= s.len() && !(occurs_at(s, a, from) || occurs_at(s, b, from)) {
        lemma_find_either(s, a, b, from + 1);
    }
}

/// The ASCII lower-case form of one character.
pub fn to_lower_char(c: char) -> (res: char)
    ensures
        res == lower_char(c),
{
    if 'A' <= c && c <= 'Z' {
        ((c as u8) + 32) as char
    } else {
        c
    }
}

/// The characters of `s`.
pub fn to_chars(s: &str) -> (res: Vec<char>)
    ensures
        res@ == s@,
{
    let mut res: Vec<char> = Vec::new();
    for c in it: s.chars()
        invariant
            it.seq() == s@,
            res@ == s@.take(it.index()),
    {
        res.push(c);
    }
    assert(s@.take(s@.len() as int) == s@);
    res
}

/// The characters of `s` with ASCII letters in lower case.
pub fn to_lower_chars(s: &str) -> (res: Vec<char>)
    ensures
        res@ == lower(s@),
{
    let mut res: Vec<char> = Vec::new();
    for c in it: s.chars()
        invariant
            it.seq() == s@,
            res@ == lower(s@).take(it.index()),
    {
        res.push(to_lower_char(c));
    }
    assert(lower(s@).take(s@.len() as int) == lower(s@));
    res
}

/// Whether `pat` stands in `s` at position `i`.
pub fn matches_at(s: &[char], pat: &[char], i: usize) -> (res: bool)
    ensures
        res == occurs_at(s@, pat@, i as int),
{
    if i > s.len() || pat.len() > s.len() - i {
        return false;
    }
    let mut k: usize = 0;
    while k < pat.len()
        invariant
            i + pat@.len() <= s.len() == s@.len(),
            k <= pat@.len(),
            forall|j: int| 0 <= j < k ==> s@[i + j] == #[trigger] pat@[j],
        decreases pat.len() - k,
    {
        if s[i + k] != pat[k] {
            assert(s@.subrange(i as int, i + pat@.len())[k as int] != pat@[k as int]);
            return false;
        }
        k = k + 1;
    }
    assert(s@.subrange(i as int, i + pat@.len()) =~= pat@);
    true
}

/// The leftmost position at or after `from` where `a` or `b` stands in `s`.
pub fn search_either(s: &[char], a: &[char], b: &[char], from: usize) -> (res: Option<usize>)
    requires
        from <= s@.len(),
    ensures
        match res {
            Some(p) => find_either(s@, a@, b@, from as int) == Some(p as int) && from <= p <= s@.len(),
            None => find_either(s@, a@, b@, from as int) == None::<int>,
        },
{
    let mut i: usize = from;
    loop
        invariant
            from <= i <= s@.len(),
            find_either(s@, a@, b@, from as int) == find_either(s@, a@, b@, i as int),
        decreases s@.len() - i,
    {
        if matches_at(s, a, i) || matches_at(s, b, i) {
            return Some(i);
        }
        if i == s.len() {
            assert(find_either(s@, a@, b@, i + 1) == None::<int>);
            return None;
        }
        i = i + 1;
    }
}

/// The leftmost position at or after `from` where `pat` stands in `s`.
pub fn search(s: &[char], pat: &[char], from: usize) -> (res: Option<usize>)
    requires
        from <= s@.len(),
    ensures
        match res {
            Some(p) => find_from(s@, pat@, from as int) == Some(p as int) && from <= p <= s@.len(),
            None => find_from(s@, pat@, from as int) == None::<int>,
        },
{
    search_either(s, pat, pat, from)
}

/// Whether `pat` stands somewhere in `s`.
pub fn str_contains(s: &str, pat: &str) -> (res: bool)
    ensures
        res == contains(s@, pat@),
{
    let text = to_chars(s);
    let pattern = to_chars(pat);
    proof {
        lemma_find_either(s@, pat@, pat@, 0);
    }
    let hit = search(text.as_slice(), pattern.as_slice(), 0);
    hit.is_some()
}

/// The characters with the Unicode property White_Space.
pub open spec fn is_white_space(c: char) -> bool {
    ||| '\u{9}' <= c <= '\u{d}'
    ||| c == '\u{20}'
    ||| c == '\u{85}'
    ||| c == '\u{a0}'
    ||| c == '\u{1680}'
    ||| '\u{2000}' <= c <= '\u{200a}'
    ||| c == '\u{2028}'
    ||| c == '\u{2029}'
    ||| c == '\u{202f}'
    ||| c == '\u{205f}'
    ||| c == '\u{3000}'
}

/// `s` holds nothing but white space.
pub open spec fn is_blank(s: Seq<char>) -> bool {
    forall|i: int| 0 <= i < s.len() ==> is_white_space(#[trigger] s[i])
}

/// Whether `c` has the Unicode property White_Space.
pub fn white_space(c: char) -> (res: bool)
    ensures
        res == is_white_space(c),
{
    ('\u{9}' <= c && c <= '\u{d}') || c == '\u{20}' || c == '\u{85}' || c == '\u{a0}' || c
        == '\u{1680}' || ('\u{2000}' <= c && c <= '\u{200a}') || c == '\u{2028}' || c == '\u{2029}'
        || c == '\u{202f}' || c == '\u{205f}' || c == '\u{3000}'
}

/// Whether `s` holds nothing but white space.
pub fn blank(s: &str) -> (res: bool)
    ensures
        res == is_blank(s@),
{
    let chars = to_chars(s);
    let mut i: usize = 0;
    while i < chars.len()
        invariant
            chars@ == s@,
            i <= chars@.len(),
            forall|j: int| 0 <= j < i ==> is_white_space(#[trigger] s@[j]),
        decreases chars.len() - i,
    {
        if !white_space(chars[i]) {
            assert(!is_white_space(s@[i as int]));
            return false;
        }
        i = i + 1;
    }
    true
}

/// The decimal digit for `d`.
pub open spec fn digit(d: nat) -> char {
    (('0' as u32) + d) as char
}

/// The decimal numeral of `n`, without leading zeros.
pub open spec fn decimal(n: nat) -> Seq<char>
    decreases n,
{
    if n < 10 {
        seq![digit(n)]
    } else {
        decimal(n / 10).push(digit(n % 10))
    }
}

/// Appends the decimal numeral of `n`.
pub fn append_decimal(out: &mut String, n: usize)
    ensures
        final(out)@ == old(out)@ + decimal(n as nat),
    decreases n,
{
    if n >= 10 {
        append_decimal(out, n / 10);
    }
    let d: u8 = (n % 10) as u8;
    out.push((48u8 + d) as char);
    assert(out@ =~= old(out)@ + decimal(n as nat));
}

/// Appends the characters of `chars` from `from` up to `to`.
pub fn append_range(out: &mut String, chars: &[char], from: usize, to: usize)
    requires
        from <= to <= chars@.len(),
    ensures
        final(out)@ == old(out)@ + chars@.subrange(from as int, to as int),
{
    let mut i: usize = from;
    while i < to
        invariant
            from <= i <= to <= chars@.len(),
            out@ == old(out)@ + chars@.subrange(from as int, i as int),
        decreases to - i,
    {
        out.push(chars[i]);
        i = i + 1;
        assert(out@ =~= old(out)@ + chars@.subrange(from as int, i as int));
    }
}

/// `s` begins with `prefix`.
pub open spec fn starts_with(s: Seq<char>, prefix: Seq<char>) -> bool {
    occurs_at(s, prefix, 0)
}

/// Whether two strings hold the same text.
pub fn same_text(a: &str, b: &str) -> (res: bool)
    ensures
        res == (a@ == b@),
{
    let left = to_chars(a);
    let right = to_chars(b);
    proof {
        assert(left@.subrange(0, left@.len() as int) =~= left@);
    }
    left.len() == right.len() && matches_at(left.as_slice(), right.as_slice(), 0)
}

/// What follows `prefix` in `s`, where `s` begins with it.
pub fn strip_prefix(s: &str, prefix: &str) -> (res: Option<String>)
    ensures
        match res {
            Some(rest) => starts_with(s@, prefix@) && rest@ == s@.skip(prefix@.len() as int),
            None => !starts_with(s@, prefix@),
        },
{
    let text = to_chars(s);
    let pattern = to_chars(prefix);
    if matches_at(text.as_slice(), pattern.as_slice(), 0) {
        let mut rest = String::new();
        append_range(&mut rest, text.as_slice(), pattern.len(), text.len());
        assert(rest@ =~= s@.skip(prefix@.len() as int));
        Some(rest)
    } else {
        None
    }
}

/// The numerals of one digit are those of the numbers below ten.
proof fn lemma_decimal_length(n: nat)
    ensures
        n < 10 ==> decimal(n) == seq![digit(n)],
        n >= 10 ==> decimal(n).len() >= 2,
{
    if n >= 10 {
        assert(decimal(n / 10).len() >= 1) by {
            reveal_with_fuel(decimal, 2);
        }
        assert(decimal(n) == decimal(n / 10).push(digit(n % 10)));
    }
}

/// A digit stands for one number only.
proof fn lemma_digit(d: nat)
    requires
        d < 10,
    ensures
        digit(d) as nat == 48 + d,
{
}

/// A numeral stands for one number only.
pub proof fn law_decimal_is_injective(a: nat, b: nat)
    requires
        decimal(a) == decimal(b),
    ensures
        a == b,
    decreases a,
{
    let x = decimal(a);
    let y = decimal(b);
    lemma_decimal_length(a);
    lemma_decimal_length(b);
    if a < 10 {
        assert(x.len() == 1 && y.len() == 1);
        assert(b < 10);
        lemma_digit(a);
        lemma_digit(b);
        assert(x[0] == digit(a) && y[0] == digit(b));
    } else {
        assert(y.len() >= 2);
        assert(b >= 10);
        lemma_digit(a % 10);
        lemma_digit(b % 10);
        assert(x.last() == digit(a % 10) && y.last() == digit(b % 10));
        assert(x.drop_last() =~= decimal(a / 10));
        assert(y.drop_last() =~= decimal(b / 10));
        law_decimal_is_injective(a / 10, b / 10);
    }
}

} // verus!
