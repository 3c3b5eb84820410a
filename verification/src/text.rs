//! Strings seen as sequences of characters.

use vstd::prelude::*;

verus! {

/// Whether `needle` occurs in `hay` starting at position `at`.
pub open spec fn occurs_at(needle: Seq<char>, hay: Seq<char>, at: int) -> bool {
    0 <= at && at + needle.len() <= hay.len() && hay.subrange(at, at + needle.len()) == needle
}

/// Whether `needle` occurs somewhere in `hay`. The empty sequence occurs in
/// every sequence.
pub open spec fn is_substring(needle: Seq<char>, hay: Seq<char>) -> bool {
    exists|at: int| occurs_at(needle, hay, at)
}

/// The views of a sequence of strings.
pub open spec fn views(strings: Seq<String>) -> Seq<Seq<char>> {
    strings.map_values(|s: String| s@)
}

/// The views of a sequence of string slices.
pub open spec fn slice_views(strings: Seq<&str>) -> Seq<Seq<char>> {
    strings.map_values(|s: &str| s@)
}

/// The characters of a string, in order.
pub fn chars(s: &str) -> (v: Vec<char>)
    ensures
        v@ == s@,
{
    let mut v: Vec<char> = Vec::new();
    for c in it: s.chars()
        invariant
            it.seq() == s@,
            v@ == it.seq().take(it.index()),
    {
        v.push(c);
    }
    v
}

/// Whether two strings hold the same characters.
pub fn same(a: &str, b: &str) -> (eq: bool)
    ensures
        eq == (a@ == b@),
{
    let x = chars(a);
    let y = chars(b);
    same_chars(&x, &y)
}

/// Whether two vectors hold the same characters.
pub fn same_chars(x: &Vec<char>, y: &Vec<char>) -> (eq: bool)
    ensures
        eq == (x@ == y@),
{
    if x.len() != y.len() {
        return false;
    }
    let mut i: usize = 0;
    while i < x.len()
        invariant
            i <= x.len(),
            x.len() == y.len(),
            forall|j: int| 0 <= j < i ==> x[j] == y[j],
        decreases x.len() - i,
    {
        if x[i] != y[i] {
            return false;
        }
        i = i + 1;
    }
    assert(x@ =~= y@);
    true
}

/// Whether `needle` occurs in `hay` at position `at`.
fn matches_at(needle: &Vec<char>, hay: &Vec<char>, at: usize) -> (hit: bool)
    requires
        at + needle.len() <= hay.len(),
    ensures
        hit == occurs_at(needle@, hay@, at as int),
{
    let mut i: usize = 0;
    while i < needle.len()
        invariant
            i <= needle.len(),
            at + needle.len() <= hay.len(),
            forall|j: int| 0 <= j < i ==> hay[at + j] == needle[j],
        decreases needle.len() - i,
    {
        if hay[at + i] != needle[i] {
            assert(hay@.subrange(at as int, at + needle.len())[i as int] != needle[i as int]);
            return false;
        }
        i = i + 1;
    }
    assert(hay@.subrange(at as int, at + needle.len()) =~= needle@);
    true
}

/// Whether `needle` occurs somewhere in `hay`.
pub fn contains_chars(hay: &Vec<char>, needle: &Vec<char>) -> (found: bool)
    ensures
        found == is_substring(needle@, hay@),
{
    if needle.len() > hay.len() {
        return false;
    }
    let last: usize = hay.len() - needle.len();
    let mut at: usize = 0;
    loop
        invariant
            last == hay.len() - needle.len(),
            at <= last,
            forall|k: int| 0 <= k < at ==> !occurs_at(needle@, hay@, k),
        decreases last - at,
    {
        if matches_at(needle, hay, at) {
            return true;
        }
        if at == last {
            return false;
        }
        at = at + 1;
    }
}

/// Whether `needle` occurs somewhere in `hay`.
pub fn contains(hay: &str, needle: &str) -> (found: bool)
    ensures
        found == is_substring(needle@, hay@),
{
    let h = chars(hay);
    let n = chars(needle);
    contains_chars(&h, &n)
}

/// Whether `c` is white space: one of the characters with the Unicode
/// property `White_Space`, which are the controls from tab to carriage
/// return, the space, the next-line control, the no-break space, the ogham
/// space mark, the spaces from en quad to hair space, the line and the
/// paragraph separator, the narrow no-break space, the medium mathematical
/// space and the ideographic space.
pub open spec fn is_white_space(c: char) -> bool {
    let n = c as u32;
    ||| 0x09 <= n <= 0x0d
    ||| n == 0x20
    ||| n == 0x85
    ||| n == 0xa0
    ||| n == 0x1680
    ||| 0x2000 <= n <= 0x200a
    ||| n == 0x2028
    ||| n == 0x2029
    ||| n == 0x202f
    ||| n == 0x205f
    ||| n == 0x3000
}

/// Whether `c` is a letter or a digit, as `char::is_alphanumeric` tells: a
/// character of the Unicode categories `Alphabetic`, `Nd`, `Nl` or `No`.
pub uninterp spec fn is_letter_or_digit(c: char) -> bool;

/// `char::is_whitespace`: whether the character has the Unicode property
/// `White_Space`, which `is_white_space` spells out.
pub assume_specification[ char::is_whitespace ](c: char) -> (b: bool)
    ensures
        b == is_white_space(c),
;

/// `char::is_alphanumeric`: the answer is the one named `is_letter_or_digit`.
pub assume_specification[ char::is_alphanumeric ](c: char) -> (b: bool)
    ensures
        b == is_letter_or_digit(c),
;

/// `String::push`: the character is appended to the string.
pub assume_specification[ String::push ](s: &mut String, c: char)
    ensures
        final(s)@ == old(s)@.push(c),
;

/// The text without the white space at its end.
pub open spec fn trimmed_end(text: Seq<char>) -> Seq<char>
    decreases text.len(),
{
    if text.len() > 0 && is_white_space(text.last()) {
        trimmed_end(text.drop_last())
    } else {
        text
    }
}

/// The text without the white space at its start.
pub open spec fn trimmed_start(text: Seq<char>) -> Seq<char>
    decreases text.len(),
{
    if text.len() > 0 && is_white_space(text.first()) {
        trimmed_start(text.drop_first())
    } else {
        text
    }
}

/// The position of the first `c` in `text`, or the length of `text` where
/// there is none.
pub open spec fn first_index_of(text: Seq<char>, c: char) -> int
    decreases text.len(),
{
    if text.len() == 0 {
        0
    } else if text.first() == c {
        0
    } else {
        1 + first_index_of(text.drop_first(), c)
    }
}

/// The text with every occurrence of `from`, found from the left and not
/// overlapping, replaced by `to`. An empty `from` is found nowhere.
pub open spec fn replaced(text: Seq<char>, from: Seq<char>, to: Seq<char>) -> Seq<char>
    decreases text.len(),
{
    if from.len() == 0 || text.len() < from.len() {
        text
    } else if text.take(from.len() as int) == from {
        to + replaced(text.skip(from.len() as int), from, to)
    } else {
        seq![text.first()] + replaced(text.drop_first(), from, to)
    }
}

/// The string that holds the characters, in order.
pub fn string_of(text: &Vec<char>) -> (s: String)
    ensures
        s@ == text@,
{
    let mut s = String::new();
    let mut i: usize = 0;
    while i < text.len()
        invariant
            i <= text.len(),
            s@ == text@.take(i as int),
        decreases text.len() - i,
    {
        s.push(text[i]);
        assert(text@.take(i + 1) =~= text@.take(i as int).push(text[i as int]));
        i = i + 1;
    }
    assert(text@.take(i as int) =~= text@);
    s
}

/// The position of the first `c` in `text`, if there is one.
pub fn find_char(text: &Vec<char>, c: char) -> (at: Option<usize>)
    ensures
        at matches Some(i) ==> i == first_index_of(text@, c) && i < text.len() && text[i as int]
            == c,
        at is None ==> first_index_of(text@, c) == text.len(),
{
    let mut i: usize = 0;
    assert(text@.skip(0) =~= text@);
    while i < text.len()
        invariant
            i <= text.len(),
            first_index_of(text@, c) == i + first_index_of(text@.skip(i as int), c),
        decreases text.len() - i,
    {
        if text[i] == c {
            return Some(i);
        }
        assert(text@.skip(i as int).drop_first() =~= text@.skip(i + 1));
        i = i + 1;
    }
    None
}

/// The characters without the white space at their end.
pub fn trim_end(text: &Vec<char>) -> (out: Vec<char>)
    ensures
        out@ == trimmed_end(text@),
{
    let mut n: usize = text.len();
    assert(text@.take(n as int) =~= text@);
    while n > 0 && text[n - 1].is_whitespace()
        invariant
            n <= text.len(),
            trimmed_end(text@) == trimmed_end(text@.take(n as int)),
        decreases n,
    {
        assert(text@.take(n as int).drop_last() =~= text@.take(n - 1));
        n = n - 1;
    }
    let mut out: Vec<char> = Vec::new();
    let mut i: usize = 0;
    while i < n
        invariant
            i <= n <= text.len(),
            out@ == text@.take(i as int),
        decreases n - i,
    {
        out.push(text[i]);
        assert(text@.take(i + 1) =~= text@.take(i as int).push(text[i as int]));
        i = i + 1;
    }
    out
}

/// The characters from position `from` on, without the white space at their
/// start.
pub fn trim_start_from(text: &Vec<char>, from: usize) -> (out: Vec<char>)
    requires
        from <= text.len(),
    ensures
        out@ == trimmed_start(text@.skip(from as int)),
{
    let mut k: usize = from;
    while k < text.len() && text[k].is_whitespace()
        invariant
            from <= k <= text.len(),
            trimmed_start(text@.skip(from as int)) == trimmed_start(text@.skip(k as int)),
        decreases text.len() - k,
    {
        assert(text@.skip(k as int).drop_first() =~= text@.skip(k + 1));
        k = k + 1;
    }
    let mut out: Vec<char> = Vec::new();
    let mut i: usize = k;
    while i < text.len()
        invariant
            k <= i <= text.len(),
            out@ == text@.subrange(k as int, i as int),
        decreases text.len() - i,
    {
        out.push(text[i]);
        assert(text@.subrange(k as int, i + 1) =~= text@.subrange(k as int, i as int).push(
            text[i as int],
        ));
        i = i + 1;
    }
    assert(text@.subrange(k as int, text.len() as int) =~= text@.skip(k as int));
    out
}

/// Whether `needle` stands in `hay` at position `at`.
fn stands_at(hay: &Vec<char>, needle: &Vec<char>, at: usize) -> (hit: bool)
    requires
        at <= hay.len(),
    ensures
        hit == (hay.len() - at >= needle.len() && hay@.skip(at as int).take(needle.len() as int)
            == needle@),
{
    if hay.len() - at < needle.len() {
        return false;
    }
    let hit = matches_at(needle, hay, at);
    assert(hay@.skip(at as int).take(needle.len() as int) =~= hay@.subrange(
        at as int,
        at + needle.len(),
    ));
    hit
}

/// The characters with every occurrence of `from`, found from the left and
/// not overlapping, replaced by `to`.
pub fn replace(text: &Vec<char>, from: &Vec<char>, to: &Vec<char>) -> (out: Vec<char>)
    ensures
        out@ == replaced(text@, from@, to@),
{
    let mut out: Vec<char> = Vec::new();
    let mut i: usize = 0;
    assert(text@.skip(0) =~= text@);
    while i < text.len()
        invariant
            i <= text.len(),
            out@ + replaced(text@.skip(i as int), from@, to@) == replaced(text@, from@, to@),
        decreases text.len() - i,
    {
        let ghost rest = text@.skip(i as int);
        let ghost before = out@;
        if from.len() > 0 && stands_at(text, from, i) {
            let mut k: usize = 0;
            while k < to.len()
                invariant
                    k <= to.len(),
                    out@ == before + to@.take(k as int),
                decreases to.len() - k,
            {
                out.push(to[k]);
                assert(to@.take(k + 1) =~= to@.take(k as int).push(to[k as int]));
                k = k + 1;
            }
            proof {
                assert(to@.take(k as int) =~= to@);
                assert(rest.skip(from.len() as int) =~= text@.skip(i + from.len()));
                assert((before + to@) + replaced(text@.skip(i + from.len()), from@, to@) =~= before
                    + (to@ + replaced(rest.skip(from.len() as int), from@, to@)));
            }
            i = i + from.len();
        } else {
            out.push(text[i]);
            proof {
                assert(rest.drop_first() =~= text@.skip(i + 1));
                assert(rest.first() == text[i as int]);
                if from.len() > 0 && rest.len() >= from.len() {
                    assert(rest.take(from.len() as int) != from@);
                }
                assert(before.push(text[i as int]) + replaced(text@.skip(i + 1), from@, to@)
                    =~= before + (seq![rest.first()] + replaced(rest.drop_first(), from@, to@)));
                if from.len() == 0 || rest.len() < from.len() {
                    lemma_replaced_short(rest, from@, to@);
                }
            }
            i = i + 1;
        }
    }
    assert(out@ + replaced(text@.skip(i as int), from@, to@) =~= out@);
    out
}

/// A text in which `from` cannot be found stays as it is, also seen from its
/// second character on.
proof fn lemma_replaced_short(text: Seq<char>, from: Seq<char>, to: Seq<char>)
    requires
        text.len() > 0,
        from.len() == 0 || text.len() < from.len(),
    ensures
        replaced(text, from, to) == seq![text.first()] + replaced(text.drop_first(), from, to),
{
    assert(seq![text.first()] + text.drop_first() =~= text);
}

} // verus!
