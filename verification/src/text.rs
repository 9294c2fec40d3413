//! Strings as sequences of chars: conversion between `String` and `Vec<char>`,
//! substring search, trimming and decimal numerals.

use vstd::prelude::*;

verus! {

/// `String::push` of std appends one char to the string.
pub assume_specification[ String::push ](s: &mut String, c: char)
    ensures
        final(s)@ == old(s)@.push(c),
;

/// The chars of `s`, in order.
pub fn to_chars(s: &str) -> (chars: Vec<char>)
    ensures
        chars@ == s@,
{
    let mut chars: Vec<char> = Vec::new();
    for c in it: s.chars()
        invariant
            chars@ == it.seq().take(it.index() as int),
            it.seq() == s@,
    {
        chars.push(c);
    }
    chars
}

/// The string made of `chars`, in order.
pub fn from_chars(chars: &[char]) -> (s: String)
    ensures
        s@ == chars@,
{
    let mut s = String::new();
    let mut i: usize = 0;
    while i < chars.len()
        invariant
            i <= chars.len(),
            s@ == chars@.take(i as int),
        decreases chars.len() - i,
    {
        s.push(chars[i]);
        i += 1;
    }
    s
}

/// Appends the chars of `more` to `buf`.
pub fn push_chars(buf: &mut Vec<char>, more: &[char])
    ensures
        final(buf)@ == old(buf)@ + more@,
{
    let mut i: usize = 0;
    while i < more.len()
        invariant
            i <= more.len(),
            buf@ == old(buf)@ + more@.take(i as int),
        decreases more.len() - i,
    {
        buf.push(more[i]);
        i += 1;
    }
}

/// Appends the chars of `s` to `buf`.
pub fn push_str(buf: &mut Vec<char>, s: &str)
    ensures
        final(buf)@ == old(buf)@ + s@,
{
    let more = to_chars(s);
    push_chars(buf, more.as_slice());
}

/// A copy of `chars[from..to]`.
pub fn slice_chars(chars: &[char], from: usize, to: usize) -> (part: Vec<char>)
    requires
        from <= to <= chars@.len(),
    ensures
        part@ == chars@.subrange(from as int, to as int),
{
    let mut part: Vec<char> = Vec::new();
    let mut i: usize = from;
    while i < to
        invariant
            from <= i <= to <= chars@.len(),
            part@ == chars@.subrange(from as int, i as int),
        decreases to - i,
    {
        part.push(chars[i]);
        i += 1;
    }
    part
}

/// The first place at or after `from` where `c` stands, or the length of the
/// text where it stands nowhere.
pub open spec fn index_of(text: Seq<char>, c: char, from: int) -> int
    decreases text.len() - from,
{
    if 0 <= from < text.len() && text[from] != c {
        index_of(text, c, from + 1)
    } else {
        from
    }
}

/// `index_of` lies between `from` and the end of the text, no `c` stands before
/// it, and `c` stands there unless it is the end.
pub proof fn lemma_index_of(text: Seq<char>, c: char, from: int)
    requires
        0 <= from <= text.len(),
    ensures
        from <= index_of(text, c, from) <= text.len(),
        forall|k: int| from <= k < index_of(text, c, from) ==> #[trigger] text[k] != c,
        index_of(text, c, from) < text.len() ==> text[index_of(text, c, from)] == c,
    decreases text.len() - from,
{
    if from < text.len() && text[from] != c {
        lemma_index_of(text, c, from + 1);
    }
}

/// Where `c` first stands from a place on depends only on the text from that
/// place on.
pub proof fn lemma_index_of_suffix(a: Seq<char>, p: int, b: Seq<char>, q: int, c: char)
    requires
        0 <= p <= a.len(),
        0 <= q <= b.len(),
        a.skip(p) == b.skip(q),
    ensures
        index_of(a, c, p) - p == index_of(b, c, q) - q,
    decreases a.len() - p,
{
    assert(a.skip(p).len() == a.len() - p);
    assert(b.skip(q).len() == b.len() - q);
    if p < a.len() {
        assert(a[p] == a.skip(p)[0]);
        assert(b[q] == b.skip(q)[0]);
        if a[p] != c {
            assert(a.skip(p + 1) =~= a.skip(p).skip(1));
            assert(b.skip(q + 1) =~= b.skip(q).skip(1));
            lemma_index_of_suffix(a, p + 1, b, q + 1, c);
        }
    }
}

/// The first place at or after `from` where `c` stands in `chars`, or the
/// length of `chars`.
pub fn find_char(chars: &[char], c: char, from: usize) -> (at: usize)
    requires
        from <= chars@.len(),
    ensures
        at == index_of(chars@, c, from as int),
        from <= at <= chars@.len(),
{
    let mut at: usize = from;
    while at < chars.len() && chars[at] != c
        invariant
            from <= at <= chars@.len(),
            index_of(chars@, c, from as int) == index_of(chars@, c, at as int),
        decreases chars@.len() - at,
    {
        at += 1;
    }
    at
}

/// Whether `needle` stands in `hay` at `i`.
pub open spec fn occurs_at(hay: Seq<char>, needle: Seq<char>, i: int) -> bool {
    0 <= i && i + needle.len() <= hay.len() && hay.subrange(i, i + needle.len()) == needle
}

/// The first place at or after `from` where `needle` stands in `hay`.
pub open spec fn first_occurrence(hay: Seq<char>, needle: Seq<char>, from: int) -> Option<int>
    decreases hay.len() - from,
{
    if from < 0 || from + needle.len() > hay.len() {
        None
    } else if occurs_at(hay, needle, from) {
        Some(from)
    } else {
        proof {
            if from == hay.len() {
                assert(hay.subrange(from, from + needle.len()) =~= needle);
            }
        }
        first_occurrence(hay, needle, from + 1)
    }
}

/// The last place at or before `from` where `needle` stands in `hay`.
pub open spec fn last_occurrence(hay: Seq<char>, needle: Seq<char>, from: int) -> Option<int>
    decreases from + 1,
{
    if from < 0 {
        None
    } else if occurs_at(hay, needle, from) {
        Some(from)
    } else {
        last_occurrence(hay, needle, from - 1)
    }
}

/// Whether `needle` stands somewhere in `hay`.
pub open spec fn contains(hay: Seq<char>, needle: Seq<char>) -> bool {
    first_occurrence(hay, needle, 0) is Some
}

/// The first occurrence from `from` on is an occurrence, and none starts
/// between `from` and it.
pub proof fn lemma_first_occurrence(hay: Seq<char>, needle: Seq<char>, from: int)
    requires
        0 <= from,
    ensures
        match first_occurrence(hay, needle, from) {
            Some(i) => from <= i && occurs_at(hay, needle, i) && forall|j: int|
                from <= j < i ==> !occurs_at(hay, needle, j),
            None => forall|j: int| from <= j ==> !occurs_at(hay, needle, j),
        },
    decreases hay.len() - from,
{
    if from + needle.len() <= hay.len() && !occurs_at(hay, needle, from) {
        if from == hay.len() {
            assert(hay.subrange(from, from + needle.len()) =~= needle);
        }
        lemma_first_occurrence(hay, needle, from + 1);
    }
}

/// The last occurrence up to `from` is an occurrence, and none starts between
/// it and `from`.
pub proof fn lemma_last_occurrence(hay: Seq<char>, needle: Seq<char>, from: int)
    ensures
        match last_occurrence(hay, needle, from) {
            Some(i) => 0 <= i <= from && occurs_at(hay, needle, i) && forall|j: int|
                i < j <= from ==> !occurs_at(hay, needle, j),
            None => forall|j: int| j <= from ==> !occurs_at(hay, needle, j),
        },
    decreases from + 1,
{
    if from >= 0 && !occurs_at(hay, needle, from) {
        lemma_last_occurrence(hay, needle, from - 1);
    }
}

/// Whether `needle` stands in `hay` at `at`.
pub fn starts_at(hay: &[char], needle: &[char], at: usize) -> (found: bool)
    ensures
        found == occurs_at(hay@, needle@, at as int),
{
    if needle.len() > hay.len() || at > hay.len() - needle.len() {
        return false;
    }
    let mut k: usize = 0;
    while k < needle.len()
        invariant
            k <= needle@.len(),
            at + needle@.len() <= hay@.len() <= usize::MAX,
            hay@.subrange(at as int, at + k) == needle@.take(k as int),
        decreases needle@.len() - k,
    {
        if hay[at + k] != needle[k] {
            proof {
                assert(hay@.subrange(at as int, at + needle@.len())[k as int] != needle@[k as int]);
            }
            return false;
        }
        proof {
            assert(hay@.subrange(at as int, at + k + 1) =~= hay@.subrange(at as int, at + k).push(
                hay@[at + k],
            ));
            assert(needle@.take(k as int + 1) =~= needle@.take(k as int).push(needle@[k as int]));
        }
        k += 1;
    }
    proof {
        assert(needle@.take(needle@.len() as int) =~= needle@);
    }
    true
}

/// The first place at or after `from` where `needle` stands in `hay`.
pub fn find(hay: &[char], needle: &[char], from: usize) -> (found: Option<usize>)
    ensures
        match first_occurrence(hay@, needle@, from as int) {
            Some(i) => found matches Some(at) && at == i && from <= at && at + needle@.len()
                <= hay@.len(),
            None => found is None,
        },
{
    if needle.len() > hay.len() {
        return None;
    }
    let last: usize = hay.len() - needle.len();
    if from > last {
        return None;
    }
    let mut i: usize = from;
    loop
        invariant
            from <= i <= last,
            last + needle@.len() == hay@.len(),
            first_occurrence(hay@, needle@, from as int) == first_occurrence(
                hay@,
                needle@,
                i as int,
            ),
        decreases last - i,
    {
        if starts_at(hay, needle, i) {
            return Some(i);
        }
        if i == last {
            proof {
                assert(first_occurrence(hay@, needle@, i + 1) is None);
            }
            return None;
        }
        i += 1;
    }
}

/// The last place where `needle` stands in `hay`.
pub fn rfind(hay: &[char], needle: &[char]) -> (found: Option<usize>)
    ensures
        match last_occurrence(hay@, needle@, hay@.len() - needle@.len()) {
            Some(i) => found matches Some(at) && at == i && at + needle@.len() <= hay@.len(),
            None => found is None,
        },
{
    if needle.len() > hay.len() {
        return None;
    }
    let mut i: usize = hay.len() - needle.len();
    loop
        invariant
            i + needle@.len() <= hay@.len(),
            last_occurrence(hay@, needle@, hay@.len() - needle@.len()) == last_occurrence(
                hay@,
                needle@,
                i as int,
            ),
        decreases i,
    {
        if starts_at(hay, needle, i) {
            return Some(i);
        }
        if i == 0 {
            proof {
                assert(last_occurrence(hay@, needle@, -1) is None);
            }
            return None;
        }
        i -= 1;
    }
}

/// Whether `a` and `b` hold the same chars.
pub fn same_chars(a: &[char], b: &[char]) -> (same: bool)
    ensures
        same == (a@ == b@),
{
    if a.len() != b.len() {
        return false;
    }
    let same = starts_at(a, b, 0);
    proof {
        assert(a@.subrange(0, a@.len() as int) =~= a@);
    }
    same
}

/// Whether `c` is whitespace: whether it has the Unicode property
/// `White_Space`, which twenty-five chars have.
pub open spec fn is_whitespace(c: char) -> bool {
    let v = c as u32;
    ||| 0x09 <= v <= 0x0d
    ||| v == 0x20
    ||| v == 0x85
    ||| v == 0xa0
    ||| v == 0x1680
    ||| 0x2000 <= v <= 0x200a
    ||| v == 0x2028
    ||| v == 0x2029
    ||| v == 0x202f
    ||| v == 0x205f
    ||| v == 0x3000
}

/// `char::is_whitespace` of std tells whether the char has the Unicode
/// property `White_Space`.
pub assume_specification[ char::is_whitespace ](c: char) -> (b: bool)
    ensures
        b == is_whitespace(c),
;

/// The end of the run of whitespace that starts at `from`.
pub open spec fn whitespace_end(s: Seq<char>, from: int) -> int
    decreases s.len() - from,
{
    if 0 <= from < s.len() && is_whitespace(s[from]) {
        whitespace_end(s, from + 1)
    } else {
        from
    }
}

/// The start of the run of whitespace that ends at `upto`.
pub open spec fn whitespace_start(s: Seq<char>, upto: int) -> int
    decreases upto,
{
    if 0 < upto <= s.len() && is_whitespace(s[upto - 1]) {
        whitespace_start(s, upto - 1)
    } else {
        upto
    }
}

/// The text without the whitespace at its start and at its end.
pub open spec fn trimmed(s: Seq<char>) -> Seq<char> {
    let start = whitespace_end(s, 0);
    let end = whitespace_start(s, s.len() as int);
    if start >= end {
        Seq::empty()
    } else {
        s.subrange(start, end)
    }
}

/// `chars` without the whitespace at its start and at its end.
pub fn trim(chars: &[char]) -> (kept: Vec<char>)
    ensures
        kept@ == trimmed(chars@),
{
    let mut start: usize = 0;
    while start < chars.len() && chars[start].is_whitespace()
        invariant
            start <= chars@.len(),
            whitespace_end(chars@, 0) == whitespace_end(chars@, start as int),
        decreases chars@.len() - start,
    {
        start += 1;
    }
    let mut end: usize = chars.len();
    while end > 0 && chars[end - 1].is_whitespace()
        invariant
            end <= chars@.len(),
            whitespace_start(chars@, chars@.len() as int) == whitespace_start(chars@, end as int),
        decreases end,
    {
        end -= 1;
    }
    if start >= end {
        Vec::new()
    } else {
        slice_chars(chars, start, end)
    }
}

/// The char of a decimal digit.
pub open spec fn digit_char(digit: nat) -> char {
    if digit == 0 {
        '0'
    } else if digit == 1 {
        '1'
    } else if digit == 2 {
        '2'
    } else if digit == 3 {
        '3'
    } else if digit == 4 {
        '4'
    } else if digit == 5 {
        '5'
    } else if digit == 6 {
        '6'
    } else if digit == 7 {
        '7'
    } else if digit == 8 {
        '8'
    } else {
        '9'
    }
}

/// The decimal numeral of `number`, without leading zeros.
pub open spec fn decimal_text(number: nat) -> Seq<char>
    decreases number,
{
    if number < 10 {
        seq![digit_char(number)]
    } else {
        decimal_text(number / 10).push(digit_char(number % 10))
    }
}

/// The decimal numeral of `number`, with a minus sign where it is negative.
pub open spec fn signed_decimal_text(number: int) -> Seq<char> {
    if number < 0 {
        seq!['-'] + decimal_text((-number) as nat)
    } else {
        decimal_text(number as nat)
    }
}

fn digit_char_of(digit: u64) -> (c: char)
    requires
        digit < 10,
    ensures
        c == digit_char(digit as nat),
{
    if digit == 0 {
        '0'
    } else if digit == 1 {
        '1'
    } else if digit == 2 {
        '2'
    } else if digit == 3 {
        '3'
    } else if digit == 4 {
        '4'
    } else if digit == 5 {
        '5'
    } else if digit == 6 {
        '6'
    } else if digit == 7 {
        '7'
    } else if digit == 8 {
        '8'
    } else {
        '9'
    }
}

/// Appends the decimal numeral of `number` to `buf`.
pub fn push_decimal(buf: &mut Vec<char>, number: u64)
    ensures
        final(buf)@ == old(buf)@ + decimal_text(number as nat),
    decreases number,
{
    if number >= 10 {
        push_decimal(buf, number / 10);
    }
    buf.push(digit_char_of(number % 10));
    proof {
        assert(final(buf)@ =~= old(buf)@ + decimal_text(number as nat));
    }
}

/// Appends the decimal numeral of `number` to `buf`, with a minus sign where it
/// is negative.
pub fn push_signed_decimal(buf: &mut Vec<char>, number: i64)
    ensures
        final(buf)@ == old(buf)@ + signed_decimal_text(number as int),
{
    if number < 0 {
        buf.push('-');
        let magnitude: u64 = (-(number + 1)) as u64 + 1;
        push_decimal(buf, magnitude);
        proof {
            assert(final(buf)@ =~= old(buf)@ + signed_decimal_text(number as int));
        }
    } else {
        push_decimal(buf, number as u64);
    }
}

} // verus!
