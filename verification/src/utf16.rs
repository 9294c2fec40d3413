//! UTF-16 lengths of texts.

use crate::text::to_chars;
use vstd::prelude::*;
use vstd::utf8::{encode_scalar, encode_utf8};

verus! {

/// The number of UTF-16 code units that `c` takes: two outside the basic
/// plane, else one.
pub open spec fn utf16_units(c: char) -> nat {
    if (c as u32) < 0x10000 {
        1
    } else {
        2
    }
}

/// The number of UTF-16 code units that `s` takes.
pub open spec fn utf16_len(s: Seq<char>) -> nat
    decreases s.len(),
{
    if s.len() == 0 {
        0
    } else {
        utf16_len(s.drop_last()) + utf16_units(s.last())
    }
}

/// The UTF-16 length of a concatenation is the sum of the lengths.
pub proof fn lemma_utf16_len_concat(a: Seq<char>, b: Seq<char>)
    ensures
        utf16_len(a + b) == utf16_len(a) + utf16_len(b),
    decreases b.len(),
{
    if b.len() == 0 {
        assert(a + b =~= a);
    } else {
        lemma_utf16_len_concat(a, b.drop_last());
        assert((a + b).drop_last() =~= a + b.drop_last());
        assert((a + b).last() == b.last());
    }
}

/// A single char takes its own number of code units.
pub proof fn lemma_utf16_len_single(c: char)
    ensures
        utf16_len(seq![c]) == utf16_units(c),
{
    assert(seq![c].drop_last() =~= Seq::<char>::empty());
    assert(utf16_len(seq![c].drop_last()) == 0);
}

/// Splitting a text at `i` splits its UTF-16 length: the length of the prefix
/// is the length of the whole less the length of the suffix.
pub proof fn lemma_utf16_offset_agrees(s: Seq<char>, i: int)
    requires
        0 <= i <= s.len(),
    ensures
        utf16_len(s) - utf16_len(s.skip(i)) == utf16_len(s.take(i)),
{
    lemma_utf16_len_concat(s.take(i), s.skip(i));
    assert(s.take(i) + s.skip(i) =~= s);
}

/// A part of a text takes at most as many UTF-16 code units as the text.
pub proof fn lemma_utf16_len_subrange(s: Seq<char>, from: int, to: int)
    requires
        0 <= from <= to <= s.len(),
    ensures
        utf16_len(s.take(from)) + utf16_len(s.subrange(from, to)) + utf16_len(s.skip(to))
            == utf16_len(s),
{
    lemma_utf16_len_concat(s.take(from), s.subrange(from, to));
    lemma_utf16_len_concat(s.take(from) + s.subrange(from, to), s.skip(to));
    assert(s.take(from) + s.subrange(from, to) + s.skip(to) =~= s);
}

/// A text never takes more UTF-16 code units than chars twice over.
pub proof fn lemma_utf16_len_bounds(s: Seq<char>)
    ensures
        s.len() <= utf16_len(s) <= 2 * s.len(),
    decreases s.len(),
{
    if s.len() > 0 {
        lemma_utf16_len_bounds(s.drop_last());
    }
}

/// A text takes at most as many UTF-16 code units as UTF-8 bytes.
pub proof fn lemma_utf16_len_le_utf8_len(s: Seq<char>)
    ensures
        utf16_len(s) <= encode_utf8(s).len(),
    decreases s.len(),
{
    if s.len() > 0 {
        let rest = s.drop_first();
        lemma_utf16_len_le_utf8_len(rest);
        lemma_utf16_len_concat(seq![s[0]], rest);
        assert(seq![s[0]] + rest =~= s);
        lemma_utf16_len_single(s[0]);
        vstd::utf8::char_is_scalar(s[0]);
        assert(encode_scalar(s[0] as u32).len() >= utf16_units(s[0]));
    }
}

/// A text of chars of the basic plane takes as many UTF-16 code units as it
/// has chars.
pub proof fn lemma_utf16_len_basic(s: Seq<char>)
    requires
        forall|k: int| 0 <= k < s.len() ==> (#[trigger] s[k] as u32) < 0x10000,
    ensures
        utf16_len(s) == s.len(),
    decreases s.len(),
{
    if s.len() > 0 {
        lemma_utf16_len_basic(s.drop_last());
    }
}

/// The UTF-16 length of `chars[from..to]`.
pub fn utf16_len_of(chars: &[char], from: usize, to: usize) -> (n: usize)
    requires
        from <= to <= chars@.len(),
        utf16_len(chars@.subrange(from as int, to as int)) <= usize::MAX,
    ensures
        n == utf16_len(chars@.subrange(from as int, to as int)),
{
    let mut n: usize = 0;
    let mut i: usize = from;
    while i < to
        invariant
            from <= i <= to <= chars@.len(),
            n == utf16_len(chars@.subrange(from as int, i as int)),
            utf16_len(chars@.subrange(from as int, to as int)) <= usize::MAX,
        decreases to - i,
    {
        proof {
            let done = chars@.subrange(from as int, i as int + 1);
            assert(done.drop_last() =~= chars@.subrange(from as int, i as int));
            let rest = chars@.subrange(i as int + 1, to as int);
            lemma_utf16_len_concat(done, rest);
            assert(done + rest =~= chars@.subrange(from as int, to as int));
        }
        let c = chars[i];
        if (c as u32) < 0x10000 {
            n += 1;
        } else {
            n += 2;
        }
        i += 1;
    }
    n
}

/// The chars of `s`. A string takes at most as many UTF-16 code units as
/// bytes, so the UTF-16 length of its chars fits in a `usize`.
pub fn chars_of(s: &str) -> (chars: Vec<char>)
    ensures
        chars@ == s@,
        utf16_len(chars@) <= usize::MAX,
{
    let byte_len = s.as_bytes().len();
    proof {
        lemma_utf16_len_le_utf8_len(s@);
        assert(utf16_len(s@) <= byte_len);
    }
    to_chars(s)
}

} // verus!
