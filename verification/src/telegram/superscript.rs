//! Superscript numerals.

use crate::utf16::{lemma_utf16_len_single, utf16_len};
use vstd::prelude::*;

verus! {

/// The superscript glyph of a decimal digit.
pub open spec fn sup_glyph(digit: nat) -> char {
    if digit == 0 {
        '\u{2070}'
    } else if digit == 1 {
        '\u{b9}'
    } else if digit == 2 {
        '\u{b2}'
    } else if digit == 3 {
        '\u{b3}'
    } else if digit == 4 {
        '\u{2074}'
    } else if digit == 5 {
        '\u{2075}'
    } else if digit == 6 {
        '\u{2076}'
    } else if digit == 7 {
        '\u{2077}'
    } else if digit == 8 {
        '\u{2078}'
    } else {
        '\u{2079}'
    }
}

/// The decimal numeral of `number` in superscript glyphs, without leading
/// zeros.
pub open spec fn sup_text(number: nat) -> Seq<char>
    decreases number,
{
    if number < 10 {
        seq![sup_glyph(number)]
    } else {
        sup_text(number / 10).push(sup_glyph(number % 10))
    }
}

/// Up to three digits a superscript numeral is the glyph of the hundreds if
/// there are any, the glyph of the tens if there are tens or hundreds, and the
/// glyph of the units.
pub proof fn lemma_sup_text_three_digits(number: nat)
    requires
        number < 1000,
    ensures
        sup_text(number) == (if number >= 100 {
            seq![sup_glyph(number / 100)]
        } else {
            Seq::<char>::empty()
        }) + (if number >= 10 {
            seq![sup_glyph((number % 100) / 10)]
        } else {
            Seq::<char>::empty()
        }) + seq![sup_glyph(number % 10)],
        sup_text(number).len() == if number >= 100 {
            3int
        } else if number >= 10 {
            2int
        } else {
            1int
        },
{
    reveal_with_fuel(sup_text, 3);
    if number >= 100 {
        assert((number / 10) / 10 == number / 100);
        assert((number / 10) % 10 == (number % 100) / 10);
        assert(sup_text(number) =~= seq![sup_glyph(number / 100)] + seq![
            sup_glyph((number % 100) / 10),
        ] + seq![sup_glyph(number % 10)]);
    } else if number >= 10 {
        assert(number / 10 == (number % 100) / 10);
        assert(sup_text(number) =~= Seq::<char>::empty() + seq![sup_glyph((number % 100) / 10)]
            + seq![sup_glyph(number % 10)]);
    } else {
        assert(sup_text(number) =~= Seq::<char>::empty() + Seq::<char>::empty() + seq![
            sup_glyph(number % 10),
        ]);
    }
}

/// Every superscript glyph takes one UTF-16 code unit, so a superscript
/// numeral takes as many code units as it has glyphs.
pub proof fn lemma_sup_text_utf16_len(number: nat)
    ensures
        utf16_len(sup_text(number)) == sup_text(number).len(),
        sup_text(number).len() >= 1,
    decreases number,
{
    if number < 10 {
        lemma_utf16_len_single(sup_glyph(number));
    } else {
        lemma_sup_text_utf16_len(number / 10);
        assert(sup_text(number).drop_last() =~= sup_text(number / 10));
    }
}

} // verus!
