//! Footnote markers: where they stand in a text and what they become.
//!
//! A marker is `[^`, one or more decimal digits, and `]`. Resolving a text
//! replaces its first marker by the superscript numeral and notes a link to the
//! attribution that the numeral names, until no marker is left. The
//! annotations made before move with the text.

use crate::annotation::{lemma_moved_within, moved_all, AnnotationView, KindView};
use crate::telegram::superscript::{lemma_sup_text_utf16_len, sup_glyph, sup_text};
use crate::utf16::{lemma_utf16_len_basic, lemma_utf16_len_concat, utf16_len};
use vstd::prelude::*;

verus! {

/// Why a reply cannot be rendered.
#[derive(Clone, Copy, Debug, PartialEq, Eq)]
pub enum RenderError {
    /// A footnote marker names an attribution that the reply does not carry.
    IndexOutOfRange,
}

/// Whether `c` is a decimal digit.
pub open spec fn is_digit(c: char) -> bool {
    '0' <= c && c <= '9'
}

/// The value of a decimal digit.
pub open spec fn digit_value(c: char) -> nat {
    (c as u32 - '0' as u32) as nat
}

/// The end of the run of digits that starts at `from`.
pub open spec fn digits_end(text: Seq<char>, from: int) -> int
    decreases text.len() - from,
{
    if 0 <= from < text.len() && is_digit(text[from]) {
        digits_end(text, from + 1)
    } else {
        from
    }
}

/// The number that a sequence of decimal digits writes.
pub open spec fn digits_value(digits: Seq<char>) -> nat
    decreases digits.len(),
{
    if digits.len() == 0 {
        0
    } else {
        digits_value(digits.drop_last()) * 10 + digit_value(digits.last())
    }
}

/// Whether a footnote marker starts at `i`.
pub open spec fn marker_at(text: Seq<char>, i: int) -> bool {
    &&& 0 <= i
    &&& i + 3 < text.len()
    &&& text[i] == '['
    &&& text[i + 1] == '^'
    &&& is_digit(text[i + 2])
    &&& digits_end(text, i + 2) < text.len()
    &&& text[digits_end(text, i + 2)] == ']'
}

/// The end of the marker that starts at `i`.
pub open spec fn marker_end(text: Seq<char>, i: int) -> int {
    digits_end(text, i + 2) + 1
}

/// The number that the marker at `i` holds.
pub open spec fn marker_numeral(text: Seq<char>, i: int) -> nat {
    digits_value(text.subrange(i + 2, digits_end(text, i + 2)))
}

/// The start of the first marker at or after `from`.
pub open spec fn first_marker(text: Seq<char>, from: int) -> Option<int>
    decreases text.len() - from,
{
    if from < 0 || from >= text.len() {
        None
    } else if marker_at(text, from) {
        Some(from)
    } else {
        first_marker(text, from + 1)
    }
}

/// The numbers of the markers that start at or after `from`, in order.
pub open spec fn marker_numerals(text: Seq<char>, from: int) -> Seq<nat>
    decreases text.len() - from,
{
    if from < 0 || from >= text.len() {
        Seq::empty()
    } else if marker_at(text, from) {
        seq![marker_numeral(text, from)] + marker_numerals(text, from + 1)
    } else {
        marker_numerals(text, from + 1)
    }
}

/// The text with the marker at `i` replaced by its superscript numeral.
pub open spec fn citation_rewrite(text: Seq<char>, i: int) -> Seq<char> {
    text.take(i) + sup_text(marker_numeral(text, i)) + text.skip(marker_end(text, i))
}

/// The link that the marker at `i` becomes: it covers the superscript numeral
/// and points to the attribution that the numeral names.
pub open spec fn citation_link(text: Seq<char>, urls: Seq<Seq<char>>, i: int) -> AnnotationView {
    AnnotationView {
        offset: utf16_len(text.take(i)),
        length: utf16_len(sup_text(marker_numeral(text, i))),
        kind: KindView::Link(urls[marker_numeral(text, i) - 1]),
    }
}

/// The annotations `marks` of `text` once the marker at `i` is replaced by its
/// superscript numeral. A marker takes one code unit to the char, and so does a
/// superscript numeral.
pub open spec fn citation_moved(marks: Seq<AnnotationView>, text: Seq<char>, i: int) -> Seq<
    AnnotationView,
> {
    moved_all(
        marks,
        utf16_len(text.take(i)),
        (marker_end(text, i) - i) as nat,
        sup_text(marker_numeral(text, i)).len(),
    )
}

/// The text with every marker resolved, and `links` as the rewrites have moved
/// them, with the links of the markers appended in the order in which they were
/// resolved; or the error of the first marker whose number names no
/// attribution.
pub open spec fn resolved_citations(
    text: Seq<char>,
    urls: Seq<Seq<char>>,
    links: Seq<AnnotationView>,
) -> Result<(Seq<char>, Seq<AnnotationView>), RenderError>
    decreases text.len(),
{
    match first_marker(text, 0) {
        None => Ok((text, links)),
        Some(i) => {
            let n = marker_numeral(text, i);
            if n < 1 || n > urls.len() {
                Err(RenderError::IndexOutOfRange)
            } else {
                proof {
                    lemma_first_marker(text, 0);
                    lemma_citation_rewrite_shrinks(text, i);
                }
                resolved_citations(
                    citation_rewrite(text, i),
                    urls,
                    citation_moved(links, text, i).push(citation_link(text, urls, i)),
                )
            }
        },
    }
}

/// The run of digits from `from` ends within the text, holds digits only, and
/// is followed by no digit.
pub proof fn lemma_digits_end(text: Seq<char>, from: int)
    requires
        0 <= from <= text.len(),
    ensures
        from <= digits_end(text, from) <= text.len(),
        forall|k: int| from <= k < digits_end(text, from) ==> is_digit(#[trigger] text[k]),
        digits_end(text, from) < text.len() ==> !is_digit(text[digits_end(text, from)]),
    decreases text.len() - from,
{
    if from < text.len() && is_digit(text[from]) {
        lemma_digits_end(text, from + 1);
    }
}

/// The first marker from `from` on is a marker, and none starts before it.
pub proof fn lemma_first_marker(text: Seq<char>, from: int)
    requires
        0 <= from,
    ensures
        match first_marker(text, from) {
            Some(i) => from <= i && marker_at(text, i) && forall|j: int|
                from <= j < i ==> !marker_at(text, j),
            None => forall|j: int| from <= j ==> !marker_at(text, j),
        },
    decreases text.len() - from,
{
    if from < text.len() && !marker_at(text, from) {
        lemma_first_marker(text, from + 1);
    }
}

/// A superscript numeral has at most as many glyphs as the digits that wrote
/// the number.
pub proof fn lemma_sup_text_le_digits(digits: Seq<char>)
    requires
        digits.len() >= 1,
        forall|k: int| 0 <= k < digits.len() ==> is_digit(#[trigger] digits[k]),
    ensures
        sup_text(digits_value(digits)).len() <= digits.len(),
    decreases digits.len(),
{
    let v = digits_value(digits);
    let head = digits.drop_last();
    if digits.len() == 1 {
        assert(digits_value(head) == 0);
    } else {
        lemma_sup_text_le_digits(head);
        if v >= 10 {
            assert(v / 10 == digits_value(head));
        }
    }
}

/// Resolving the marker at `i` makes the text shorter, in chars and in UTF-16
/// code units: the marker takes one code unit to the char, and the numeral
/// that replaces it takes fewer.
pub proof fn lemma_citation_rewrite_shrinks(text: Seq<char>, i: int)
    requires
        marker_at(text, i),
    ensures
        i + 4 <= marker_end(text, i) <= text.len(),
        1 <= sup_text(marker_numeral(text, i)).len() < marker_end(text, i) - i,
        citation_rewrite(text, i).len() < text.len(),
        utf16_len(citation_rewrite(text, i)) < utf16_len(text),
        utf16_len(text.take(i)) + (marker_end(text, i) - i) <= utf16_len(text),
        utf16_len(citation_rewrite(text, i)) + (marker_end(text, i) - i) == utf16_len(text)
            + sup_text(marker_numeral(text, i)).len(),
{
    let d = digits_end(text, i + 2);
    let e = d + 1;
    let digits = text.subrange(i + 2, d);
    let glyphs = sup_text(marker_numeral(text, i));
    let marker = text.subrange(i, e);
    lemma_digits_end(text, i + 2);
    lemma_sup_text_le_digits(digits);
    lemma_sup_text_utf16_len(marker_numeral(text, i));
    assert forall|k: int| 0 <= k < marker.len() implies (#[trigger] marker[k] as u32) < 0x10000 by {
        if 2 <= k < marker.len() - 1 {
            assert(is_digit(text[i + k]));
        }
    }
    lemma_utf16_len_basic(marker);
    lemma_utf16_len_concat(text.take(i), marker);
    lemma_utf16_len_concat(text.take(i) + marker, text.skip(e));
    assert(text.take(i) + marker + text.skip(e) =~= text);
    lemma_utf16_len_concat(text.take(i), glyphs);
    lemma_utf16_len_concat(text.take(i) + glyphs, text.skip(e));
}

/// Whether `c` can stand in a marker.
pub open spec fn is_marker_char(c: char) -> bool {
    c == '[' || c == '^' || c == ']' || is_digit(c)
}

/// No glyph of a superscript numeral can stand in a marker, of a footnote or
/// of a bold span.
pub proof fn lemma_sup_text_inert(number: nat)
    ensures
        forall|k: int|
            0 <= k < sup_text(number).len() ==> !is_marker_char(#[trigger] sup_text(number)[k])
                && sup_text(number)[k] != '*',
    decreases number,
{
    if number >= 10 {
        lemma_sup_text_inert(number / 10);
        assert forall|k: int| 0 <= k < sup_text(number).len() implies !is_marker_char(
            #[trigger] sup_text(number)[k],
        ) && sup_text(number)[k] != '*' by {
            if k < sup_text(number / 10).len() {
                assert(sup_text(number)[k] == sup_text(number / 10)[k]);
            }
        }
    } else {
        assert(sup_text(number)[0] == sup_glyph(number));
    }
}

/// A run of digits ends at the latest where a char is no digit.
proof fn lemma_digits_end_stops(text: Seq<char>, from: int, stop: int)
    requires
        0 <= from <= stop < text.len(),
        !is_digit(text[stop]),
    ensures
        digits_end(text, from) <= stop,
    decreases stop - from,
{
    if from < stop && is_digit(text[from]) {
        lemma_digits_end_stops(text, from + 1, stop);
    }
}

/// A run of digits that ends before `m` is the same in every text with the
/// same first `m` chars.
proof fn lemma_digits_end_prefix(a: Seq<char>, b: Seq<char>, m: int, from: int)
    requires
        0 <= from,
        m <= a.len(),
        m <= b.len(),
        forall|k: int| 0 <= k < m ==> a[k] == b[k],
        digits_end(a, from) < m,
    ensures
        digits_end(b, from) == digits_end(a, from),
    decreases a.len() - from,
{
    if from < a.len() && is_digit(a[from]) {
        lemma_digits_end(a, from + 1);
        lemma_digits_end_prefix(a, b, m, from + 1);
    }
}

/// Two texts with the same rest have as many chars left.
proof fn lemma_same_suffix(a: Seq<char>, p: int, b: Seq<char>, q: int)
    requires
        0 <= p <= a.len(),
        0 <= q <= b.len(),
        a.skip(p) == b.skip(q),
    ensures
        a.len() - p == b.len() - q,
{
    assert(a.skip(p).len() == a.len() - p);
    assert(b.skip(q).len() == b.len() - q);
}

/// A run of digits depends only on the text from its start on.
proof fn lemma_digits_end_suffix(a: Seq<char>, p: int, b: Seq<char>, q: int)
    requires
        0 <= p <= a.len(),
        0 <= q <= b.len(),
        a.skip(p) == b.skip(q),
    ensures
        digits_end(a, p) - p == digits_end(b, q) - q,
    decreases a.len() - p,
{
    lemma_same_suffix(a, p, b, q);
    if p < a.len() {
        assert(a[p] == a.skip(p)[0]);
        assert(b[q] == b.skip(q)[0]);
        if is_digit(a[p]) {
            assert(a.skip(p + 1) =~= a.skip(p).skip(1));
            assert(b.skip(q + 1) =~= b.skip(q).skip(1));
            lemma_digits_end_suffix(a, p + 1, b, q + 1);
        }
    }
}

/// Whether a marker starts at a place, and which, depends only on the text
/// from that place on.
proof fn lemma_marker_suffix(a: Seq<char>, p: int, b: Seq<char>, q: int)
    requires
        0 <= p <= a.len(),
        0 <= q <= b.len(),
        a.skip(p) == b.skip(q),
    ensures
        marker_at(a, p) == marker_at(b, q),
        marker_at(a, p) ==> marker_end(a, p) - p == marker_end(b, q) - q && marker_numeral(a, p)
            == marker_numeral(b, q),
{
    lemma_same_suffix(a, p, b, q);
    if a.len() - p > 3 {
        assert(a[p] == a.skip(p)[0] && b[q] == b.skip(q)[0]);
        assert(a[p + 1] == a.skip(p)[1] && b[q + 1] == b.skip(q)[1]);
        assert(a[p + 2] == a.skip(p)[2] && b[q + 2] == b.skip(q)[2]);
        assert(a.skip(p + 2) =~= a.skip(p).skip(2));
        assert(b.skip(q + 2) =~= b.skip(q).skip(2));
        lemma_digits_end_suffix(a, p + 2, b, q + 2);
        lemma_digits_end(a, p + 2);
        lemma_digits_end(b, q + 2);
        let da = digits_end(a, p + 2);
        let db = digits_end(b, q + 2);
        if da < a.len() {
            assert(a[da] == a.skip(p)[da - p]);
            assert(b[db] == b.skip(q)[db - q]);
        }
        assert forall|k: int| 0 <= k < da - (p + 2) implies #[trigger] a.subrange(p + 2, da)[k]
            == b.subrange(q + 2, db)[k] by {
            assert(a[p + 2 + k] == a.skip(p)[2 + k]);
            assert(b[q + 2 + k] == b.skip(q)[2 + k]);
        }
        assert(a.subrange(p + 2, da) =~= b.subrange(q + 2, db));
    }
}

/// The numbers of the markers from a place on depend only on the text from
/// that place on.
proof fn lemma_marker_numerals_suffix(a: Seq<char>, p: int, b: Seq<char>, q: int)
    requires
        0 <= p <= a.len(),
        0 <= q <= b.len(),
        a.skip(p) == b.skip(q),
    ensures
        marker_numerals(a, p) == marker_numerals(b, q),
    decreases a.len() - p,
{
    lemma_same_suffix(a, p, b, q);
    if p < a.len() {
        lemma_marker_suffix(a, p, b, q);
        assert(a.skip(p + 1) =~= a.skip(p).skip(1));
        assert(b.skip(q + 1) =~= b.skip(q).skip(1));
        lemma_marker_numerals_suffix(a, p + 1, b, q + 1);
    }
}

/// Where no marker starts, there is no number to list.
proof fn lemma_marker_numerals_gap(text: Seq<char>, from: int, to: int)
    requires
        0 <= from <= to <= text.len(),
        forall|j: int| from <= j < to ==> !marker_at(text, j),
    ensures
        marker_numerals(text, from) == marker_numerals(text, to),
    decreases to - from,
{
    if from < to {
        lemma_marker_numerals_gap(text, from + 1, to);
    }
}

/// After the first marker of a text is resolved, no marker starts before the
/// end of the superscript numeral that took its place.
pub proof fn lemma_rewrite_has_no_early_marker(text: Seq<char>, i: int)
    requires
        first_marker(text, 0) == Some(i),
    ensures
        forall|j: int|
            0 <= j < i + sup_text(marker_numeral(text, i)).len() ==> !marker_at(
                citation_rewrite(text, i),
                j,
            ),
{
    lemma_first_marker(text, 0);
    lemma_digits_end(text, i + 2);
    let number = marker_numeral(text, i);
    let glyphs = sup_text(number);
    let rewritten = citation_rewrite(text, i);
    lemma_sup_text_inert(number);
    lemma_sup_text_utf16_len(number);
    assert forall|j: int| 0 <= j < i + glyphs.len() implies !marker_at(rewritten, j) by {
        assert(!is_marker_char(glyphs[0]));
        assert(rewritten[i] == glyphs[0]);
        if j >= i {
            assert(rewritten[j] == glyphs[j - i]);
            assert(!is_marker_char(glyphs[j - i]));
        } else if j + 2 >= i {
        } else if marker_at(rewritten, j) {
            lemma_digits_end_stops(rewritten, j + 2, i);
            let d = digits_end(rewritten, j + 2);
            if d < i {
                lemma_digits_end(rewritten, j + 2);
                assert forall|k: int| 0 <= k < i implies rewritten[k] == text[k] by {}
                lemma_digits_end_prefix(rewritten, text, i, j + 2);
                assert(text[d] == rewritten[d]);
                assert(text[j] == rewritten[j]);
                assert(text[j + 1] == rewritten[j + 1]);
                assert(text[j + 2] == rewritten[j + 2]);
                assert(marker_at(text, j));
            }
        }
    }
}

/// Resolving the first marker of a text takes its number from the head of the
/// list of numbers and leaves the other markers as they are.
pub proof fn lemma_rewrite_keeps_later_markers(text: Seq<char>, i: int)
    requires
        first_marker(text, 0) == Some(i),
    ensures
        marker_numerals(text, 0) == seq![marker_numeral(text, i)] + marker_numerals(
            citation_rewrite(text, i),
            0,
        ),
{
    lemma_first_marker(text, 0);
    lemma_digits_end(text, i + 2);
    let glyphs = sup_text(marker_numeral(text, i));
    let e = marker_end(text, i);
    let rewritten = citation_rewrite(text, i);
    let resume = i + glyphs.len();
    lemma_rewrite_has_no_early_marker(text, i);
    assert forall|j: int| i + 1 <= j < e implies !marker_at(text, j) by {
        if j < e - 1 {
            assert(j == i + 1 || is_digit(text[j]));
        }
    }
    lemma_marker_numerals_gap(text, 0, i);
    lemma_marker_numerals_gap(text, i + 1, e);
    lemma_marker_numerals_gap(rewritten, 0, resume);
    assert(rewritten.skip(resume) =~= text.skip(e));
    lemma_marker_numerals_suffix(rewritten, resume, text, e);
}

/// Whether every number of `numerals` names one of `count` attributions.
pub open spec fn numerals_in_range(numerals: Seq<nat>, count: nat) -> bool {
    forall|k: int| 0 <= k < numerals.len() ==> 1 <= #[trigger] numerals[k] <= count
}

/// The numbers are in range where the first is and the others are.
pub proof fn lemma_numerals_in_range_split(first: nat, later: Seq<nat>, count: nat)
    ensures
        numerals_in_range(seq![first] + later, count) <==> 1 <= first <= count
            && numerals_in_range(later, count),
{
    let all = seq![first] + later;
    assert(all[0] == first);
    if numerals_in_range(all, count) {
        assert forall|k: int| 0 <= k < later.len() implies 1 <= #[trigger] later[k] <= count by {
            assert(later[k] == all[k + 1]);
        }
    }
    if 1 <= first <= count && numerals_in_range(later, count) {
        assert forall|k: int| 0 <= k < all.len() implies 1 <= #[trigger] all[k] <= count by {
            if k > 0 {
                assert(all[k] == later[k - 1]);
            }
        }
    }
}

/// What resolving yields, told by the markers of the raw text. Where every
/// marker names one of the attributions, resolving succeeds, no marker is left
/// in the text, every annotation of `links` has kept its kind, and behind them
/// stands one link for each marker, in the order of the markers, that points
/// to the attribution that the marker names. Where some marker names none,
/// resolving fails.
pub proof fn lemma_resolved_citations(
    text: Seq<char>,
    urls: Seq<Seq<char>>,
    links: Seq<AnnotationView>,
)
    ensures
        numerals_in_range(marker_numerals(text, 0), urls.len()) <==> resolved_citations(
            text,
            urls,
            links,
        ) is Ok,
        resolved_citations(text, urls, links) matches Ok((out, all)) ==> {
            let numerals = marker_numerals(text, 0);
            &&& forall|j: int| !marker_at(out, j)
            &&& all.len() == links.len() + numerals.len()
            &&& forall|k: int| 0 <= k < links.len() ==> (#[trigger] all[k]).kind == links[k].kind
            &&& forall|k: int|
                0 <= k < numerals.len() ==> (#[trigger] all[links.len() + k]).kind
                    == KindView::Link(urls[numerals[k] - 1])
        },
    decreases text.len(),
{
    lemma_first_marker(text, 0);
    match first_marker(text, 0) {
        None => {
            lemma_marker_numerals_gap(text, 0, text.len() as int);
        },
        Some(i) => {
            let number = marker_numeral(text, i);
            let numerals = marker_numerals(text, 0);
            let rewritten = citation_rewrite(text, i);
            let grown = citation_moved(links, text, i).push(citation_link(text, urls, i));
            lemma_rewrite_keeps_later_markers(text, i);
            let later = marker_numerals(rewritten, 0);
            lemma_numerals_in_range_split(number, later, urls.len());
            if 1 <= number <= urls.len() {
                lemma_citation_rewrite_shrinks(text, i);
                lemma_resolved_citations(rewritten, urls, grown);
                match resolved_citations(text, urls, links) {
                    Ok((out, all)) => {
                        assert forall|k: int| 0 <= k < numerals.len() implies (#[trigger] all[links.len()
                            + k]).kind == KindView::Link(urls[numerals[k] - 1]) by {
                            if k == 0 {
                                assert(all[links.len() as int].kind == grown[links.len() as int].kind);
                            } else {
                                assert(all[grown.len() + (k - 1)].kind == KindView::Link(
                                    urls[later[k - 1] - 1],
                                ));
                                assert(later[k - 1] == numerals[k]);
                            }
                        }
                        assert forall|k: int| 0 <= k < links.len() implies (#[trigger] all[k]).kind
                            == links[k].kind by {
                            assert(all[k].kind == grown[k].kind);
                        }
                    },
                    Err(_) => {},
                }
            }
        },
    }
}

/// Every annotation of `links` that lies within the text lies within the
/// resolved text.
pub proof fn lemma_resolved_citations_within(
    text: Seq<char>,
    urls: Seq<Seq<char>>,
    links: Seq<AnnotationView>,
)
    ensures
        resolved_citations(text, urls, links) matches Ok((out, all)) ==> forall|k: int|
            0 <= k < links.len() && links[k].end() <= utf16_len(text) ==> (#[trigger] all[k]).end()
                <= utf16_len(out),
    decreases text.len(),
{
    lemma_first_marker(text, 0);
    lemma_resolved_citations(text, urls, links);
    match first_marker(text, 0) {
        None => {},
        Some(i) => {
            let number = marker_numeral(text, i);
            if 1 <= number <= urls.len() {
                let rewritten = citation_rewrite(text, i);
                let grown = citation_moved(links, text, i).push(citation_link(text, urls, i));
                lemma_citation_rewrite_shrinks(text, i);
                lemma_resolved_citations_within(rewritten, urls, grown);
                lemma_resolved_citations(rewritten, urls, grown);
                match resolved_citations(text, urls, links) {
                    Ok((out, all)) => {
                        assert forall|k: int|
                            0 <= k < links.len() && links[k].end() <= utf16_len(
                                text,
                            ) implies (#[trigger] all[k]).end() <= utf16_len(out) by {
                            lemma_moved_within(
                                links[k],
                                utf16_len(text),
                                utf16_len(text.take(i)),
                                (marker_end(text, i) - i) as nat,
                                sup_text(number).len(),
                            );
                            assert(grown[k].end() <= utf16_len(rewritten));
                        }
                    },
                    Err(_) => {},
                }
            }
        },
    }
}

/// Whether `mark` covers `part` in `text` in front of the char `bound`.
pub open spec fn covers_before(mark: AnnotationView, text: Seq<char>, part: Seq<char>, bound: int) -> bool {
    exists|at: int| #[trigger] mark.covers_at(text, part, at) && at + part.len() <= bound
}

/// An annotation that covers a part in front of the marker at `i` is not moved
/// when the marker is resolved, and covers the part as before.
proof fn lemma_citation_step_keeps_cover(
    text: Seq<char>,
    i: int,
    mark: AnnotationView,
    part: Seq<char>,
)
    requires
        marker_at(text, i),
        covers_before(mark, text, part, i),
    ensures
        citation_moved(seq![mark], text, i)[0] == mark,
        covers_before(mark, citation_rewrite(text, i), part, i),
{
    let at = choose|at: int| #[trigger] mark.covers_at(text, part, at) && at + part.len() <= i;
    let to = at + part.len();
    let rewritten = citation_rewrite(text, i);
    lemma_citation_rewrite_shrinks(text, i);
    lemma_utf16_len_concat(text.take(at), part);
    assert(text.take(at) + part =~= text.take(to));
    lemma_utf16_len_concat(text.take(to), text.subrange(to, i));
    assert(text.take(to) + text.subrange(to, i) =~= text.take(i));
    assert(rewritten.take(at) =~= text.take(at));
    assert(rewritten.subrange(at, to) =~= part);
    assert(mark.covers_at(rewritten, part, at));
}

/// Once the first marker of a text is resolved, the annotations that covered
/// parts in front of `bound`, and the new link, cover their parts in front of
/// the end of the superscript numeral.
proof fn lemma_citation_step_covers(
    text: Seq<char>,
    urls: Seq<Seq<char>>,
    links: Seq<AnnotationView>,
    base: int,
    parts: Seq<Seq<char>>,
    bound: int,
    i: int,
)
    requires
        0 <= base <= links.len(),
        parts.len() == links.len() - base,
        0 <= bound <= i,
        first_marker(text, 0) == Some(i),
        forall|j: int|
            base <= j < links.len() ==> covers_before(#[trigger] links[j], text, parts[j - base], bound),
    ensures
        forall|j: int|
            base <= j <= links.len() ==> covers_before(
                #[trigger] citation_moved(links, text, i).push(citation_link(text, urls, i))[j],
                citation_rewrite(text, i),
                parts.push(sup_text(marker_numeral(text, i)))[j - base],
                i + sup_text(marker_numeral(text, i)).len(),
            ),
{
    let glyphs = sup_text(marker_numeral(text, i));
    let rewritten = citation_rewrite(text, i);
    let link = citation_link(text, urls, i);
    let grown = citation_moved(links, text, i).push(link);
    let all_parts = parts.push(glyphs);
    let resume = i + glyphs.len();
    lemma_first_marker(text, 0);
    lemma_citation_rewrite_shrinks(text, i);
    lemma_sup_text_utf16_len(marker_numeral(text, i));
    assert(rewritten.take(i) =~= text.take(i));
    assert(rewritten.subrange(i, resume) =~= glyphs);
    assert(link.covers_at(rewritten, glyphs, i));
    assert forall|j: int| base <= j <= links.len() implies covers_before(
        #[trigger] grown[j],
        rewritten,
        all_parts[j - base],
        resume,
    ) by {
        if j < links.len() {
            let part = parts[j - base];
            assert(covers_before(links[j], text, part, bound));
            let at = choose|at: int|
                #[trigger] links[j].covers_at(text, part, at) && at + part.len() <= bound;
            assert(links[j].covers_at(text, part, at) && at + part.len() <= i);
            lemma_citation_step_keeps_cover(text, i, links[j], part);
            assert(grown[j] == citation_moved(seq![links[j]], text, i)[0]);
            let kept = choose|kept: int|
                #[trigger] links[j].covers_at(rewritten, part, kept) && kept + part.len() <= i;
            assert(grown[j].covers_at(rewritten, part, kept) && kept + part.len() <= resume);
        } else {
            assert(grown[j].covers_at(rewritten, glyphs, i) && i + glyphs.len() <= resume);
        }
    }
}

/// What the annotations cover in the resolved text. Every annotation of
/// `links` from `base` on that covered a part of the text in front of `bound`,
/// where no marker starts in front of `bound`, covers the same part of the
/// resolved text; and the link of each marker covers the superscript numeral
/// of the marker.
pub proof fn lemma_resolved_citations_covers(
    text: Seq<char>,
    urls: Seq<Seq<char>>,
    links: Seq<AnnotationView>,
    base: int,
    parts: Seq<Seq<char>>,
    bound: int,
)
    requires
        0 <= base <= links.len(),
        parts.len() == links.len() - base,
        0 <= bound <= text.len(),
        forall|j: int| 0 <= j < bound ==> !marker_at(text, j),
        forall|j: int|
            base <= j < links.len() ==> covers_before(#[trigger] links[j], text, parts[j - base], bound),
    ensures
        resolved_citations(text, urls, links) matches Ok((out, all)) ==> {
            &&& forall|j: int|
                base <= j < links.len() ==> (#[trigger] all[j]).covers(out, parts[j - base])
            &&& forall|k: int|
                0 <= k < marker_numerals(text, 0).len() ==> (#[trigger] all[links.len() + k]).covers(
                    out,
                    sup_text(marker_numerals(text, 0)[k]),
                )
        },
    decreases text.len(),
{
    lemma_first_marker(text, 0);
    match first_marker(text, 0) {
        None => {
            lemma_marker_numerals_gap(text, 0, text.len() as int);
            assert forall|j: int| base <= j < links.len() implies (#[trigger] links[j]).covers(
                text,
                parts[j - base],
            ) by {
                assert(covers_before(links[j], text, parts[j - base], bound));
            }
        },
        Some(i) => {
            let number = marker_numeral(text, i);
            if 1 <= number <= urls.len() {
                let numerals = marker_numerals(text, 0);
                let glyphs = sup_text(number);
                let rewritten = citation_rewrite(text, i);
                let grown = citation_moved(links, text, i).push(citation_link(text, urls, i));
                let all_parts = parts.push(glyphs);
                let resume = i + glyphs.len();
                lemma_rewrite_keeps_later_markers(text, i);
                lemma_rewrite_has_no_early_marker(text, i);
                lemma_citation_rewrite_shrinks(text, i);
                lemma_citation_step_covers(text, urls, links, base, parts, bound, i);
                let later = marker_numerals(rewritten, 0);
                lemma_resolved_citations_covers(rewritten, urls, grown, base, all_parts, resume);
                match resolved_citations(rewritten, urls, grown) {
                    Ok((out, all)) => {
                        assert(resolved_citations(text, urls, links) == Ok::<
                            (Seq<char>, Seq<AnnotationView>),
                            RenderError,
                        >((out, all)));
                        assert forall|k: int| 0 <= k < numerals.len() implies (#[trigger] all[links.len()
                            + k]).covers(out, sup_text(numerals[k])) by {
                            if k == 0 {
                                assert(all[links.len() as int].covers(
                                    out,
                                    all_parts[links.len() - base],
                                ));
                            } else {
                                assert(all[grown.len() + (k - 1)].covers(
                                    out,
                                    sup_text(later[k - 1]),
                                ));
                                assert(later[k - 1] == numerals[k]);
                            }
                        }
                        assert forall|j: int| base <= j < links.len() implies (#[trigger] all[j]).covers(
                            out,
                            parts[j - base],
                        ) by {
                            assert(all[j].covers(out, all_parts[j - base]));
                        }
                    },
                    Err(_) => {},
                }
            }
        },
    }
}

/// In the resolved text the link of every marker covers the superscript
/// numeral of the marker, whatever annotations were there before.
pub proof fn lemma_links_cover_numerals(
    text: Seq<char>,
    urls: Seq<Seq<char>>,
    links: Seq<AnnotationView>,
)
    ensures
        resolved_citations(text, urls, links) matches Ok((out, all)) ==> forall|k: int|
            0 <= k < marker_numerals(text, 0).len() ==> (#[trigger] all[links.len() + k]).covers(
                out,
                sup_text(marker_numerals(text, 0)[k]),
            ),
{
    lemma_resolved_citations_covers(text, urls, links, links.len() as int, Seq::empty(), 0);
}

} // verus!
