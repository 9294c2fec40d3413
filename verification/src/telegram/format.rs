//! Rewriting a raw reply into display text with styling annotations.
//!
//! Offsets and lengths of annotations count UTF-16 code units, positions in
//! the text count chars.

use crate::annotation::{
    annotation_views, annotations_within, lemma_annotation_views_push, lemma_covers_within,
    move_entries, url_views, Annotation, AnnotationView, KindView, RawReply, RenderedMessage,
};
use crate::telegram::bold::{
    bold_at, bold_end, bold_inner, bold_inners, bold_rewrite, first_bold, is_plain,
    lemma_bold_rewrite_shrinks, lemma_first_bold, lemma_resolved_bold, lemma_resolved_bold_covers,
    lemma_resolved_bold_within, resolved_bold,
};
use crate::telegram::citation::{
    citation_rewrite, digits_end, digits_value, first_marker, is_digit,
    lemma_citation_rewrite_shrinks, lemma_digits_end, lemma_first_marker,
    lemma_links_cover_numerals, lemma_numerals_in_range_split, lemma_resolved_citations,
    lemma_resolved_citations_within, lemma_rewrite_keeps_later_markers, lemma_sup_text_inert,
    marker_at, marker_end, marker_numeral, marker_numerals, numerals_in_range,
    resolved_citations, RenderError,
};
use crate::telegram::list::{
    has_no_raw_bullet, lemma_normalized_list_has_no_raw_bullet, normalized_list, BULLET,
};
use crate::telegram::superscript::{lemma_sup_text_utf16_len, sup_glyph, sup_text};
use crate::text::{find_char, from_chars, lemma_index_of, push_chars, slice_chars, to_chars};
use crate::utf16::{
    chars_of, lemma_utf16_len_subrange, lemma_utf16_offset_agrees, utf16_len, utf16_len_of,
};
use std::ops::Range;
use vstd::prelude::*;

verus! {

/// The number of UTF-16 code units that the first `char_offset` chars of `s`
/// take: the length of the whole text less that of the rest from `char_offset`
/// on.
pub fn to_utf16_offset(s: &str, char_offset: usize) -> (offset: usize)
    requires
        char_offset <= s@.len(),
    ensures
        offset == utf16_len(s@.take(char_offset as int)),
        offset == utf16_len(s@) - utf16_len(s@.skip(char_offset as int)),
{
    let chars = chars_of(s);
    proof {
        lemma_utf16_offset_agrees(s@, char_offset as int);
        lemma_utf16_len_subrange(s@, char_offset as int, s@.len() as int);
        assert(chars@.subrange(0, chars@.len() as int) =~= s@);
        assert(chars@.subrange(char_offset as int, chars@.len() as int) =~= s@.skip(
            char_offset as int,
        ));
    }
    let origin_utf16_len = utf16_len_of(chars.as_slice(), 0, chars.len());
    let remaining_utf16_len = utf16_len_of(chars.as_slice(), char_offset, chars.len());
    origin_utf16_len - remaining_utf16_len
}

/// Rewrites the raw bullet markers of the reply's text into the canonical
/// bullet, so that none is left. The attribution list stays as it is.
pub fn fix_unordered_list(answer: &mut RawReply)
    ensures
        final(answer).text@ == normalized_list(old(answer).text@),
        final(answer).source_attributions == old(answer).source_attributions,
        has_no_raw_bullet(final(answer).text@),
{
    proof {
        lemma_normalized_list_has_no_raw_bullet(answer.text@);
    }
    let chars = to_chars(answer.text.as_str());
    let mut out: Vec<char> = Vec::new();
    let mut prev: char = '\n';
    let mut i: usize = 0;
    while i < chars.len()
        invariant
            i <= chars.len(),
            chars@ == old(answer).text@,
            *answer == *old(answer),
            out@ == normalized_list(chars@.take(i as int)),
            prev == if i == 0 {
                '\n'
            } else {
                chars@[i - 1]
            },
        decreases chars.len() - i,
    {
        let c = chars[i];
        proof {
            let done = chars@.take(i as int + 1);
            assert(done.drop_last() =~= chars@.take(i as int));
        }
        if c == '-' && prev == '\n' {
            out.push(BULLET);
        } else if c == '-' && (prev == '.' || prev == ':' || prev == '?' || prev == '!') {
            out.push('\n');
            out.push(BULLET);
        } else {
            out.push(c);
        }
        prev = c;
        i += 1;
    }
    proof {
        assert(chars@.take(chars@.len() as int) =~= chars@);
    }
    answer.text = from_chars(out.as_slice());
}

fn sup_glyph_of(digit: usize) -> (g: char)
    requires
        digit < 10,
    ensures
        g == sup_glyph(digit as nat),
{
    if digit == 0 {
        '\u{2070}'
    } else if digit == 1 {
        '\u{b9}'
    } else if digit == 2 {
        '\u{b2}'
    } else if digit == 3 {
        '\u{b3}'
    } else if digit == 4 {
        '\u{2074}'
    } else if digit == 5 {
        '\u{2075}'
    } else if digit == 6 {
        '\u{2076}'
    } else if digit == 7 {
        '\u{2077}'
    } else if digit == 8 {
        '\u{2078}'
    } else {
        '\u{2079}'
    }
}

fn push_sup(number: usize, out: &mut Vec<char>)
    ensures
        final(out)@ == old(out)@ + sup_text(number as nat),
    decreases number,
{
    if number >= 10 {
        push_sup(number / 10, out);
    }
    out.push(sup_glyph_of(number % 10));
    proof {
        assert(final(out)@ =~= old(out)@ + sup_text(number as nat));
    }
}

/// The decimal numeral of `number` in superscript glyphs, without leading
/// zeros.
pub fn sup(number: usize) -> (result: String)
    ensures
        result@ == sup_text(number as nat),
{
    let mut glyphs: Vec<char> = Vec::new();
    push_sup(number, &mut glyphs);
    from_chars(glyphs.as_slice())
}

/// The place of a match in a text, kept apart from the text: the chars from
/// `start` up to `end`.
#[derive(Clone, Copy, Debug, PartialEq, Eq)]
pub struct DetachedMatch {
    pub start: usize,
    pub end: usize,
}

impl DetachedMatch {
    /// Whether the match lies in `text`: it starts before it ends, and ends
    /// within the text.
    pub open spec fn lies_in(&self, text: Seq<char>) -> bool {
        self.start <= self.end <= text.len()
    }

    /// The matched part of `origin`.
    pub fn as_str<'a>(&self, origin: &'a str) -> (part: &'a str)
        requires
            self.lies_in(origin@),
        ensures
            part@ == origin@.subrange(self.start as int, self.end as int),
    {
        origin.substring_char(self.start, self.end)
    }

    /// The char positions of the match.
    pub fn range(&self) -> (r: Range<usize>)
        ensures
            r.start == self.start,
            r.end == self.end,
    {
        self.start..self.end
    }
}

fn is_digit_char(c: char) -> (b: bool)
    ensures
        b == is_digit(c),
{
    '0' <= c && c <= '9'
}

fn digits_end_of(chars: &[char], from: usize) -> (end: usize)
    requires
        from <= chars@.len(),
    ensures
        end == digits_end(chars@, from as int),
        from <= end <= chars@.len(),
{
    let mut end: usize = from;
    while end < chars.len() && is_digit_char(chars[end])
        invariant
            from <= end <= chars@.len(),
            digits_end(chars@, from as int) == digits_end(chars@, end as int),
        decreases chars@.len() - end,
    {
        end += 1;
    }
    end
}

/// The end of the footnote marker that starts at `i`, if one starts there.
fn marker_end_at(chars: &[char], i: usize) -> (end: Option<usize>)
    requires
        i < chars@.len(),
    ensures
        match end {
            Some(e) => marker_at(chars@, i as int) && e == marker_end(chars@, i as int) && i + 4
                <= e <= chars@.len(),
            None => !marker_at(chars@, i as int),
        },
{
    if chars.len() - i > 3 && chars[i] == '[' && chars[i + 1] == '^' && is_digit_char(chars[i + 2]) {
        let d = digits_end_of(chars, i + 2);
        if d < chars.len() && chars[d] == ']' {
            proof {
                lemma_digits_end(chars@, i as int + 2);
            }
            return Some(d + 1);
        }
    }
    None
}

/// The first footnote marker of `chars`, if there is one.
pub fn find_marker(chars: &[char]) -> (found: Option<DetachedMatch>)
    ensures
        match first_marker(chars@, 0) {
            Some(i) => found matches Some(m) && m.start == i && m.end == marker_end(chars@, i)
                && m.start + 4 <= m.end <= chars@.len(),
            None => found is None,
        },
{
    let mut i: usize = 0;
    while i < chars.len()
        invariant
            i <= chars@.len(),
            first_marker(chars@, 0) == first_marker(chars@, i as int),
        decreases chars@.len() - i,
    {
        match marker_end_at(chars, i) {
            Some(end) => {
                return Some(DetachedMatch { start: i, end });
            },
            None => {},
        }
        i += 1;
    }
    None
}

/// The number that the digits `chars[from..to]` write, if it is at most
/// `limit`.
fn numeral_up_to(chars: &[char], from: usize, to: usize, limit: usize) -> (n: Option<usize>)
    requires
        from <= to <= chars@.len(),
        forall|k: int| from <= k < to ==> is_digit(#[trigger] chars@[k]),
    ensures
        match n {
            Some(v) => v == digits_value(chars@.subrange(from as int, to as int)) && v <= limit,
            None => digits_value(chars@.subrange(from as int, to as int)) > limit,
        },
{
    let mut value: usize = 0;
    let mut i: usize = from;
    while i < to
        invariant
            from <= i <= to <= chars@.len(),
            forall|k: int| from <= k < to ==> is_digit(#[trigger] chars@[k]),
            value == digits_value(chars@.subrange(from as int, i as int)),
            value <= limit,
        decreases to - i,
    {
        let c = chars[i];
        assert(is_digit(chars@[i as int]));
        let digit: usize = (c as u32 - '0' as u32) as usize;
        proof {
            let done = chars@.subrange(from as int, i as int + 1);
            assert(done.drop_last() =~= chars@.subrange(from as int, i as int));
            assert(digits_value(done) == value * 10 + digit);
        }
        if digit > limit || value > (limit - digit) / 10 {
            proof {
                lemma_digits_value_grows(
                    chars@.subrange(from as int, to as int),
                    i as int + 1 - from as int,
                );
                assert(chars@.subrange(from as int, to as int).take(i as int + 1 - from as int)
                    =~= chars@.subrange(from as int, i as int + 1));
            }
            return None;
        }
        value = value * 10 + digit;
        i += 1;
    }
    Some(value)
}

/// A numeral is worth at least as much as each of its prefixes.
proof fn lemma_digits_value_grows(digits: Seq<char>, k: int)
    requires
        0 <= k <= digits.len(),
    ensures
        digits_value(digits.take(k)) <= digits_value(digits),
    decreases digits.len(),
{
    if k == digits.len() {
        assert(digits.take(k) =~= digits);
    } else {
        lemma_digits_value_grows(digits.drop_last(), k);
        assert(digits.drop_last().take(k) =~= digits.take(k));
    }
}

/// Whether every footnote marker of `chars` names one of `limit` attributions.
fn markers_in_range(chars: &[char], limit: usize) -> (ok: bool)
    ensures
        ok == numerals_in_range(marker_numerals(chars@, 0), limit as nat),
{
    let mut i: usize = 0;
    while i < chars.len()
        invariant
            i <= chars@.len(),
            numerals_in_range(marker_numerals(chars@, 0), limit as nat) == numerals_in_range(
                marker_numerals(chars@, i as int),
                limit as nat,
            ),
        decreases chars@.len() - i,
    {
        match marker_end_at(chars, i) {
            Some(end) => {
                proof {
                    lemma_digits_end(chars@, i as int + 2);
                    lemma_numerals_in_range_split(
                        marker_numeral(chars@, i as int),
                        marker_numerals(chars@, i as int + 1),
                        limit as nat,
                    );
                }
                match numeral_up_to(chars, i + 2, end - 1, limit) {
                    Some(number) => {
                        if number < 1 {
                            return false;
                        }
                    },
                    None => {
                        return false;
                    },
                }
            },
            None => {},
        }
        i += 1;
    }
    true
}

/// Resolves the footnote markers of the reply's text, first marker first: each
/// becomes the superscript numeral of its number, the annotations of `entries`
/// move with the text, and a link that covers the numeral and points to the
/// attribution of that number is appended to `entries`. Succeeds where every
/// marker names one of the attributions: no marker is then left in the text,
/// every annotation that lay within the text still does, and behind them stands
/// one link for each marker, on the numeral of the marker. Fails where a marker
/// names no attribution, and then leaves the reply and `entries` as they were.
pub fn fix_attributions(answer: &mut RawReply, entries: &mut Vec<Annotation>) -> (result: Result<
    (),
    RenderError,
>)
    ensures
        final(answer).source_attributions == old(answer).source_attributions,
        result is Ok <==> numerals_in_range(
            marker_numerals(old(answer).text@, 0),
            old(answer).source_attributions@.len(),
        ),
        match resolved_citations(
            old(answer).text@,
            url_views(old(answer).source_attributions@),
            annotation_views(old(entries)@),
        ) {
            Ok((text, links)) => {
                &&& result is Ok
                &&& final(answer).text@ == text
                &&& annotation_views(final(entries)@) == links
            },
            Err(e) => {
                &&& result == Err::<(), RenderError>(e)
                &&& *final(answer) == *old(answer)
                &&& *final(entries) == *old(entries)
            },
        },
        result is Ok ==> {
            let numerals = marker_numerals(old(answer).text@, 0);
            &&& forall|j: int| !marker_at(final(answer).text@, j)
            &&& final(entries)@.len() == old(entries)@.len() + numerals.len()
            &&& forall|k: int|
                0 <= k < old(entries)@.len() && old(entries)@[k]@.end() <= utf16_len(
                    old(answer).text@,
                ) ==> (#[trigger] final(entries)@[k])@.end() <= utf16_len(final(answer).text@)
            &&& forall|k: int|
                0 <= k < numerals.len() ==> (#[trigger] final(entries)@[old(entries)@.len() + k])@.covers(
                    final(answer).text@,
                    sup_text(numerals[k]),
                )
        },
{
    let ghost urls = url_views(answer.source_attributions@);
    let ghost marks = annotation_views(entries@);
    let mut text = chars_of(answer.text.as_str());
    let limit = answer.source_attributions.len();
    proof {
        lemma_resolved_citations(text@, urls, marks);
    }
    if !markers_in_range(text.as_slice(), limit) {
        return Err(RenderError::IndexOutOfRange);
    }
    let mut next = find_marker(text.as_slice());
    while next.is_some()
        invariant
            *answer == *old(answer),
            urls == url_views(answer.source_attributions@),
            urls.len() == limit,
            marks == annotation_views(old(entries)@),
            utf16_len(text@) <= usize::MAX,
            numerals_in_range(marker_numerals(text@, 0), limit as nat),
            resolved_citations(old(answer).text@, urls, marks) == resolved_citations(
                text@,
                urls,
                annotation_views(entries@),
            ),
            match first_marker(text@, 0) {
                Some(i) => next matches Some(m) && m.start == i && m.end == marker_end(text@, i)
                    && m.start + 4 <= m.end <= text@.len(),
                None => next is None,
            },
        decreases text@.len(),
    {
        let m = next.unwrap();
        proof {
            lemma_first_marker(text@, 0);
            lemma_digits_end(text@, m.start as int + 2);
            lemma_citation_rewrite_shrinks(text@, m.start as int);
            lemma_rewrite_keeps_later_markers(text@, m.start as int);
            lemma_numerals_in_range_split(
                marker_numeral(text@, m.start as int),
                marker_numerals(citation_rewrite(text@, m.start as int), 0),
                limit as nat,
            );
            lemma_utf16_len_subrange(text@, 0, m.start as int);
            assert(text@.subrange(0, m.start as int) =~= text@.take(m.start as int));
        }
        let number = match numeral_up_to(text.as_slice(), m.start + 2, m.end - 1, limit) {
            Some(number) => number,
            None => {
                return Err(RenderError::IndexOutOfRange);
            },
        };
        let url = answer.source_attributions[number - 1].clone();
        let utf16_start = utf16_len_of(text.as_slice(), 0, m.start);
        let mut rewritten = slice_chars(text.as_slice(), 0, m.start);
        push_sup(number, &mut rewritten);
        let utf16_size = rewritten.len() - m.start;
        push_chars(&mut rewritten, vstd::slice::slice_subrange(text.as_slice(), m.end, text.len()));
        proof {
            lemma_sup_text_utf16_len(number as nat);
            assert(text@.subrange(m.end as int, text@.len() as int) =~= text@.skip(m.end as int));
            assert(rewritten@ =~= citation_rewrite(text@, m.start as int));
        }
        move_entries(entries, utf16_start, m.end - m.start, utf16_size);
        let link = Annotation::link(utf16_start, utf16_size, url);
        proof {
            lemma_annotation_views_push(entries@, link);
        }
        entries.push(link);
        text = rewritten;
        next = find_marker(text.as_slice());
    }
    answer.text = from_chars(text.as_slice());
    proof {
        lemma_resolved_citations(old(answer).text@, urls, marks);
        lemma_resolved_citations_within(old(answer).text@, urls, marks);
        lemma_links_cover_numerals(old(answer).text@, urls, marks);
        lemma_first_marker(text@, 0);
        assert(annotation_views(entries@).len() == entries@.len());
        assert forall|k: int| 0 <= k < entries@.len() implies annotation_views(entries@)[k]
            == #[trigger] entries@[k]@ by {}
        assert forall|k: int| 0 <= k < old(entries)@.len() implies marks[k] == #[trigger] old(
            entries,
        )@[k]@ by {}
    }
    Ok(())
}

fn bold_end_at(chars: &[char], i: usize) -> (end: Option<usize>)
    requires
        i < chars@.len(),
    ensures
        match end {
            Some(e) => bold_at(chars@, i as int) && e == bold_end(chars@, i as int) && i + 5 <= e
                <= chars@.len(),
            None => !bold_at(chars@, i as int),
        },
{
    if chars.len() - i > 4 && chars[i] == '*' && chars[i + 1] == '*' && chars[i + 2] != '*' {
        let star = find_char(chars, '*', i + 2);
        if chars.len() - star > 1 && chars[star + 1] == '*' {
            proof {
                lemma_index_of(chars@, '*', i as int + 2);
            }
            return Some(star + 2);
        }
    }
    None
}

/// The first bold span of `chars`, if there is one.
pub fn find_bold(chars: &[char]) -> (found: Option<DetachedMatch>)
    ensures
        match first_bold(chars@, 0) {
            Some(i) => found matches Some(m) && m.start == i && m.end == bold_end(chars@, i)
                && m.start + 5 <= m.end <= chars@.len(),
            None => found is None,
        },
{
    let mut i: usize = 0;
    while i < chars.len()
        invariant
            i <= chars@.len(),
            first_bold(chars@, 0) == first_bold(chars@, i as int),
        decreases chars@.len() - i,
    {
        match bold_end_at(chars, i) {
            Some(end) => {
                return Some(DetachedMatch { start: i, end });
            },
            None => {},
        }
        i += 1;
    }
    None
}

/// Resolves the bold spans of the reply's text, first span first: each is
/// replaced by the chars between its markers, the annotations of `entries`
/// move with the text, and a bold annotation on those chars is appended to
/// `entries`. No bold span is left in the text, every annotation that lay
/// within the text still does, and behind them stands one bold annotation for
/// each span, on the chars that stood between its markers.
pub fn fix_bold(answer: &mut RawReply, entries: &mut Vec<Annotation>)
    ensures
        final(answer).source_attributions == old(answer).source_attributions,
        final(answer).text@ == resolved_bold(
            old(answer).text@,
            annotation_views(old(entries)@),
        ).0,
        annotation_views(final(entries)@) == resolved_bold(
            old(answer).text@,
            annotation_views(old(entries)@),
        ).1,
        forall|j: int| !bold_at(final(answer).text@, j),
        final(entries)@.len() == old(entries)@.len() + bold_inners(old(answer).text@).len(),
        forall|k: int|
            0 <= k < old(entries)@.len() && old(entries)@[k]@.end() <= utf16_len(
                old(answer).text@,
            ) ==> (#[trigger] final(entries)@[k])@.end() <= utf16_len(final(answer).text@),
        forall|k: int|
            0 <= k < bold_inners(old(answer).text@).len() ==> {
                let mark = (#[trigger] final(entries)@[old(entries)@.len() + k])@;
                &&& mark.kind == KindView::Bold
                &&& mark.covers(final(answer).text@, bold_inners(old(answer).text@)[k])
                &&& is_plain(bold_inners(old(answer).text@)[k])
            },
{
    let ghost marks = annotation_views(entries@);
    let mut text = chars_of(answer.text.as_str());
    let mut next = find_bold(text.as_slice());
    while next.is_some()
        invariant
            *answer == *old(answer),
            marks == annotation_views(old(entries)@),
            utf16_len(text@) <= usize::MAX,
            resolved_bold(old(answer).text@, marks) == resolved_bold(
                text@,
                annotation_views(entries@),
            ),
            match first_bold(text@, 0) {
                Some(i) => next matches Some(m) && m.start == i && m.end == bold_end(text@, i)
                    && m.start + 5 <= m.end <= text@.len(),
                None => next is None,
            },
        decreases text@.len(),
    {
        let m = next.unwrap();
        proof {
            lemma_first_bold(text@, 0);
            lemma_bold_rewrite_shrinks(text@, m.start as int);
            lemma_utf16_len_subrange(text@, 0, m.start as int);
            lemma_utf16_len_subrange(text@, m.start as int + 2, m.end as int - 2);
            assert(text@.subrange(0, m.start as int) =~= text@.take(m.start as int));
            assert(text@.subrange(m.start as int + 2, m.end as int - 2) =~= bold_inner(
                text@,
                m.start as int,
            ));
            assert(text@.subrange(m.end as int, text@.len() as int) =~= text@.skip(m.end as int));
        }
        let utf16_start = utf16_len_of(text.as_slice(), 0, m.start);
        let utf16_size = utf16_len_of(text.as_slice(), m.start + 2, m.end - 2);
        let mut rewritten = slice_chars(text.as_slice(), 0, m.start);
        push_chars(
            &mut rewritten,
            vstd::slice::slice_subrange(text.as_slice(), m.start + 2, m.end - 2),
        );
        push_chars(&mut rewritten, vstd::slice::slice_subrange(text.as_slice(), m.end, text.len()));
        proof {
            assert(rewritten@ =~= bold_rewrite(text@, m.start as int));
        }
        move_entries(entries, utf16_start + utf16_size + 2, 2, 0);
        move_entries(entries, utf16_start, 2, 0);
        let mark = Annotation::bold(utf16_start, utf16_size);
        proof {
            lemma_annotation_views_push(entries@, mark);
        }
        entries.push(mark);
        text = rewritten;
        next = find_bold(text.as_slice());
    }
    answer.text = from_chars(text.as_slice());
    proof {
        lemma_resolved_bold(old(answer).text@, marks);
        lemma_resolved_bold_within(old(answer).text@, marks);
        lemma_resolved_bold_covers(
            old(answer).text@,
            marks,
            marks.len() as int,
            Seq::empty(),
        );
        assert(annotation_views(entries@).len() == entries@.len());
        assert forall|k: int| 0 <= k < entries@.len() implies annotation_views(entries@)[k]
            == #[trigger] entries@[k]@ by {}
        assert forall|k: int| 0 <= k < old(entries)@.len() implies marks[k] == #[trigger] old(
            entries,
        )@[k]@ by {}
    }
}

/// What rendering makes of a raw text and its attributions: the bullets of the
/// text are normalised, then its footnote markers are resolved, then its bold
/// spans. The links come before the bold annotations, and every annotation
/// stands where the rewrites behind it have moved it.
pub open spec fn rendered(text: Seq<char>, urls: Seq<Seq<char>>) -> Result<
    (Seq<char>, Seq<AnnotationView>),
    RenderError,
> {
    match resolved_citations(normalized_list(text), urls, Seq::empty()) {
        Ok((cited, links)) => Ok(resolved_bold(cited, links)),
        Err(e) => Err(e),
    }
}

/// Every annotation of a rendered message lies within its display text and
/// covers at least one code unit: a link covers the superscript numeral of its
/// marker, and a bold annotation the chars that stood between its markers.
pub proof fn lemma_rendered_within(text: Seq<char>, urls: Seq<Seq<char>>)
    ensures
        rendered(text, urls) matches Ok((out, marks)) ==> annotations_within(out, marks)
            && forall|k: int| 0 <= k < marks.len() ==> (#[trigger] marks[k]).length >= 1,
{
    let listed = normalized_list(text);
    match resolved_citations(listed, urls, Seq::empty()) {
        Ok((cited, links)) => {
            let numerals = marker_numerals(listed, 0);
            let parts = Seq::new(numerals.len(), |k: int| sup_text(numerals[k]));
            let out = resolved_bold(cited, links).0;
            let marks = resolved_bold(cited, links).1;
            lemma_resolved_citations(listed, urls, Seq::empty());
            lemma_links_cover_numerals(listed, urls, Seq::empty());
            assert forall|j: int| 0 <= j < links.len() implies (#[trigger] links[j]).covers(
                cited,
                parts[j],
            ) && is_plain(parts[j]) by {
                let none = Seq::<AnnotationView>::empty();
                assert(links[none.len() + j].covers(cited, sup_text(numerals[j])));
                lemma_sup_text_inert(numerals[j]);
                lemma_sup_text_utf16_len(numerals[j]);
            }
            lemma_resolved_bold_covers(cited, links, 0, parts);
            lemma_resolved_bold(cited, links);
            assert forall|k: int| 0 <= k < marks.len() implies (#[trigger] marks[k]).end()
                <= utf16_len(out) && marks[k].length >= 1 by {
                if k < links.len() {
                    lemma_covers_within(marks[k], out, parts[k]);
                } else {
                    let inner = bold_inners(cited)[k - links.len()];
                    assert(marks[links.len() + (k - links.len())].covers(out, inner));
                    lemma_covers_within(marks[k], out, inner);
                }
            }
        },
        Err(_) => {},
    }
}

/// Renders a raw reply into its display text and annotations, each of which
/// lies within the display text and covers at least one code unit. Fails, with
/// no part of the reply rendered, where a footnote marker names no attribution.
pub fn render(answer: RawReply) -> (result: Result<RenderedMessage, RenderError>)
    ensures
        match rendered(answer.text@, url_views(answer.source_attributions@)) {
            Ok((text, marks)) => result matches Ok(message) && message.display_text@ == text
                && annotation_views(message.annotations@) == marks,
            Err(e) => result matches Err(error) && error == e,
        },
        result matches Ok(message) ==> annotations_within(
            message.display_text@,
            annotation_views(message.annotations@),
        ) && forall|k: int|
            0 <= k < message.annotations@.len() ==> (#[trigger] message.annotations@[k]).length >= 1,
{
    proof {
        lemma_rendered_within(answer.text@, url_views(answer.source_attributions@));
    }
    let mut answer = answer;
    let mut entities: Vec<Annotation> = Vec::new();
    proof {
        assert(annotation_views(entities@) =~= Seq::empty());
    }
    fix_unordered_list(&mut answer);
    match fix_attributions(&mut answer, &mut entities) {
        Ok(()) => {},
        Err(e) => {
            return Err(e);
        },
    }
    fix_bold(&mut answer, &mut entities);
    proof {
        assert forall|k: int| 0 <= k < entities@.len() implies (#[trigger] entities@[k]).length
            >= 1 by {
            assert(annotation_views(entities@)[k] == entities@[k]@);
        }
    }
    Ok(RenderedMessage { display_text: answer.text, annotations: entities })
}

} // verus!
