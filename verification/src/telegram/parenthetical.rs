//! Parenthetical asides: `(`, one or more chars other than `)`, and `)`.
//!
//! The asides of a text are read from left to right, each from where the one
//! before it ended. Each becomes a spoiler on its span of the text as it
//! stands, and the scrubbed text is the text without the asides.

use crate::annotation::{annotations_within, AnnotationView, KindView};
use crate::utf16::{lemma_utf16_len_bounds, lemma_utf16_len_subrange, utf16_len};
use crate::text::{index_of, lemma_index_of, lemma_index_of_suffix};
use vstd::prelude::*;

verus! {

/// Whether an aside starts at `i`.
pub open spec fn aside_at(text: Seq<char>, i: int) -> bool {
    &&& 0 <= i
    &&& i + 2 < text.len()
    &&& text[i] == '('
    &&& text[i + 1] != ')'
    &&& index_of(text, ')', i + 1) < text.len()
}

/// The end of the aside that starts at `i`.
pub open spec fn aside_end(text: Seq<char>, i: int) -> int {
    index_of(text, ')', i + 1) + 1
}

/// The spoiler on the aside that starts at `i`.
pub open spec fn aside_spoiler(text: Seq<char>, i: int) -> AnnotationView {
    AnnotationView {
        offset: utf16_len(text.take(i)),
        length: utf16_len(text.subrange(i, aside_end(text, i))),
        kind: KindView::Spoiler,
    }
}

/// The starts of the asides that are read at or after `from`, in order.
pub open spec fn aside_starts(text: Seq<char>, from: int) -> Seq<int>
    decreases text.len() - from,
{
    if from < 0 || from >= text.len() {
        Seq::empty()
    } else if aside_at(text, from) {
        proof {
            lemma_index_of(text, ')', from + 1);
        }
        seq![from] + aside_starts(text, aside_end(text, from))
    } else {
        aside_starts(text, from + 1)
    }
}

/// The spoilers on the asides that are read at or after `from`, in order.
pub open spec fn spoilers(text: Seq<char>, from: int) -> Seq<AnnotationView> {
    aside_starts(text, from).map_values(|i: int| aside_spoiler(text, i))
}

/// The text from `from` on without the asides that are read there.
pub open spec fn scrubbed(text: Seq<char>, from: int) -> Seq<char>
    decreases text.len() - from,
{
    if from < 0 || from >= text.len() {
        Seq::empty()
    } else if aside_at(text, from) {
        proof {
            lemma_index_of(text, ')', from + 1);
        }
        scrubbed(text, aside_end(text, from))
    } else {
        seq![text[from]] + scrubbed(text, from + 1)
    }
}

/// Whether `starts` are starts of asides of `text` at or after `from` that
/// end within the text and follow each other without overlap.
pub open spec fn asides_in_order(text: Seq<char>, from: int, starts: Seq<int>) -> bool {
    forall|k: int|
        0 <= k < starts.len() ==> {
            &&& from <= #[trigger] starts[k]
            &&& aside_at(text, starts[k])
            &&& starts[k] + 3 <= aside_end(text, starts[k]) <= text.len()
            &&& text[aside_end(text, starts[k]) - 1] == ')'
            &&& k > 0 ==> aside_end(text, starts[k - 1]) <= starts[k]
        }
}

/// The asides that are read from `from` on are asides of the text at or after
/// `from`, in order and without overlap.
pub proof fn lemma_aside_starts(text: Seq<char>, from: int)
    requires
        0 <= from,
    ensures
        asides_in_order(text, from, aside_starts(text, from)),
    decreases text.len() - from,
{
    if from < text.len() {
        if aside_at(text, from) {
            lemma_index_of(text, ')', from + 1);
            let starts = aside_starts(text, from);
            let rest = aside_starts(text, aside_end(text, from));
            lemma_aside_starts(text, aside_end(text, from));
            assert(starts =~= seq![from] + rest);
            assert forall|k: int| 0 <= k < starts.len() implies {
                &&& from <= #[trigger] starts[k]
                &&& aside_at(text, starts[k])
                &&& starts[k] + 3 <= aside_end(text, starts[k]) <= text.len()
                &&& text[aside_end(text, starts[k]) - 1] == ')'
                &&& k > 0 ==> aside_end(text, starts[k - 1]) <= starts[k]
            } by {
                if k > 0 {
                    assert(starts[k] == rest[k - 1]);
                    if k > 1 {
                        assert(starts[k - 1] == rest[k - 2]);
                    }
                }
            }
        } else {
            lemma_aside_starts(text, from + 1);
            let starts = aside_starts(text, from + 1);
            assert forall|k: int| 0 <= k < starts.len() implies from <= #[trigger] starts[k] by {}
        }
    }
}

/// Every spoiler lies within the text and covers at least one code unit.
pub proof fn lemma_spoilers_within(text: Seq<char>, from: int)
    requires
        0 <= from,
    ensures
        annotations_within(text, spoilers(text, from)),
        forall|k: int|
            0 <= k < spoilers(text, from).len() ==> (#[trigger] spoilers(text, from)[k]).length >= 1,
{
    lemma_aside_starts(text, from);
    assert forall|k: int| 0 <= k < spoilers(text, from).len() implies (#[trigger] spoilers(
        text,
        from,
    )[k]).offset + spoilers(text, from)[k].length <= utf16_len(text) && spoilers(
        text,
        from,
    )[k].length >= 1 by {
        let i = aside_starts(text, from)[k];
        assert(aside_at(text, i));
        lemma_utf16_len_subrange(text, i, aside_end(text, i));
        lemma_utf16_len_bounds(text.subrange(i, aside_end(text, i)));
    }
}

/// Whether an aside starts at a place depends only on the text from that
/// place on.
proof fn lemma_aside_suffix(a: Seq<char>, p: int, b: Seq<char>, q: int)
    requires
        0 <= p <= a.len(),
        0 <= q <= b.len(),
        a.skip(p) == b.skip(q),
    ensures
        aside_at(a, p) == aside_at(b, q),
{
    assert(a.skip(p).len() == a.len() - p);
    assert(b.skip(q).len() == b.len() - q);
    if a.len() - p > 2 {
        assert(a[p] == a.skip(p)[0] && b[q] == b.skip(q)[0]);
        assert(a[p + 1] == a.skip(p)[1] && b[q + 1] == b.skip(q)[1]);
        assert(a.skip(p + 1) =~= a.skip(p).skip(1));
        assert(b.skip(q + 1) =~= b.skip(q).skip(1));
        lemma_index_of_suffix(a, p + 1, b, q + 1, ')');
    }
}

/// Where no closing parenthesis follows, nothing is scrubbed.
proof fn lemma_scrubbed_without_close(text: Seq<char>, from: int)
    requires
        0 <= from <= text.len(),
        index_of(text, ')', from) >= text.len(),
    ensures
        scrubbed(text, from) == text.skip(from),
    decreases text.len() - from,
{
    if from < text.len() {
        lemma_scrubbed_without_close(text, from + 1);
        assert(scrubbed(text, from) =~= text.skip(from));
    } else {
        assert(scrubbed(text, from) =~= text.skip(from));
    }
}

/// No aside is left in the scrubbed text.
pub proof fn lemma_scrubbed_has_no_aside(text: Seq<char>, from: int)
    requires
        0 <= from,
    ensures
        forall|j: int| !aside_at(scrubbed(text, from), j),
    decreases text.len() - from,
{
    if from < text.len() {
        if aside_at(text, from) {
            lemma_index_of(text, ')', from + 1);
            lemma_scrubbed_has_no_aside(text, aside_end(text, from));
            assert(scrubbed(text, from) == scrubbed(text, aside_end(text, from)));
        } else {
            let all = scrubbed(text, from);
            let rest = scrubbed(text, from + 1);
            lemma_scrubbed_has_no_aside(text, from + 1);
            assert(all =~= seq![text[from]] + rest);
            assert(all.skip(1) =~= rest);
            assert forall|j: int| !aside_at(all, j) by {
                if 1 <= j < all.len() {
                    assert(all.skip(j) =~= rest.skip(j - 1));
                    lemma_aside_suffix(all, j, rest, j - 1);
                } else if j == 0 && aside_at(all, 0) {
                    if from + 1 < text.len() && text[from + 1] == ')' {
                        assert(!aside_at(text, from + 1));
                        assert(rest[0] == ')');
                    } else if from + 1 < text.len() {
                        lemma_index_of(text, ')', from + 1);
                        lemma_scrubbed_without_close(text, from + 1);
                        lemma_index_of_suffix(all, 1, text, from + 1, ')');
                    }
                }
            }
        }
    } else {
        assert(scrubbed(text, from).len() == 0);
    }
}

} // verus!
