//! Bold spans: `**`, one or more chars other than `*`, and `**`.
//!
//! Resolving a text replaces its first bold span by the chars between the
//! markers and notes a bold annotation on them, until no bold span is left.
//! The annotations made before move with the text: each marker that is taken
//! out to the left of a place moves the place left.

use crate::annotation::{moved_all, AnnotationView, KindView};
use crate::text::{index_of, lemma_index_of};
use crate::utf16::{lemma_utf16_len_concat, lemma_utf16_len_single, utf16_len};
use vstd::prelude::*;

verus! {

/// Whether a bold span starts at `i`.
pub open spec fn bold_at(text: Seq<char>, i: int) -> bool {
    &&& 0 <= i
    &&& i + 4 < text.len()
    &&& text[i] == '*'
    &&& text[i + 1] == '*'
    &&& text[i + 2] != '*'
    &&& index_of(text, '*', i + 2) + 1 < text.len()
    &&& text[index_of(text, '*', i + 2) + 1] == '*'
}

/// The end of the bold span that starts at `i`.
pub open spec fn bold_end(text: Seq<char>, i: int) -> int {
    index_of(text, '*', i + 2) + 2
}

/// The chars between the markers of the bold span that starts at `i`.
pub open spec fn bold_inner(text: Seq<char>, i: int) -> Seq<char> {
    text.subrange(i + 2, index_of(text, '*', i + 2))
}

/// The start of the first bold span at or after `from`.
pub open spec fn first_bold(text: Seq<char>, from: int) -> Option<int>
    decreases text.len() - from,
{
    if from < 0 || from >= text.len() {
        None
    } else if bold_at(text, from) {
        Some(from)
    } else {
        first_bold(text, from + 1)
    }
}

/// The text with the bold span at `i` replaced by the chars between its
/// markers.
pub open spec fn bold_rewrite(text: Seq<char>, i: int) -> Seq<char> {
    text.take(i) + bold_inner(text, i) + text.skip(bold_end(text, i))
}

/// The annotation that the bold span at `i` becomes: it covers the chars that
/// stood between the markers.
pub open spec fn bold_mark(text: Seq<char>, i: int) -> AnnotationView {
    AnnotationView {
        offset: utf16_len(text.take(i)),
        length: utf16_len(bold_inner(text, i)),
        kind: KindView::Bold,
    }
}

/// The annotations `marks` of `text` once the two markers of the bold span at
/// `i` are taken out: first the closing marker, then the opening one.
pub open spec fn bold_moved(marks: Seq<AnnotationView>, text: Seq<char>, i: int) -> Seq<
    AnnotationView,
> {
    moved_all(
        moved_all(marks, (utf16_len(text.take(bold_end(text, i))) - 2) as nat, 2, 0),
        utf16_len(text.take(i)),
        2,
        0,
    )
}

/// The text with every bold span resolved, first span first, and `marks` as
/// the rewrites have moved them, with the annotations of the spans appended in
/// the order in which they were resolved.
pub open spec fn resolved_bold(text: Seq<char>, marks: Seq<AnnotationView>) -> (Seq<char>, Seq<
    AnnotationView,
>)
    decreases text.len(),
{
    match first_bold(text, 0) {
        None => (text, marks),
        Some(i) => {
            proof {
                lemma_first_bold(text, 0);
                lemma_bold_rewrite_shrinks(text, i);
            }
            resolved_bold(bold_rewrite(text, i), bold_moved(marks, text, i).push(bold_mark(text, i)))
        },
    }
}

/// The chars between the markers of the bold spans of `text`, in the order in
/// which the spans are resolved.
pub open spec fn bold_inners(text: Seq<char>) -> Seq<Seq<char>>
    decreases text.len(),
{
    match first_bold(text, 0) {
        None => Seq::empty(),
        Some(i) => {
            proof {
                lemma_first_bold(text, 0);
                lemma_bold_rewrite_shrinks(text, i);
            }
            seq![bold_inner(text, i)] + bold_inners(bold_rewrite(text, i))
        },
    }
}

/// Whether `part` is not empty and holds no `*`.
pub open spec fn is_plain(part: Seq<char>) -> bool {
    part.len() >= 1 && forall|x: int| 0 <= x < part.len() ==> #[trigger] part[x] != '*'
}

/// The first bold span from `from` on is a bold span, and none starts before
/// it.
pub proof fn lemma_first_bold(text: Seq<char>, from: int)
    requires
        0 <= from,
    ensures
        match first_bold(text, from) {
            Some(i) => from <= i && bold_at(text, i) && forall|j: int|
                from <= j < i ==> !bold_at(text, j),
            None => forall|j: int| from <= j ==> !bold_at(text, j),
        },
    decreases text.len() - from,
{
    if from < text.len() && !bold_at(text, from) {
        lemma_first_bold(text, from + 1);
    }
}

/// Resolving the bold span at `i` takes the four marker chars out of the text,
/// two code units in front of the chars between the markers and two behind
/// them.
pub proof fn lemma_bold_rewrite_shrinks(text: Seq<char>, i: int)
    requires
        bold_at(text, i),
    ensures
        i + 5 <= bold_end(text, i) <= text.len(),
        is_plain(bold_inner(text, i)),
        bold_rewrite(text, i).len() + 4 == text.len(),
        utf16_len(bold_rewrite(text, i)) + 4 == utf16_len(text),
        utf16_len(text.take(bold_end(text, i))) == utf16_len(text.take(i)) + utf16_len(
            bold_inner(text, i),
        ) + 4,
        utf16_len(text.take(bold_end(text, i))) <= utf16_len(text),
        utf16_len(text.take(i)) + utf16_len(bold_inner(text, i)) <= utf16_len(
            bold_rewrite(text, i),
        ),
{
    let e = bold_end(text, i);
    let inner = bold_inner(text, i);
    let stars = seq!['*', '*'];
    lemma_index_of(text, '*', i + 2);
    lemma_utf16_len_single('*');
    lemma_utf16_len_concat(seq!['*'], seq!['*']);
    assert(seq!['*'] + seq!['*'] =~= stars);
    assert(text.take(i) + stars + inner + stars + text.skip(e) =~= text);
    assert(text.take(i) + stars + inner + stars =~= text.take(e));
    lemma_utf16_len_concat(text.take(i), stars);
    lemma_utf16_len_concat(text.take(i) + stars, inner);
    lemma_utf16_len_concat(text.take(i) + stars + inner, stars);
    lemma_utf16_len_concat(text.take(i) + stars + inner + stars, text.skip(e));
    lemma_utf16_len_concat(text.take(i), inner);
    lemma_utf16_len_concat(text.take(i) + inner, text.skip(e));
}

/// What resolving yields: no bold span is left in the text, every annotation
/// of `marks` has kept its kind, and behind them stands one bold annotation for
/// each span that was resolved.
pub proof fn lemma_resolved_bold(text: Seq<char>, marks: Seq<AnnotationView>)
    ensures
        forall|j: int| !bold_at(resolved_bold(text, marks).0, j),
        resolved_bold(text, marks).1.len() == marks.len() + bold_inners(text).len(),
        forall|k: int|
            0 <= k < marks.len() ==> (#[trigger] resolved_bold(text, marks).1[k]).kind
                == marks[k].kind,
        forall|k: int|
            marks.len() <= k < resolved_bold(text, marks).1.len() ==> (
            #[trigger] resolved_bold(text, marks).1[k]).kind == KindView::Bold,
    decreases text.len(),
{
    lemma_first_bold(text, 0);
    match first_bold(text, 0) {
        None => {},
        Some(i) => {
            let grown = bold_moved(marks, text, i).push(bold_mark(text, i));
            lemma_bold_rewrite_shrinks(text, i);
            lemma_resolved_bold(bold_rewrite(text, i), grown);
        },
    }
}

/// Every annotation of `marks` that lies within the text lies within the
/// resolved text.
pub proof fn lemma_resolved_bold_within(text: Seq<char>, marks: Seq<AnnotationView>)
    ensures
        forall|k: int|
            0 <= k < marks.len() && marks[k].end() <= utf16_len(text) ==> (
            #[trigger] resolved_bold(text, marks).1[k]).end() <= utf16_len(
                resolved_bold(text, marks).0,
            ),
    decreases text.len(),
{
    lemma_first_bold(text, 0);
    lemma_resolved_bold(text, marks);
    match first_bold(text, 0) {
        None => {},
        Some(i) => {
            let rewritten = bold_rewrite(text, i);
            let grown = bold_moved(marks, text, i).push(bold_mark(text, i));
            lemma_bold_rewrite_shrinks(text, i);
            lemma_resolved_bold_within(rewritten, grown);
            lemma_resolved_bold(rewritten, grown);
            assert forall|k: int| 0 <= k < marks.len() && marks[k].end() <= utf16_len(
                text,
            ) implies (#[trigger] resolved_bold(text, marks).1[k]).end() <= utf16_len(
                resolved_bold(text, marks).0,
            ) by {
                assert(grown[k].end() <= utf16_len(rewritten));
            }
        },
    }
}

/// Where an annotation lies once two markers of two code units each are taken
/// out, one at `open` and one that ends at `close`: as it was in front of the
/// first, two to the left between them, four to the left behind the second.
proof fn lemma_moved_by_markers(mark: AnnotationView, open: nat, close: nat)
    requires
        open + 4 <= close,
    ensures
        mark.end() <= open ==> mark.moved((close - 2) as nat, 2, 0).moved(open, 2, 0) == mark,
        open + 2 <= mark.offset && mark.end() <= close - 2 ==> mark.moved(
            (close - 2) as nat,
            2,
            0,
        ).moved(open, 2, 0) == (AnnotationView { offset: (mark.offset - 2) as nat, ..mark }),
        close <= mark.offset ==> mark.moved((close - 2) as nat, 2, 0).moved(open, 2, 0) == (
        AnnotationView { offset: (mark.offset - 4) as nat, ..mark }),
{
}

/// A part that stands in front of the bold span at `i` stands at the same
/// place once the span is resolved.
proof fn lemma_part_in_front(text: Seq<char>, i: int, at: int, to: int)
    requires
        bold_at(text, i),
        0 <= at <= to <= i,
    ensures
        bold_rewrite(text, i).subrange(at, to) == text.subrange(at, to),
        bold_rewrite(text, i).take(at) == text.take(at),
        utf16_len(text.take(to)) <= utf16_len(text.take(i)),
        to <= bold_rewrite(text, i).len(),
{
    lemma_index_of(text, '*', i + 2);
    lemma_utf16_len_concat(text.take(to), text.subrange(to, i));
    assert(text.take(to) + text.subrange(to, i) =~= text.take(i));
    assert(bold_rewrite(text, i).subrange(at, to) =~= text.subrange(at, to));
    assert(bold_rewrite(text, i).take(at) =~= text.take(at));
}

/// A part that stands between the markers of the bold span at `i` stands two
/// chars and two code units further left once the span is resolved.
proof fn lemma_part_between(text: Seq<char>, i: int, at: int, to: int)
    requires
        bold_at(text, i),
        i + 2 <= at <= to <= bold_end(text, i) - 2,
    ensures
        bold_rewrite(text, i).subrange(at - 2, to - 2) == text.subrange(at, to),
        utf16_len(bold_rewrite(text, i).take(at - 2)) + 2 == utf16_len(text.take(at)),
        utf16_len(text.take(i)) + 2 <= utf16_len(text.take(at)),
        utf16_len(text.take(to)) + 2 <= utf16_len(text.take(bold_end(text, i))),
        to - 2 <= bold_rewrite(text, i).len(),
{
    let e = bold_end(text, i);
    let stars = seq!['*', '*'];
    lemma_index_of(text, '*', i + 2);
    lemma_utf16_len_single('*');
    lemma_utf16_len_concat(seq!['*'], seq!['*']);
    assert(seq!['*'] + seq!['*'] =~= stars);
    lemma_utf16_len_concat(text.take(i), stars);
    assert(text.take(i) + stars =~= text.take(i + 2));
    lemma_utf16_len_concat(text.take(i + 2), text.subrange(i + 2, at));
    assert(text.take(i + 2) + text.subrange(i + 2, at) =~= text.take(at));
    lemma_utf16_len_concat(text.take(i), text.subrange(i + 2, at));
    assert(bold_rewrite(text, i).take(at - 2) =~= text.take(i) + text.subrange(i + 2, at));
    assert(bold_rewrite(text, i).subrange(at - 2, to - 2) =~= text.subrange(at, to));
    lemma_utf16_len_concat(text.take(to), text.subrange(to, e - 2));
    assert(text.take(to) + text.subrange(to, e - 2) =~= text.take(e - 2));
    lemma_utf16_len_concat(text.take(e - 2), stars);
    assert(text.take(e - 2) + stars =~= text.take(e));
}

/// A part that stands behind the bold span at `i` stands four chars and four
/// code units further left once the span is resolved.
proof fn lemma_part_behind(text: Seq<char>, i: int, at: int, to: int)
    requires
        bold_at(text, i),
        bold_end(text, i) <= at <= to <= text.len(),
    ensures
        bold_rewrite(text, i).subrange(at - 4, to - 4) == text.subrange(at, to),
        utf16_len(bold_rewrite(text, i).take(at - 4)) + 4 == utf16_len(text.take(at)),
        utf16_len(text.take(bold_end(text, i))) <= utf16_len(text.take(at)),
        to - 4 <= bold_rewrite(text, i).len(),
{
    let e = bold_end(text, i);
    let inner = bold_inner(text, i);
    lemma_index_of(text, '*', i + 2);
    lemma_bold_rewrite_shrinks(text, i);
    lemma_utf16_len_concat(text.take(e), text.subrange(e, at));
    assert(text.take(e) + text.subrange(e, at) =~= text.take(at));
    lemma_utf16_len_concat(text.take(i), inner);
    lemma_utf16_len_concat(text.take(i) + inner, text.subrange(e, at));
    assert(bold_rewrite(text, i).take(at - 4) =~= text.take(i) + inner + text.subrange(e, at));
    assert(bold_rewrite(text, i).subrange(at - 4, to - 4) =~= text.subrange(at, to));
}

/// An annotation that covers a plain part of the text still covers it once the
/// bold span at `i` is resolved.
pub proof fn lemma_bold_step_keeps_cover(
    text: Seq<char>,
    i: int,
    mark: AnnotationView,
    part: Seq<char>,
)
    requires
        bold_at(text, i),
        mark.covers(text, part),
        is_plain(part),
    ensures
        bold_moved(seq![mark], text, i)[0].covers(bold_rewrite(text, i), part),
{
    let at = choose|at: int| mark.covers_at(text, part, at);
    let e = bold_end(text, i);
    let to = at + part.len();
    let rewritten = bold_rewrite(text, i);
    let open = utf16_len(text.take(i));
    let close = utf16_len(text.take(e));
    let moved = mark.moved((close - 2) as nat, 2, 0).moved(open, 2, 0);
    assert(bold_moved(seq![mark], text, i)[0] == moved);
    lemma_index_of(text, '*', i + 2);
    lemma_bold_rewrite_shrinks(text, i);
    lemma_moved_by_markers(mark, open, close);
    lemma_utf16_len_concat(text.take(at), part);
    assert(text.take(at) + part =~= text.take(to));
    assert(text[i] == '*' && text[i + 1] == '*' && text[e - 2] == '*' && text[e - 1] == '*');
    assert forall|x: int| at <= x < to implies text[x] != '*' by {
        assert(text[x] == part[x - at]);
    }
    if to <= i {
        lemma_part_in_front(text, i, at, to);
        assert(moved.covers_at(rewritten, part, at));
    } else if to <= e - 2 {
        assert(at >= i + 2);
        lemma_part_between(text, i, at, to);
        assert(moved.covers_at(rewritten, part, at - 2));
    } else {
        assert(at >= e);
        lemma_part_behind(text, i, at, to);
        assert(moved.covers_at(rewritten, part, at - 4));
    }
}

/// What the annotations cover in the resolved text. Every annotation of
/// `marks` from `base` on that covered a plain part of the text covers the same
/// part of the resolved text, and the bold annotation of each span covers the
/// chars that stood between the markers of the span.
pub proof fn lemma_resolved_bold_covers(
    text: Seq<char>,
    marks: Seq<AnnotationView>,
    base: int,
    parts: Seq<Seq<char>>,
)
    requires
        0 <= base <= marks.len(),
        parts.len() == marks.len() - base,
        forall|j: int|
            base <= j < marks.len() ==> (#[trigger] marks[j]).covers(text, parts[j - base])
                && is_plain(parts[j - base]),
    ensures
        forall|j: int|
            base <= j < marks.len() ==> (#[trigger] resolved_bold(text, marks).1[j]).covers(
                resolved_bold(text, marks).0,
                parts[j - base],
            ),
        forall|k: int|
            0 <= k < bold_inners(text).len() ==> (#[trigger] resolved_bold(text, marks).1[marks.len()
                + k]).covers(resolved_bold(text, marks).0, bold_inners(text)[k]) && is_plain(
                bold_inners(text)[k],
            ),
    decreases text.len(),
{
    lemma_first_bold(text, 0);
    lemma_resolved_bold(text, marks);
    match first_bold(text, 0) {
        None => {},
        Some(i) => {
            let rewritten = bold_rewrite(text, i);
            let inner = bold_inner(text, i);
            let mark = bold_mark(text, i);
            let grown = bold_moved(marks, text, i).push(mark);
            let all_parts = parts.push(inner);
            let out = resolved_bold(text, marks).0;
            let all = resolved_bold(text, marks).1;
            lemma_bold_rewrite_shrinks(text, i);
            lemma_index_of(text, '*', i + 2);
            assert(rewritten.take(i) =~= text.take(i));
            assert(rewritten.subrange(i, i + inner.len()) =~= inner);
            assert(mark.covers_at(rewritten, inner, i));
            assert forall|j: int| base <= j < grown.len() implies (#[trigger] grown[j]).covers(
                rewritten,
                all_parts[j - base],
            ) && is_plain(all_parts[j - base]) by {
                if j < marks.len() {
                    lemma_bold_step_keeps_cover(text, i, marks[j], parts[j - base]);
                    assert(grown[j] == bold_moved(seq![marks[j]], text, i)[0]);
                }
            }
            lemma_resolved_bold_covers(rewritten, grown, base, all_parts);
            lemma_resolved_bold(rewritten, grown);
            assert forall|k: int| 0 <= k < bold_inners(text).len() implies (#[trigger] all[marks.len()
                + k]).covers(out, bold_inners(text)[k]) && is_plain(bold_inners(text)[k]) by {
                if k == 0 {
                    assert(all[marks.len() as int].covers(out, all_parts[marks.len() - base]));
                } else {
                    assert(all[grown.len() + (k - 1)].covers(
                        out,
                        bold_inners(rewritten)[k - 1],
                    ));
                }
            }
            assert forall|j: int| base <= j < marks.len() implies (#[trigger] all[j]).covers(
                out,
                parts[j - base],
            ) by {
                assert(all[j].covers(out, all_parts[j - base]));
            }
        },
    }
}

} // verus!
