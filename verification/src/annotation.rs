//! Styling annotations on a text, and a text together with its annotations.

use crate::utf16::{lemma_utf16_len_bounds, lemma_utf16_len_subrange, utf16_len};
use vstd::prelude::*;

verus! {

/// What an annotation does to its span.
#[derive(Clone, Debug, PartialEq, Eq)]
pub enum AnnotationKind {
    Bold,
    Spoiler,
    /// A hyperlink to the given URL.
    Link(String),
}

/// A styling directive on a span of a text. `offset` and `length` count
/// UTF-16 code units.
#[derive(Clone, Debug, PartialEq, Eq)]
pub struct Annotation {
    pub offset: usize,
    pub length: usize,
    pub kind: AnnotationKind,
}

/// The mathematical value of an [`AnnotationKind`].
pub enum KindView {
    Bold,
    Spoiler,
    Link(Seq<char>),
}

/// The mathematical value of an [`Annotation`].
pub struct AnnotationView {
    pub offset: nat,
    pub length: nat,
    pub kind: KindView,
}

impl View for AnnotationKind {
    type V = KindView;

    open spec fn view(&self) -> KindView {
        match self {
            AnnotationKind::Bold => KindView::Bold,
            AnnotationKind::Spoiler => KindView::Spoiler,
            AnnotationKind::Link(url) => KindView::Link(url@),
        }
    }
}

impl View for Annotation {
    type V = AnnotationView;

    open spec fn view(&self) -> AnnotationView {
        AnnotationView { offset: self.offset as nat, length: self.length as nat, kind: self.kind@ }
    }
}

/// The values of a list of annotations, in order.
pub open spec fn annotation_views(entries: Seq<Annotation>) -> Seq<AnnotationView> {
    entries.map_values(|a: Annotation| a@)
}

/// Whether every annotation of `marks` lies within `text`: it ends at the
/// latest where the text ends, in UTF-16 code units.
pub open spec fn annotations_within(text: Seq<char>, marks: Seq<AnnotationView>) -> bool {
    forall|k: int|
        0 <= k < marks.len() ==> (#[trigger] marks[k]).offset + marks[k].length <= utf16_len(text)
}

/// Where the place `p` of a text lies once the `removed` code units from
/// `start` on have been replaced by `inserted` code units: a place up to
/// `start` stays, a place behind what was removed moves with the text behind
/// it, and a place in what was removed stays within what was inserted.
pub open spec fn moved_position(p: nat, start: nat, removed: nat, inserted: nat) -> nat {
    if p <= start {
        p
    } else if p >= start + removed {
        (p - removed + inserted) as nat
    } else if p <= start + inserted {
        p
    } else {
        start + inserted
    }
}

impl AnnotationView {
    /// The place behind the last code unit of the annotation.
    pub open spec fn end(self) -> nat {
        self.offset + self.length
    }

    /// The annotation once the `removed` code units from `start` on have been
    /// replaced by `inserted` code units: its start and its end move as places
    /// of the text do.
    pub open spec fn moved(self, start: nat, removed: nat, inserted: nat) -> AnnotationView {
        AnnotationView {
            offset: moved_position(self.offset, start, removed, inserted),
            length: (moved_position(self.end(), start, removed, inserted) - moved_position(
                self.offset,
                start,
                removed,
                inserted,
            )) as nat,
            kind: self.kind,
        }
    }

    /// Whether the annotation covers `part` in `text`: `part` stands in the
    /// text where the annotation starts, and the annotation is as long as
    /// `part`, in UTF-16 code units.
    pub open spec fn covers(self, text: Seq<char>, part: Seq<char>) -> bool {
        exists|at: int| self.covers_at(text, part, at)
    }

    /// Whether the annotation covers `part` in `text` at the char `at`.
    pub open spec fn covers_at(self, text: Seq<char>, part: Seq<char>, at: int) -> bool {
        &&& 0 <= at
        &&& at + part.len() <= text.len()
        &&& text.subrange(at, at + part.len()) == part
        &&& utf16_len(text.take(at)) == self.offset
        &&& utf16_len(part) == self.length
    }
}

/// The annotations once the `removed` code units from `start` on have been
/// replaced by `inserted` code units.
pub open spec fn moved_all(marks: Seq<AnnotationView>, start: nat, removed: nat, inserted: nat) -> Seq<
    AnnotationView,
> {
    marks.map_values(|m: AnnotationView| m.moved(start, removed, inserted))
}

/// An annotation that lies within a text lies within the text that a
/// replacement makes of it.
pub proof fn lemma_moved_within(
    mark: AnnotationView,
    len: nat,
    start: nat,
    removed: nat,
    inserted: nat,
)
    requires
        mark.end() <= len,
        start + removed <= len,
    ensures
        mark.moved(start, removed, inserted).end() <= len - removed + inserted,
{
}

/// An annotation that covers a part of a text covers at least one code unit
/// where the part is not empty, and lies within the text.
pub proof fn lemma_covers_within(mark: AnnotationView, text: Seq<char>, part: Seq<char>)
    requires
        mark.covers(text, part),
    ensures
        mark.end() <= utf16_len(text),
        part.len() >= 1 ==> mark.length >= 1,
{
    let at = choose|at: int| mark.covers_at(text, part, at);
    lemma_utf16_len_subrange(text, at, at + part.len());
    lemma_utf16_len_bounds(part);
}

/// Appending one annotation appends its value.
pub proof fn lemma_annotation_views_push(entries: Seq<Annotation>, a: Annotation)
    ensures
        annotation_views(entries.push(a)) == annotation_views(entries).push(a@),
{
    assert(annotation_views(entries.push(a)) =~= annotation_views(entries).push(a@));
}

/// The place `p` once the `removed` code units from `start` on have been
/// replaced by `inserted` code units.
fn moved_place(p: u128, start: usize, removed: usize, inserted: usize) -> (q: u128)
    requires
        inserted <= removed,
        start + removed <= usize::MAX,
        p <= 2 * usize::MAX,
    ensures
        q == moved_position(p as nat, start as nat, removed as nat, inserted as nat),
        q <= p,
{
    let start = start as u128;
    let removed = removed as u128;
    let inserted = inserted as u128;
    if p <= start {
        p
    } else if p >= start + removed {
        p - removed + inserted
    } else if p <= start + inserted {
        p
    } else {
        start + inserted
    }
}

/// Moves every annotation of `entries` as a replacement of `removed` code
/// units from `start` on by `inserted` code units moves the places of the text.
pub fn move_entries(entries: &mut Vec<Annotation>, start: usize, removed: usize, inserted: usize)
    requires
        inserted <= removed,
        start + removed <= usize::MAX,
    ensures
        annotation_views(final(entries)@) == moved_all(
            annotation_views(old(entries)@),
            start as nat,
            removed as nat,
            inserted as nat,
        ),
{
    let mut k: usize = 0;
    while k < entries.len()
        invariant
            inserted <= removed,
            start + removed <= usize::MAX,
            k <= entries@.len(),
            entries@.len() == old(entries)@.len(),
            forall|j: int| 0 <= j < k ==> (#[trigger] entries@[j])@ == old(entries)@[j]@.moved(
                start as nat,
                removed as nat,
                inserted as nat,
            ),
            forall|j: int| k <= j < entries@.len() ==> #[trigger] entries@[j] == old(entries)@[j],
        decreases entries@.len() - k,
    {
        let offset = entries[k].offset;
        let length = entries[k].length;
        let from = moved_place(offset as u128, start, removed, inserted);
        let to = moved_place(offset as u128 + length as u128, start, removed, inserted);
        entries[k].offset = from as usize;
        entries[k].length = (to - from) as usize;
        k += 1;
    }
    proof {
        assert(annotation_views(entries@) =~= moved_all(
            annotation_views(old(entries)@),
            start as nat,
            removed as nat,
            inserted as nat,
        ));
    }
}

impl Annotation {
    /// A bold span.
    pub fn bold(offset: usize, length: usize) -> (a: Annotation)
        ensures
            a@ == (AnnotationView { offset: offset as nat, length: length as nat, kind: KindView::Bold }),
    {
        Annotation { offset, length, kind: AnnotationKind::Bold }
    }

    /// A spoiler span.
    pub fn spoiler(offset: usize, length: usize) -> (a: Annotation)
        ensures
            a@ == (AnnotationView {
                offset: offset as nat,
                length: length as nat,
                kind: KindView::Spoiler,
            }),
    {
        Annotation { offset, length, kind: AnnotationKind::Spoiler }
    }

    /// A hyperlink span that points to `url`.
    pub fn link(offset: usize, length: usize, url: String) -> (a: Annotation)
        ensures
            a@ == (AnnotationView {
                offset: offset as nat,
                length: length as nat,
                kind: KindView::Link(url@),
            }),
    {
        Annotation { offset, length, kind: AnnotationKind::Link(url) }
    }
}

/// A reply as a backend hands it over: its text, and the URLs that the
/// footnote markers in the text refer to. Marker number `n` refers to
/// `source_attributions[n - 1]`.
#[derive(Clone, Debug, PartialEq, Eq)]
pub struct RawReply {
    pub text: String,
    pub source_attributions: Vec<String>,
}

/// The URLs of an attribution list as char sequences.
pub open spec fn url_views(urls: Seq<String>) -> Seq<Seq<char>> {
    urls.map_values(|u: String| u@)
}

/// A display text with the annotations that style it.
#[derive(Clone, Debug, PartialEq, Eq)]
pub struct RenderedMessage {
    pub display_text: String,
    pub annotations: Vec<Annotation>,
}

} // verus!
