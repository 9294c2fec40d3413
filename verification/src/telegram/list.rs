//! Bullet markers: a dash at the start of a line or right after the end of a
//! sentence.

use vstd::prelude::*;

verus! {

/// The canonical bullet glyph.
pub const BULLET: char = '\u{2022}';

/// Whether `c` ends a sentence: one of `.`, `:`, `?`, `!`.
pub open spec fn is_sentence_end(c: char) -> bool {
    c == '.' || c == ':' || c == '?' || c == '!'
}

/// What a char becomes in a normalised list, given the char before it. A dash
/// at the start of a line becomes the bullet; a dash right after the end of a
/// sentence becomes a line break and the bullet.
pub open spec fn bullet_rewrite(prev: char, c: char) -> Seq<char> {
    if c == '-' && prev == '\n' {
        seq![BULLET]
    } else if c == '-' && is_sentence_end(prev) {
        seq!['\n', BULLET]
    } else {
        seq![c]
    }
}

/// The text with its bullet markers normalised. The start of the text counts
/// as the start of a line.
pub open spec fn normalized_list(text: Seq<char>) -> Seq<char>
    decreases text.len(),
{
    if text.len() == 0 {
        Seq::empty()
    } else {
        let prev = if text.len() == 1 {
            '\n'
        } else {
            text[text.len() - 2]
        };
        normalized_list(text.drop_last()) + bullet_rewrite(prev, text.last())
    }
}

/// The char before place `k` of `text`. The start of the text counts as the
/// start of a line, so a line break stands before its first char.
pub open spec fn char_before(text: Seq<char>, k: int) -> char {
    if k <= 0 {
        '\n'
    } else {
        text[k - 1]
    }
}

/// Whether a raw bullet marker stands at `k`: a dash at the start of a line or
/// right after the end of a sentence.
pub open spec fn raw_bullet_at(text: Seq<char>, k: int) -> bool {
    &&& 0 <= k < text.len()
    &&& text[k] == '-'
    &&& (char_before(text, k) == '\n' || is_sentence_end(char_before(text, k)))
}

/// Whether `text` holds no raw bullet marker.
pub open spec fn has_no_raw_bullet(text: Seq<char>) -> bool {
    forall|k: int| !raw_bullet_at(text, k)
}

/// A normalised list ends as the text ends, or in a bullet.
proof fn lemma_normalized_list_end(text: Seq<char>)
    ensures
        text.len() == 0 ==> normalized_list(text).len() == 0,
        text.len() > 0 ==> normalized_list(text).len() > 0 && (normalized_list(text).last()
            == text.last() || normalized_list(text).last() == BULLET),
{
}

/// No raw bullet marker is left in a normalised list.
pub proof fn lemma_normalized_list_has_no_raw_bullet(text: Seq<char>)
    ensures
        has_no_raw_bullet(normalized_list(text)),
    decreases text.len(),
{
    if text.len() > 0 {
        let head = text.drop_last();
        let done = normalized_list(head);
        let all = normalized_list(text);
        lemma_normalized_list_has_no_raw_bullet(head);
        lemma_normalized_list_end(head);
        assert forall|k: int| !raw_bullet_at(all, k) by {
            if 0 <= k < done.len() {
                assert(all[k] == done[k]);
                assert(char_before(all, k) == char_before(done, k));
                assert(!raw_bullet_at(done, k));
            }
        }
    }
}

/// A text without raw bullet markers is its own normalised list.
pub proof fn lemma_normalized_list_keeps_clean_text(text: Seq<char>)
    requires
        has_no_raw_bullet(text),
    ensures
        normalized_list(text) == text,
    decreases text.len(),
{
    if text.len() > 0 {
        let head = text.drop_last();
        assert forall|k: int| !raw_bullet_at(head, k) by {
            if 0 <= k < head.len() {
                assert(!raw_bullet_at(text, k));
                assert(char_before(head, k) == char_before(text, k));
            }
        }
        lemma_normalized_list_keeps_clean_text(head);
        assert(!raw_bullet_at(text, text.len() - 1));
        assert(normalized_list(text) =~= text);
    } else {
        assert(normalized_list(text) =~= text);
    }
}

/// Normalising a list a second time changes nothing.
pub proof fn lemma_normalized_list_idempotent(text: Seq<char>)
    ensures
        normalized_list(normalized_list(text)) == normalized_list(text),
{
    lemma_normalized_list_has_no_raw_bullet(text);
    lemma_normalized_list_keeps_clean_text(normalized_list(text));
}

} // verus!
