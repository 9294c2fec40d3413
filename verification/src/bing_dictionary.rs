//! Dictionary entries: the prompt that asks the backend for one, the part of
//! the backend's answer that holds it, and the message that shows it.

use crate::annotation::{
    annotation_views, annotations_within, Annotation, AnnotationView, KindView, RenderedMessage,
};
use crate::duolingo::Vocabulary;
use crate::utf16::{
    chars_of, lemma_utf16_len_bounds, lemma_utf16_len_subrange, utf16_len, utf16_len_of,
};
use crate::text::{find_char, from_chars, index_of, push_str, slice_chars, to_chars};
use isolang::Language;
use vstd::prelude::*;

verus! {

/// A dictionary entry.
#[derive(Clone, Debug, PartialEq, Eq)]
pub struct Word {
    pub spell: String,
    pub pronunciation: String,
    pub meaning: String,
    pub example_sentence: String,
    pub example_sentence_translation: String,
}

/// The English name of the language with the two-letter code `code`, as
/// `isolang` has it; `None` where `isolang` knows no language of that code.
pub uninterp spec fn english_language_name(code: Seq<char>) -> Option<Seq<char>>;

/// `Language::from_639_1` of `isolang` on `code` and, where it finds a
/// language, `Language::to_name` on that language. Both are lookups in tables
/// that the crate holds, so the result depends on `code` alone.
#[verifier::external_body]
fn language_name(code: &str) -> (name: Option<String>)
    ensures
        match english_language_name(code@) {
            Some(text) => name matches Some(s) && s@ == text,
            None => name is None,
        },
{
    match Language::from_639_1(code) {
        Some(language) => Some(language.to_name().to_string()),
        None => None,
    }
}

/// The prompt that asks for the dictionary entry of `spell`, a word of the
/// language named `language_name`, with meanings in the language named
/// `ui_language_name`.
pub open spec fn lookup_prompt_text(
    spell: Seq<char>,
    language_name: Seq<char>,
    ui_language_name: Seq<char>,
) -> Seq<char> {
    "look up "@ + language_name + " word \""@ + spell
        + "\" in dictionary, output the result in this format: {\"spell\": \"<word>\", \"pronunciation\": \"<IPA of the word>\", \"meaning\": \"<"@
        + ui_language_name
        + " meaning>\", \"example_sentence\": \"<Example sentence>\", \"example_sentence_translation\": \"<Example sentence's "@
        + ui_language_name + " meaning>\"}"@
}

/// The part of `text` from its first `{` to its first `}`, both included;
/// `None` where one of them is missing or the `}` comes first.
pub open spec fn json_object_text(text: Seq<char>) -> Option<Seq<char>> {
    let open = index_of(text, '{', 0);
    let close = index_of(text, '}', 0);
    if open < text.len() && close < text.len() && open < close {
        Some(text.subrange(open, close + 1))
    } else {
        None
    }
}

/// The text of the message that shows `word`: spelling, pronunciation,
/// meaning, example and the example's translation, one to a line.
pub open spec fn word_text(word: &Word) -> Seq<char> {
    word.spell@ + seq!['\n'] + word.pronunciation@ + seq!['\n'] + word.meaning@ + seq!['\n']
        + word.example_sentence@ + seq!['\n'] + word.example_sentence_translation@
}

/// The annotation of `kind` on `part`, which starts at the code unit `offset`;
/// none where `part` is empty.
pub open spec fn annotation_on(part: Seq<char>, offset: nat, kind: KindView) -> Seq<AnnotationView> {
    if part.len() == 0 {
        Seq::empty()
    } else {
        seq![AnnotationView { offset, length: utf16_len(part), kind }]
    }
}

/// The annotations of the message that shows `word`: the spelling is bold, the
/// meaning and the translation of the example are spoilers. A field that is
/// empty gets no annotation.
pub open spec fn word_annotations(word: &Word) -> Seq<AnnotationView> {
    let meaning_start = utf16_len(word.spell@ + seq!['\n'] + word.pronunciation@ + seq!['\n']);
    let translation_start = utf16_len(
        word.spell@ + seq!['\n'] + word.pronunciation@ + seq!['\n'] + word.meaning@ + seq!['\n']
            + word.example_sentence@ + seq!['\n'],
    );
    annotation_on(word.spell@, 0, KindView::Bold) + annotation_on(
        word.meaning@,
        meaning_start,
        KindView::Spoiler,
    ) + annotation_on(word.example_sentence_translation@, translation_start, KindView::Spoiler)
}

impl Word {
    /// The prompt that asks for the dictionary entry of `spell`.
    pub fn lookup_prompt(spell: &str, language_name: &str, ui_language_name: &str) -> (prompt:
        String)
        ensures
            prompt@ == lookup_prompt_text(spell@, language_name@, ui_language_name@),
    {
        let mut out: Vec<char> = Vec::new();
        push_str(&mut out, "look up ");
        push_str(&mut out, language_name);
        push_str(&mut out, " word \"");
        push_str(&mut out, spell);
        push_str(
            &mut out,
            "\" in dictionary, output the result in this format: {\"spell\": \"<word>\", \"pronunciation\": \"<IPA of the word>\", \"meaning\": \"<",
        );
        push_str(&mut out, ui_language_name);
        push_str(
            &mut out,
            " meaning>\", \"example_sentence\": \"<Example sentence>\", \"example_sentence_translation\": \"<Example sentence's ",
        );
        push_str(&mut out, ui_language_name);
        push_str(&mut out, " meaning>\"}");
        from_chars(out.as_slice())
    }

    /// The prompt that asks for the dictionary entry of `vocabulary`, a word of
    /// the language with the code `language`, with meanings in the language
    /// with the code `ui_language`; `None` where one of the codes names no
    /// language.
    pub fn from_vocabulary(vocabulary: &Vocabulary, ui_language: &str, language: &str) -> (prompt:
        Option<String>)
        ensures
            match (english_language_name(language@), english_language_name(ui_language@)) {
                (Some(name), Some(ui_name)) => prompt matches Some(p) && p@ == lookup_prompt_text(
                    vocabulary.word_string@,
                    name,
                    ui_name,
                ),
                _ => prompt is None,
            },
    {
        let language_full_name = match language_name(language) {
            Some(name) => name,
            None => {
                return None;
            },
        };
        let ui_language_full_name = match language_name(ui_language) {
            Some(name) => name,
            None => {
                return None;
            },
        };
        Some(
            Word::lookup_prompt(
                vocabulary.word_string.as_str(),
                language_full_name.as_str(),
                ui_language_full_name.as_str(),
            ),
        )
    }

    /// The part of the backend's answer that holds the entry: from the first
    /// `{` of `text` to its first `}`.
    pub fn json_object(text: &str) -> (object: Option<String>)
        ensures
            match json_object_text(text@) {
                Some(part) => object matches Some(o) && o@ == part,
                None => object is None,
            },
    {
        let chars = to_chars(text);
        let open = find_char(chars.as_slice(), '{', 0);
        let close = find_char(chars.as_slice(), '}', 0);
        if open < chars.len() && close < chars.len() && open < close {
            let part = slice_chars(chars.as_slice(), open, close + 1);
            Some(from_chars(part.as_slice()))
        } else {
            None
        }
    }

    /// The message that shows the entry. Every annotation lies within the text
    /// and covers at least one code unit.
    pub fn to_telegram_message(&self) -> (message: RenderedMessage)
        ensures
            message.display_text@ == word_text(self),
            annotation_views(message.annotations@) == word_annotations(self),
            annotations_within(message.display_text@, annotation_views(message.annotations@)),
            forall|k: int|
                0 <= k < message.annotations@.len() ==> (#[trigger] message.annotations@[k]).length
                    >= 1,
    {
        let mut text: Vec<char> = Vec::new();
        push_str(&mut text, self.spell.as_str());
        let spell_end = text.len();
        text.push('\n');
        push_str(&mut text, self.pronunciation.as_str());
        text.push('\n');
        let meaning_start = text.len();
        push_str(&mut text, self.meaning.as_str());
        let meaning_end = text.len();
        text.push('\n');
        push_str(&mut text, self.example_sentence.as_str());
        text.push('\n');
        let translation_start = text.len();
        push_str(&mut text, self.example_sentence_translation.as_str());
        let display_text = from_chars(text.as_slice());
        let text = chars_of(display_text.as_str());
        let ghost all = text@;
        proof {
            assert(all =~= word_text(self));
            lemma_utf16_len_subrange(all, 0, spell_end as int);
            lemma_utf16_len_subrange(all, 0, meaning_start as int);
            lemma_utf16_len_subrange(all, meaning_start as int, meaning_end as int);
            lemma_utf16_len_subrange(all, 0, translation_start as int);
            lemma_utf16_len_subrange(all, translation_start as int, all.len() as int);
            assert(all.subrange(0, spell_end as int) =~= self.spell@);
            assert(all.subrange(0, meaning_start as int) =~= self.spell@ + seq!['\n']
                + self.pronunciation@ + seq!['\n']);
            assert(all.subrange(meaning_start as int, meaning_end as int) =~= self.meaning@);
            assert(all.subrange(0, translation_start as int) =~= self.spell@ + seq!['\n']
                + self.pronunciation@ + seq!['\n'] + self.meaning@ + seq!['\n']
                + self.example_sentence@ + seq!['\n']);
            assert(all.subrange(translation_start as int, all.len() as int)
                =~= self.example_sentence_translation@);
        }
        let chars = text.as_slice();
        let spell_size = utf16_len_of(chars, 0, spell_end);
        let meaning_offset = utf16_len_of(chars, 0, meaning_start);
        let meaning_size = utf16_len_of(chars, meaning_start, meaning_end);
        let translation_offset = utf16_len_of(chars, 0, translation_start);
        let translation_size = utf16_len_of(chars, translation_start, text.len());
        let mut entities: Vec<Annotation> = Vec::new();
        proof {
            lemma_utf16_len_bounds(self.spell@);
            lemma_utf16_len_bounds(self.meaning@);
            lemma_utf16_len_bounds(self.example_sentence_translation@);
        }
        if spell_end > 0 {
            entities.push(Annotation::bold(0, spell_size));
        }
        if meaning_end > meaning_start {
            entities.push(Annotation::spoiler(meaning_offset, meaning_size));
        }
        if text.len() > translation_start {
            entities.push(Annotation::spoiler(translation_offset, translation_size));
        }
        proof {
            assert(annotation_views(entities@) =~= word_annotations(self));
            assert forall|k: int| 0 <= k < entities@.len() implies (#[trigger] entities@[k]).length
                >= 1 && entities@[k]@.end() <= utf16_len(all) by {}
            assert forall|k: int| 0 <= k < entities@.len() implies (#[trigger] annotation_views(
                entities@,
            )[k]).end() <= utf16_len(all) by {
                assert(annotation_views(entities@)[k] == entities@[k]@);
            }
        }
        RenderedMessage { display_text, annotations: entities }
    }
}

} // verus!
