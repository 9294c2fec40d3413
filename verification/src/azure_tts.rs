//! Speech synthesis: voices, the choice of a voice for a language, and the
//! SSML document that asks for speech.

use crate::text::{contains, find, from_chars, push_str, same_chars, to_chars};
use vstd::prelude::*;

verus! {

/// The gender of a voice.
#[derive(Clone, Copy, Debug, PartialEq, Eq)]
pub enum Gender {
    Male,
    Female,
    Other,
}

/// A voice of the catalog.
#[derive(Clone, Debug, PartialEq, Eq)]
pub struct Voice {
    pub name: String,
    pub short_name: String,
    pub gender: Gender,
    pub locale: String,
    pub style_list: Vec<String>,
}

/// Access to speech synthesis: the subscription key and the catalog of voices.
#[derive(Clone, Debug, PartialEq, Eq)]
pub struct AzureTTS {
    pub subscription_key: String,
    pub voices: Vec<Voice>,
}

/// The name of a gender in an SSML document.
pub open spec fn gender_text(gender: Gender) -> Seq<char> {
    match gender {
        Gender::Male => "Male"@,
        Gender::Female => "Female"@,
        Gender::Other => Seq::empty(),
    }
}

impl Gender {
    /// The name of the gender in an SSML document. `Other` has none.
    pub fn to_string(&self) -> (name: String)
        requires
            !(self is Other),
        ensures
            name@ == gender_text(*self),
    {
        match self {
            Gender::Male => "Male".to_owned(),
            _ => "Female".to_owned(),
        }
    }
}

/// The element of an SSML document that has `voice` say `text`.
pub open spec fn voice_element(locale: Seq<char>, text: Seq<char>, voice: &Voice) -> Seq<char> {
    "<voice xml:lang='"@ + locale + "' xml:gender='"@ + gender_text(voice.gender) + "' name='"@
        + voice.short_name@ + "'>"@ + text + "</voice>"@
}

/// The elements of an SSML document for `content`, in order.
pub open spec fn voice_elements(locale: Seq<char>, content: Seq<(&str, &Voice)>) -> Seq<char>
    decreases content.len(),
{
    if content.len() == 0 {
        Seq::empty()
    } else {
        voice_elements(locale, content.drop_last()) + voice_element(
            locale,
            content.last().0@,
            content.last().1,
        )
    }
}

/// The SSML document that has each text of `content` said by its voice. The
/// document and every element carry the locale of the first voice.
pub open spec fn ssml_text(content: Seq<(&str, &Voice)>) -> Seq<char> {
    "<speak version='1.0' xml:lang='"@ + content[0].1.locale@ + "'>"@ + voice_elements(
        content[0].1.locale@,
        content,
    ) + "</speak>"@
}

/// Whether `i` is the first voice of `voices` whose locale holds `language`.
pub open spec fn is_first_voice_containing(voices: Seq<Voice>, language: Seq<char>, i: int) -> bool {
    &&& 0 <= i < voices.len()
    &&& contains(voices[i].locale@, language)
    &&& forall|j: int| 0 <= j < i ==> !contains(#[trigger] voices[j].locale@, language)
}

/// Whether `i` is the first voice of `voices` whose locale is `language`.
pub open spec fn is_first_voice_of(voices: Seq<Voice>, language: Seq<char>, i: int) -> bool {
    &&& 0 <= i < voices.len()
    &&& voices[i].locale@ == language
    &&& forall|j: int| 0 <= j < i ==> (#[trigger] voices[j]).locale@ != language
}

impl AzureTTS {
    /// Access to speech synthesis with the given key and catalog.
    pub fn new(subscription_key: &str, voices: Vec<Voice>) -> (tts: AzureTTS)
        ensures
            tts.subscription_key@ == subscription_key@,
            tts.voices == voices,
    {
        AzureTTS { subscription_key: subscription_key.to_owned(), voices }
    }

    /// The first voice of the catalog whose locale holds `language`.
    pub fn voice_containing(&self, language: &str) -> (found: Option<usize>)
        ensures
            match found {
                Some(i) => is_first_voice_containing(self.voices@, language@, i as int),
                None => forall|j: int|
                    0 <= j < self.voices@.len() ==> !contains(
                        #[trigger] self.voices@[j].locale@,
                        language@,
                    ),
            },
    {
        let needle = to_chars(language);
        let mut i: usize = 0;
        while i < self.voices.len()
            invariant
                i <= self.voices@.len(),
                needle@ == language@,
                forall|j: int|
                    0 <= j < i ==> !contains(#[trigger] self.voices@[j].locale@, language@),
            decreases self.voices@.len() - i,
        {
            let locale = to_chars(self.voices[i].locale.as_str());
            if find(locale.as_slice(), needle.as_slice(), 0).is_some() {
                return Some(i);
            }
            i += 1;
        }
        None
    }

    /// The first voice of the catalog whose locale is `language`.
    pub fn voice_of(&self, language: &str) -> (found: Option<usize>)
        ensures
            match found {
                Some(i) => is_first_voice_of(self.voices@, language@, i as int),
                None => forall|j: int|
                    0 <= j < self.voices@.len() ==> (#[trigger] self.voices@[j]).locale@
                        != language@,
            },
    {
        let wanted = to_chars(language);
        let mut i: usize = 0;
        while i < self.voices.len()
            invariant
                i <= self.voices@.len(),
                wanted@ == language@,
                forall|j: int| 0 <= j < i ==> (#[trigger] self.voices@[j]).locale@ != language@,
            decreases self.voices@.len() - i,
        {
            let locale = to_chars(self.voices[i].locale.as_str());
            if same_chars(locale.as_slice(), wanted.as_slice()) {
                return Some(i);
            }
            i += 1;
        }
        None
    }

    /// The SSML document that has each text of `content` said by its voice.
    pub fn tts(&self, content: &[(&str, &Voice)]) -> (ssml: String)
        requires
            content@.len() > 0,
            forall|k: int| 0 <= k < content@.len() ==> !((#[trigger] content@[k]).1.gender is Other),
        ensures
            ssml@ == ssml_text(content@),
    {
        let locale = to_chars(content[0].1.locale.as_str());
        let mut out: Vec<char> = Vec::new();
        push_str(&mut out, "<speak version='1.0' xml:lang='");
        crate::text::push_chars(&mut out, locale.as_slice());
        push_str(&mut out, "'>");
        let ghost head = out@;
        let mut i: usize = 0;
        while i < content.len()
            invariant
                i <= content@.len(),
                locale@ == content@[0].1.locale@,
                out@ == head + voice_elements(locale@, content@.take(i as int)),
                forall|k: int|
                    0 <= k < content@.len() ==> !((#[trigger] content@[k]).1.gender is Other),
            decreases content@.len() - i,
        {
            let text: &str = content[i].0;
            let voice: &Voice = content[i].1;
            proof {
                assert(content@.take(i as int + 1).drop_last() =~= content@.take(i as int));
                assert(!(content@[i as int].1.gender is Other));
            }
            let ghost before = out@;
            push_str(&mut out, "<voice xml:lang='");
            crate::text::push_chars(&mut out, locale.as_slice());
            push_str(&mut out, "' xml:gender='");
            push_str(&mut out, voice.gender.to_string().as_str());
            push_str(&mut out, "' name='");
            push_str(&mut out, voice.short_name.as_str());
            push_str(&mut out, "'>");
            push_str(&mut out, text);
            push_str(&mut out, "</voice>");
            proof {
                assert(out@ =~= before + voice_element(locale@, text@, voice));
                assert(out@ =~= head + voice_elements(locale@, content@.take(i as int + 1)));
            }
            i += 1;
        }
        proof {
            assert(content@.take(content@.len() as int) =~= content@);
        }
        push_str(&mut out, "</speak>");
        from_chars(out.as_slice())
    }

    /// The SSML document that has `voice` say `text`.
    pub fn tts_simple(&self, text: &str, voice: &Voice) -> (ssml: String)
        requires
            !(voice.gender is Other),
        ensures
            ssml@ == ssml_text(seq![(text, voice)]),
    {
        let content = [(text, voice)];
        proof {
            assert(content@ =~= seq![(text, voice)]);
        }
        self.tts(content.as_slice())
    }
}

} // verus!
