use chat_relay::annotation::{Annotation, AnnotationKind};
use chat_relay::azure_tts::{AzureTTS, Gender, Voice};
use chat_relay::bing_dictionary::Word;
use chat_relay::duolingo::{Duolingo, Vocabulary};

fn voice(short_name: &str, locale: &str, gender: Gender) -> Voice {
    Voice {
        name: short_name.to_string(),
        short_name: short_name.to_string(),
        gender,
        locale: locale.to_string(),
        style_list: vec!["cheerful".to_string()],
    }
}

fn catalog() -> AzureTTS {
    AzureTTS::new(
        "key",
        vec![
            voice("en-US-Guy", "en-US", Gender::Male),
            voice("de-DE-Katja", "de-DE", Gender::Female),
            voice("de-AT-Jonas", "de-AT", Gender::Male),
            voice("de", "de", Gender::Other),
        ],
    )
}

#[test]
fn gender_names() {
    assert_eq!(Gender::Male.to_string(), "Male");
    assert_eq!(Gender::Female.to_string(), "Female");
}

#[test]
fn ssml_for_one_text() {
    let tts = catalog();
    let katja = tts.voices[1].clone();
    assert_eq!(tts.subscription_key, "key");
    assert_eq!(
        tts.tts_simple("Guten Tag", &katja),
        "<speak version='1.0' xml:lang='de-DE'><voice xml:lang='de-DE' xml:gender='Female' name='de-DE-Katja'>Guten Tag</voice></speak>"
    );
}

#[test]
fn ssml_takes_the_locale_of_the_first_voice() {
    let tts = catalog();
    let guy = tts.voices[0].clone();
    let jonas = tts.voices[2].clone();
    assert_eq!(
        tts.tts(&[("one", &guy), ("zwei", &jonas)]),
        "<speak version='1.0' xml:lang='en-US'><voice xml:lang='en-US' xml:gender='Male' name='en-US-Guy'>one</voice><voice xml:lang='en-US' xml:gender='Male' name='de-AT-Jonas'>zwei</voice></speak>"
    );
}

#[test]
fn voice_whose_locale_holds_the_language() {
    let tts = catalog();
    assert_eq!(tts.voice_containing("de"), Some(1));
    assert_eq!(tts.voice_containing("AT"), Some(2));
    assert_eq!(tts.voice_containing("e"), Some(0));
    assert_eq!(tts.voice_containing(""), Some(0));
    assert_eq!(tts.voice_containing("fr"), None);
    assert_eq!(tts.voice_containing("de-DE-"), None);
}

#[test]
fn voice_of_a_locale() {
    let tts = catalog();
    assert_eq!(tts.voice_of("de"), Some(3));
    assert_eq!(tts.voice_of("de-AT"), Some(2));
    assert_eq!(tts.voice_of("DE"), None);
    assert_eq!(AzureTTS::new("k", Vec::new()).voice_of("de"), None);
}

#[test]
fn lookup_prompt_names_both_languages() {
    let vocabulary =
        Vocabulary { id: "1".to_string(), word_string: "maison".to_string(), last_practiced_ms: 0 };
    assert_eq!(
        Word::from_vocabulary(&vocabulary, "de", "fr"),
        Some(
            "look up French word \"maison\" in dictionary, output the result in this format: {\"spell\": \"<word>\", \"pronunciation\": \"<IPA of the word>\", \"meaning\": \"<German meaning>\", \"example_sentence\": \"<Example sentence>\", \"example_sentence_translation\": \"<Example sentence's German meaning>\"}"
                .to_string()
        )
    );
    assert_eq!(Word::from_vocabulary(&vocabulary, "de", "xx"), None);
    assert_eq!(Word::from_vocabulary(&vocabulary, "german", "fr"), None);
    assert_eq!(Word::from_vocabulary(&vocabulary, "", "fr"), None);
}

#[test]
fn json_object_is_cut_out_of_the_answer() {
    assert_eq!(
        Word::json_object("Sure! {\"spell\": \"Haus\"} Anything else? {}"),
        Some("{\"spell\": \"Haus\"}".to_string())
    );
    assert_eq!(Word::json_object("\u{1F600}{}"), Some("{}".to_string()));
    assert_eq!(Word::json_object("} {"), None);
    assert_eq!(Word::json_object("{ open"), None);
    assert_eq!(Word::json_object("none"), None);
}

#[test]
fn word_message_marks_spelling_meaning_and_translation() {
    let word = Word {
        spell: "Stra\u{df}e\u{1F600}".to_string(),
        pronunciation: "\u{2c8}\u{283}t\u{281}a\u{2d0}s\u{259}".to_string(),
        meaning: "street".to_string(),
        example_sentence: "Die Stra\u{df}e ist lang.".to_string(),
        example_sentence_translation: "The street is long.".to_string(),
    };
    let message = word.to_telegram_message();
    assert_eq!(
        message.display_text,
        "Stra\u{df}e\u{1F600}\n\u{2c8}\u{283}t\u{281}a\u{2d0}s\u{259}\nstreet\nDie Stra\u{df}e ist lang.\nThe street is long."
    );
    assert_eq!(
        message.annotations,
        vec![
            Annotation { offset: 0, length: 8, kind: AnnotationKind::Bold },
            Annotation { offset: 18, length: 6, kind: AnnotationKind::Spoiler },
            Annotation { offset: 46, length: 19, kind: AnnotationKind::Spoiler },
        ]
    );
    let units: Vec<u16> = message.display_text.encode_utf16().collect();
    assert_eq!(String::from_utf16(&units[18..24]).unwrap(), "street");
    assert_eq!(String::from_utf16(&units[46..65]).unwrap(), "The street is long.");
}

#[test]
fn word_message_of_empty_fields() {
    let word = Word {
        spell: String::new(),
        pronunciation: String::new(),
        meaning: String::new(),
        example_sentence: String::new(),
        example_sentence_translation: String::new(),
    };
    let message = word.to_telegram_message();
    assert_eq!(message.display_text, "\n\n\n\n");
    assert_eq!(message.annotations, Vec::new());
    let word = Word {
        spell: "a".to_string(),
        pronunciation: String::new(),
        meaning: String::new(),
        example_sentence: "b".to_string(),
        example_sentence_translation: "c".to_string(),
    };
    let message = word.to_telegram_message();
    assert_eq!(message.display_text, "a\n\n\nb\nc");
    assert_eq!(
        message.annotations,
        vec![
            Annotation { offset: 0, length: 1, kind: AnnotationKind::Bold },
            Annotation { offset: 6, length: 1, kind: AnnotationKind::Spoiler },
        ]
    );
}

#[test]
fn account_and_recent_words() {
    let words: Vec<Vocabulary> = ["a", "b", "c", "d", "e", "f", "g"]
        .iter()
        .map(|w| Vocabulary { id: w.to_string(), word_string: w.to_string(), last_practiced_ms: 1 })
        .collect();
    let account =
        Duolingo::new("learner", "jwt", vec!["de".to_string()], "en".to_string(), words.clone());
    assert_eq!(account.duolingo_name, "learner");
    assert_eq!(account.duolingo_jwt, "jwt");
    assert_eq!(account.languages, vec!["de".to_string()]);
    assert_eq!(account.ui_language, "en");
    assert_eq!(account.vocabulary, words);
    assert_eq!(account.recent_words(), "c,d,e,f,g");
    assert_eq!(Duolingo::user_url("learner"), "https://www.duolingo.com/users/learner");
}
