use chat_relay::annotation::{Annotation, AnnotationKind, RawReply};
use chat_relay::azure_tts::{AzureTTS, Gender, Voice};
use chat_relay::bot::{
    extract_story, extract_tts_part, Action, Bot, BotError, CommandKind, Plan,
};
use chat_relay::duolingo::{Duolingo, Vocabulary};
use chat_relay::telegram::citation::RenderError;
use chat_relay::telegram::{IncomingMessage, ParseMode, ReplyReference};

fn voice(short_name: &str, locale: &str) -> Voice {
    Voice {
        name: format!("Microsoft Server Speech Text to Speech Voice ({}, {})", locale, short_name),
        short_name: short_name.to_string(),
        gender: Gender::Female,
        locale: locale.to_string(),
        style_list: Vec::new(),
    }
}

fn word(n: u64, text: &str) -> Vocabulary {
    Vocabulary { id: format!("id{}", n), word_string: text.to_string(), last_practiced_ms: n }
}

fn account(languages: &[&str], words: &[&str]) -> Duolingo {
    Duolingo::new(
        "learner",
        "jwt",
        languages.iter().map(|l| l.to_string()).collect(),
        "en".to_string(),
        words.iter().enumerate().map(|(n, w)| word(n as u64, w)).collect(),
    )
}

fn bot(duolingo: Option<Duolingo>) -> Bot {
    let voices = vec![voice("en-US-Jenny", "en-US"), voice("de-DE-Katja", "de-DE"), voice("de-AT-Ingrid", "de-AT")];
    let mut bot = Bot::new("123:abc", AzureTTS::new("key", voices));
    bot.duolingo = duolingo;
    bot
}

fn incoming(text: Option<&str>, reply_to: Option<ReplyReference>) -> IncomingMessage {
    IncomingMessage { chat_id: 42, id: 7, text: text.map(|t| t.to_string()), reply_to }
}

fn raw(text: &str, urls: &[&str]) -> RawReply {
    RawReply {
        text: text.to_string(),
        source_attributions: urls.iter().map(|u| u.to_string()).collect(),
    }
}

#[test]
fn command_keywords() {
    assert_eq!(CommandKind::try_from("start"), Ok(CommandKind::Start));
    assert_eq!(CommandKind::try_from("duolingo_login"), Ok(CommandKind::DuolingoLogin));
    assert_eq!(CommandKind::try_from("random_word"), Ok(CommandKind::RandomWord));
    assert_eq!(CommandKind::try_from("chat"), Ok(CommandKind::Chat));
    assert_eq!(CommandKind::try_from("story"), Ok(CommandKind::Story));
    assert_eq!(CommandKind::try_from("help"), Ok(CommandKind::Help));
    assert_eq!(CommandKind::try_from("Start"), Err(()));
    assert_eq!(CommandKind::try_from("chat "), Err(()));
    assert_eq!(CommandKind::try_from(""), Err(()));
}

#[test]
fn handle_ignores_what_is_no_request() {
    assert_eq!(Bot::handle(&incoming(None, None)), Action::Ignore);
    assert_eq!(Bot::handle(&incoming(Some("hello"), None)), Action::Ignore);
    assert_eq!(Bot::handle(&incoming(Some(""), None)), Action::Ignore);
    assert_eq!(Bot::handle(&incoming(Some("/"), None)), Action::Ignore);
    assert_eq!(Bot::handle(&incoming(Some("/unknown"), None)), Action::Ignore);
    assert_eq!(Bot::handle(&incoming(Some(" /chat"), None)), Action::Ignore);
}

#[test]
fn handle_routes_commands() {
    assert_eq!(Bot::handle(&incoming(Some("/random_word"), None)), Action::RandomWord);
    assert_eq!(Bot::handle(&incoming(Some("/chat"), None)), Action::StartChat);
    assert_eq!(Bot::handle(&incoming(Some("/chat about tea"), None)), Action::StartChat);
    assert_eq!(Bot::handle(&incoming(Some("/story"), None)), Action::Story);
    assert_eq!(Bot::handle(&incoming(Some("/help"), None)), Action::Help);
    let reply = ReplyReference { message_id: 3, from_bot: true };
    assert_eq!(Bot::handle(&incoming(Some("/story"), Some(reply))), Action::Story);
}

#[test]
fn handle_greets_on_start() {
    match Bot::handle(&incoming(Some("/start"), None)) {
        Action::Greet(message) => {
            assert_eq!(
                message.text,
                "Hello, this is a bot for language learning\\.\n Try `/help` to see what I can do\\."
            );
            assert_eq!(message.chat_id, 42);
            assert_eq!(message.reply_to_message_id, Some(7));
            assert_eq!(message.parse_mode, Some(ParseMode::MarkdownV2));
        }
        other => panic!("{:?}", other),
    }
}

#[test]
fn handle_reads_the_login_arguments() {
    assert_eq!(
        Bot::handle(&incoming(Some("/duolingo_login  learner  token.abc rest "), None)),
        Action::DuolingoLogin { name: "learner".to_string(), jwt: "".to_string() }
    );
    assert_eq!(
        Bot::handle(&incoming(Some("/duolingo_login learner token.abc more"), None)),
        Action::DuolingoLogin { name: "learner".to_string(), jwt: "token.abc".to_string() }
    );
    assert_eq!(
        Bot::handle(&incoming(Some("/duolingo_login learner token"), None)),
        Action::DuolingoLogin { name: "learner".to_string(), jwt: "token".to_string() }
    );
    assert_eq!(
        Bot::handle(&incoming(Some("/duolingo_login learner"), None)),
        Action::MissingCredentials
    );
    assert_eq!(Bot::handle(&incoming(Some("/duolingo_login"), None)), Action::MissingCredentials);
}

#[test]
fn handle_continues_a_conversation_on_a_reply_to_the_bot() {
    let own = ReplyReference { message_id: 5, from_bot: true };
    let other = ReplyReference { message_id: 5, from_bot: false };
    assert_eq!(
        Bot::handle(&incoming(Some("and then?"), Some(own))),
        Action::ResponseChat { key: "42-5".to_string() }
    );
    assert_eq!(Bot::handle(&incoming(Some("and then?"), Some(other))), Action::Ignore);
}

#[test]
fn tts_part_without_mistakes_is_the_trimmed_text() {
    assert_eq!(extract_tts_part("  Guten Tag! \n"), Some("Guten Tag!".to_string()));
    assert_eq!(extract_tts_part(""), Some("".to_string()));
    assert_eq!(extract_tts_part(" \u{a0}\t\u{3000}x\u{2003}"), Some("x".to_string()));
    assert_eq!(extract_tts_part("\u{2022} a"), Some("\u{2022} a".to_string()));
}

#[test]
fn tts_part_skips_the_list_of_mistakes() {
    let text = "Intro. Mistakes you made:\n\u{2022} der, not die\n\u{2022} Haus, not Hause\n\nWie geht es dir? \n";
    assert_eq!(extract_tts_part(text), Some("Wie geht es dir?".to_string()));
    assert_eq!(
        extract_tts_part("Mistakes you made: none.\nWeiter so!"),
        Some("Mistakes you made: none.\nWeiter so!".to_string())
    );
}

#[test]
fn tts_part_needs_the_bullet_lines_to_end() {
    assert_eq!(extract_tts_part("Mistakes you made:\n\u{2022} der, not die"), None);
    assert_eq!(extract_tts_part("Mistakes you made:\n\u{2022} a\n\u{2022} b"), None);
}

#[test]
fn story_is_what_stands_between_the_quotes() {
    assert_eq!(
        extract_story("Here: \"\"\"\n Es war einmal. \n\"\"\" Enjoy!"),
        Some("Es war einmal.".to_string())
    );
    assert_eq!(
        extract_story("\"\"\"a\"\"\"b\"\"\""),
        Some("a\"\"\"b".to_string())
    );
    assert_eq!(extract_story("\"\"\"\"\"\""), Some("".to_string()));
}

#[test]
fn story_needs_two_separate_quotes() {
    assert_eq!(extract_story("no story"), None);
    assert_eq!(extract_story("\"\"\" only one"), None);
    assert_eq!(extract_story("\"\"\"\""), None);
    assert_eq!(extract_story("\"\"\"\"\""), None);
    assert_eq!(extract_story(""), None);
}

#[test]
fn story_plan_asks_for_the_last_five_words() {
    let bot = bot(Some(account(&["de", "fr"], &["eins", "zwei", "drei", "vier", "f\u{fc}nf", "sechs"])));
    assert_eq!(
        bot.story(&incoming(Some("/story"), None)),
        Ok(Plan::Ask {
            prompt: "Please write a short story in de which is less than 200 words, the story should use simple words and these special words must be included: zwei,drei,vier,f\u{fc}nf,sechs. Wrap the story content in two '\"\"\"'s".to_string()
        })
    );
}

#[test]
fn story_plan_errors() {
    let message = incoming(Some("/story"), None);
    assert_eq!(
        bot(Some(account(&[], &["a", "b", "c", "d", "e"]))).story(&message),
        Err(BotError::NoLanguage)
    );
    assert_eq!(
        bot(Some(account(&["de"], &["a", "b", "c", "d"]))).story(&message),
        Err(BotError::TooFewWords)
    );
    match bot(None).story(&message) {
        Ok(Plan::AskLogin(m)) => {
            assert_eq!(m.text, "Please use `/duolingo\\_login` to login to duolingo\\.");
            assert_eq!(m.reply_to_message_id, Some(7));
        }
        other => panic!("{:?}", other),
    }
}

#[test]
fn word_plan_names_the_languages() {
    let bot = bot(Some(account(&["de"], &["Haus"])));
    let message = incoming(Some("/random_word"), None);
    let prompt = "look up German word \"Haus\" in dictionary, output the result in this format: {\"spell\": \"<word>\", \"pronunciation\": \"<IPA of the word>\", \"meaning\": \"<English meaning>\", \"example_sentence\": \"<Example sentence>\", \"example_sentence_translation\": \"<Example sentence's English meaning>\"}";
    assert_eq!(
        bot.word_plan(&message, &word(0, "Haus")),
        Ok(Plan::Ask { prompt: prompt.to_string() })
    );
    assert_eq!(bot.random_word(&message), Ok(Plan::Ask { prompt: prompt.to_string() }));
}

#[test]
fn random_word_is_one_of_the_vocabulary() {
    let words = ["Haus", "Baum", "Hund"];
    let bot = bot(Some(account(&["de"], &words)));
    let message = incoming(Some("/random_word"), None);
    let mut seen = Vec::new();
    for _ in 0..60 {
        match bot.random_word(&message) {
            Ok(Plan::Ask { prompt }) => {
                assert!(words
                    .iter()
                    .any(|w| prompt.starts_with(&format!("look up German word \"{}\" in", w))));
                if !seen.contains(&prompt) {
                    seen.push(prompt);
                }
            }
            other => panic!("{:?}", other),
        }
    }
    assert!(seen.len() > 1);
}

#[test]
fn random_word_errors() {
    let message = incoming(Some("/random_word"), None);
    assert_eq!(bot(Some(account(&["de"], &[]))).random_word(&message), Err(BotError::TooFewWords));
    assert_eq!(bot(Some(account(&[], &["a"]))).random_word(&message), Err(BotError::NoLanguage));
    assert_eq!(
        bot(Some(account(&["zz"], &["a"]))).random_word(&message),
        Err(BotError::UnknownLanguage)
    );
    assert_eq!(
        bot(Some(account(&["deu"], &["a"]))).random_word(&message),
        Err(BotError::UnknownLanguage)
    );
    assert!(matches!(bot(None).random_word(&message), Ok(Plan::AskLogin(_))));
}

#[test]
fn chat_response_renders_hides_and_speaks() {
    let bot = bot(Some(account(&["de"], &["Haus"])));
    let message = incoming(Some("Hallo"), None);
    let reply = raw(
        "**Gut!** Mistakes you made:\n- der (the)[^1]\n\nWie geht's (how are you)? ",
        &["https://a.example/"],
    );
    let response = bot.chat_respond_from_bing(&message, reply).unwrap();
    assert_eq!(
        response.message.text,
        "Gut! Mistakes you made:\n\u{2022} der (the)\u{b9}\n\nWie geht's (how are you)? "
    );
    assert_eq!(
        response.message.entities,
        Some(vec![
            Annotation {
                offset: 35,
                length: 1,
                kind: AnnotationKind::Link("https://a.example/".to_string()),
            },
            Annotation { offset: 0, length: 4, kind: AnnotationKind::Bold },
            Annotation { offset: 30, length: 5, kind: AnnotationKind::Spoiler },
            Annotation { offset: 49, length: 13, kind: AnnotationKind::Spoiler },
        ])
    );
    let units: Vec<u16> = response.message.text.encode_utf16().collect();
    for entity in response.message.entities.as_ref().unwrap() {
        assert!(entity.length >= 1);
        assert!(entity.offset + entity.length <= units.len());
    }
    assert_eq!(String::from_utf16(&units[35..36]).unwrap(), "\u{b9}");
    assert_eq!(response.tts_content, "Wie geht's ?");
    assert_eq!(response.voice, 1);
    assert_eq!(response.message.chat_id, 42);
    assert_eq!(response.message.reply_to_message_id, Some(7));
    assert_eq!(response.message.disable_web_page_preview, Some(true));
    assert_eq!(response.message.parse_mode, None);
}

#[test]
fn chat_response_errors() {
    let message = incoming(Some("Hallo"), None);
    let fine = raw("Hallo", &[]);
    assert_eq!(
        bot(Some(account(&["de"], &[]))).chat_respond_from_bing(&message, raw("x[^1]", &[])),
        Err(BotError::Render(RenderError::IndexOutOfRange))
    );
    assert_eq!(bot(None).chat_respond_from_bing(&message, fine.clone()), Err(BotError::NotLoggedIn));
    assert_eq!(
        bot(Some(account(&[], &[]))).chat_respond_from_bing(&message, fine.clone()),
        Err(BotError::NoLanguage)
    );
    assert_eq!(
        bot(Some(account(&["ja"], &[]))).chat_respond_from_bing(&message, fine.clone()),
        Err(BotError::NoVoice)
    );
    assert_eq!(
        bot(Some(account(&["de"], &[])))
            .chat_respond_from_bing(&message, raw("Mistakes you made:\n- a", &[])),
        Err(BotError::UnfinishedList)
    );
}

#[test]
fn story_response_speaks_the_story() {
    let bot = bot(Some(account(&["AT"], &[])));
    let message = incoming(Some("/story"), None);
    let text = "Hier: \"\"\" Es war **einmal**. \"\"\"";
    let response = bot.story_respond_from_bing(&message, raw(text, &[])).unwrap();
    assert_eq!(response.message.text, text);
    assert_eq!(response.message.entities, None);
    assert_eq!(response.message.disable_web_page_preview, Some(true));
    assert_eq!(response.message.reply_to_message_id, Some(7));
    assert_eq!(response.tts_content, "Es war **einmal**.");
    assert_eq!(response.voice, 2);
}

#[test]
fn story_response_errors() {
    let message = incoming(Some("/story"), None);
    let story = raw("\"\"\"x\"\"\"", &[]);
    assert_eq!(bot(None).story_respond_from_bing(&message, story.clone()), Err(BotError::NotLoggedIn));
    assert_eq!(
        bot(Some(account(&[], &[]))).story_respond_from_bing(&message, story.clone()),
        Err(BotError::NoLanguage)
    );
    assert_eq!(
        bot(Some(account(&["de"], &[]))).story_respond_from_bing(&message, raw("none", &[])),
        Err(BotError::NoStory)
    );
    assert_eq!(
        bot(Some(account(&["pt"], &[]))).story_respond_from_bing(&message, story),
        Err(BotError::NoVoice)
    );
}
