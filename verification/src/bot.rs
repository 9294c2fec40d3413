//! The bot: commands, the route of an incoming message, and what is made of a
//! backend's reply before it is sent and spoken.

use crate::annotation::{
    annotation_views, annotations_within, lemma_annotation_views_push, url_views, Annotation,
    RawReply,
};
use crate::azure_tts::{is_first_voice_containing, AzureTTS};
use crate::bing_dictionary::{english_language_name, lookup_prompt_text, Word};
use crate::duolingo::{joined_words, Duolingo, Vocabulary};
use crate::session::{continuity, session_key_text, Continuity};
use crate::telegram::citation::RenderError;
use crate::telegram::format::{render, rendered};
use crate::telegram::list::BULLET;
use crate::telegram::parenthetical::{
    aside_at, aside_spoiler, lemma_scrubbed_has_no_aside, lemma_spoilers_within, scrubbed,
    spoilers,
};
use crate::telegram::{
    escaped, simple_respond_message, IncomingMessage, OutgoingMessage, ParseMode, Telegram,
};
use crate::text::{
    contains, find, find_char, first_occurrence, from_chars, index_of, last_occurrence,
    lemma_first_occurrence, lemma_index_of, lemma_last_occurrence, push_str, rfind, same_chars,
    slice_chars, to_chars, trim, trimmed,
};
use crate::utf16::{chars_of, lemma_utf16_len_subrange, utf16_len, utf16_len_of};
use crate::util::choose_vocabulary;
use vstd::prelude::*;

verus! {

/// Marks every parenthetical aside of the reply's text as a spoiler, on its
/// span of the text as it stands, and returns the text without the asides, in
/// which no aside is left. The reply itself stays as it is, and every spoiler
/// lies within its text and covers at least one code unit.
pub fn hide_translation(bing_respond: &RawReply, entries: &mut Vec<Annotation>) -> (result: String)
    ensures
        result@ == scrubbed(bing_respond.text@, 0),
        annotation_views(final(entries)@) == annotation_views(old(entries)@) + spoilers(
            bing_respond.text@,
            0,
        ),
        forall|j: int| !aside_at(result@, j),
        annotations_within(bing_respond.text@, spoilers(bing_respond.text@, 0)),
        forall|k: int|
            0 <= k < spoilers(bing_respond.text@, 0).len() ==> (#[trigger] spoilers(
                bing_respond.text@,
                0,
            )[k]).length >= 1,
{
    let origin_text = chars_of(bing_respond.text.as_str());
    let ghost text = origin_text@;
    let mut found: Vec<Annotation> = Vec::new();
    let mut out: Vec<char> = Vec::new();
    let mut i: usize = 0;
    proof {
        assert(annotation_views(found@) + spoilers(text, 0) =~= spoilers(text, 0));
    }
    while i < origin_text.len()
        invariant
            i <= text.len(),
            text == origin_text@,
            text == bing_respond.text@,
            utf16_len(text) <= usize::MAX,
            *entries == *old(entries),
            spoilers(text, 0) == annotation_views(found@) + spoilers(text, i as int),
            scrubbed(text, 0) == out@ + scrubbed(text, i as int),
        decreases text.len() - i,
    {
        let mut end: usize = i;
        if origin_text.len() - i > 2 && origin_text[i] == '(' && origin_text[i + 1] != ')' {
            let close = find_char(origin_text.as_slice(), ')', i + 1);
            if close < origin_text.len() {
                end = close + 1;
            }
        }
        if end > i {
            proof {
                lemma_utf16_len_subrange(text, 0, i as int);
                lemma_utf16_len_subrange(text, i as int, end as int);
                assert(text.subrange(0, i as int) =~= text.take(i as int));
            }
            let utf16_start = utf16_len_of(origin_text.as_slice(), 0, i);
            let utf16_size = utf16_len_of(origin_text.as_slice(), i, end);
            let spoiler = Annotation::spoiler(utf16_start, utf16_size);
            proof {
                lemma_annotation_views_push(found@, spoiler);
                assert(aside_at(text, i as int));
                assert(spoilers(text, i as int) =~= seq![aside_spoiler(text, i as int)] + spoilers(
                    text,
                    end as int,
                ));
                assert(annotation_views(found@.push(spoiler)) + spoilers(text, end as int)
                    =~= annotation_views(found@) + spoilers(text, i as int));
            }
            found.push(spoiler);
            i = end;
        } else {
            proof {
                assert(!aside_at(text, i as int));
                assert(out@.push(text[i as int]) + scrubbed(text, i as int + 1) =~= out@
                    + scrubbed(text, i as int));
            }
            out.push(origin_text[i]);
            i += 1;
        }
    }
    proof {
        lemma_scrubbed_has_no_aside(text, 0);
        lemma_spoilers_within(text, 0);
        assert(annotation_views(found@) + spoilers(text, i as int) =~= annotation_views(found@));
        assert(out@ + scrubbed(text, i as int) =~= out@);
        assert(annotation_views(entries@ + found@) =~= annotation_views(entries@)
            + annotation_views(found@));
    }
    entries.append(&mut found);
    from_chars(out.as_slice())
}

/// The text that a list of mistakes is introduced by.
pub open spec fn mistakes_heading() -> Seq<char> {
    "Mistakes you made:"@
}

/// What is left of `rest` behind its bulleted lines: the text from the end of
/// the line of its last bullet on; `None` where the line of a bullet does not
/// end.
pub open spec fn after_bullets(rest: Seq<char>) -> Option<Seq<char>>
    decreases rest.len(),
{
    let next = index_of(rest, BULLET, 0);
    if next >= rest.len() {
        Some(rest)
    } else {
        let line_end = index_of(rest, '\n', next);
        if line_end >= rest.len() {
            None
        } else {
            proof {
                lemma_index_of(rest, BULLET, 0);
                lemma_index_of(rest, '\n', next);
            }
            after_bullets(rest.skip(line_end))
        }
    }
}

/// The part of a reply that is spoken: without a list of mistakes the whole
/// text, with one what follows the bulleted lines of the list; trimmed either
/// way.
pub open spec fn tts_part(text: Seq<char>) -> Option<Seq<char>> {
    match first_occurrence(text, mistakes_heading(), 0) {
        Some(start) => match after_bullets(text.skip(start)) {
            Some(rest) => Some(trimmed(rest)),
            None => None,
        },
        None => Some(trimmed(text)),
    }
}

/// The part of a reply that is spoken; `None` where the line of a bullet in
/// the list of mistakes does not end.
pub fn extract_tts_part(bing_respond: &str) -> (part: Option<String>)
    ensures
        match tts_part(bing_respond@) {
            Some(text) => part matches Some(p) && p@ == text,
            None => part is None,
        },
{
    let chars = to_chars(bing_respond);
    let heading = to_chars("Mistakes you made:");
    match find(chars.as_slice(), heading.as_slice(), 0) {
        Some(mistake_start) => {
            let mut rest = slice_chars(chars.as_slice(), mistake_start, chars.len());
            proof {
                assert(rest@ =~= chars@.skip(mistake_start as int));
            }
            loop
                invariant
                    after_bullets(chars@.skip(mistake_start as int)) == after_bullets(rest@),
                    chars@ == bing_respond@,
                    first_occurrence(chars@, mistakes_heading(), 0) == Some(mistake_start as int),
                decreases rest@.len(),
            {
                let next = find_char(rest.as_slice(), BULLET, 0);
                if next >= rest.len() {
                    return Some(from_chars(trim(rest.as_slice()).as_slice()));
                }
                let line_end = find_char(rest.as_slice(), '\n', next);
                if line_end >= rest.len() {
                    return None;
                }
                proof {
                    lemma_index_of(rest@, BULLET, 0);
                    lemma_index_of(rest@, '\n', next as int);
                }
                let shorter = slice_chars(rest.as_slice(), line_end, rest.len());
                proof {
                    assert(shorter@ =~= rest@.skip(line_end as int));
                }
                rest = shorter;
            }
        },
        None => Some(from_chars(trim(chars.as_slice()).as_slice())),
    }
}

/// A command of the bot.
#[derive(Clone, Copy, Debug, PartialEq, Eq)]
pub enum CommandKind {
    Start,
    DuolingoLogin,
    RandomWord,
    Chat,
    Story,
    Help,
}

/// The command that the keyword `s` names.
pub open spec fn command_of(s: Seq<char>) -> Option<CommandKind> {
    if s == "start"@ {
        Some(CommandKind::Start)
    } else if s == "duolingo_login"@ {
        Some(CommandKind::DuolingoLogin)
    } else if s == "random_word"@ {
        Some(CommandKind::RandomWord)
    } else if s == "chat"@ {
        Some(CommandKind::Chat)
    } else if s == "story"@ {
        Some(CommandKind::Story)
    } else if s == "help"@ {
        Some(CommandKind::Help)
    } else {
        None
    }
}

fn is_keyword(s: &[char], keyword: &str) -> (same: bool)
    ensures
        same == (s@ == keyword@),
{
    let wanted = to_chars(keyword);
    same_chars(s, wanted.as_slice())
}

fn command_of_chars(s: &[char]) -> (command: Option<CommandKind>)
    ensures
        command == command_of(s@),
{
    if is_keyword(s, "start") {
        Some(CommandKind::Start)
    } else if is_keyword(s, "duolingo_login") {
        Some(CommandKind::DuolingoLogin)
    } else if is_keyword(s, "random_word") {
        Some(CommandKind::RandomWord)
    } else if is_keyword(s, "chat") {
        Some(CommandKind::Chat)
    } else if is_keyword(s, "story") {
        Some(CommandKind::Story)
    } else if is_keyword(s, "help") {
        Some(CommandKind::Help)
    } else {
        None
    }
}

impl CommandKind {
    /// The command that the keyword `s` names.
    pub fn try_from(s: &str) -> (result: Result<CommandKind, ()>)
        ensures
            match command_of(s@) {
                Some(command) => result == Ok::<CommandKind, ()>(command),
                None => result is Err,
            },
    {
        let chars = to_chars(s);
        match command_of_chars(chars.as_slice()) {
            Some(command) => Ok(command),
            None => Err(()),
        }
    }
}

/// What the bot does with an incoming message.
#[derive(Clone, Debug, PartialEq, Eq)]
pub enum Action {
    /// Nothing.
    Ignore,
    /// Answer with the greeting.
    Greet(OutgoingMessage),
    /// Link the account `name` of the vocabulary provider with the credential
    /// `jwt`.
    DuolingoLogin { name: String, jwt: String },
    /// The login command came without an account name and a credential.
    MissingCredentials,
    /// Show a random word of the vocabulary.
    RandomWord,
    /// Start a conversation.
    StartChat,
    /// Tell a story.
    Story,
    /// Show the help.
    Help,
    /// Continue the conversation that is kept under `key`.
    ResponseChat { key: String },
}

/// The text of the greeting.
pub open spec fn greeting() -> Seq<char> {
    "Hello, this is a bot for language learning.\n Try `/help` to see what I can do."@
}

/// The text that asks the user to log in.
pub open spec fn login_request() -> Seq<char> {
    "Please use `/duolingo_login` to login to duolingo."@
}

/// The account name and the credential in the arguments of the login command:
/// the arguments are trimmed, the name is what stands before their first space
/// and the credential what stands between that space and the next. `None`
/// where the trimmed arguments hold no space.
pub open spec fn login_arguments(params: Seq<char>) -> Option<(Seq<char>, Seq<char>)> {
    let args = trimmed(params);
    let name_end = index_of(args, ' ', 0);
    if name_end >= args.len() {
        None
    } else {
        Some((args.take(name_end), args.subrange(name_end + 1, index_of(args, ' ', name_end + 1))))
    }
}

/// The keyword of a command text: what stands between the slash and the first
/// space.
pub open spec fn command_keyword(text: Seq<char>) -> Seq<char> {
    text.subrange(1, index_of(text, ' ', 0))
}

/// The arguments of a command text: what stands from the first space on.
pub open spec fn command_arguments(text: Seq<char>) -> Seq<char> {
    text.skip(index_of(text, ' ', 0))
}

/// What is wrong with the bot's state or with a reply, so that no answer can be
/// made of it.
#[derive(Clone, Copy, Debug, PartialEq, Eq)]
pub enum BotError {
    /// No account of the vocabulary provider is linked.
    NotLoggedIn,
    /// The linked account learns no language.
    NoLanguage,
    /// The linked account has no words, or fewer than a story takes.
    TooFewWords,
    /// A language code names no language.
    UnknownLanguage,
    /// The catalog has no voice for the language.
    NoVoice,
    /// The reply holds no story between two `"""`.
    NoStory,
    /// The line of a bullet in the list of mistakes does not end.
    UnfinishedList,
    /// The reply cannot be rendered.
    Render(RenderError),
}

/// An answer to send with the text to speak along with it.
#[derive(Clone, Debug, PartialEq, Eq)]
pub struct SpokenResponse {
    pub message: OutgoingMessage,
    /// The text to speak.
    pub tts_content: String,
    /// The place in the catalog of the voice that speaks it.
    pub voice: usize,
}

/// What is to be done for a request that needs a linked account.
#[derive(Clone, Debug, PartialEq, Eq)]
pub enum Plan {
    /// No account is linked: answer with the request to log in.
    AskLogin(OutgoingMessage),
    /// Send `prompt` to the backend.
    Ask { prompt: String },
}

/// The state of the bot of one chat.
#[derive(Clone, Debug, PartialEq, Eq)]
pub struct Bot {
    pub telegram: Telegram,
    pub azure_tts: AzureTTS,
    pub duolingo: Option<Duolingo>,
}

/// The story that a reply holds: what stands between its first and its last
/// `"""`, trimmed; `None` where there is no `"""` or the first and the last
/// overlap.
pub open spec fn story_content(text: Seq<char>) -> Option<Seq<char>> {
    match (
        first_occurrence(text, "\"\"\""@, 0),
        last_occurrence(text, "\"\"\""@, text.len() - 3),
    ) {
        (Some(start), Some(end)) => if start + 3 <= end {
            Some(trimmed(text.subrange(start + 3, end)))
        } else {
            None
        },
        _ => None,
    }
}

/// The prompt that asks for a story in `language` around `words`.
pub open spec fn story_prompt_text(language: Seq<char>, words: Seq<char>) -> Seq<char> {
    "Please write a short story in "@ + language
        + " which is less than 200 words, the story should use simple words and these special words must be included: "@
        + words + ". Wrap the story content in two '\"\"\"'s"@
}

/// Whether `prompt` asks for the dictionary entry of one of the words of
/// `vocabulary`.
pub open spec fn is_prompt_for_one_of(
    vocabulary: Seq<Vocabulary>,
    name: Seq<char>,
    ui_name: Seq<char>,
    prompt: Seq<char>,
) -> bool {
    exists|i: int|
        0 <= i < vocabulary.len() && prompt == lookup_prompt_text(
            (#[trigger] vocabulary[i]).word_string@,
            name,
            ui_name,
        )
}

/// The story that the reply `text` holds.
pub fn extract_story(text: &str) -> (story: Option<String>)
    ensures
        match story_content(text@) {
            Some(content) => story matches Some(s) && s@ == content,
            None => story is None,
        },
{
    let chars = to_chars(text);
    let quotes = to_chars("\"\"\"");
    proof {
        reveal_strlit("\"\"\"");
        assert(quotes@.len() == 3);
        lemma_first_occurrence(chars@, quotes@, 0);
        lemma_last_occurrence(chars@, quotes@, chars@.len() - 3);
    }
    let start_position = match find(chars.as_slice(), quotes.as_slice(), 0) {
        Some(at) => at,
        None => {
            return None;
        },
    };
    let end_position = match rfind(chars.as_slice(), quotes.as_slice()) {
        Some(at) => at,
        None => {
            return None;
        },
    };
    proof {
        assert(crate::text::occurs_at(chars@, quotes@, end_position as int));
        assert(start_position <= end_position);
    }
    if end_position - start_position < 3 {
        return None;
    }
    let content = slice_chars(chars.as_slice(), start_position + 3, end_position);
    Some(from_chars(trim(content.as_slice()).as_slice()))
}

impl Bot {
    /// The bot of a chat with no account linked.
    pub fn new(telegram_token: &str, azure_tts: AzureTTS) -> (bot: Bot)
        ensures
            bot.telegram.token@ == telegram_token@,
            bot.azure_tts == azure_tts,
            bot.duolingo is None,
    {
        Bot { telegram: Telegram::new(telegram_token), azure_tts, duolingo: None }
    }

    /// What the bot does with `message`. A text that starts with a slash is a
    /// command, whatever it replies to; an unknown command is ignored. Any
    /// other text continues a conversation where it replies to a message of the
    /// bot, and is ignored where it does not.
    pub fn handle(message: &IncomingMessage) -> (action: Action)
        ensures
            match message.text {
                None => action is Ignore,
                Some(text) => if text@.len() > 0 && text@[0] == '/' {
                    match command_of(command_keyword(text@)) {
                        Some(CommandKind::Start) => action matches Action::Greet(m) && m.text@
                            == escaped(greeting()) && m.chat_id == message.chat_id
                            && m.reply_to_message_id == Some(message.id) && m.parse_mode == Some(
                            ParseMode::MarkdownV2,
                        ) && m.entities is None && m.disable_web_page_preview is None,
                        Some(CommandKind::DuolingoLogin) => match login_arguments(
                            command_arguments(text@),
                        ) {
                            Some((account, credential)) => action matches Action::DuolingoLogin {
                                name,
                                jwt,
                            } && name@ == account && jwt@ == credential,
                            None => action is MissingCredentials,
                        },
                        Some(CommandKind::RandomWord) => action is RandomWord,
                        Some(CommandKind::Chat) => action is StartChat,
                        Some(CommandKind::Story) => action is Story,
                        Some(CommandKind::Help) => action is Help,
                        None => action is Ignore,
                    }
                } else {
                    match message.reply_to {
                        Some(reply) if reply.from_bot => action matches Action::ResponseChat {
                            key,
                        } && key@ == session_key_text(
                            message.chat_id as int,
                            reply.message_id as int,
                        ),
                        _ => action is Ignore,
                    }
                },
            },
    {
        let text = match &message.text {
            Some(text) => to_chars(text.as_str()),
            None => {
                return Action::Ignore;
            },
        };
        if text.len() > 0 && text[0] == '/' {
            let end_of_command_text = find_char(text.as_slice(), ' ', 0);
            proof {
                lemma_index_of(text@, ' ', 0);
                assert(text@.subrange(end_of_command_text as int, text@.len() as int)
                    =~= command_arguments(text@));
            }
            let command_str = slice_chars(text.as_slice(), 1, end_of_command_text);
            let params_str = slice_chars(text.as_slice(), end_of_command_text, text.len());
            match command_of_chars(command_str.as_slice()) {
                Some(CommandKind::Start) => Action::Greet(
                    simple_respond_message(
                        message,
                        "Hello, this is a bot for language learning.\n Try `/help` to see what I can do.",
                    ),
                ),
                Some(CommandKind::DuolingoLogin) => {
                    let params = trim(params_str.as_slice());
                    let name_end = find_char(params.as_slice(), ' ', 0);
                    if name_end >= params.len() {
                        return Action::MissingCredentials;
                    }
                    let jwt_end = find_char(params.as_slice(), ' ', name_end + 1);
                    let name = slice_chars(params.as_slice(), 0, name_end);
                    let jwt = slice_chars(params.as_slice(), name_end + 1, jwt_end);
                    proof {
                        assert(params@.subrange(0, name_end as int) =~= params@.take(
                            name_end as int,
                        ));
                    }
                    Action::DuolingoLogin {
                        name: from_chars(name.as_slice()),
                        jwt: from_chars(jwt.as_slice()),
                    }
                },
                Some(CommandKind::RandomWord) => Action::RandomWord,
                Some(CommandKind::Chat) => Action::StartChat,
                Some(CommandKind::Story) => Action::Story,
                Some(CommandKind::Help) => Action::Help,
                None => Action::Ignore,
            }
        } else {
            match continuity(message.chat_id, message.reply_to) {
                Continuity::Resume { key } => Action::ResponseChat { key },
                Continuity::Fresh => Action::Ignore,
            }
        }
    }

    /// What is to be done to show the word `vocabulary`: without a linked
    /// account the user is asked to log in; with one the backend is asked for
    /// the dictionary entry of the word, in the first language of the account
    /// and with meanings in the account's own language.
    pub fn word_plan(&self, message: &IncomingMessage, vocabulary: &Vocabulary) -> (result: Result<
        Plan,
        BotError,
    >)
        ensures
            match self.duolingo {
                None => result matches Ok(Plan::AskLogin(m)) && m.text@ == escaped(login_request())
                    && m.chat_id == message.chat_id && m.reply_to_message_id == Some(message.id),
                Some(account) => if account.languages@.len() == 0 {
                    result == Err::<Plan, BotError>(BotError::NoLanguage)
                } else {
                    match (
                        english_language_name(account.languages@[0]@),
                        english_language_name(account.ui_language@),
                    ) {
                        (Some(name), Some(ui_name)) => result matches Ok(Plan::Ask { prompt })
                            && prompt@ == lookup_prompt_text(vocabulary.word_string@, name, ui_name),
                        _ => result == Err::<Plan, BotError>(BotError::UnknownLanguage),
                    }
                },
            },
    {
        match &self.duolingo {
            Some(duolingo) => {
                if duolingo.languages.len() == 0 {
                    return Err(BotError::NoLanguage);
                }
                let language = duolingo.languages[0].as_str();
                match Word::from_vocabulary(vocabulary, duolingo.ui_language.as_str(), language) {
                    Some(prompt) => Ok(Plan::Ask { prompt }),
                    None => Err(BotError::UnknownLanguage),
                }
            },
            None => Ok(
                Plan::AskLogin(
                    simple_respond_message(
                        message,
                        "Please use `/duolingo_login` to login to duolingo.",
                    ),
                ),
            ),
        }
    }

    /// What is to be done to show a random word of the linked account's
    /// vocabulary: the plan for one of its words, whichever was drawn.
    pub fn random_word(&self, message: &IncomingMessage) -> (result: Result<Plan, BotError>)
        ensures
            match self.duolingo {
                None => result matches Ok(Plan::AskLogin(m)) && m.text@ == escaped(login_request())
                    && m.chat_id == message.chat_id && m.reply_to_message_id == Some(message.id),
                Some(account) => if account.vocabulary@.len() == 0 {
                    result == Err::<Plan, BotError>(BotError::TooFewWords)
                } else if account.languages@.len() == 0 {
                    result == Err::<Plan, BotError>(BotError::NoLanguage)
                } else {
                    match (
                        english_language_name(account.languages@[0]@),
                        english_language_name(account.ui_language@),
                    ) {
                        (Some(name), Some(ui_name)) => result matches Ok(Plan::Ask { prompt })
                            && is_prompt_for_one_of(account.vocabulary@, name, ui_name, prompt@),
                        _ => result == Err::<Plan, BotError>(BotError::UnknownLanguage),
                    }
                },
            },
    {
        match &self.duolingo {
            Some(duolingo) => {
                match choose_vocabulary(duolingo.vocabulary.as_slice()) {
                    Some(vocabulary) => self.word_plan(message, vocabulary),
                    None => Err(BotError::TooFewWords),
                }
            },
            None => Ok(
                Plan::AskLogin(
                    simple_respond_message(
                        message,
                        "Please use `/duolingo_login` to login to duolingo.",
                    ),
                ),
            ),
        }
    }

    /// What is to be done to tell a story: without a linked account the user is
    /// asked to log in; with one the backend is asked for a story in the first
    /// language of the account around the last five words of its vocabulary.
    pub fn story(&self, message: &IncomingMessage) -> (result: Result<Plan, BotError>)
        ensures
            match self.duolingo {
                None => result matches Ok(Plan::AskLogin(m)) && m.text@ == escaped(login_request())
                    && m.chat_id == message.chat_id && m.reply_to_message_id == Some(message.id),
                Some(account) => if account.languages@.len() == 0 {
                    result == Err::<Plan, BotError>(BotError::NoLanguage)
                } else if account.vocabulary@.len() < 5 {
                    result == Err::<Plan, BotError>(BotError::TooFewWords)
                } else {
                    result matches Ok(Plan::Ask { prompt }) && prompt@ == story_prompt_text(
                        account.languages@[0]@,
                        joined_words(account.vocabulary@, account.vocabulary@.len() - 5),
                    )
                },
            },
    {
        match &self.duolingo {
            Some(duolingo) => {
                if duolingo.languages.len() == 0 {
                    return Err(BotError::NoLanguage);
                }
                if duolingo.vocabulary.len() < 5 {
                    return Err(BotError::TooFewWords);
                }
                let words = duolingo.recent_words();
                let mut promote: Vec<char> = Vec::new();
                push_str(&mut promote, "Please write a short story in ");
                push_str(&mut promote, duolingo.languages[0].as_str());
                push_str(
                    &mut promote,
                    " which is less than 200 words, the story should use simple words and these special words must be included: ",
                );
                push_str(&mut promote, words.as_str());
                push_str(&mut promote, ". Wrap the story content in two '\"\"\"'s");
                Ok(Plan::Ask { prompt: from_chars(promote.as_slice()) })
            },
            None => Ok(
                Plan::AskLogin(
                    simple_respond_message(
                        message,
                        "Please use `/duolingo_login` to login to duolingo.",
                    ),
                ),
            ),
        }
    }

    /// The answer to `message` that a reply of the conversational backend
    /// becomes. The reply is rendered, its asides are marked as spoilers, and
    /// what is spoken is the rendered text without the asides and without a
    /// list of mistakes, by the first voice whose locale holds the first
    /// language of the linked account. Every annotation of the answer lies
    /// within its text and covers at least one code unit.
    pub fn chat_respond_from_bing(&self, message: &IncomingMessage, bing_respond: RawReply) -> (result:
        Result<SpokenResponse, BotError>)
        ensures
            result matches Ok(response) ==> response.message.entities matches Some(entities)
                && annotations_within(response.message.text@, annotation_views(entities@))
                && forall|k: int|
                0 <= k < entities@.len() ==> (#[trigger] entities@[k]).length >= 1,
            match rendered(bing_respond.text@, url_views(bing_respond.source_attributions@)) {
                Err(e) => result == Err::<SpokenResponse, BotError>(BotError::Render(e)),
                Ok((text, marks)) => match self.duolingo {
                    None => result == Err::<SpokenResponse, BotError>(BotError::NotLoggedIn),
                    Some(account) => if account.languages@.len() == 0 {
                        result == Err::<SpokenResponse, BotError>(BotError::NoLanguage)
                    } else {
                        match tts_part(scrubbed(text, 0)) {
                            None => result == Err::<SpokenResponse, BotError>(
                                BotError::UnfinishedList,
                            ),
                            Some(spoken) => match result {
                                Ok(response) => {
                                    &&& is_first_voice_containing(
                                        self.azure_tts.voices@,
                                        account.languages@[0]@,
                                        response.voice as int,
                                    )
                                    &&& response.tts_content@ == spoken
                                    &&& response.message.chat_id == message.chat_id
                                    &&& response.message.text@ == text
                                    &&& response.message.entities matches Some(entities)
                                        && annotation_views(entities@) == marks + spoilers(text, 0)
                                    &&& response.message.parse_mode is None
                                    &&& response.message.disable_web_page_preview == Some(true)
                                    &&& response.message.reply_to_message_id == Some(message.id)
                                },
                                Err(e) => e == BotError::NoVoice && forall|j: int|
                                    0 <= j < self.azure_tts.voices@.len() ==> !contains(
                                        #[trigger] self.azure_tts.voices@[j].locale@,
                                        account.languages@[0]@,
                                    ),
                            },
                        }
                    },
                },
            },
    {
        let rendered_message = match render(bing_respond) {
            Ok(m) => m,
            Err(e) => {
                return Err(BotError::Render(e));
            },
        };
        let duolingo = match &self.duolingo {
            Some(duolingo) => duolingo,
            None => {
                return Err(BotError::NotLoggedIn);
            },
        };
        if duolingo.languages.len() == 0 {
            return Err(BotError::NoLanguage);
        }
        let language = duolingo.languages[0].as_str();
        let mut entities = rendered_message.annotations;
        let shown = RawReply { text: rendered_message.display_text, source_attributions: Vec::new() };
        let ghost marks = annotation_views(entities@);
        let translation_hided = hide_translation(&shown, &mut entities);
        proof {
            let hidden = spoilers(shown.text@, 0);
            assert(annotation_views(entities@).len() == entities@.len());
            assert(marks.len() == rendered_message.annotations@.len());
            assert forall|k: int| 0 <= k < entities@.len() implies (#[trigger] entities@[k])@.end()
                <= utf16_len(shown.text@) && entities@[k].length >= 1 by {
                assert(annotation_views(entities@)[k] == entities@[k]@);
                if k < marks.len() {
                    assert((marks + hidden)[k] == marks[k]);
                    assert(marks[k] == rendered_message.annotations@[k]@);
                } else {
                    assert((marks + hidden)[k] == hidden[k - marks.len()]);
                }
            }
        }
        let tts_content = match extract_tts_part(translation_hided.as_str()) {
            Some(part) => part,
            None => {
                return Err(BotError::UnfinishedList);
            },
        };
        let voice = match self.azure_tts.voice_containing(language) {
            Some(i) => i,
            None => {
                return Err(BotError::NoVoice);
            },
        };
        Ok(
            SpokenResponse {
                message: OutgoingMessage {
                    chat_id: message.chat_id,
                    text: shown.text,
                    entities: Some(entities),
                    parse_mode: None,
                    disable_web_page_preview: Some(true),
                    reply_to_message_id: Some(message.id),
                },
                tts_content,
                voice,
            },
        )
    }

    /// The answer to `message` that a story of the conversational backend
    /// becomes. The reply is sent as it is, and what is spoken is the story
    /// between its `"""`, by the first voice whose locale holds the first
    /// language of the linked account.
    pub fn story_respond_from_bing(&self, message: &IncomingMessage, bing_respond: RawReply) -> (result:
        Result<SpokenResponse, BotError>)
        ensures
            match self.duolingo {
                None => result == Err::<SpokenResponse, BotError>(BotError::NotLoggedIn),
                Some(account) => if account.languages@.len() == 0 {
                    result == Err::<SpokenResponse, BotError>(BotError::NoLanguage)
                } else {
                    match story_content(bing_respond.text@) {
                        None => result == Err::<SpokenResponse, BotError>(BotError::NoStory),
                        Some(content) => match result {
                            Ok(response) => {
                                &&& is_first_voice_containing(
                                    self.azure_tts.voices@,
                                    account.languages@[0]@,
                                    response.voice as int,
                                )
                                &&& response.tts_content@ == content
                                &&& response.message.chat_id == message.chat_id
                                &&& response.message.text == bing_respond.text
                                &&& response.message.entities is None
                                &&& response.message.parse_mode is None
                                &&& response.message.disable_web_page_preview == Some(true)
                                &&& response.message.reply_to_message_id == Some(message.id)
                            },
                            Err(e) => e == BotError::NoVoice && forall|j: int|
                                0 <= j < self.azure_tts.voices@.len() ==> !contains(
                                    #[trigger] self.azure_tts.voices@[j].locale@,
                                    account.languages@[0]@,
                                ),
                        },
                    }
                },
            },
    {
        let duolingo = match &self.duolingo {
            Some(duolingo) => duolingo,
            None => {
                return Err(BotError::NotLoggedIn);
            },
        };
        if duolingo.languages.len() == 0 {
            return Err(BotError::NoLanguage);
        }
        let language = duolingo.languages[0].as_str();
        let content = match extract_story(bing_respond.text.as_str()) {
            Some(content) => content,
            None => {
                return Err(BotError::NoStory);
            },
        };
        let voice = match self.azure_tts.voice_containing(language) {
            Some(i) => i,
            None => {
                return Err(BotError::NoVoice);
            },
        };
        Ok(
            SpokenResponse {
                message: OutgoingMessage {
                    chat_id: message.chat_id,
                    text: bing_respond.text,
                    entities: None,
                    parse_mode: None,
                    disable_web_page_preview: Some(true),
                    reply_to_message_id: Some(message.id),
                },
                tts_content: content,
                voice,
            },
        )
    }
}

} // verus!
