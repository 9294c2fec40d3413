//! The messaging platform: messages as the library reads and writes them, the
//! URLs of the platform's methods, escaping, and the typing signal.

pub mod bold;
pub mod citation;
pub mod format;
pub mod list;
pub mod parenthetical;
pub mod superscript;

pub use citation::RenderError;
pub use format::{
    fix_attributions, fix_bold, fix_unordered_list, render, sup, to_utf16_offset, DetachedMatch,
};

use crate::annotation::Annotation;
use crate::text::{from_chars, push_str, to_chars};
use teloxide::types::ChatId;
use vstd::prelude::*;

verus! {

/// Access to the platform: the bot's token.
#[derive(Clone, Debug, PartialEq, Eq)]
pub struct Telegram {
    pub token: String,
}

/// The message that an incoming message replies to.
#[derive(Clone, Copy, Debug, PartialEq, Eq)]
pub struct ReplyReference {
    pub message_id: i32,
    /// Whether the bot itself sent that message.
    pub from_bot: bool,
}

/// An incoming message, as far as the library reads it.
#[derive(Clone, Debug, PartialEq, Eq)]
pub struct IncomingMessage {
    pub chat_id: i64,
    pub id: i32,
    pub text: Option<String>,
    pub reply_to: Option<ReplyReference>,
}

/// How the platform is to read the text of a message.
#[derive(Clone, Copy, Debug, PartialEq, Eq)]
pub enum ParseMode {
    MarkdownV2,
    Html,
    Markdown,
}

/// A text message to send.
#[derive(Clone, Debug, PartialEq, Eq)]
pub struct OutgoingMessage {
    pub chat_id: i64,
    pub text: String,
    pub entities: Option<Vec<Annotation>>,
    pub parse_mode: Option<ParseMode>,
    pub disable_web_page_preview: Option<bool>,
    pub reply_to_message_id: Option<i32>,
}

/// The lowest id that the platform gives a chat: that of a channel.
pub const MIN_CHAT_ID: i64 = -1997852516352;

/// The highest id that the platform gives a user.
pub const MAX_USER_ID: i64 = 1099511627775;

/// Whether `chat_id` is the id of a user's chat. Ids of groups and channels are
/// negative.
pub open spec fn is_user_chat(chat_id: i64) -> bool {
    0 <= chat_id <= MAX_USER_ID
}

/// `ChatId::is_user` of `teloxide`: whether the id is that of a user, from 0 to
/// `MAX_USER_ID`. It panics on an id that the platform gives no chat, below
/// `MIN_CHAT_ID` or above `MAX_USER_ID`.
#[verifier::external_body]
fn chat_id_is_user(chat_id: i64) -> (is_user: bool)
    requires
        MIN_CHAT_ID <= chat_id <= MAX_USER_ID,
    ensures
        is_user == is_user_chat(chat_id),
{
    ChatId(chat_id).is_user()
}

/// Why a request is not served.
#[derive(Clone, Copy, Debug, PartialEq, Eq)]
pub enum Refusal {
    /// The request comes from no chat.
    NotAChat,
    /// The request comes from a group or a channel.
    NotAUser,
    /// The id of the chat is none that the platform gives.
    MalformedChat,
}

/// Whether a request from the chat `chat` is served: it is where the chat is
/// that of a user, and the result is then the id of the chat.
pub fn chat_to_serve(chat: Option<i64>) -> (result: Result<i64, Refusal>)
    ensures
        match chat {
            None => result == Err::<i64, Refusal>(Refusal::NotAChat),
            Some(chat_id) => if chat_id < MIN_CHAT_ID || chat_id > MAX_USER_ID {
                result == Err::<i64, Refusal>(Refusal::MalformedChat)
            } else if is_user_chat(chat_id) {
                result == Ok::<i64, Refusal>(chat_id)
            } else {
                result == Err::<i64, Refusal>(Refusal::NotAUser)
            },
        },
{
    match chat {
        None => Err(Refusal::NotAChat),
        Some(chat_id) => {
            if chat_id < MIN_CHAT_ID || chat_id > MAX_USER_ID {
                Err(Refusal::MalformedChat)
            } else if chat_id_is_user(chat_id) {
                Ok(chat_id)
            } else {
                Err(Refusal::NotAUser)
            }
        },
    }
}

/// The URL of the platform's method `method` for the bot with `token`.
pub open spec fn method_url_text(token: Seq<char>, method: Seq<char>) -> Seq<char> {
    "https://api.telegram.org/bot"@ + token + "/"@ + method
}

impl Telegram {
    pub fn new(token: &str) -> (telegram: Telegram)
        ensures
            telegram.token@ == token@,
    {
        Telegram { token: token.to_owned() }
    }

    /// The URL to which a call of the platform's method `method` is posted.
    pub fn method_url(&self, method: &str) -> (url: String)
        ensures
            url@ == method_url_text(self.token@, method@),
    {
        let mut url: Vec<char> = Vec::new();
        push_str(&mut url, "https://api.telegram.org/bot");
        push_str(&mut url, self.token.as_str());
        push_str(&mut url, "/");
        push_str(&mut url, method);
        from_chars(url.as_slice())
    }

    /// The URL to which a text message is posted.
    pub fn send_message_url(&self) -> (url: String)
        ensures
            url@ == method_url_text(self.token@, "sendMessage"@),
    {
        self.method_url("sendMessage")
    }

    /// The URL to which a voice message is posted.
    pub fn send_voice_url(&self) -> (url: String)
        ensures
            url@ == method_url_text(self.token@, "sendVoice"@),
    {
        self.method_url("sendVoice")
    }

    /// The URL to which the typing signal is posted.
    pub fn send_chat_action_url(&self) -> (url: String)
        ensures
            url@ == method_url_text(self.token@, "sendChatAction"@),
    {
        self.method_url("sendChatAction")
    }
}

/// Whether `c` is escaped in a message: one of `"`, `{`, `}`, `_`, `.`.
pub open spec fn needs_escape(c: char) -> bool {
    c == '"' || c == '{' || c == '}' || c == '_' || c == '.'
}

/// The text with a backslash in front of every char that is escaped.
pub open spec fn escaped(text: Seq<char>) -> Seq<char>
    decreases text.len(),
{
    if text.len() == 0 {
        Seq::empty()
    } else if needs_escape(text.last()) {
        escaped(text.drop_last()) + seq!['\\', text.last()]
    } else {
        escaped(text.drop_last()).push(text.last())
    }
}

/// Puts a backslash in front of every `"`, `{`, `}`, `_` and `.` of `text`.
pub fn escape(text: &str) -> (result: String)
    ensures
        result@ == escaped(text@),
{
    let chars = to_chars(text);
    let mut out: Vec<char> = Vec::new();
    let mut i: usize = 0;
    while i < chars.len()
        invariant
            i <= chars@.len(),
            out@ == escaped(chars@.take(i as int)),
        decreases chars@.len() - i,
    {
        let c = chars[i];
        proof {
            assert(chars@.take(i as int + 1).drop_last() =~= chars@.take(i as int));
        }
        if c == '"' || c == '{' || c == '}' || c == '_' || c == '.' {
            out.push('\\');
            out.push(c);
            proof {
                assert(out@ =~= escaped(chars@.take(i as int)) + seq!['\\', c]);
            }
        } else {
            out.push(c);
        }
        i += 1;
    }
    proof {
        assert(chars@.take(chars@.len() as int) =~= chars@);
    }
    from_chars(out.as_slice())
}

/// The answer to `to_message` that says `text`: `text` escaped, read as
/// Markdown, in the chat of `to_message` and as a reply to it.
pub fn simple_respond_message(to_message: &IncomingMessage, text: &str) -> (result: OutgoingMessage)
    ensures
        result.chat_id == to_message.chat_id,
        result.text@ == escaped(text@),
        result.entities is None,
        result.parse_mode == Some(ParseMode::MarkdownV2),
        result.disable_web_page_preview is None,
        result.reply_to_message_id == Some(to_message.id),
{
    OutgoingMessage {
        chat_id: to_message.chat_id,
        text: escape(text),
        entities: None,
        parse_mode: Some(ParseMode::MarkdownV2),
        disable_web_page_preview: None,
        reply_to_message_id: Some(to_message.id),
    }
}

/// Seconds between two typing signals.
pub const TYPING_PERIOD_SECS: u64 = 5;

/// The typing signal of one turn: it is sent on every tick of its timer until
/// the owner of the turn stops it.
#[derive(Clone, Copy, Debug, PartialEq, Eq)]
pub enum TypingStatus {
    Sending,
    Stopped,
}

/// What happens to a typing signal.
#[derive(Clone, Copy, Debug, PartialEq, Eq)]
pub enum TypingEvent {
    /// The timer has ticked.
    Tick,
    /// The owner has asked the signal to stop.
    Stop,
}

/// What the loop that carries a typing signal is to do next.
#[derive(Clone, Copy, Debug, PartialEq, Eq)]
pub enum TypingAction {
    /// Send one typing signal and wait on.
    SendTyping,
    /// Leave the loop.
    Exit,
}

impl TypingStatus {
    /// The status after `event`: a signal that is stopped stays stopped, and a
    /// stop stops a signal that is sent.
    pub open spec fn after(self, event: TypingEvent) -> TypingStatus {
        match (self, event) {
            (TypingStatus::Sending, TypingEvent::Tick) => TypingStatus::Sending,
            _ => TypingStatus::Stopped,
        }
    }

    /// What the loop does on `event`: it sends on a tick while the signal is
    /// sent, and leaves otherwise.
    pub open spec fn action_on(self, event: TypingEvent) -> TypingAction {
        match (self, event) {
            (TypingStatus::Sending, TypingEvent::Tick) => TypingAction::SendTyping,
            _ => TypingAction::Exit,
        }
    }

    /// The status after every event of `events` in turn.
    pub open spec fn after_all(self, events: Seq<TypingEvent>) -> TypingStatus
        decreases events.len(),
    {
        if events.len() == 0 {
            self
        } else {
            self.after_all(events.drop_last()).after(events.last())
        }
    }

    /// A typing signal as it starts: being sent.
    pub fn start() -> (status: TypingStatus)
        ensures
            status == TypingStatus::Sending,
    {
        TypingStatus::Sending
    }

    /// Takes `event` in and says what the loop is to do.
    pub fn step(&mut self, event: TypingEvent) -> (action: TypingAction)
        ensures
            *final(self) == old(self).after(event),
            action == old(self).action_on(event),
    {
        match (*self, event) {
            (TypingStatus::Sending, TypingEvent::Tick) => TypingAction::SendTyping,
            _ => {
                *self = TypingStatus::Stopped;
                TypingAction::Exit
            },
        }
    }

    /// Once a stop is among the events, the signal is stopped and no later
    /// event has it sent again.
    pub proof fn lemma_stop_is_final(self, events: Seq<TypingEvent>, k: int)
        requires
            0 <= k < events.len(),
            events[k] == TypingEvent::Stop,
        ensures
            self.after_all(events) == TypingStatus::Stopped,
            forall|event: TypingEvent|
                self.after_all(events).action_on(event) == TypingAction::Exit,
        decreases events.len(),
    {
        if k < events.len() - 1 {
            self.lemma_stop_is_final(events.drop_last(), k);
        }
    }
}

} // verus!
