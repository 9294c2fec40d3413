//! Conversation continuity: the keys and lifetimes under which conversations
//! and bot states are kept, a store with lifetimes, and the decision whether an
//! incoming message resumes a conversation.

use crate::telegram::ReplyReference;
use crate::text::{
    from_chars, push_signed_decimal, same_chars, signed_decimal_text, to_chars,
};
use vstd::prelude::*;

verus! {

/// Seconds that a conversation is kept after it was last written.
pub const SESSION_TTL_SECS: u64 = 3600;

/// Seconds that the state of a chat's bot is kept after it was last written:
/// thirty days.
pub const BOT_STATE_TTL_SECS: u64 = 2592000;

/// The key of the conversation of chat `chat_id` whose last message from the
/// bot is `message_id`: the two numbers with a dash between them.
pub open spec fn session_key_text(chat_id: int, message_id: int) -> Seq<char> {
    signed_decimal_text(chat_id) + seq!['-'] + signed_decimal_text(message_id)
}

/// The key of the conversation of chat `chat_id` whose last message from the
/// bot is `message_id`.
pub fn session_key(chat_id: i64, message_id: i32) -> (key: String)
    ensures
        key@ == session_key_text(chat_id as int, message_id as int),
{
    let mut key: Vec<char> = Vec::new();
    push_signed_decimal(&mut key, chat_id);
    key.push('-');
    push_signed_decimal(&mut key, message_id as i64);
    proof {
        assert(key@ =~= session_key_text(chat_id as int, message_id as int));
    }
    from_chars(key.as_slice())
}

/// The key of the state of the bot of chat `chat_id`: the number.
pub fn bot_state_key(chat_id: i64) -> (key: String)
    ensures
        key@ == signed_decimal_text(chat_id as int),
{
    let mut key: Vec<char> = Vec::new();
    push_signed_decimal(&mut key, chat_id);
    from_chars(key.as_slice())
}

/// No conversation is kept under the key: it was never written, or it has
/// expired.
#[derive(Clone, Copy, Debug, PartialEq, Eq)]
pub struct SessionNotFound;

/// A value of the store with the time it was written at and its lifetime, both
/// in seconds.
#[derive(Clone, Debug, PartialEq, Eq)]
pub struct Entry {
    pub key: String,
    pub value: String,
    pub written_at: u64,
    pub ttl: u64,
}

/// What is kept under a key: the value and the time at which it expires.
pub struct Kept {
    pub value: Seq<char>,
    pub expires_at: int,
}

/// The entry that was written last under `key`.
pub open spec fn kept_under(entries: Seq<Entry>, key: Seq<char>) -> Option<Kept>
    decreases entries.len(),
{
    if entries.len() == 0 {
        None
    } else if entries.last().key@ == key {
        Some(
            Kept {
                value: entries.last().value@,
                expires_at: entries.last().written_at + entries.last().ttl,
            },
        )
    } else {
        kept_under(entries.drop_last(), key)
    }
}

/// A store of values under keys, each with a lifetime from its last write.
/// Time is what the caller says it is, in seconds.
#[derive(Clone, Debug, PartialEq, Eq)]
pub struct SessionStore {
    pub entries: Vec<Entry>,
}

impl SessionStore {
    /// What the store holds under `key` at the time `now`: the value that was
    /// written last, as long as it has not expired.
    pub open spec fn value_at(&self, key: Seq<char>, now: int) -> Option<Seq<char>> {
        match kept_under(self.entries@, key) {
            Some(kept) => if now < kept.expires_at {
                Some(kept.value)
            } else {
                None
            },
            None => None,
        }
    }

    /// A store that holds nothing.
    pub fn new() -> (store: SessionStore)
        ensures
            store.entries@.len() == 0,
            forall|key: Seq<char>, now: int| #[trigger] store.value_at(key, now) is None,
    {
        SessionStore { entries: Vec::new() }
    }

    fn position(&self, key: &[char]) -> (at: Option<usize>)
        ensures
            match at {
                Some(i) => i < self.entries@.len() && self.entries@[i as int].key@ == key@
                    && forall|j: int|
                    i < j < self.entries@.len() ==> (#[trigger] self.entries@[j]).key@ != key@,
                None => forall|j: int|
                    0 <= j < self.entries@.len() ==> (#[trigger] self.entries@[j]).key@ != key@,
            },
    {
        let mut i: usize = self.entries.len();
        while i > 0
            invariant
                i <= self.entries@.len(),
                forall|j: int|
                    i <= j < self.entries@.len() ==> (#[trigger] self.entries@[j]).key@ != key@,
            decreases i,
        {
            i -= 1;
            let stored = to_chars(self.entries[i].key.as_str());
            if same_chars(stored.as_slice(), key) {
                return Some(i);
            }
        }
        None
    }

    /// Writes `value` under `key` at the time `now`, to be kept for `ttl`
    /// seconds. What was under `key` is replaced; the other keys stay as they
    /// are.
    pub fn put(&mut self, key: &str, value: &str, ttl: u64, now: u64)
        ensures
            forall|other: Seq<char>|
                #[trigger] kept_under(final(self).entries@, other) == if other == key@ {
                    Some(Kept { value: value@, expires_at: now + ttl })
                } else {
                    kept_under(old(self).entries@, other)
                },
    {
        let wanted = to_chars(key);
        let entry = Entry {
            key: from_chars(wanted.as_slice()),
            value: value.to_owned(),
            written_at: now,
            ttl,
        };
        let at = self.position(wanted.as_slice());
        match at {
            Some(i) => {
                self.entries[i] = entry;
                proof {
                    assert forall|other: Seq<char>| #[trigger]
                        kept_under(self.entries@, other) == if other == key@ {
                            Some(Kept { value: value@, expires_at: now + ttl })
                        } else {
                            kept_under(old(self).entries@, other)
                        } by {
                        lemma_kept_under_update(old(self).entries@, i as int, entry, other);
                    }
                }
            },
            None => {
                self.entries.push(entry);
                proof {
                    assert(self.entries@.drop_last() =~= old(self).entries@);
                }
            },
        }
    }

    /// The value that is kept under `key` at the time `now`.
    pub fn get(&self, key: &str, now: u64) -> (result: Result<String, SessionNotFound>)
        ensures
            match self.value_at(key@, now as int) {
                Some(value) => result matches Ok(v) && v@ == value,
                None => result is Err,
            },
    {
        let wanted = to_chars(key);
        match self.position(wanted.as_slice()) {
            Some(i) => {
                proof {
                    lemma_kept_under_at(self.entries@, i as int, key@);
                }
                let entry = &self.entries[i];
                if now < entry.written_at || now - entry.written_at < entry.ttl {
                    Ok(entry.value.clone())
                } else {
                    Err(SessionNotFound)
                }
            },
            None => {
                proof {
                    lemma_kept_under_absent(self.entries@, key@);
                }
                Err(SessionNotFound)
            },
        }
    }

    /// A value that was written under a key at the time `written_at` for `ttl`
    /// seconds, and nothing under that key since, is read back as it was
    /// written while less than `ttl` seconds have passed, and is not found from
    /// then on.
    pub proof fn lemma_written_is_read(
        self,
        key: Seq<char>,
        value: Seq<char>,
        ttl: int,
        written_at: int,
        read_at: int,
    )
        requires
            kept_under(self.entries@, key) == Some(Kept { value, expires_at: written_at + ttl }),
        ensures
            read_at < written_at + ttl ==> self.value_at(key, read_at) == Some(value),
            read_at >= written_at + ttl ==> self.value_at(key, read_at) is None,
    {
    }

    /// Under a key that was never written nothing is found, at any time.
    pub proof fn lemma_never_written_is_not_found(self, key: Seq<char>, read_at: int)
        requires
            forall|j: int| 0 <= j < self.entries@.len() ==> (#[trigger] self.entries@[j]).key@ != key,
        ensures
            self.value_at(key, read_at) is None,
    {
        lemma_kept_under_absent(self.entries@, key);
    }
}

/// The entry under `key` is the last one with that key.
proof fn lemma_kept_under_at(entries: Seq<Entry>, i: int, key: Seq<char>)
    requires
        0 <= i < entries.len(),
        entries[i].key@ == key,
        forall|j: int| i < j < entries.len() ==> (#[trigger] entries[j]).key@ != key,
    ensures
        kept_under(entries, key) == Some(
            Kept { value: entries[i].value@, expires_at: entries[i].written_at + entries[i].ttl },
        ),
    decreases entries.len(),
{
    if i < entries.len() - 1 {
        assert(entries.last().key@ != key);
        lemma_kept_under_at(entries.drop_last(), i, key);
    }
}

/// Under a key that no entry has nothing is kept.
proof fn lemma_kept_under_absent(entries: Seq<Entry>, key: Seq<char>)
    requires
        forall|j: int| 0 <= j < entries.len() ==> (#[trigger] entries[j]).key@ != key,
    ensures
        kept_under(entries, key) is None,
    decreases entries.len(),
{
    if entries.len() > 0 {
        assert(entries.last().key@ != key);
        lemma_kept_under_absent(entries.drop_last(), key);
    }
}

/// Replacing the last entry of a key by another entry of that key changes what
/// is kept under that key and nothing else.
proof fn lemma_kept_under_update(entries: Seq<Entry>, i: int, entry: Entry, other: Seq<char>)
    requires
        0 <= i < entries.len(),
        entries[i].key@ == entry.key@,
        forall|j: int| i < j < entries.len() ==> (#[trigger] entries[j]).key@ != entry.key@,
    ensures
        kept_under(entries.update(i, entry), other) == if other == entry.key@ {
            Some(Kept { value: entry.value@, expires_at: entry.written_at + entry.ttl })
        } else {
            kept_under(entries, other)
        },
    decreases entries.len(),
{
    let updated = entries.update(i, entry);
    if i < entries.len() - 1 {
        assert(updated.last() == entries.last());
        assert(entries.last().key@ != entry.key@);
        assert(updated.drop_last() =~= entries.drop_last().update(i, entry));
        lemma_kept_under_update(entries.drop_last(), i, entry, other);
    } else {
        assert(updated.drop_last() =~= entries.drop_last());
    }
}

/// What an incoming message means for the conversations of its chat.
#[derive(Clone, Debug, PartialEq, Eq)]
pub enum Continuity {
    /// The message continues no conversation.
    Fresh,
    /// The message continues the conversation that is kept under `key`.
    Resume { key: String },
}

/// Whether a message of chat `chat_id` that replies to `reply_to` continues a
/// conversation: it does where it replies to a message of the bot, and the
/// conversation is then the one kept under that message's key.
pub fn continuity(chat_id: i64, reply_to: Option<ReplyReference>) -> (decision: Continuity)
    ensures
        match reply_to {
            Some(reply) if reply.from_bot => decision matches Continuity::Resume { key } && key@
                == session_key_text(chat_id as int, reply.message_id as int),
            _ => decision is Fresh,
        },
{
    match reply_to {
        Some(reply) => {
            if reply.from_bot {
                Continuity::Resume { key: session_key(chat_id, reply.message_id) }
            } else {
                Continuity::Fresh
            }
        },
        None => Continuity::Fresh,
    }
}

/// A write to the store: `value` under `key`, to be kept for `ttl_secs`
/// seconds.
#[derive(Clone, Debug, PartialEq, Eq)]
pub struct StoreWrite {
    pub key: String,
    pub value: String,
    pub ttl_secs: u64,
}

/// The write that keeps the conversation `session` of chat `chat_id` after a
/// turn whose answer was sent as message `sent_message_id`.
pub fn keep_session(chat_id: i64, sent_message_id: i32, session: String) -> (write: StoreWrite)
    ensures
        write.key@ == session_key_text(chat_id as int, sent_message_id as int),
        write.value == session,
        write.ttl_secs == SESSION_TTL_SECS,
{
    StoreWrite {
        key: session_key(chat_id, sent_message_id),
        value: session,
        ttl_secs: SESSION_TTL_SECS,
    }
}

/// The write that keeps the state `state` of the bot of chat `chat_id`.
pub fn keep_bot_state(chat_id: i64, state: String) -> (write: StoreWrite)
    ensures
        write.key@ == signed_decimal_text(chat_id as int),
        write.value == state,
        write.ttl_secs == BOT_STATE_TTL_SECS,
{
    StoreWrite { key: bot_state_key(chat_id), value: state, ttl_secs: BOT_STATE_TTL_SECS }
}

/// The conversation to resume, given what the store held under its key and
/// what could be read of that: a conversation that is missing or cannot be read
/// is not found.
pub fn resumed<T>(loaded: Option<T>) -> (result: Result<T, SessionNotFound>)
    ensures
        match loaded {
            Some(session) => result == Ok::<T, SessionNotFound>(session),
            None => result is Err,
        },
{
    match loaded {
        Some(session) => Ok(session),
        None => Err(SessionNotFound),
    }
}

} // verus!
