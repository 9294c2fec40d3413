use chat_relay::session::{
    bot_state_key, continuity, keep_bot_state, keep_session, resumed, session_key, Continuity,
    SessionNotFound, SessionStore, BOT_STATE_TTL_SECS, SESSION_TTL_SECS,
};
use chat_relay::telegram::{
    chat_to_serve, escape, simple_respond_message, IncomingMessage, ParseMode, Refusal, ReplyReference,
    Telegram, TypingAction, TypingEvent, TypingStatus, MAX_USER_ID, MIN_CHAT_ID,
    TYPING_PERIOD_SECS,
};

#[test]
fn session_key_joins_chat_and_message() {
    assert_eq!(session_key(42, 7), "42-7");
    assert_eq!(session_key(-1001234567890, 15), "-1001234567890-15");
    assert_eq!(session_key(0, 0), "0-0");
    assert_eq!(session_key(i64::MIN, i32::MIN), format!("{}-{}", i64::MIN, i32::MIN));
    assert_eq!(session_key(i64::MAX, i32::MAX), format!("{}-{}", i64::MAX, i32::MAX));
}

#[test]
fn bot_state_key_is_the_chat() {
    assert_eq!(bot_state_key(42), "42");
    assert_eq!(bot_state_key(-7), "-7");
    assert_eq!(bot_state_key(1000), "1000");
}

#[test]
fn lifetimes() {
    assert_eq!(SESSION_TTL_SECS, 60 * 60);
    assert_eq!(BOT_STATE_TTL_SECS, 60 * 60 * 24 * 30);
    assert_eq!(TYPING_PERIOD_SECS, 5);
}

#[test]
fn session_is_read_back_before_it_expires() {
    let mut store = SessionStore::new();
    store.put("42-7", "{\"turn\":1}", SESSION_TTL_SECS, 1000);
    assert_eq!(store.get("42-7", 1000), Ok("{\"turn\":1}".to_string()));
    assert_eq!(store.get("42-7", 4599), Ok("{\"turn\":1}".to_string()));
}

#[test]
fn session_is_not_found_after_it_expired() {
    let mut store = SessionStore::new();
    store.put("42-7", "state", SESSION_TTL_SECS, 1000);
    assert_eq!(store.get("42-7", 4600), Err(SessionNotFound));
    assert_eq!(store.get("42-7", u64::MAX), Err(SessionNotFound));
}

#[test]
fn session_never_written_is_not_found() {
    let mut store = SessionStore::new();
    assert_eq!(store.get("42-7", 0), Err(SessionNotFound));
    store.put("42-8", "state", SESSION_TTL_SECS, 0);
    assert_eq!(store.get("42-7", 1), Err(SessionNotFound));
    assert_eq!(store.get("42", 1), Err(SessionNotFound));
}

#[test]
fn last_write_wins_and_restarts_the_lifetime() {
    let mut store = SessionStore::new();
    store.put("42-7", "first", 10, 100);
    store.put("42-9", "other", 10, 100);
    store.put("42-7", "second", 10, 105);
    assert_eq!(store.get("42-7", 112), Ok("second".to_string()));
    assert_eq!(store.get("42-9", 109), Ok("other".to_string()));
    assert_eq!(store.get("42-9", 110), Err(SessionNotFound));
    assert_eq!(store.get("42-7", 115), Err(SessionNotFound));
    assert_eq!(store.entries.len(), 2);
}

#[test]
fn lifetime_near_the_end_of_time() {
    let mut store = SessionStore::new();
    store.put("k", "v", u64::MAX, 5);
    assert_eq!(store.get("k", u64::MAX), Ok("v".to_string()));
    store.put("z", "v", 0, 5);
    assert_eq!(store.get("z", 5), Err(SessionNotFound));
}

#[test]
fn reply_to_the_bot_resumes() {
    let reply = ReplyReference { message_id: 7, from_bot: true };
    assert_eq!(continuity(42, Some(reply)), Continuity::Resume { key: "42-7".to_string() });
}

#[test]
fn other_messages_are_fresh() {
    let reply = ReplyReference { message_id: 7, from_bot: false };
    assert_eq!(continuity(42, Some(reply)), Continuity::Fresh);
    assert_eq!(continuity(42, None), Continuity::Fresh);
}

#[test]
fn turn_is_kept_under_the_sent_message() {
    let write = keep_session(42, 8, "state".to_string());
    assert_eq!(write.key, "42-8");
    assert_eq!(write.value, "state");
    assert_eq!(write.ttl_secs, 3600);
    let write = keep_bot_state(42, "bot".to_string());
    assert_eq!(write.key, "42");
    assert_eq!(write.value, "bot");
    assert_eq!(write.ttl_secs, 2_592_000);
}

#[test]
fn continuity_round_trip_through_the_store() {
    let mut store = SessionStore::new();
    let write = keep_session(42, 7, "conversation".to_string());
    store.put(&write.key, &write.value, write.ttl_secs, 50);
    let key = match continuity(42, Some(ReplyReference { message_id: 7, from_bot: true })) {
        Continuity::Resume { key } => key,
        Continuity::Fresh => panic!("a reply to the bot resumes"),
    };
    assert_eq!(resumed(store.get(&key, 60).ok()), Ok("conversation".to_string()));
    assert_eq!(resumed(store.get(&key, 50 + 3600).ok()), Err(SessionNotFound));
    assert_eq!(resumed::<String>(None), Err(SessionNotFound));
}

#[test]
fn escape_marks_the_five_chars() {
    assert_eq!(escape("a\"b{c}d_e.f"), "a\\\"b\\{c\\}d\\_e\\.f");
    assert_eq!(escape("plain text!"), "plain text!");
    assert_eq!(escape(""), "");
    assert_eq!(escape("\\."), "\\\\.");
    assert_eq!(
        escape("a\"b{c}d_e.f"),
        "a\"b{c}d_e.f"
            .replace('\"', "\\\"")
            .replace('{', "\\{")
            .replace('}', "\\}")
            .replace('_', "\\_")
            .replace('.', "\\.")
    );
}

#[test]
fn simple_respond_replies_in_markdown() {
    let incoming = IncomingMessage { chat_id: 42, id: 7, text: None, reply_to: None };
    let out = simple_respond_message(&incoming, "Try `/help`.");
    assert_eq!(out.chat_id, 42);
    assert_eq!(out.text, "Try `/help`\\.");
    assert_eq!(out.reply_to_message_id, Some(7));
    assert_eq!(out.parse_mode, Some(ParseMode::MarkdownV2));
    assert_eq!(out.entities, None);
    assert_eq!(out.disable_web_page_preview, None);
}

#[test]
fn telegram_urls() {
    let telegram = Telegram::new("123:abc");
    assert_eq!(telegram.token, "123:abc");
    assert_eq!(telegram.send_message_url(), "https://api.telegram.org/bot123:abc/sendMessage");
    assert_eq!(telegram.send_voice_url(), "https://api.telegram.org/bot123:abc/sendVoice");
    assert_eq!(
        telegram.send_chat_action_url(),
        "https://api.telegram.org/bot123:abc/sendChatAction"
    );
    assert_eq!(telegram.method_url("getMe"), "https://api.telegram.org/bot123:abc/getMe");
}

#[test]
fn typing_is_sent_until_it_is_stopped() {
    let mut status = TypingStatus::start();
    assert_eq!(status.step(TypingEvent::Tick), TypingAction::SendTyping);
    assert_eq!(status.step(TypingEvent::Tick), TypingAction::SendTyping);
    assert_eq!(status, TypingStatus::Sending);
    assert_eq!(status.step(TypingEvent::Stop), TypingAction::Exit);
    assert_eq!(status, TypingStatus::Stopped);
    assert_eq!(status.step(TypingEvent::Tick), TypingAction::Exit);
    assert_eq!(status.step(TypingEvent::Stop), TypingAction::Exit);
    assert_eq!(status, TypingStatus::Stopped);
}

#[test]
fn requests_of_users_are_served() {
    assert_eq!(chat_to_serve(Some(42)), Ok(42));
    assert_eq!(chat_to_serve(Some(0)), Ok(0));
    assert_eq!(chat_to_serve(Some(MAX_USER_ID)), Ok(MAX_USER_ID));
    assert_eq!(MAX_USER_ID, (1 << 40) - 1);
}

#[test]
fn other_requests_are_refused() {
    assert_eq!(chat_to_serve(None), Err(Refusal::NotAChat));
    assert_eq!(chat_to_serve(Some(-1)), Err(Refusal::NotAUser));
    assert_eq!(chat_to_serve(Some(-1001234567890)), Err(Refusal::NotAUser));
    assert_eq!(chat_to_serve(Some(MIN_CHAT_ID)), Err(Refusal::NotAUser));
    assert_eq!(chat_to_serve(Some(MIN_CHAT_ID - 1)), Err(Refusal::MalformedChat));
    assert_eq!(chat_to_serve(Some(MAX_USER_ID + 1)), Err(Refusal::MalformedChat));
    assert_eq!(chat_to_serve(Some(i64::MIN)), Err(Refusal::MalformedChat));
}
