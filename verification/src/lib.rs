//! A relay between a chat and its backends: it renders the raw text of a
//! backend's reply into display text with styling annotations, whose offsets
//! count UTF-16 code units, and it keeps a conversation going from one message
//! to the next under the key of the last answer.
//!
//! The library decides and computes; what talks to the network or the clock
//! hands it plain values and carries out what it says.

pub mod annotation;
pub mod azure_tts;
pub mod bing_dictionary;
pub mod bot;
pub mod duolingo;
pub mod session;
pub mod telegram;
pub mod text;
pub mod utf16;
pub mod util;
