//! The vocabulary provider: an account, its languages and its words.

use crate::text::{from_chars, push_str, to_chars};
use vstd::prelude::*;

verus! {

/// A word of the account's vocabulary.
#[derive(Clone, Debug, PartialEq, Eq)]
pub struct Vocabulary {
    pub id: String,
    pub word_string: String,
    pub last_practiced_ms: u64,
}

/// A linked account of the vocabulary provider, with what was fetched of it.
#[derive(Clone, Debug, PartialEq, Eq)]
pub struct Duolingo {
    pub duolingo_name: String,
    pub duolingo_jwt: String,
    pub languages: Vec<String>,
    pub ui_language: String,
    pub vocabulary: Vec<Vocabulary>,
}

/// The URL of the account `name`.
pub open spec fn user_url_text(name: Seq<char>) -> Seq<char> {
    "https://www.duolingo.com/users/"@ + name
}

/// The words of `vocabulary` from `from` on, with a comma between each two.
pub open spec fn joined_words(vocabulary: Seq<Vocabulary>, from: int) -> Seq<char>
    decreases vocabulary.len() - from,
{
    if from < 0 || from >= vocabulary.len() {
        Seq::empty()
    } else if from == vocabulary.len() - 1 {
        vocabulary[from].word_string@
    } else {
        vocabulary[from].word_string@ + seq![','] + joined_words(vocabulary, from + 1)
    }
}

impl Duolingo {
    /// The account `duolingo_name` with its credential and what was fetched
    /// of it.
    pub fn new(
        duolingo_name: &str,
        duolingo_jwt: &str,
        languages: Vec<String>,
        ui_language: String,
        vocabulary: Vec<Vocabulary>,
    ) -> (account: Duolingo)
        ensures
            account.duolingo_name@ == duolingo_name@,
            account.duolingo_jwt@ == duolingo_jwt@,
            account.languages == languages,
            account.ui_language == ui_language,
            account.vocabulary == vocabulary,
    {
        Duolingo {
            duolingo_name: duolingo_name.to_owned(),
            duolingo_jwt: duolingo_jwt.to_owned(),
            languages,
            ui_language,
            vocabulary,
        }
    }

    /// The URL from which the languages of the account `duolingo_name` are
    /// fetched.
    pub fn user_url(duolingo_name: &str) -> (url: String)
        ensures
            url@ == user_url_text(duolingo_name@),
    {
        let mut url: Vec<char> = Vec::new();
        push_str(&mut url, "https://www.duolingo.com/users/");
        push_str(&mut url, duolingo_name);
        from_chars(url.as_slice())
    }

    /// The last five words of the vocabulary, with a comma between each two.
    pub fn recent_words(&self) -> (words: String)
        requires
            self.vocabulary@.len() >= 5,
        ensures
            words@ == joined_words(self.vocabulary@, self.vocabulary@.len() - 5),
    {
        let n = self.vocabulary.len();
        let mut out: Vec<char> = Vec::new();
        let mut i: usize = n;
        while i > n - 5
            invariant
                n == self.vocabulary@.len(),
                n >= 5,
                n - 5 <= i <= n,
                out@ == joined_words(self.vocabulary@, i as int),
            decreases i,
        {
            i -= 1;
            let mut head = to_chars(self.vocabulary[i].word_string.as_str());
            if i < n - 1 {
                head.push(',');
            }
            crate::text::push_chars(&mut head, out.as_slice());
            proof {
                assert(head@ =~= joined_words(self.vocabulary@, i as int));
            }
            out = head;
        }
        from_chars(out.as_slice())
    }
}

} // verus!
