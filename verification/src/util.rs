//! Chance, hexadecimal text and decryption.

use crate::duolingo::Vocabulary;
use crate::text::{decimal_text, from_chars, push_decimal, push_str};
use libaes::Cipher;
use rand::seq::SliceRandom;
use rand::Rng;
use vstd::prelude::*;
use vstd::slice::slice_subrange;
use vstd::string::StringSliceAdditionalSpecFns;
use vstd::utf8::{decode_utf8, valid_utf8};

verus! {

/// Whether `chosen` is a choice among `items`: one of them, or none where
/// there is none.
pub open spec fn is_choice_among(items: Seq<Vocabulary>, chosen: Option<&Vocabulary>) -> bool {
    match chosen {
        Some(item) => exists|i: int| 0 <= i < items.len() && #[trigger] items[i] == *item,
        None => items.len() == 0,
    }
}

/// `SliceRandom::choose` of `rand`, with the generator of the thread: `None`
/// on an empty slice, else one of the slice's items. Which one is not said.
#[verifier::external_body]
pub(crate) fn choose_vocabulary(vocabulary: &[Vocabulary]) -> (chosen: Option<&Vocabulary>)
    ensures
        is_choice_among(vocabulary@, chosen),
{
    vocabulary.choose(&mut rand::thread_rng())
}

/// `Rng::gen_range` of `rand` on the closed range from `low` to `high`, with
/// the generator of the thread: a number of that range. Which one is not said.
#[verifier::external_body]
fn random_between(low: u8, high: u8) -> (drawn: u8)
    requires
        low <= high,
    ensures
        low <= drawn <= high,
{
    rand::thread_rng().gen_range(low..=high)
}

/// The address `13.second.third.fourth` in decimal.
pub open spec fn forwarded_ip_text(second: u8, third: u8, fourth: u8) -> Seq<char> {
    "13."@ + decimal_text(second as nat) + "."@ + decimal_text(third as nat) + "."@ + decimal_text(
        fourth as nat,
    )
}

/// The address `13.second.third.fourth` in decimal.
pub fn forwarded_ip(second: u8, third: u8, fourth: u8) -> (ip: String)
    ensures
        ip@ == forwarded_ip_text(second, third, fourth),
{
    let mut ip: Vec<char> = Vec::new();
    push_str(&mut ip, "13.");
    push_decimal(&mut ip, second as u64);
    push_str(&mut ip, ".");
    push_decimal(&mut ip, third as u64);
    push_str(&mut ip, ".");
    push_decimal(&mut ip, fourth as u64);
    from_chars(ip.as_slice())
}

/// Whether `ip` is an address `13.a.b.c` with `a` from 104 to 107.
pub open spec fn is_forwarded_ip(ip: Seq<char>) -> bool {
    exists|second: u8, third: u8, fourth: u8|
        104 <= second <= 107 && ip == #[trigger] forwarded_ip_text(second, third, fourth)
}

/// An address `13.a.b.c` drawn at random, with `a` from 104 to 107.
pub fn random_forwarded_ip() -> (ip: String)
    ensures
        is_forwarded_ip(ip@),
{
    let second = random_between(104, 107);
    let third = random_between(0, 255);
    let fourth = random_between(0, 255);
    forwarded_ip(second, third, fourth)
}

/// The value of a hexadecimal digit in ASCII, of either case.
pub open spec fn hex_digit_value(c: u8) -> Option<nat> {
    if 0x30 <= c <= 0x39 {
        Some((c - 0x30) as nat)
    } else if 0x61 <= c <= 0x66 {
        Some((c - 0x61 + 10) as nat)
    } else if 0x41 <= c <= 0x46 {
        Some((c - 0x41 + 10) as nat)
    } else {
        None
    }
}

/// The bytes that a hexadecimal text writes, two digits to the byte with the
/// high digit first; `None` where the text has an odd number of chars or holds
/// a char that is no hexadecimal digit.
pub open spec fn hex_decoded(data: Seq<u8>) -> Option<Seq<u8>>
    decreases data.len(),
{
    if data.len() % 2 != 0 {
        None
    } else if data.len() == 0 {
        Some(Seq::empty())
    } else {
        match (
            hex_decoded(data.take(data.len() - 2)),
            hex_digit_value(data[data.len() - 2]),
            hex_digit_value(data[data.len() - 1]),
        ) {
            (Some(head), Some(high), Some(low)) => Some(head.push((16 * high + low) as u8)),
            _ => None,
        }
    }
}

/// The error of `hex::decode`, carried through unread.
#[verifier::external_type_specification]
#[verifier::external_body]
pub struct ExFromHexError(hex::FromHexError);

/// `hex::decode`: the bytes that the hexadecimal text `data` writes, or an
/// error where its length is odd or one of its chars is no hexadecimal digit.
#[verifier::external_body]
fn hex_decode(data: &[u8]) -> (decoded: Result<Vec<u8>, hex::FromHexError>)
    ensures
        match hex_decoded(data@) {
            Some(bytes) => decoded matches Ok(v) && v@ == bytes,
            None => decoded is Err,
        },
{
    hex::decode(data)
}

/// What AES-256 in CBC mode makes of the ciphertext `data` under `key` and
/// `iv`, with the padding taken off, as `libaes` computes it.
pub uninterp spec fn aes256_cbc_plaintext(key: Seq<u8>, iv: Seq<u8>, data: Seq<u8>) -> Seq<u8>;

/// The bytes of a block of the cipher.
pub const BLOCK_LEN: usize = 16;

/// `Cipher::new_256` of `libaes` on `key` and `Cipher::cbc_decrypt` of that
/// cipher on `iv` and `data`. The result depends on the three alone, and is
/// empty where `data` is no whole number of blocks.
#[verifier::external_body]
fn aes256_cbc_decrypt(key: &[u8], iv: &[u8], data: &[u8]) -> (plain: Vec<u8>)
    requires
        key@.len() == 32,
        iv@.len() == 16,
    ensures
        plain@ == aes256_cbc_plaintext(key@, iv@, data@),
        data@.len() % (BLOCK_LEN as nat) != 0 ==> plain@.len() == 0,
{
    let key: &[u8; 32] = key.try_into().unwrap();
    Cipher::new_256(key).cbc_decrypt(iv, data)
}

/// The error of `String::from_utf8`, carried through unread.
#[verifier::external_type_specification]
#[verifier::external_body]
pub struct ExFromUtf8Error(std::string::FromUtf8Error);

/// `String::from_utf8` of std: the string that the bytes encode, or an error
/// where they are no UTF-8.
pub assume_specification[ String::from_utf8 ](vec: Vec<u8>) -> (result: Result<
    String,
    std::string::FromUtf8Error,
>)
    ensures
        match result {
            Ok(text) => valid_utf8(vec@) && text@ == decode_utf8(vec@),
            Err(_) => !valid_utf8(vec@),
        },
;

/// Why a ciphertext could not be turned into text.
#[derive(Clone, Copy, Debug, PartialEq, Eq)]
pub enum DecryptError {
    /// The secret is shorter than a key and an initialisation vector.
    ShortSecret,
    /// What was decrypted is no UTF-8.
    NotText,
}

/// The bytes of the key in a secret.
pub const KEY_LEN: usize = 32;

/// The bytes of the key and of the initialisation vector in a secret.
pub const SECRET_LEN: usize = 48;

/// The text that the ciphertext `data` holds. The first 32 bytes of `secret`
/// are the key and the next 16 the initialisation vector. A ciphertext that is
/// no whole number of blocks holds the empty text.
pub fn decrypt(data: &[u8], secret: &[u8]) -> (result: Result<String, DecryptError>)
    ensures
        secret@.len() < SECRET_LEN ==> result == Err::<String, DecryptError>(
            DecryptError::ShortSecret,
        ),
        secret@.len() >= SECRET_LEN && data@.len() % (BLOCK_LEN as nat) != 0 ==> (result matches Ok(
            text,
        ) && text@.len() == 0),
        secret@.len() >= SECRET_LEN ==> ({
            let plain = aes256_cbc_plaintext(
                secret@.subrange(0, KEY_LEN as int),
                secret@.subrange(KEY_LEN as int, SECRET_LEN as int),
                data@,
            );
            match result {
                Ok(text) => valid_utf8(plain) && text@ == decode_utf8(plain),
                Err(e) => !valid_utf8(plain) && e == DecryptError::NotText,
            }
        }),
{
    if secret.len() < SECRET_LEN {
        return Err(DecryptError::ShortSecret);
    }
    let key = slice_subrange(secret, 0, KEY_LEN);
    let iv = slice_subrange(secret, KEY_LEN, SECRET_LEN);
    let plain = aes256_cbc_decrypt(key, iv, data);
    match String::from_utf8(plain) {
        Ok(text) => Ok(text),
        Err(_) => Err(DecryptError::NotText),
    }
}

/// Why an encrypted request could not be opened.
#[derive(Clone, Copy, Debug, PartialEq, Eq)]
pub enum RequestError {
    /// The secret is no hexadecimal text.
    SecretNotHex,
    /// The request is no hexadecimal text.
    RequestNotHex,
    /// The request could not be decrypted.
    Decrypt(DecryptError),
}

/// What opening a request yields, given the secret and the ciphertext that the
/// two hexadecimal texts write.
pub open spec fn opened(secret: Seq<u8>, data: Seq<u8>) -> Result<Seq<char>, RequestError> {
    if secret.len() < SECRET_LEN {
        Err(RequestError::Decrypt(DecryptError::ShortSecret))
    } else {
        let plain = aes256_cbc_plaintext(
            secret.subrange(0, KEY_LEN as int),
            secret.subrange(KEY_LEN as int, SECRET_LEN as int),
            data,
        );
        if valid_utf8(plain) {
            Ok(decode_utf8(plain))
        } else {
            Err(RequestError::Decrypt(DecryptError::NotText))
        }
    }
}

/// The plain text of an encrypted request. Secret and request come as
/// hexadecimal text.
pub fn open_request(secret_hex: &str, request_hex: &str) -> (result: Result<String, RequestError>)
    ensures
        match (hex_decoded(secret_hex.spec_bytes()), hex_decoded(request_hex.spec_bytes())) {
            (None, _) => result == Err::<String, RequestError>(RequestError::SecretNotHex),
            (Some(_), None) => result == Err::<String, RequestError>(RequestError::RequestNotHex),
            (Some(secret), Some(data)) => match opened(secret, data) {
                Ok(text) => result matches Ok(t) && t@ == text,
                Err(e) => result == Err::<String, RequestError>(e),
            },
        },
{
    let secret = match hex_decode(secret_hex.as_bytes()) {
        Ok(secret) => secret,
        Err(_) => {
            return Err(RequestError::SecretNotHex);
        },
    };
    let data = match hex_decode(request_hex.as_bytes()) {
        Ok(data) => data,
        Err(_) => {
            return Err(RequestError::RequestNotHex);
        },
    };
    match decrypt(data.as_slice(), secret.as_slice()) {
        Ok(text) => Ok(text),
        Err(e) => Err(RequestError::Decrypt(e)),
    }
}

} // verus!
