use chat_relay::util::{
    decrypt, forwarded_ip, open_request, random_forwarded_ip, DecryptError, RequestError,
};
use libaes::Cipher;

const KEY: &[u8; 32] = b"0123456789abcdef0123456789abcdef";
const IV: &[u8; 16] = b"fedcba9876543210";

fn secret() -> Vec<u8> {
    let mut secret = KEY.to_vec();
    secret.extend_from_slice(IV);
    secret
}

fn to_hex(bytes: &[u8]) -> String {
    bytes.iter().map(|b| format!("{:02x}", b)).collect()
}

#[test]
fn decrypt_reads_what_was_encrypted() {
    let plain = "{\"update_id\": 1, \"text\": \"Gr\u{fc}\u{df}e \u{1F600}\"}";
    let data = Cipher::new_256(KEY).cbc_encrypt(IV, plain.as_bytes());
    assert_ne!(data, plain.as_bytes());
    assert_eq!(decrypt(&data, &secret()), Ok(plain.to_string()));
    let mut longer = secret();
    longer.extend_from_slice(b"ignored");
    assert_eq!(decrypt(&data, &longer), Ok(plain.to_string()));
}

#[test]
fn decrypt_known_ciphertext() {
    let key: &[u8; 32] = b"This is the key!This is the key!";
    let iv = b"This is 16 bytes";
    let data = Cipher::new_256(key).cbc_encrypt(iv, b"A plaintext");
    let mut secret = key.to_vec();
    secret.extend_from_slice(iv);
    assert_eq!(data.len(), 16);
    assert_eq!(decrypt(&data, &secret), Ok("A plaintext".to_string()));
}

#[test]
fn decrypt_needs_key_and_vector() {
    assert_eq!(decrypt(b"", &secret()[..47]), Err(DecryptError::ShortSecret));
    assert_eq!(decrypt(b"", b""), Err(DecryptError::ShortSecret));
}

#[test]
fn decrypt_of_what_is_no_text() {
    let data = Cipher::new_256(KEY).cbc_encrypt(IV, &[0xff, 0xfe, 0x00, 0xc3]);
    assert_eq!(decrypt(&data, &secret()), Err(DecryptError::NotText));
}

#[test]
fn decrypt_of_a_broken_length_is_empty() {
    assert_eq!(decrypt(&[1, 2, 3], &secret()), Ok(String::new()));
    assert_eq!(decrypt(&[], &secret()), Ok(String::new()));
}

#[test]
fn open_request_decodes_and_decrypts() {
    let plain = "{\"message\": {}}";
    let data = Cipher::new_256(KEY).cbc_encrypt(IV, plain.as_bytes());
    assert_eq!(open_request(&to_hex(&secret()), &to_hex(&data)), Ok(plain.to_string()));
    assert_eq!(
        open_request(&to_hex(&secret()).to_uppercase(), &to_hex(&data)),
        Ok(plain.to_string())
    );
}

#[test]
fn open_request_errors() {
    let data = to_hex(&Cipher::new_256(KEY).cbc_encrypt(IV, b"x"));
    assert_eq!(open_request("abc", &data), Err(RequestError::SecretNotHex));
    assert_eq!(open_request("zz", &data), Err(RequestError::SecretNotHex));
    assert_eq!(open_request(&to_hex(&secret()), "0g"), Err(RequestError::RequestNotHex));
    assert_eq!(open_request(&to_hex(&secret()), "\u{e9}"), Err(RequestError::RequestNotHex));
    assert_eq!(
        open_request("00ff", &data),
        Err(RequestError::Decrypt(DecryptError::ShortSecret))
    );
    let not_text = to_hex(&Cipher::new_256(KEY).cbc_encrypt(IV, &[0xff]));
    assert_eq!(
        open_request(&to_hex(&secret()), &not_text),
        Err(RequestError::Decrypt(DecryptError::NotText))
    );
}

#[test]
fn forwarded_ip_in_decimal() {
    assert_eq!(forwarded_ip(104, 0, 255), "13.104.0.255");
    assert_eq!(forwarded_ip(7, 10, 99), "13.7.10.99");
}

#[test]
fn random_forwarded_ip_is_in_range() {
    let mut seen = Vec::new();
    for _ in 0..200 {
        let ip = random_forwarded_ip();
        let parts: Vec<&str> = ip.split('.').collect();
        assert_eq!(parts.len(), 4);
        assert_eq!(parts[0], "13");
        let second: u8 = parts[1].parse().unwrap();
        assert!((104..=107).contains(&second));
        let third: u8 = parts[2].parse().unwrap();
        let fourth: u8 = parts[3].parse().unwrap();
        assert_eq!(ip, forwarded_ip(second, third, fourth));
        if !seen.contains(&ip) {
            seen.push(ip);
        }
    }
    assert!(seen.len() > 1);
}
