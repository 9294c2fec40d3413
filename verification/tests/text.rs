use chat_relay::annotation::{Annotation, AnnotationKind};
use chat_relay::bing_dictionary::Word;
use chat_relay::text::{
    find, find_char, from_chars, push_chars, push_decimal, push_signed_decimal, push_str, rfind,
    same_chars, slice_chars, starts_at, to_chars, trim,
};
use chat_relay::utf16::{chars_of, utf16_len_of};

fn chars(text: &str) -> Vec<char> {
    text.chars().collect()
}

#[test]
fn strings_and_chars_convert_both_ways() {
    let text = "a\u{1F600}\u{e9}\n";
    assert_eq!(to_chars(text), chars(text));
    assert_eq!(chars_of(text), chars(text));
    assert_eq!(from_chars(&chars(text)), text);
    assert_eq!(to_chars(""), Vec::<char>::new());
    assert_eq!(from_chars(&[]), "");
}

#[test]
fn chars_are_appended_and_cut() {
    let mut buf = chars("ab");
    push_chars(&mut buf, &chars("cd"));
    push_str(&mut buf, "\u{e9}f");
    assert_eq!(buf, chars("abcd\u{e9}f"));
    assert_eq!(slice_chars(&buf, 1, 5), chars("bcd\u{e9}"));
    assert_eq!(slice_chars(&buf, 3, 3), Vec::<char>::new());
    assert_eq!(slice_chars(&buf, 0, 6), buf);
}

#[test]
fn chars_and_parts_are_found() {
    let hay = chars("abcabc");
    assert_eq!(find_char(&hay, 'c', 0), 2);
    assert_eq!(find_char(&hay, 'c', 3), 5);
    assert_eq!(find_char(&hay, 'x', 0), 6);
    assert_eq!(find_char(&hay, 'a', 6), 6);
    assert_eq!(find(&hay, &chars("bc"), 0), Some(1));
    assert_eq!(find(&hay, &chars("bc"), 2), Some(4));
    assert_eq!(find(&hay, &chars("bc"), 5), None);
    assert_eq!(find(&hay, &chars("cb"), 0), None);
    assert_eq!(find(&hay, &chars(""), 0), Some(0));
    assert_eq!(find(&hay, &chars(""), 6), Some(6));
    assert_eq!(find(&hay, &chars(""), 7), None);
    assert_eq!(find(&hay, &chars("abcabcd"), 0), None);
    assert_eq!(rfind(&hay, &chars("bc")), Some(4));
    assert_eq!(rfind(&hay, &chars("ab")), Some(3));
    assert_eq!(rfind(&hay, &chars("ca")), Some(2));
    assert_eq!(rfind(&hay, &chars("x")), None);
    assert_eq!(rfind(&hay, &chars("")), Some(6));
    assert_eq!(rfind(&chars(""), &chars("a")), None);
    assert!(starts_at(&hay, &chars("cab"), 2));
    assert!(!starts_at(&hay, &chars("cab"), 3));
    assert!(!starts_at(&hay, &chars("bc"), 5));
    assert!(!starts_at(&hay, &chars("a"), usize::MAX));
    assert!(same_chars(&hay, &chars("abcabc")));
    assert!(!same_chars(&hay, &chars("abcab")));
    assert!(!same_chars(&hay, &chars("abcabd")));
}

#[test]
fn trim_takes_unicode_whitespace_off_both_ends() {
    for text in ["", " ", "a", " a b ", "\t\n a\u{a0}\u{2003}", "\u{3000}\u{85}x y\u{2028}", "\u{200b}a "] {
        assert_eq!(from_chars(&trim(&chars(text))), text.trim(), "{:?}", text);
    }
}

#[test]
fn decimal_numerals() {
    for n in [0u64, 1, 9, 10, 11, 99, 100, 101, 1234567890, u64::MAX] {
        let mut buf = chars("n=");
        push_decimal(&mut buf, n);
        assert_eq!(from_chars(&buf), format!("n={}", n));
    }
    for n in [0i64, 1, -1, 10, -10, 42, -999, i64::MAX, i64::MIN, i64::MIN + 1] {
        let mut buf = Vec::new();
        push_signed_decimal(&mut buf, n);
        assert_eq!(from_chars(&buf), n.to_string());
    }
}

#[test]
fn utf16_length_of_a_part() {
    let text = chars("a\u{1F600}\u{e9}\u{10348}b");
    assert_eq!(utf16_len_of(&text, 0, 5), 7);
    assert_eq!(utf16_len_of(&text, 1, 2), 2);
    assert_eq!(utf16_len_of(&text, 2, 4), 3);
    assert_eq!(utf16_len_of(&text, 3, 3), 0);
    assert_eq!(utf16_len_of(&['\u{ffff}', '\u{10000}'], 0, 2), 3);
}

#[test]
fn annotation_constructors() {
    assert_eq!(Annotation::bold(1, 2), Annotation { offset: 1, length: 2, kind: AnnotationKind::Bold });
    assert_eq!(
        Annotation::spoiler(3, 4),
        Annotation { offset: 3, length: 4, kind: AnnotationKind::Spoiler }
    );
    assert_eq!(
        Annotation::link(5, 6, "https://a.example/".to_string()),
        Annotation {
            offset: 5,
            length: 6,
            kind: AnnotationKind::Link("https://a.example/".to_string()),
        }
    );
}

#[test]
fn lookup_prompt_text() {
    assert_eq!(
        Word::lookup_prompt("chat", "French", "English"),
        "look up French word \"chat\" in dictionary, output the result in this format: {\"spell\": \"<word>\", \"pronunciation\": \"<IPA of the word>\", \"meaning\": \"<English meaning>\", \"example_sentence\": \"<Example sentence>\", \"example_sentence_translation\": \"<Example sentence's English meaning>\"}"
    );
}

#[test]
fn whitespace_is_the_twenty_five_chars() {
    let mut count = 0;
    for v in 0..=0x10ffffu32 {
        if let Some(c) = char::from_u32(v) {
            let listed = (0x09..=0x0d).contains(&v)
                || [0x20, 0x85, 0xa0, 0x1680, 0x2028, 0x2029, 0x202f, 0x205f, 0x3000].contains(&v)
                || (0x2000..=0x200a).contains(&v);
            assert_eq!(trim(&[c]).is_empty(), listed, "{:x}", v);
            assert_eq!(c.is_whitespace(), listed, "{:x}", v);
            if listed {
                count += 1;
            }
        }
    }
    assert_eq!(count, 25);
}
