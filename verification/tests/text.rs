use koshell::codec::{field, flag_field, int_field, natural, push_field, text_field, Scalar};
use koshell::env::Env;
use koshell::paths::{is_absolute, join_path};
use koshell::question::{extract_question, question_form, TriggerForm};
use koshell::text::{
    byte_size, clipped, contains_text, is_blank, parse_i32, parse_unsigned, push_decimal,
    push_padded, shell_quoted, signed_text, split_text, trimmed, trimmed_end,
};
use koshell::utf8_stream::{decode_into, lossy};

#[test]
fn decoding_is_lossy_as_in_the_standard_library() {
    for bytes in [
        &b"plain"[..],
        "日本語".as_bytes(),
        &[0x61, 0xff, 0xfe, 0x62],
        &[0xf0, 0x9f, 0x98],
        &[0xe0, 0x80, 0x80, 0x41],
        &[0xed, 0xa0, 0x80],
        &[0xc3, 0x28, 0xf4, 0x90, 0x80, 0x80],
    ] {
        assert_eq!(lossy(bytes), String::from_utf8_lossy(bytes), "{bytes:?}");
    }
}

#[test]
fn a_partial_character_is_left_for_the_next_chunk() {
    let mut out = String::new();
    let bytes = "é日".as_bytes();
    assert_eq!(decode_into(&bytes[..4], &mut out), 2);
    assert_eq!(out, "é");
    assert_eq!(decode_into(&bytes[2..], &mut out), 3);
    assert_eq!(out, "é日");
}

#[test]
fn numbers_read_and_write() {
    let mut out = String::new();
    push_decimal(&mut out, 0);
    push_decimal(&mut out, u64::MAX);
    assert_eq!(out, "018446744073709551615");
    assert_eq!(signed_text(i32::MIN), "-2147483648");
    assert_eq!(parse_unsigned("+12", 100), Some(12));
    assert_eq!(parse_unsigned("101", 100), None);
    assert_eq!(parse_unsigned("", 100), None);
    assert_eq!(parse_unsigned("1x", 100), None);
    assert_eq!(parse_unsigned("99999999999999999999999", u64::MAX), None);
    assert_eq!(parse_i32("-2147483648"), Some(i32::MIN));
    assert_eq!(parse_i32("2147483648"), None);
}

#[test]
fn texts_are_trimmed_split_and_padded() {
    assert_eq!(trimmed("\u{2003} a b\t\n"), "a b");
    assert_eq!(trimmed_end(" a \n"), " a");
    assert!(is_blank(" \t") && !is_blank("x"));
    assert_eq!(split_text("a::b", ':'), vec!["a", "", "b"]);
    assert_eq!(split_text("", ':'), vec![""]);
    let mut out = String::new();
    push_padded(&mut out, "é", 3);
    assert_eq!(out, "é  ");
    assert_eq!(shell_quoted("it's"), "'it'\\''s'");
    assert!(contains_text("abcabd", "abd"));
    assert!(!contains_text("ab", "abc"));
    assert_eq!(byte_size("日"), 3);
    assert_eq!(clipped("日本", 5), "日");
}

#[test]
fn fields_replace_earlier_ones() {
    let mut fields = Vec::new();
    push_field(&mut fields, "a", Scalar::Text("x".to_string()));
    push_field(&mut fields, "a", Scalar::Int(3));
    push_field(&mut fields, "b", Scalar::Flag(true));
    assert_eq!(field(&fields, "a"), Some(&Scalar::Int(3)));
    assert_eq!(text_field(&fields, "a"), None);
    assert_eq!(int_field(&fields, "a"), Some(3));
    assert_eq!(flag_field(&fields, "b"), Some(true));
    assert_eq!(natural(u64::MAX), Scalar::Large(u64::MAX));
}

#[test]
fn an_environment_holds_one_value_per_name() {
    let mut env = Env::new();
    env.insert("A", "1");
    env.insert("A", "2");
    env.insert("B", "3");
    assert_eq!(env.get("A").map(String::as_str), Some("2"));
    assert_eq!(env.entries().len(), 2);
    let copy = env.copy();
    env.remove("A");
    assert_eq!(env.get("A"), None);
    assert_eq!(copy.get("A").map(String::as_str), Some("2"));
}

#[test]
fn paths_are_joined_as_components() {
    assert_eq!(join_path("/a", "b"), "/a/b");
    assert_eq!(join_path("/a/", "b"), "/a/b");
    assert!(is_absolute("/a") && !is_absolute("a") && !is_absolute(""));
}

#[test]
fn letters_of_any_script_are_words() {
    assert_eq!(question_form("путь "), TriggerForm::Inline);
    assert_eq!(question_form("… "), TriggerForm::Standalone);
    let split = extract_question("echo \\' \"a\" #? почему #? x").unwrap();
    assert_eq!(split.question, "почему #? x");
}

#[test]
fn exactly_the_white_space_characters_are_trimmed() {
    let spaces: Vec<char> = "\u{9}\u{a}\u{b}\u{c}\u{d}\u{20}\u{85}\u{a0}\u{1680}\u{2000}\u{2001}\u{2002}\
\u{2003}\u{2004}\u{2005}\u{2006}\u{2007}\u{2008}\u{2009}\u{200a}\u{2028}\u{2029}\u{202f}\u{205f}\u{3000}"
        .chars()
        .collect();
    assert_eq!(spaces.len(), 25);
    for c in char::MIN..=char::MAX {
        let alone = c.to_string();
        assert_eq!(trimmed(&alone).is_empty(), spaces.contains(&c), "{c:?}");
    }
}

#[test]
fn ascii_letters_and_digits_are_the_ascii_words() {
    for c in (0u8..=0x7f).map(char::from) {
        let inline = question_form(&c.to_string()) == TriggerForm::Inline;
        let word = "0123456789ABCDEFGHIJKLMNOPQRSTUVWXYZabcdefghijklmnopqrstuvwxyz".contains(c);
        assert_eq!(inline, word, "{c:?}");
    }
    assert_eq!(question_form(" // "), TriggerForm::Standalone);
    assert_eq!(question_form("-- "), TriggerForm::Standalone);
}
