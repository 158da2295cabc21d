use resp_benchmark::command::text::chars_of;
use resp_benchmark::command::text::decimal_len;
use resp_benchmark::command::text::parse_u64;
use resp_benchmark::command::text::push_chars;
use resp_benchmark::command::text::push_decimal;
use resp_benchmark::command::text::push_zero_padded;
use resp_benchmark::command::text::same_text;
use resp_benchmark::command::text::slice_of;
use resp_benchmark::command::text::split_words;
use resp_benchmark::command::text::string_of;
use resp_benchmark::command::text::white_space;

fn chars(text: &str) -> Vec<char> {
    text.chars().collect()
}

#[test]
fn strings_and_characters_convert_both_ways() {
    for text in ["", "a", "key_0000000001", "gr\u{fc}\u{df}e \u{4e16}\u{754c}"] {
        assert_eq!(chars_of(text), chars(text));
        assert_eq!(string_of(&chars(text)), text);
    }
    assert_eq!(slice_of(&chars("abcdef"), 2, 4), chars("cd"));
    assert_eq!(slice_of(&chars("abcdef"), 3, 3), chars(""));
    let mut text = chars("ab");
    push_chars(&mut text, &chars("cd"));
    assert_eq!(text, chars("abcd"));
    assert!(same_text(&chars("uniform"), "uniform"));
    assert!(!same_text(&chars("uniform"), "uniforn"));
    assert!(!same_text(&chars("uniform"), "uniform "));
}

#[test]
fn white_space_is_what_the_standard_library_takes_for_it() {
    for code in 0..0x11_0000u32 {
        if let Some(c) = char::from_u32(code) {
            assert_eq!(white_space(c), c.is_whitespace(), "U+{:04X}", code);
        }
    }
}

#[test]
fn split_words_agrees_with_the_standard_library() {
    for text in ["", " ", "a", " a", "a ", "a b", "  get   key_1\t\n x ", "\u{2003}a\u{2003}\u{2003}b", "one"] {
        let words: Vec<String> = split_words(&chars(text)).iter().map(|w| w.iter().collect()).collect();
        let expected: Vec<String> = text.split_whitespace().map(|w| w.to_string()).collect();
        assert_eq!(words, expected);
    }
}

#[test]
fn parse_u64_agrees_with_the_standard_library() {
    for text in [
        "",
        "+",
        "-",
        "0",
        "+0",
        "-0",
        "007",
        "42",
        "+42",
        "++42",
        "4 2",
        " 42",
        "42 ",
        "4a",
        "1.5",
        "18446744073709551615",
        "18446744073709551616",
        "99999999999999999999999",
        "\u{664}\u{662}",
    ] {
        assert_eq!(parse_u64(&chars(text)), text.parse::<u64>().ok(), "{:?}", text);
    }
}

#[test]
fn decimal_notation_agrees_with_the_standard_library() {
    for n in [0u64, 1, 9, 10, 11, 99, 100, 12_345, 9_999_999_999, 10_000_000_000, u64::MAX] {
        let mut out = chars("n=");
        push_decimal(&mut out, n);
        assert_eq!(out, chars(&format!("n={}", n)));
        assert_eq!(decimal_len(n), n.to_string().len());
        let mut padded = Vec::new();
        push_zero_padded(&mut padded, n, 10);
        assert_eq!(padded, chars(&format!("{:010}", n)));
        let mut narrow = Vec::new();
        push_zero_padded(&mut narrow, n, 0);
        assert_eq!(narrow, chars(&n.to_string()));
    }
}
