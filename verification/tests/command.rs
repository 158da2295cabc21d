use resp_benchmark::command::distribution::DistributionEnum;
use resp_benchmark::command::distribution::SequenceDistribution;
use resp_benchmark::command::error::CommandError;
use resp_benchmark::command::parser::find_char;
use resp_benchmark::command::parser::parse_all;
use resp_benchmark::command::placeholder::PlaceholderEnum;
use resp_benchmark::command::placeholder::PlaceholderKey;
use resp_benchmark::command::placeholder::PlaceholderRand;
use resp_benchmark::command::placeholder::PlaceholderRange;
use resp_benchmark::command::placeholder::PlaceholderString;
use resp_benchmark::command::placeholder::PlaceholderValue;
use resp_benchmark::command::Command;

/// A rank that is never asked for.
fn no_zipf(_n: u64) -> u64 {
    panic!("no key is drawn by Zipf's law")
}

fn error_of(template: &str) -> CommandError {
    match Command::new(template) {
        Ok(_) => panic!("{} compiled", template),
        Err(error) => error,
    }
}

fn compile(template: &str) -> Command {
    match Command::new(template) {
        Ok(command) => command,
        Err(error) => panic!("{}: {:?}", template, error),
    }
}

#[test]
fn test_root() {
    let (nm, args) = match parse_all("aa test_{key sequence 100} bbb") {
        Ok(args) => ("", args),
        Err(e) => {
            println!("Error: {:?}", e);
            return;
        }
    };
    println!("nm: {:?}, args: {:?}", nm, args);
    assert_eq!(args.len(), 3);
    assert!(matches!(args[0], PlaceholderEnum::String(_)));
    assert!(matches!(args[1], PlaceholderEnum::Key(_)));
    assert!(matches!(args[2], PlaceholderEnum::String(_)));
}

#[test]
fn sequence_keys_count_up_and_wrap() {
    let mut command = compile("aa test_{key sequence 3} bbb");
    assert_eq!(command.gen_cmd(&no_zipf), vec!["aa", "test_key_0000000000", "bbb"]);
    assert_eq!(command.gen_cmd(&no_zipf), vec!["aa", "test_key_0000000001", "bbb"]);
    assert_eq!(command.gen_cmd(&no_zipf), vec!["aa", "test_key_0000000002", "bbb"]);
    assert_eq!(command.gen_cmd(&no_zipf), vec!["aa", "test_key_0000000000", "bbb"]);
    assert_eq!(command.to_string(), "aa test_{key sequence 3} bbb");
}

#[test]
fn uniform_keys_are_padded_to_ten_digits_below_the_range() {
    let mut command = compile("get {key uniform 1000}");
    for _ in 0..1000 {
        let args = command.gen_cmd(&no_zipf);
        assert_eq!(args.len(), 2);
        assert_eq!(args[0], "get");
        let key = &args[1];
        assert_eq!(key.len(), 14);
        assert!(key.starts_with("key_"));
        let digits = &key[4..];
        assert!(digits.chars().all(|c| c.is_ascii_digit()));
        let number: u64 = digits.parse().unwrap();
        assert!(number < 1000);
    }
}

#[test]
fn uniform_keys_over_a_range_of_one_are_all_zero() {
    let mut command = compile("get {key uniform 1}");
    for _ in 0..20 {
        assert_eq!(command.gen_cmd(&no_zipf), vec!["get", "key_0000000000"]);
    }
}

#[test]
fn zipfian_keys_take_their_rank_from_the_caller() {
    let mut command = compile("get {key zipfian 1000}");
    assert_eq!(command.gen_cmd(&|_n: u64| 1), vec!["get", "key_0000000000"]);
    assert_eq!(command.gen_cmd(&|_n: u64| 43), vec!["get", "key_0000000042"]);
    assert_eq!(command.gen_cmd(&|n: u64| n), vec!["get", "key_0000000999"]);
    // a rank outside the elements is taken for the nearest inside
    assert_eq!(command.gen_cmd(&|_n: u64| 0), vec!["get", "key_0000000000"]);
    assert_eq!(command.gen_cmd(&|n: u64| n + 5), vec!["get", "key_0000000999"]);
}

#[test]
fn keys_beyond_ten_digits_are_not_cut() {
    assert_eq!(PlaceholderKey::render(0), "key_0000000000");
    assert_eq!(PlaceholderKey::render(9_999_999_999), "key_9999999999");
    assert_eq!(PlaceholderKey::render(10_000_000_000), "key_10000000000");
    assert_eq!(PlaceholderKey::render(u64::MAX), "key_18446744073709551615");
}

#[test]
fn values_are_random_letters_and_digits() {
    let mut command = compile("set k {value 64}");
    let mut seen = std::collections::BTreeSet::new();
    for _ in 0..50 {
        let args = command.gen_cmd(&no_zipf);
        assert_eq!(args.len(), 3);
        assert_eq!(args[0], "set");
        assert_eq!(args[1], "k");
        assert_eq!(args[2].len(), 64);
        assert!(args[2].chars().all(|c| c.is_ascii_alphanumeric()));
        seen.insert(args[2].clone());
    }
    assert!(seen.len() > 1);
    let empty = PlaceholderValue::new(0);
    assert_eq!(empty.gen(), "");
    let mut command = compile("set k {value 0}");
    assert_eq!(command.gen_cmd(&no_zipf), vec!["set", "k"]);
}

#[test]
fn rand_is_a_number_below_the_range() {
    let mut command = compile("incrby k {rand 7}");
    let mut seen = std::collections::BTreeSet::new();
    for _ in 0..500 {
        let args = command.gen_cmd(&no_zipf);
        assert_eq!(args.len(), 3);
        let number: u64 = args[2].parse().unwrap();
        assert!(number < 7);
        assert_eq!(args[2], number.to_string());
        seen.insert(number);
    }
    assert!(seen.len() > 1);
    assert_eq!(PlaceholderRand::render(0), "0");
    assert_eq!(PlaceholderRand::render(1_234_567), "1234567");
    assert_eq!(PlaceholderRand::render(u64::MAX), "18446744073709551615");
    let mut one = PlaceholderRand::new(1);
    assert_eq!(one.gen(), "0");
}

#[test]
fn range_renders_both_ends_held_below_the_range() {
    let range = PlaceholderRange::new(100, 10);
    assert_eq!(range.render(5), vec!["5", "15"]);
    assert_eq!(range.render(89), vec!["89", "99"]);
    assert_eq!(range.render(95), vec!["95", "99"]);
    assert_eq!(range.render(99), vec!["99", "99"]);
    let wide = PlaceholderRange::new(u64::MAX, u64::MAX);
    assert_eq!(wide.render(3), vec!["3", "18446744073709551614"]);
    let mut drawn = PlaceholderRange::new(50, 5);
    for _ in 0..200 {
        let ends = drawn.gen();
        assert_eq!(ends.len(), 2);
        let left: u64 = ends[0].parse().unwrap();
        let right: u64 = ends[1].parse().unwrap();
        assert!(left < 50);
        assert_eq!(right, std::cmp::min(left + 5, 49));
    }
}

#[test]
fn the_ends_of_a_range_are_two_arguments() {
    let mut command = compile("zrange k {range 1 0}");
    assert_eq!(command.gen_cmd(&no_zipf), vec!["zrange", "k", "0", "0"]);
    let mut command = compile("zrange z {range 1 5}");
    assert_eq!(command.gen_cmd(&no_zipf), vec!["zrange", "z", "0", "0"]);
    // what stands right before and after joins the nearer end
    let mut command = compile("a{range 1 5}b");
    assert_eq!(command.gen_cmd(&no_zipf), vec!["a0", "0b"]);
    let mut command = compile("zcount k {range 1000 10} x");
    for _ in 0..100 {
        let args = command.gen_cmd(&no_zipf);
        assert_eq!(args.len(), 5);
        let left: u64 = args[2].parse().unwrap();
        let right: u64 = args[3].parse().unwrap();
        assert!(left < 1000);
        assert_eq!(right, std::cmp::min(left + 10, 999));
        assert_eq!(args[4], "x");
    }
}

#[test]
fn text_in_quotes_stands_without_the_quotes() {
    let mut command = compile("\"set a\"'b c'{key sequence 5}");
    assert_eq!(command.gen_cmd(&no_zipf), vec!["set", "ab", "ckey_0000000000"]);
    // a brace inside quotes opens no placeholder
    let mut command = compile("\"a{key sequence 5}\" b");
    assert_eq!(command.gen_cmd(&no_zipf), vec!["a{key", "sequence", "5}", "b"]);
    // a quote that is not closed, or closes at once, stands as it is
    let mut command = compile("\"abc");
    assert_eq!(command.gen_cmd(&no_zipf), vec!["\"abc"]);
    let mut command = compile("\"\" x");
    assert_eq!(command.gen_cmd(&no_zipf), vec!["\"\"", "x"]);
    // quotes count only where a segment begins
    let mut command = compile("ab\"cd\"");
    assert_eq!(command.gen_cmd(&no_zipf), vec!["ab\"cd\""]);
    // an unclosed quote before a placeholder
    let mut command = compile("'x {key sequence 2}");
    assert_eq!(command.gen_cmd(&no_zipf), vec!["'x", "key_0000000000"]);
}

#[test]
fn a_closing_brace_alone_is_text() {
    let mut command = compile("a } b");
    assert_eq!(command.gen_cmd(&no_zipf), vec!["a", "}", "b"]);
}

#[test]
fn the_empty_template_generates_no_argument() {
    let mut command = compile("");
    assert_eq!(command.gen_cmd(&no_zipf), Vec::<String>::new());
    let mut command = compile("   ");
    assert_eq!(command.gen_cmd(&no_zipf), Vec::<String>::new());
}

#[test]
fn words_are_split_at_any_white_space() {
    let mut command = compile("a\tb\nc\u{3000}d\u{a0}e  f\u{200b}g");
    assert_eq!(command.gen_cmd(&no_zipf), vec!["a", "b", "c", "d", "e", "f\u{200b}g"]);
    let text = "a\tb\nc\u{3000}d\u{a0}e  f\u{200b}g \u{85}\u{1680}\u{2000}\u{200a}\u{2028}\u{2029}\u{202f}\u{205f}h";
    let mut command = compile(text);
    let expected: Vec<String> = text.split_whitespace().map(|w| w.to_string()).collect();
    assert_eq!(command.gen_cmd(&no_zipf), expected);
}

#[test]
fn every_error_has_a_template_that_gives_it() {
    assert_eq!(error_of("get {key uniform 10"), CommandError::Syntax);
    assert_eq!(error_of("get {}"), CommandError::Syntax);
    assert_eq!(error_of("get {"), CommandError::Syntax);
    assert_eq!(error_of("get { }"), CommandError::EmptyPlaceholder);
    assert_eq!(error_of("get {keys uniform 10}"), CommandError::UnknownPlaceholder);
    assert_eq!(error_of("get {KEY uniform 10}"), CommandError::UnknownPlaceholder);
    assert_eq!(error_of("get {key uniform}"), CommandError::WrongArity);
    assert_eq!(error_of("get {key uniform 10 20}"), CommandError::WrongArity);
    assert_eq!(error_of("get {value}"), CommandError::WrongArity);
    assert_eq!(error_of("get {value 1 2}"), CommandError::WrongArity);
    assert_eq!(error_of("get {rand}"), CommandError::WrongArity);
    assert_eq!(error_of("get {range 5}"), CommandError::WrongArity);
    assert_eq!(error_of("get {key uniform ten}"), CommandError::InvalidNumber);
    assert_eq!(error_of("get {key uniform -1}"), CommandError::InvalidNumber);
    assert_eq!(error_of("get {key uniform 18446744073709551616}"), CommandError::InvalidNumber);
    assert_eq!(error_of("get {value 1.5}"), CommandError::InvalidNumber);
    assert_eq!(error_of("get {rand +}"), CommandError::InvalidNumber);
    assert_eq!(error_of("get {range 5 x}"), CommandError::InvalidNumber);
    assert_eq!(error_of("get {range x 0}"), CommandError::InvalidNumber);
    assert_eq!(error_of("get {key normal 10}"), CommandError::UnknownDistribution);
    assert_eq!(error_of("get {key normal 0}"), CommandError::UnknownDistribution);
    assert_eq!(error_of("get {key uniform 0}"), CommandError::EmptyRange);
    assert_eq!(error_of("get {key zipfian 0}"), CommandError::EmptyRange);
    assert_eq!(error_of("get {key sequence 0}"), CommandError::EmptyRange);
    assert_eq!(error_of("get {rand 0}"), CommandError::EmptyRange);
    assert_eq!(error_of("get {range 0 5}"), CommandError::EmptyRange);
    assert_eq!(CommandError::EmptyPlaceholder.message(), "placeholder is empty");
    assert_eq!(CommandError::WrongArity.message(), "wrong number of arguments for placeholder");
    assert_eq!(CommandError::UnknownDistribution.message(), "unknown distribution");
}

#[test]
fn the_first_error_from_the_left_decides() {
    assert_eq!(error_of("{key uniform 0} {rand x} {"), CommandError::EmptyRange);
    assert_eq!(error_of("{rand x} {key uniform 0} {"), CommandError::InvalidNumber);
    assert_eq!(error_of("{ } {"), CommandError::EmptyPlaceholder);
    assert_eq!(error_of("{} {rand x}"), CommandError::Syntax);
}

#[test]
fn numbers_may_carry_a_plus_sign_and_leading_zeros() {
    let mut command = compile("{key sequence +007}");
    for i in 0..7 {
        assert_eq!(command.gen_cmd(&no_zipf), vec![format!("key_{:010}", i)]);
    }
    assert_eq!(command.gen_cmd(&no_zipf), vec!["key_0000000000"]);
    let mut command = compile("{key sequence 18446744073709551615}");
    assert_eq!(command.gen_cmd(&no_zipf), vec!["key_0000000000"]);
}

#[test]
fn placeholders_compile_from_their_body() {
    let mut key = match PlaceholderEnum::new("  key   sequence   4 ") {
        Ok(placeholder) => placeholder,
        Err(error) => panic!("{:?}", error),
    };
    assert_eq!(key.gen(&no_zipf), vec!["key_0000000000"]);
    assert_eq!(key.gen(&no_zipf), vec!["key_0000000001"]);
    let mut text = PlaceholderEnum::new_string("get ");
    assert_eq!(text.gen(&no_zipf), vec!["get "]);
    assert_eq!(text.gen(&no_zipf), vec!["get "]);
    assert!(matches!(PlaceholderEnum::new("value 3"), Ok(PlaceholderEnum::Value(_))));
    assert!(matches!(PlaceholderEnum::new("rand 3"), Ok(PlaceholderEnum::Rand(_))));
    assert!(matches!(PlaceholderEnum::new("range 3 1"), Ok(PlaceholderEnum::Range(_))));
    assert!(matches!(PlaceholderEnum::new("key uniform"), Err(CommandError::WrongArity)));
    let mut literal = PlaceholderString::new("abc".to_string());
    assert_eq!(literal.gen(), "abc");
}

#[test]
fn distributions_sample_below_their_range() {
    let mut uniform = match DistributionEnum::new("uniform", 5) {
        Ok(distribution) => distribution,
        Err(error) => panic!("{:?}", error),
    };
    let mut seen = [false; 5];
    for _ in 0..500 {
        let sample = uniform.sample(&no_zipf);
        assert!(sample < 5);
        seen[sample as usize] = true;
    }
    assert!(seen.iter().filter(|s| **s).count() > 1);

    let mut zipfian = match DistributionEnum::new("zipfian", 5) {
        Ok(distribution) => distribution,
        Err(error) => panic!("{:?}", error),
    };
    assert_eq!(zipfian.sample(&|n: u64| n), 4);
    assert_eq!(zipfian.sample(&|_n: u64| 1), 0);
    assert_eq!(zipfian.sample(&|_n: u64| 3), 2);
    assert_eq!(DistributionEnum::index_of_rank(5, 0), 0);
    assert_eq!(DistributionEnum::index_of_rank(5, 6), 4);

    let mut sequence = match DistributionEnum::new("sequence", 3) {
        Ok(distribution) => distribution,
        Err(error) => panic!("{:?}", error),
    };
    let samples: Vec<u64> = (0..7).map(|_| sequence.sample(&no_zipf)).collect();
    assert_eq!(samples, vec![0, 1, 2, 0, 1, 2, 0]);

    assert!(matches!(DistributionEnum::new("gauss", 3), Err(CommandError::UnknownDistribution)));
    assert!(matches!(DistributionEnum::new("uniform", 0), Err(CommandError::EmptyRange)));
    assert!(matches!(DistributionEnum::new("", 3), Err(CommandError::UnknownDistribution)));
}

#[test]
fn a_sequence_counts_from_zero() {
    let mut sequence = SequenceDistribution::new(2);
    assert_eq!(sequence.sample(), 0);
    assert_eq!(sequence.sample(), 1);
    assert_eq!(sequence.sample(), 0);
}

#[test]
fn find_char_finds_the_first_from_an_index() {
    let text: Vec<char> = "a{b}c}".chars().collect();
    assert_eq!(find_char(&text, '}', 0), 3);
    assert_eq!(find_char(&text, '}', 3), 3);
    assert_eq!(find_char(&text, '}', 4), 5);
    assert_eq!(find_char(&text, '{', 2), 6);
    assert_eq!(find_char(&text, 'a', 6), 6);
}
