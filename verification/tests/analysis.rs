use text_analyzer::analyzer::{analyze, analyze_text, clean_word};
use text_analyzer::arguments::{parse_arguments, parse_length, parse_prefix, UsageError};
use text_analyzer::chars::{chars_of, string_of};
use text_analyzer::filter::Configuration;
use text_analyzer::order::{same_word, word_le};
use text_analyzer::report::{leader, push_decimal, report, Report};
use text_analyzer::table::FrequencyTable;
use text_analyzer::token::{normalize, tokenize};

fn word(s: &str) -> Vec<char> {
    chars_of(s)
}

fn most_common(text: &str, config: &Configuration) -> Option<(String, usize)> {
    analyze(text, config).most_common
}

#[test]
fn empty_text_counts_nothing() {
    let r = analyze("", &Configuration::unconstrained());
    assert_eq!(r.total_words, 0);
    assert_eq!(r.unique_words, 0);
    assert!(r.most_common.is_none());
}

#[test]
fn whitespace_only_text_counts_nothing() {
    let r = analyze(" \t\n  \r\n", &Configuration::unconstrained());
    assert_eq!(r.total_words, 0);
    assert_eq!(r.unique_words, 0);
    assert!(r.most_common.is_none());
}

#[test]
fn punctuation_only_tokens_are_dropped() {
    let r = analyze("--- !!! ... fox", &Configuration::unconstrained());
    assert_eq!(r.total_words, 1);
    assert_eq!(r.unique_words, 1);
    assert_eq!(r.most_common, Some(("fox".to_string(), 1)));
}

#[test]
fn case_variants_are_one_word() {
    let r = analyze("The the THE fox", &Configuration::unconstrained());
    assert_eq!(r.total_words, 4);
    assert_eq!(r.unique_words, 2);
    assert_eq!(r.most_common, Some(("the".to_string(), 3)));
}

#[test]
fn min_length_keeps_long_words_only() {
    let config = Configuration::new(Some(4), None);
    let r = analyze("cat dog elephant", &config);
    assert_eq!(r.total_words, 1);
    assert_eq!(r.unique_words, 1);
    assert_eq!(r.most_common, Some(("elephant".to_string(), 1)));
}

#[test]
fn min_length_is_inclusive() {
    let config = Configuration::new(Some(3), None);
    let r = analyze("cat do elephant", &config);
    assert_eq!(r.total_words, 2);
    assert_eq!(r.unique_words, 2);
}

#[test]
fn min_length_counts_characters() {
    let config = Configuration::new(Some(2), None);
    let r = analyze("\u{e9} \u{e9}a", &config);
    assert_eq!(r.total_words, 1);
    assert_eq!(r.most_common, Some(("\u{e9}a".to_string(), 1)));
}

#[test]
fn min_length_zero_admits_all() {
    let config = Configuration::new(Some(0), None);
    let r = analyze("a bb ccc", &config);
    assert_eq!(r.total_words, 3);
}

#[test]
fn start_prefix_keeps_matching_words_only() {
    let config = Configuration::new(None, Some('a'));
    let r = analyze("Apple apple banana", &config);
    assert_eq!(r.total_words, 2);
    assert_eq!(r.unique_words, 1);
    assert_eq!(r.most_common, Some(("apple".to_string(), 2)));
}

#[test]
fn both_constraints_must_hold() {
    let config = Configuration::new(Some(4), Some('a'));
    let r = analyze("ant apple banana avocado", &config);
    assert_eq!(r.total_words, 2);
    assert_eq!(r.unique_words, 2);
    assert_eq!(r.most_common, Some(("apple".to_string(), 1)));
}

#[test]
fn tie_goes_to_the_lexicographically_first() {
    let config = Configuration::unconstrained();
    assert_eq!(most_common("ant bee", &config), Some(("ant".to_string(), 1)));
    assert_eq!(most_common("bee ant", &config), Some(("ant".to_string(), 1)));
    assert_eq!(most_common("bee ant bee ant cat", &config), Some(("ant".to_string(), 2)));
}

#[test]
fn tie_prefers_prefix() {
    let config = Configuration::unconstrained();
    assert_eq!(most_common("antler ant", &config), Some(("ant".to_string(), 1)));
}

#[test]
fn higher_count_beats_lexicographic_order() {
    let config = Configuration::unconstrained();
    assert_eq!(most_common("ant zebra zebra", &config), Some(("zebra".to_string(), 2)));
}

#[test]
fn table_counts_each_word() {
    let table = analyze_text("The quick, the slow; THE end.", &Configuration::unconstrained());
    assert_eq!(table.len(), 4);
    assert_eq!(table.total(), 6);
    assert_eq!(table.count(&word("the")), 3);
    assert_eq!(table.count(&word("quick")), 1);
    assert_eq!(table.count(&word("slow")), 1);
    assert_eq!(table.count(&word("end")), 1);
    assert_eq!(table.count(&word("absent")), 0);
}

#[test]
fn table_keeps_order_of_first_occurrence() {
    let table = analyze_text("b a b c a", &Configuration::unconstrained());
    assert_eq!(table.len(), 3);
    assert_eq!(string_of(table.word_at(0)), "b");
    assert_eq!(table.count_at(0), 2);
    assert_eq!(string_of(table.word_at(1)), "a");
    assert_eq!(table.count_at(1), 2);
    assert_eq!(string_of(table.word_at(2)), "c");
    assert_eq!(table.count_at(2), 1);
    assert_eq!(table.position(&word("c")), Some(2));
    assert_eq!(table.position(&word("d")), None);
}

#[test]
fn totals_match_the_table() {
    let table = analyze_text("one two two three three three", &Configuration::unconstrained());
    let r = report(&table);
    let mut sum = 0;
    for i in 0..table.len() {
        sum += table.count_at(i);
    }
    assert_eq!(r.total_words, sum);
    assert_eq!(r.total_words, 6);
    assert_eq!(r.unique_words, table.len());
    assert!(r.unique_words <= r.total_words);
    assert_eq!(leader(&table), 2);
}

#[test]
fn order_of_tokens_does_not_change_the_counts() {
    let config = Configuration::new(Some(2), None);
    let a = analyze_text("bb aa bb c aa dd", &config);
    let b = analyze_text("dd aa c bb aa bb", &config);
    for w in ["aa", "bb", "c", "dd"] {
        assert_eq!(a.count(&word(w)), b.count(&word(w)));
    }
    assert_eq!(report(&a).most_common, report(&b).most_common);
    assert_eq!(report(&a).most_common, Some(("aa".to_string(), 2)));
}

#[test]
fn adding_to_a_table_by_hand() {
    let mut table = FrequencyTable::new();
    assert_eq!(table.len(), 0);
    assert_eq!(table.total(), 0);
    assert!(report(&table).most_common.is_none());
    table.add(word("x"));
    table.add(word("y"));
    table.add(word("x"));
    assert_eq!(table.len(), 2);
    assert_eq!(table.total(), 3);
    assert_eq!(table.count(&word("x")), 2);
    assert_eq!(table.count(&word("y")), 1);
}

#[test]
fn clean_word_strips_and_lowercases() {
    assert_eq!(clean_word("Hello,"), "hello");
    assert_eq!(clean_word("don't!"), "dont");
    assert_eq!(clean_word("R2-D2"), "r2d2");
    assert_eq!(clean_word("..."), "");
    assert_eq!(clean_word(""), "");
    assert_eq!(clean_word("\u{c9}T\u{c9}"), "\u{e9}t\u{e9}");
}

#[test]
fn clean_word_is_idempotent_on_tokens() {
    for w in ["hello", "r2d2", "\u{e9}t\u{e9}", "stra\u{df}e"] {
        assert_eq!(clean_word(w), w);
        assert_eq!(clean_word(&clean_word(w)), clean_word(w));
    }
}

#[test]
fn lowercasing_may_yield_several_characters() {
    // U+0130 lowercases to 'i' followed by a combining dot above.
    assert_eq!(clean_word("\u{130}"), "i\u{307}");
    assert_eq!(normalize(&word("\u{130}")).len(), 2);
    // The combining dot is not alphanumeric, so it does not survive a second pass.
    assert_eq!(clean_word("i\u{307}"), "i");
}

#[test]
fn tokenize_splits_on_runs_of_whitespace() {
    let tokens = tokenize(&word("  alpha\tbeta\n\ngamma, delta  "));
    let got: Vec<String> = tokens.iter().map(string_of).collect();
    assert_eq!(got, vec!["alpha", "beta", "gamma,", "delta"]);
    assert!(tokenize(&word("")).is_empty());
    assert!(tokenize(&word(" \n ")).is_empty());
    let single = tokenize(&word("one"));
    assert_eq!(single.len(), 1);
    assert_eq!(string_of(&single[0]), "one");
}

#[test]
fn tokenize_splits_on_unicode_whitespace() {
    let tokens = tokenize(&word("a\u{2003}b\u{a0}c"));
    assert_eq!(tokens.len(), 3);
}

#[test]
fn accepts_follows_both_constraints() {
    let any = Configuration::unconstrained();
    assert!(any.accepts(&word("x")));
    assert!(any.accepts(&word("")));
    let long = Configuration::new(Some(3), None);
    assert!(!long.accepts(&word("ab")));
    assert!(long.accepts(&word("abc")));
    let starts = Configuration::new(None, Some('b'));
    assert!(starts.accepts(&word("bee")));
    assert!(!starts.accepts(&word("abe")));
    assert!(!starts.accepts(&word("")));
    let upper = Configuration::new(None, Some('B'));
    assert!(!upper.accepts(&word("bee")));
}

#[test]
fn words_compare_by_character() {
    assert!(same_word(&word("abc"), &word("abc")));
    assert!(!same_word(&word("abc"), &word("abd")));
    assert!(!same_word(&word("abc"), &word("ab")));
    assert!(word_le(&word(""), &word("")));
    assert!(word_le(&word("ab"), &word("abc")));
    assert!(!word_le(&word("abc"), &word("ab")));
    assert!(word_le(&word("abc"), &word("abd")));
    assert!(!word_le(&word("b"), &word("abc")));
    assert!(word_le(&word("same"), &word("same")));
}

#[test]
fn strings_and_characters_convert_both_ways() {
    assert_eq!(chars_of("h\u{e9}!"), vec!['h', '\u{e9}', '!']);
    assert_eq!(string_of(&vec!['o', 'k']), "ok");
    assert_eq!(string_of(&chars_of("round trip")), "round trip");
}

#[test]
fn parse_length_reads_decimal_numbers() {
    assert_eq!(parse_length(&word("0")), Some(0));
    assert_eq!(parse_length(&word("4")), Some(4));
    assert_eq!(parse_length(&word("007")), Some(7));
    assert_eq!(parse_length(&word("+12")), Some(12));
    assert_eq!(parse_length(&word("1234567890")), Some(1234567890));
    assert_eq!(parse_length(&word(&usize::MAX.to_string())), Some(usize::MAX));
}

#[test]
fn parse_length_refuses_everything_else() {
    for bad in ["", "+", "-1", "-0", "4x", "x4", " 4", "4 ", "++4", "1.5", "\u{665}"] {
        assert_eq!(parse_length(&word(bad)), None);
        assert!(bad.parse::<usize>().is_err());
    }
    assert_eq!(parse_length(&word("99999999999999999999999999")), None);
    let mut too_large = usize::MAX.to_string();
    too_large.push('0');
    assert_eq!(parse_length(&word(&too_large)), None);
    let last = (b'0' + (usize::MAX % 10) as u8 + 1) as char;
    let mut just_over = (usize::MAX / 10).to_string();
    just_over.push(last);
    assert_eq!(parse_length(&word(&just_over)), None);
}

#[test]
fn parse_length_agrees_with_the_standard_parser() {
    for s in ["0", "10", "+5", "000", "18446744073709551615", "18446744073709551616", "a", "+"] {
        assert_eq!(parse_length(&word(s)), s.parse::<usize>().ok());
    }
}

#[test]
fn parse_prefix_takes_the_first_character() {
    assert_eq!(parse_prefix(&word("abc")), Some('a'));
    assert_eq!(parse_prefix(&word("\u{e9}")), Some('\u{e9}'));
    assert_eq!(parse_prefix(&word("")), None);
}

fn command_line(args: &[&str]) -> Vec<String> {
    args.iter().map(|a| a.to_string()).collect()
}

#[test]
fn arguments_need_a_file_path() {
    assert_eq!(parse_arguments(&command_line(&[])).err(), Some(UsageError::MissingFilePath));
    assert_eq!(parse_arguments(&command_line(&["prog"])).err(), Some(UsageError::MissingFilePath));
}

#[test]
fn arguments_without_flags_are_unconstrained() {
    let a = parse_arguments(&command_line(&["prog", "file.txt"])).unwrap();
    assert_eq!(a.file_path, "file.txt");
    assert_eq!(a.config.min_length, None);
    assert_eq!(a.config.start_prefix, None);
}

#[test]
fn arguments_read_both_flags() {
    let a = parse_arguments(&command_line(&[
        "prog", "f", "--min-length", "4", "--starts-with", "apple",
    ]))
    .unwrap();
    assert_eq!(a.file_path, "f");
    assert_eq!(a.config.min_length, Some(4));
    assert_eq!(a.config.start_prefix, Some('a'));
}

#[test]
fn malformed_length_leaves_length_unconstrained() {
    let a = parse_arguments(&command_line(&["prog", "f", "--min-length", "four"])).unwrap();
    assert_eq!(a.config.min_length, None);
    let b = parse_arguments(&command_line(&["prog", "f", "--min-length", "-3"])).unwrap();
    assert_eq!(b.config.min_length, None);
    let c = parse_arguments(&command_line(&[
        "prog", "f", "--min-length", "3", "--min-length", "x",
    ]))
    .unwrap();
    assert_eq!(c.config.min_length, None);
}

#[test]
fn later_flags_override_earlier_ones() {
    let a = parse_arguments(&command_line(&[
        "prog", "f", "--min-length", "3", "--starts-with", "x", "--min-length", "5",
        "--starts-with", "y",
    ]))
    .unwrap();
    assert_eq!(a.config.min_length, Some(5));
    assert_eq!(a.config.start_prefix, Some('y'));
}

#[test]
fn unknown_flags_are_ignored() {
    let a = parse_arguments(&command_line(&[
        "prog", "f", "--verbose", "--min-length", "2", "extra",
    ]))
    .unwrap();
    assert_eq!(a.config.min_length, Some(2));
    assert_eq!(a.config.start_prefix, None);
}

#[test]
fn a_flag_takes_the_next_argument_whatever_it_is() {
    let a = parse_arguments(&command_line(&[
        "prog", "f", "--min-length", "--starts-with", "z",
    ]))
    .unwrap();
    assert_eq!(a.config.min_length, None);
    assert_eq!(a.config.start_prefix, None);
    let b = parse_arguments(&command_line(&["prog", "f", "--starts-with", "--min-length", "7"]))
        .unwrap();
    assert_eq!(b.config.min_length, None);
    assert_eq!(b.config.start_prefix, Some('-'));
}

#[test]
fn a_flag_at_the_end_has_no_effect() {
    let a = parse_arguments(&command_line(&["prog", "f", "--starts-with", "q", "--min-length"]))
        .unwrap();
    assert_eq!(a.config.min_length, None);
    assert_eq!(a.config.start_prefix, Some('q'));
    let b = parse_arguments(&command_line(&["prog", "f", "--starts-with", ""])).unwrap();
    assert_eq!(b.config.start_prefix, None);
}

#[test]
fn arguments_drive_the_analysis() {
    let a = parse_arguments(&command_line(&["prog", "f", "--min-length", "4"])).unwrap();
    let r = analyze("cat dog elephant", &a.config);
    assert_eq!(r.most_common, Some(("elephant".to_string(), 1)));
}

#[test]
fn report_lines_with_a_most_common_word() {
    let r = analyze("The the THE fox", &Configuration::unconstrained());
    assert_eq!(
        r.lines(),
        vec![
            "Total words: 4",
            "Unique words: 2",
            "Most common word: 'the' (3 occurrences)",
        ]
    );
}

#[test]
fn report_lines_without_words() {
    let r = analyze("", &Configuration::unconstrained());
    assert_eq!(
        r.lines(),
        vec!["Total words: 0", "Unique words: 0", "No words found after filtering."]
    );
}

#[test]
fn report_lines_with_large_numbers() {
    let r = Report {
        total_words: 1234567890,
        unique_words: 100,
        most_common: Some(("x".to_string(), 907)),
    };
    assert_eq!(
        r.lines(),
        vec![
            "Total words: 1234567890",
            "Unique words: 100",
            "Most common word: 'x' (907 occurrences)",
        ]
    );
}

#[test]
fn push_decimal_writes_base_ten() {
    for n in [0usize, 7, 10, 42, 999, 1000, 65536, usize::MAX] {
        let mut s = String::from("n=");
        push_decimal(&mut s, n);
        assert_eq!(s, format!("n={}", n));
        assert_eq!(parse_length(&word(&s[2..])), Some(n));
    }
}
