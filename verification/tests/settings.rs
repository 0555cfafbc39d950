use namegen::args::{parse_digits, parse_number, parse_range, symbols_for, Args, InputError};
use namegen::report::{summarize, Summary};
use namegen::text::{chars_of, text_of};
use namegen::words::{fold, insert_word, rank, seed_words, Rank};

fn args() -> Args {
    Args {
        input_file: None,
        words: Some("bob".to_string()),
        output_file: "out.txt".to_string(),
        split: false,
        range: None,
        minimal: false,
        verbose: false,
        debug: false,
    }
}

#[test]
fn numbers_are_digits_with_an_optional_plus() {
    assert_eq!(parse_number("0"), Some(0));
    assert_eq!(parse_number("8"), Some(8));
    assert_eq!(parse_number("012"), Some(12));
    assert_eq!(parse_number("+12"), Some(12));
    assert_eq!(parse_number("65535"), Some(65535));
    assert_eq!(parse_number(""), None);
    assert_eq!(parse_number("+"), None);
    assert_eq!(parse_number("++1"), None);
    assert_eq!(parse_number("-1"), None);
    assert_eq!(parse_number(" 1"), None);
    assert_eq!(parse_number("1 "), None);
    assert_eq!(parse_number("1a"), None);
    assert_eq!(parse_number("1+"), None);
    assert_eq!(parse_number("\u{663}"), None);
}

#[test]
fn numbers_agree_with_the_standard_parser() {
    let max = usize::MAX.to_string();
    assert_eq!(parse_number(&max), Some(usize::MAX));
    let over = format!("{}0", max);
    assert_eq!(parse_number(&over), None);
    let mut next: Vec<char> = max.chars().collect();
    let last = next.len() - 1;
    if next[last] != '9' {
        next[last] = std::char::from_digit(next[last].to_digit(10).unwrap() + 1, 10).unwrap();
        let next: String = next.into_iter().collect();
        assert_eq!(parse_number(&next), None);
        assert!(next.parse::<usize>().is_err());
    }
    for s in ["0", "7", "+7", "0007", "", "+", "-", "x", "12x", "18446744073709551616", "99999999999999999999999"] {
        assert_eq!(parse_number(s), s.parse::<usize>().ok());
    }
}

#[test]
fn digits_inside_a_longer_text() {
    let chars: Vec<char> = "ab123cd".chars().collect();
    assert_eq!(parse_digits(&chars, 2, 5), Some(123));
    assert_eq!(parse_digits(&chars, 2, 6), None);
    assert_eq!(parse_digits(&chars, 3, 3), None);
    assert_eq!(parse_digits(&chars, 4, 5), Some(3));
}

#[test]
fn ranges_have_one_hyphen() {
    assert_eq!(parse_range("8-12"), Some((8, 12)));
    assert_eq!(parse_range("10-10"), Some((10, 10)));
    assert_eq!(parse_range("12-8"), Some((12, 8)));
    assert_eq!(parse_range("+3-+4"), Some((3, 4)));
    assert_eq!(parse_range("8"), None);
    assert_eq!(parse_range(""), None);
    assert_eq!(parse_range("8-12-14"), None);
    assert_eq!(parse_range("--"), None);
    assert_eq!(parse_range("8--12"), None);
}

#[test]
fn unreadable_ends_fall_back_to_the_widest() {
    assert_eq!(parse_range("-"), Some((0, usize::MAX)));
    assert_eq!(parse_range("8-"), Some((8, usize::MAX)));
    assert_eq!(parse_range("-12"), Some((0, 12)));
    assert_eq!(parse_range("a-b"), Some((0, usize::MAX)));
    assert_eq!(parse_range("a-12"), Some((0, 12)));
    assert_eq!(parse_range(" 8-12"), Some((0, 12)));
    assert_eq!(parse_range("8-99999999999999999999999"), Some((8, usize::MAX)));
}

#[test]
fn window_of_the_settings() {
    let mut a = args();
    assert_eq!(a.window(), Some((0, usize::MAX)));
    a.range = Some("8-12".to_string());
    assert_eq!(a.window(), Some((8, 12)));
    a.range = Some("8".to_string());
    assert_eq!(a.window(), None);
}

#[test]
fn one_source_of_words_is_asked_for() {
    let mut a = args();
    assert_eq!(a.check_input(), Ok(()));
    a.input_file = Some("words.txt".to_string());
    assert_eq!(a.check_input(), Err(InputError::Both));
    a.words = None;
    assert_eq!(a.check_input(), Ok(()));
    a.input_file = None;
    assert_eq!(a.check_input(), Err(InputError::Neither));
}

#[test]
fn symbol_sets() {
    assert_eq!(symbols_for(true), "-_.*+");
    assert_eq!(symbols_for(false), "-_!,.%*+$");
    let mut a = args();
    assert_eq!(a.symbols(), "-_!,.%*+$");
    a.minimal = true;
    assert_eq!(a.symbols(), "-_.*+");
}

#[test]
fn reporting_follows_either_flag() {
    let mut a = args();
    assert!(!a.reports_candidates());
    a.verbose = true;
    assert!(a.reports_candidates());
    a.verbose = false;
    a.debug = true;
    assert!(a.reports_candidates());
}

#[test]
fn size_estimates() {
    let mut a = args();
    assert_eq!(a.megabytes_per_word(), 288);
    assert_eq!(a.estimated_megabytes(3), 864);
    assert_eq!(a.estimated_megabytes(0), 0);
    a.minimal = true;
    assert_eq!(a.megabytes_per_word(), 134);
    assert_eq!(a.estimated_megabytes(3), 402);
}

#[test]
fn split_file_names() {
    let a = args();
    assert_eq!(a.split_file_name("bob"), "bob_out.txt");
    assert_eq!(a.split_file_name(""), "_out.txt");
}

#[test]
fn texts_come_apart_and_together() {
    assert_eq!(chars_of("a\u{e9}z"), vec!['a', '\u{e9}', 'z']);
    assert_eq!(chars_of(""), Vec::<char>::new());
    let chars = chars_of("hello");
    assert_eq!(text_of(&chars, 1, 4), "ell");
    assert_eq!(text_of(&chars, 0, 5), "hello");
    assert_eq!(text_of(&chars, 2, 2), "");
}

#[test]
fn words_are_folded() {
    assert_eq!(fold("Jo\u{c3}O"), "joao");
    assert_eq!(fold("BOB"), "bob");
    assert_eq!(fold("\u{c7}a"), "ca");
    assert_eq!(fold("\u{d1}"), "\u{f1}");
}

#[test]
fn rank_is_the_order_of_the_dictionary() {
    let r = |a: &str, b: &str| rank(&a.chars().collect(), &b.chars().collect());
    assert_eq!(r("a", "b"), Rank::Before);
    assert_eq!(r("b", "a"), Rank::After);
    assert_eq!(r("ab", "ab"), Rank::Same);
    assert_eq!(r("", ""), Rank::Same);
    assert_eq!(r("", "a"), Rank::Before);
    assert_eq!(r("ab", "abc"), Rank::Before);
    assert_eq!(r("abc", "ab"), Rank::After);
    assert_eq!(r("abd", "abc"), Rank::After);
    assert_eq!(r("B", "a"), Rank::Before);
    assert_eq!(r("z", "\u{e9}"), Rank::Before);
}

#[test]
fn rank_agrees_with_the_order_of_strings() {
    let samples = ["", "a", "ab", "b", "ba", "A", "\u{e9}", "z\u{e9}", "\u{20ac}", "\u{1f600}", "zz"];
    for a in samples {
        for b in samples {
            let got = rank(&a.chars().collect(), &b.chars().collect());
            let expected = if a < b {
                Rank::Before
            } else if a == b {
                Rank::Same
            } else {
                Rank::After
            };
            assert_eq!(got, expected);
        }
    }
}

#[test]
fn insertion_keeps_the_order_and_adds_once() {
    let mut list: Vec<Vec<char>> = Vec::new();
    for w in ["m", "c", "x", "c", "a", "m", "mm"] {
        insert_word(&mut list, w.chars().collect());
    }
    let got: Vec<String> = list.into_iter().map(|w| w.into_iter().collect()).collect();
    assert_eq!(got, vec!["a", "c", "m", "mm", "x"]);
}

#[test]
fn seed_words_are_split_folded_sorted_and_unique() {
    assert_eq!(seed_words("bob alice"), vec!["alice", "bob"]);
    assert_eq!(seed_words("  Bob\tALICE\nbob \r\n Jo\u{e3}o  "), vec!["alice", "bob", "joao"]);
    assert_eq!(seed_words("one"), vec!["one"]);
    assert_eq!(seed_words(""), Vec::<String>::new());
    assert_eq!(seed_words(" \n\t "), Vec::<String>::new());
    assert_eq!(seed_words("b\u{a0}a\u{3000}c"), vec!["a", "b", "c"]);
    assert_eq!(seed_words("\u{c1}gua agua AGUA"), vec!["agua"]);
}

#[test]
fn seed_words_agree_with_the_standard_library() {
    let raw = "Zeta  alpha\tBeta\nalpha  GAMMA delta\u{2003}Zeta \u{c9}clair eclair 10 9 a-b a_b";
    let mut expected: Vec<String> = raw
        .split_whitespace()
        .map(|s| namegen::variants::remove_accents(s).to_lowercase())
        .collect();
    expected.sort();
    expected.dedup();
    assert_eq!(seed_words(raw), expected);
}

#[test]
fn summary_splits_the_time() {
    let s = Summary::new(7, "x".to_string(), 3725);
    assert_eq!(s.lines, 7);
    assert_eq!(s.size, "x");
    assert_eq!((s.hours, s.minutes, s.seconds), (1, 2, 5));
    let s = Summary::new(0, String::new(), 59);
    assert_eq!((s.hours, s.minutes, s.seconds), (0, 0, 59));
    let s = Summary::new(0, String::new(), 86400);
    assert_eq!((s.hours, s.minutes, s.seconds), (24, 0, 0));
}

#[test]
fn summary_writes_the_size_in_binary_units() {
    assert_eq!(summarize(1, 0, 0).size, "0 B");
    assert_eq!(summarize(1, 1023, 0).size, "1023 B");
    assert_eq!(summarize(1, 1024, 0).size, "1 KiB");
    assert_eq!(summarize(1, 1536, 0).size, "1.50 KiB");
    assert_eq!(summarize(1, 140509184, 0).size, "134 MiB");
    let s = summarize(12, 3 * 1024 * 1024 * 1024, 7322);
    assert_eq!(s.size, "3 GiB");
    assert_eq!(s.lines, 12);
    assert_eq!((s.hours, s.minutes, s.seconds), (2, 2, 2));
}
