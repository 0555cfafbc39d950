use namegen::generator::Generator;
use namegen::runs::{digit_char, power_of_ten, push_padded, Run};

fn lines(g: &Generator) -> Vec<String> {
    g.output().lines().map(|l| l.to_string()).collect()
}

#[test]
fn padded_numbers() {
    let mut s = String::from("x");
    push_padded(&mut s, 7, 1);
    push_padded(&mut s, 7, 2);
    push_padded(&mut s, 42, 3);
    push_padded(&mut s, 1950, 4);
    push_padded(&mut s, 5, 0);
    assert_eq!(s, "x7070421950");
    assert_eq!(digit_char(0), '0');
    assert_eq!(digit_char(9), '9');
    assert_eq!(power_of_ten(0), 1);
    assert_eq!(power_of_ten(4), 10000);
    assert_eq!(power_of_ten(9), 1_000_000_000);
}

#[test]
fn window_is_inclusive_at_both_ends() {
    let mut g = Generator::new(2, 4);
    g.write_line("a");
    g.write_line("ab");
    g.write_line("abc");
    g.write_line("abcd");
    g.write_line("abcde");
    assert_eq!(g.output(), "ab\nabc\nabcd\n");
    assert_eq!(g.min(), 2);
    assert_eq!(g.max(), 4);
}

#[test]
fn window_counts_bytes_not_characters() {
    let mut g = Generator::new(3, 3);
    g.write_line("\u{e9}\u{e9}");
    g.write_line("a\u{e9}");
    g.write_line("abc");
    g.write_line("\u{20ac}");
    assert_eq!(g.output(), "a\u{e9}\nabc\n\u{20ac}\n");
}

#[test]
fn unbounded_window_keeps_everything() {
    let mut g = Generator::new(0, usize::MAX);
    g.write_line("");
    g.write_line("x");
    assert_eq!(g.output(), "\nx\n");
}

#[test]
fn take_output_empties_the_generator() {
    let mut g = Generator::new(0, 10);
    g.write_line("one");
    assert_eq!(g.take_output(), "one\n");
    assert_eq!(g.output(), "");
    g.write_line("two");
    assert_eq!(g.take_output(), "two\n");
    assert_eq!(g.min(), 0);
    assert_eq!(g.max(), 10);
}

#[test]
fn numeric_sequence_has_11110_candidates() {
    let mut g = Generator::new(0, usize::MAX);
    g.append_sequences("x");
    let l = lines(&g);
    assert_eq!(l.len(), 10 + 100 + 1000 + 10000);
    assert_eq!(l[0], "x0");
    assert_eq!(l[5], "x5");
    assert_eq!(l[9], "x9");
    assert_eq!(l[10], "x00");
    assert_eq!(l[15], "x05");
    assert_eq!(l[109], "x99");
    assert_eq!(l[110], "x000");
    assert_eq!(l[1109], "x999");
    assert_eq!(l[1110], "x0000");
    assert_eq!(l[1110 + 123], "x0123");
    assert_eq!(l[11109], "x9999");
}

#[test]
fn counted_run_of_one_width() {
    let mut g = Generator::new(0, usize::MAX);
    g.append_counted("n", 2);
    let l = lines(&g);
    assert_eq!(l.len(), 100);
    assert_eq!(l[0], "n00");
    assert_eq!(l[42], "n42");
    assert_eq!(l[99], "n99");
    let mut g = Generator::new(0, usize::MAX);
    g.append_counted("n", 0);
    assert_eq!(g.output(), "n\n");
}

#[test]
fn full_date_sequence_has_30132_candidates() {
    let mut g = Generator::new(0, usize::MAX);
    g.append_dates_full("d");
    let l = lines(&g);
    assert_eq!(l.len(), 31 * 12 * 81);
    assert_eq!(l.len(), 30132);
    assert_eq!(l[0], "d01011950");
    assert_eq!(l[1], "d01011951");
    assert_eq!(l[80], "d01012030");
    assert_eq!(l[81], "d01021950");
    assert_eq!(l[972], "d02011950");
    assert_eq!(l[30131], "d31122030");
    assert!(l.contains(&"d31021999".to_string()));
}

#[test]
fn short_date_sequence_has_37200_candidates() {
    let mut g = Generator::new(0, usize::MAX);
    g.append_dates_short("d");
    let l = lines(&g);
    assert_eq!(l.len(), 31 * 12 * 100);
    assert_eq!(l[0], "d010100");
    assert_eq!(l[99], "d010199");
    assert_eq!(l[100], "d010200");
    assert_eq!(l[1200], "d020100");
    assert_eq!(l[37199], "d311299");
}

#[test]
fn infix_sequences_put_the_symbol_before_each_tail() {
    let mut g = Generator::new(0, usize::MAX);
    g.append_infix_sequences("ab", '_');
    let l = lines(&g);
    assert_eq!(l.len(), 11110 + 30132 + 37200);
    assert_eq!(l[0], "ab_0");
    assert_eq!(l[11109], "ab_9999");
    assert_eq!(l[11110], "ab_01011950");
    assert_eq!(l[11110 + 30131], "ab_31122030");
    assert_eq!(l[11110 + 30132], "ab_010100");
    assert_eq!(l[11110 + 30132 + 37199], "ab_311299");

    let mut direct = Generator::new(0, usize::MAX);
    direct.append_sequences("ab_");
    direct.append_dates_full("ab_");
    direct.append_dates_short("ab_");
    assert_eq!(g.output(), direct.output());
}

#[test]
fn runs_by_name() {
    let mut a = Generator::new(0, usize::MAX);
    a.append_run("q", Run::Numeric);
    a.append_run("q", Run::FullDates);
    a.append_run("q", Run::ShortDates);
    let mut b = Generator::new(0, usize::MAX);
    b.append_sequences("q");
    b.append_dates_full("q");
    b.append_dates_short("q");
    assert_eq!(a.output(), b.output());
}

#[test]
fn length_five_window_keeps_ab123_only_at_length_five() {
    let mut g = Generator::new(5, 5);
    g.append_sequences("ab");
    let l = lines(&g);
    assert!(l.contains(&"ab123".to_string()));
    assert!(!l.contains(&"ab12".to_string()));
    assert!(!l.contains(&"ab1234".to_string()));
    assert!(!l.contains(&"ab0123".to_string()));
    assert_eq!(l.len(), 1000);
    assert!(l.iter().all(|c| c.len() == 5));
    assert_eq!(l[0], "ab000");
    assert_eq!(l[999], "ab999");
}

#[test]
fn lists_are_offered_in_order() {
    let forms = vec!["bob".to_string(), "Bob".to_string(), "BOB!".to_string()];
    let mut g = Generator::new(0, 3);
    g.offer_all(&forms);
    assert_eq!(g.output(), "bob\nBob\n");
    let mut g = Generator::new(0, 4);
    g.offer_with_symbol(&forms, '-');
    assert_eq!(g.output(), "bob-\nBob-\n");
    let mut g = Generator::new(0, 9);
    g.offer_each_symbol(&forms, "-_");
    assert_eq!(g.output(), "bob-\nBob-\nBOB!-\nbob_\nBob_\nBOB!_\n");
}

#[test]
fn runs_are_offered_base_by_base() {
    let forms = vec!["a".to_string(), "B".to_string()];
    let mut g = Generator::new(2, 2);
    g.append_run_each(&forms, Run::Numeric);
    assert_eq!(
        g.output(),
        "a0\na1\na2\na3\na4\na5\na6\na7\na8\na9\nB0\nB1\nB2\nB3\nB4\nB5\nB6\nB7\nB8\nB9\n"
    );
    let mut g = Generator::new(3, 3);
    g.append_infix_each(&forms, '.');
    assert_eq!(
        g.output(),
        "a.0\na.1\na.2\na.3\na.4\na.5\na.6\na.7\na.8\na.9\nB.0\nB.1\nB.2\nB.3\nB.4\nB.5\nB.6\nB.7\nB.8\nB.9\n"
    );
    let mut g = Generator::new(3, 3);
    let one = vec!["z".to_string()];
    g.append_infix_each_symbol(&one, "+*");
    assert_eq!(
        g.output(),
        "z+0\nz+1\nz+2\nz+3\nz+4\nz+5\nz+6\nz+7\nz+8\nz+9\nz*0\nz*1\nz*2\nz*3\nz*4\nz*5\nz*6\nz*7\nz*8\nz*9\n"
    );
}
