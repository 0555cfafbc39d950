use namegen::expansion::{infix_base_list, leet_form_list, suffix_base_list};
use namegen::variants::{
    capitalize, l33t_a, l33t_e, l33t_i, l33t_o, l33t_s_only, l33t_vowels, l33t_vowels_s,
    remove_accents, reverse, Leet, Letter,
};

#[test]
fn vowels_are_replaced_in_either_case() {
    assert_eq!(l33t_vowels("aeioAEIO"), "43104310");
    assert_eq!(l33t_vowels("Password"), "P4ssw0rd");
    assert_eq!(l33t_vowels("xyz-_9"), "xyz-_9");
    assert_eq!(l33t_vowels(""), "");
}

#[test]
fn vowels_rule_changes_nothing_else() {
    let source = "The quick brown fox, jumps over: LAZY dogs 0123456789 $";
    let result = l33t_vowels(source);
    let src: Vec<char> = source.chars().collect();
    let res: Vec<char> = result.chars().collect();
    assert_eq!(src.len(), res.len());
    for k in 0..src.len() {
        let expected = match src[k] {
            'a' | 'A' => '4',
            'e' | 'E' => '3',
            'i' | 'I' => '1',
            'o' | 'O' => '0',
            c => c,
        };
        assert_eq!(res[k], expected);
    }
}

#[test]
fn vowels_and_s_also_replaces_s() {
    assert_eq!(l33t_vowels_s("Seasons"), "$34$0n$");
    assert_eq!(l33t_vowels_s("sS"), "$$");
    assert_eq!(l33t_vowels_s("tux"), "tux");
}

#[test]
fn single_letter_rules_touch_one_letter() {
    assert_eq!(l33t_a("Banana eios"), "B4n4n4 eios");
    assert_eq!(l33t_a("A"), "4");
    assert_eq!(l33t_e("Eleven aios"), "3l3v3n aios");
    assert_eq!(l33t_i("Iris aeos"), "1r1s aeos");
    assert_eq!(l33t_o("Otto aeis"), "0tt0 aeis");
    assert_eq!(l33t_s_only("Sassy aeio"), "$a$$y aeio");
}

#[test]
fn rules_agree_with_the_named_functions() {
    let w = "Associations";
    assert_eq!(Leet::Vowels.apply(w), l33t_vowels(w));
    assert_eq!(Leet::VowelsAndS.apply(w), l33t_vowels_s(w));
    assert_eq!(Leet::Only(Letter::A).apply(w), l33t_a(w));
    assert_eq!(Leet::Only(Letter::E).apply(w), l33t_e(w));
    assert_eq!(Leet::Only(Letter::I).apply(w), l33t_i(w));
    assert_eq!(Leet::Only(Letter::O).apply(w), l33t_o(w));
    assert_eq!(Leet::Only(Letter::S).apply(w), l33t_s_only(w));
    assert_eq!(Leet::Vowels.swap_char('e'), '3');
    assert_eq!(Leet::Vowels.swap_char('s'), 's');
    assert_eq!(Leet::VowelsAndS.swap_char('S'), '$');
    assert_eq!(Leet::Only(Letter::I).swap_char('a'), 'a');
    assert_eq!(Letter::O.sign_char(), '0');
}

#[test]
fn letters_are_found_in_either_case() {
    assert!(Letter::S.found_in("boss"));
    assert!(Letter::S.found_in("BOSS"));
    assert!(!Letter::S.found_in("bob"));
    assert!(Letter::A.found_in("xA"));
    assert!(!Letter::A.found_in(""));
    assert!(Letter::E.is_letter('E'));
    assert!(!Letter::E.is_letter('3'));
}

#[test]
fn capitalize_raises_the_first_character_only() {
    assert_eq!(capitalize("bob"), "Bob");
    assert_eq!(capitalize("bOB"), "BOB");
    assert_eq!(capitalize("Bob"), "Bob");
    assert_eq!(capitalize("9lives"), "9lives");
    assert_eq!(capitalize("b"), "B");
    assert_eq!(capitalize(""), "");
}

#[test]
fn capitalize_can_lengthen_the_word() {
    assert_eq!(capitalize("\u{df}a"), "SSa");
    assert_eq!(capitalize("\u{e9}t\u{e9}"), "\u{c9}t\u{e9}");
}

#[test]
fn reverse_turns_the_characters_round() {
    assert_eq!(reverse("bob"), "bob");
    assert_eq!(reverse("alice"), "ecila");
    assert_eq!(reverse("a\u{e9}z"), "z\u{e9}a");
    assert_eq!(reverse(""), "");
}

#[test]
fn accents_are_folded() {
    assert_eq!(remove_accents("\u{e1}\u{e0}\u{e3}\u{e2}"), "aaaa");
    assert_eq!(remove_accents("\u{c1}\u{c0}\u{c3}\u{c2}"), "AAAA");
    assert_eq!(remove_accents("\u{e9}\u{ea}\u{c9}\u{ca}"), "eeEE");
    assert_eq!(remove_accents("\u{ed}\u{cd}"), "iI");
    assert_eq!(remove_accents("\u{f3}\u{f5}\u{f4}\u{d3}\u{d5}\u{d4}"), "oooOOO");
    assert_eq!(remove_accents("\u{fa}\u{da}\u{e7}\u{c7}"), "uUcC");
    assert_eq!(remove_accents("Jo\u{e3}o Concei\u{e7}\u{e3}o"), "Joao Conceicao");
}

#[test]
fn other_characters_keep_their_accents() {
    assert_eq!(remove_accents("\u{f1}\u{fc}\u{e8}"), "\u{f1}\u{fc}\u{e8}");
    assert_eq!(remove_accents("plain"), "plain");
    assert_eq!(remove_accents(""), "");
}

#[test]
fn derive_minimal_has_three_forms() {
    let f = namegen::expansion::derive("alice", true);
    assert_eq!(f.name, "alice");
    assert_eq!(f.cap, "Alice");
    assert_eq!(f.upper, "ALICE");
    assert!(f.reversed.is_none());
    assert_eq!(f.plain_list(), vec!["alice", "Alice", "ALICE"]);
    assert_eq!(f.direct_list(), vec!["alice", "Alice", "ALICE"]);
}

#[test]
fn derive_full_has_the_reversed_family() {
    let f = namegen::expansion::derive("alice", false);
    let r = f.reversed.as_ref().unwrap();
    assert_eq!(r.rev, "ecila");
    assert_eq!(r.cap_rev, "ecilA");
    assert_eq!(r.rev_cap, "Ecila");
    assert_eq!(r.rev_upper, "ECILA");
    assert_eq!(
        f.direct_list(),
        vec!["alice", "Alice", "ALICE", "ecila", "ecilA", "Ecila", "ECILA"]
    );
}

#[test]
fn derive_of_the_empty_word_is_empty() {
    let f = namegen::expansion::derive("", false);
    assert_eq!(f.direct_list(), vec!["", "", "", "", "", "", ""]);
}

#[test]
fn leet_forms_follow_the_letters_present() {
    assert_eq!(leet_form_list("bob"), vec!["b0b", "B0b", "B0B", "b0b", "B0b", "B0B"]);
    assert_eq!(leet_form_list("xyz"), vec!["xyz", "Xyz", "XYZ"]);
    assert_eq!(
        leet_form_list("sea"),
        vec![
            "s34", "S34", "S34", "$34", "$34", "$34", "se4", "Se4", "SE4", "s3a", "S3a", "S3A"
        ]
    );
}

#[test]
fn suffix_bases_use_vowels_and_s_always() {
    assert_eq!(
        suffix_base_list("bob", true),
        vec!["bob", "Bob", "BOB", "b0b", "B0b", "B0B", "b0b", "B0b", "B0B"]
    );
    assert_eq!(
        suffix_base_list("si", true),
        vec![
            "si", "Si", "SI", "$1", "$1", "$1", "$i", "$i", "$I", "s1", "S1", "S1"
        ]
    );
}

#[test]
fn infix_bases_use_plain_vowels_for_two_forms() {
    assert_eq!(infix_base_list("bob", true), vec!["bob", "Bob", "BOB", "b0b", "B0b", "b0b", "B0b", "B0B"]);
    assert_eq!(
        infix_base_list("si", true),
        vec!["si", "Si", "SI", "s1", "S1", "$1", "$i", "$i", "$I", "s1", "S1", "S1"]
    );
    assert_eq!(
        infix_base_list("ab", false),
        vec!["ab", "Ab", "AB", "ba", "bA", "Ba", "BA", "4b", "4b", "4b", "4b", "4B"]
    );
}
