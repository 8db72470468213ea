use geocode::address::{drop_first_token, is_exhausted};
use geocode::opts::{api_key_from, Opts};
use geocode::whitespace::{contains_whitespace, trim};

#[test]
fn drops_the_first_word_and_the_space_after_it() {
    assert_eq!(
        drop_first_token("Xyzzy 123 Main St, Springfield"),
        "123 Main St, Springfield"
    );
}

#[test]
fn drops_every_space_that_follows_the_first_word() {
    assert_eq!(drop_first_token("one   two three"), "two three");
}

#[test]
fn a_single_word_shortens_to_nothing() {
    assert_eq!(drop_first_token("Nowhere"), "");
}

#[test]
fn the_empty_address_stays_empty() {
    assert_eq!(drop_first_token(""), "");
}

#[test]
fn leading_whitespace_alone_is_dropped_first() {
    assert_eq!(drop_first_token("  12 Elm Road"), "12 Elm Road");
}

#[test]
fn trailing_whitespace_is_dropped_with_the_last_word() {
    assert_eq!(drop_first_token("Springfield  "), "");
}

#[test]
fn only_whitespace_shortens_to_nothing() {
    assert_eq!(drop_first_token(" \t "), "");
}

#[test]
fn a_tab_ends_the_first_word() {
    assert_eq!(drop_first_token("a\tb c"), "b c");
}

#[test]
fn a_no_break_space_ends_the_first_word() {
    assert_eq!(drop_first_token("rue\u{a0}de la Paix"), "de la Paix");
}

#[test]
fn characters_of_several_bytes_are_kept_whole() {
    assert_eq!(drop_first_token("Zürich Bahnhofstraße 1"), "Bahnhofstraße 1");
    assert_eq!(drop_first_token("東京 都庁"), "都庁");
}

#[test]
fn shortening_repeatedly_walks_through_the_words() {
    let first = drop_first_token("123 Main St, Springfield");
    assert_eq!(first, "Main St, Springfield");
    let second = drop_first_token(&first);
    assert_eq!(second, "St, Springfield");
    let third = drop_first_token(&second);
    assert_eq!(third, "Springfield");
    let fourth = drop_first_token(&third);
    assert_eq!(fourth, "");
    assert_eq!(drop_first_token(&fourth), "");
}

#[test]
fn every_round_shrinks_a_non_empty_address_from_the_left() {
    let mut address = String::from("  9 rue\tde  la Paix, Paris ");
    let mut rounds = 0;
    while !address.is_empty() {
        let shorter = drop_first_token(&address);
        assert!(shorter.len() < address.len());
        assert!(address.ends_with(&shorter));
        address = shorter;
        rounds += 1;
    }
    assert_eq!(rounds, 7);
}

#[test]
fn truncation_reaches_a_single_token_within_the_token_count() {
    let original = "221B Baker Street London NW1";
    let tokens = original.split_whitespace().count();
    let mut address = String::from(original);
    let mut rounds = 0;
    while !is_exhausted(&address) {
        address = drop_first_token(&address);
        rounds += 1;
    }
    assert_eq!(address, "NW1");
    assert_eq!(rounds, 4);
    assert!(rounds <= tokens);
}

#[test]
fn whitespace_at_both_ends_takes_one_round_more_than_the_tokens() {
    let mut address = String::from(" a b ");
    let mut rounds = 0;
    while !is_exhausted(&address) {
        address = drop_first_token(&address);
        rounds += 1;
    }
    assert_eq!(address, "");
    assert_eq!(rounds, 3);
}

#[test]
fn exhausted_means_empty_or_one_token() {
    assert!(is_exhausted(""));
    assert!(is_exhausted("Nowhere"));
    assert!(is_exhausted("Zürich"));
    assert!(!is_exhausted("Main St"));
    assert!(!is_exhausted("Main "));
    assert!(!is_exhausted(" "));
    assert!(!is_exhausted("a\nb"));
}

#[test]
fn whitespace_is_found_wherever_it_stands() {
    assert!(!contains_whitespace(""));
    assert!(!contains_whitespace("Springfield,IL"));
    assert!(contains_whitespace(" Springfield"));
    assert!(contains_whitespace("Springfield "));
    assert!(contains_whitespace("Spring\tfield"));
    assert!(contains_whitespace("Spring\u{2003}field"));
}

#[test]
fn trim_removes_whitespace_at_both_ends_only() {
    assert_eq!(trim("  a b\t\n"), "a b");
    assert_eq!(trim("a b"), "a b");
    assert_eq!(trim(""), "");
    assert_eq!(trim(" \r\n "), "");
    assert_eq!(trim("\u{a0}clé\u{a0}"), "clé");
}

#[test]
fn the_api_key_is_the_trimmed_content_of_its_file() {
    assert_eq!(api_key_from("0123456789abcdef\n"), "0123456789abcdef");
    assert_eq!(api_key_from("\n  key with space \n"), "key with space");
}

#[test]
fn opts_hold_the_name_of_the_key_file() {
    let opts = Opts { api_key_file: String::from("key.txt") };
    assert_eq!(opts.api_key_file, "key.txt");
    assert_eq!(opts.clone(), opts);
}
