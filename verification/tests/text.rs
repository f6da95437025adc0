use authd::text::{chars_of, eq, eq_ignoring_case, is_before, raise, trim};

#[test]
fn words_are_compared_without_the_case_of_ascii_letters() {
    assert!(eq_ignoring_case("LocalService", "LOCALservice"));
    assert!(!eq_ignoring_case("LocalService", "LocalServices"));
    assert!(!eq_ignoring_case("[", "{"), "only letters have case");
    assert!(!eq_ignoring_case("\u{e9}", "\u{c9}"), "only ASCII letters");
    assert!(eq("a", "a"));
    assert!(!eq("a", "A"));
    assert_eq!(raise('q'), 'Q');
    assert_eq!(raise('\u{e9}'), '\u{e9}');
}

#[test]
fn text_is_ordered_character_by_character() {
    assert!(is_before("a", "b"));
    assert!(is_before("a", "ab"));
    assert!(!is_before("ab", "a"));
    assert!(!is_before("a", "a"));
    assert!(is_before("Z", "a"));
    assert!(is_before("z", "\u{e9}"));
}

#[test]
fn white_space_is_trimmed_from_both_ends_alone() {
    assert_eq!(trim(" \t two words \u{3000}\n"), "two words");
    assert_eq!(trim("\u{2003}"), "");
    assert_eq!(trim(""), "");
    assert_eq!(trim("\u{200b}x"), "\u{200b}x");
    assert_eq!(chars_of("a\u{e9}"), vec!['a', '\u{e9}']);
}
