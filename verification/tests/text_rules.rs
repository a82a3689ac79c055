use carpool::order::{sorted_unique, text_before};
use carpool::text::{char_count_at_most, contains_text, same_text, valid_name};

#[test]
fn names_must_be_trimmed_short_and_free_of_control_codes() {
    assert!(valid_name("整车编辑"));
    assert!(valid_name("空车位"));
    assert!(valid_name("a b"));
    assert!(!valid_name(""));
    assert!(!valid_name(" car"));
    assert!(!valid_name("car "));
    assert!(!valid_name("\u{3000}car"));
    assert!(!valid_name("car\u{00A0}"));
    assert!(!valid_name("car\t"));
    assert!(!valid_name("a\u{7}b"));
    assert!(!valid_name("a\u{85}b"));
    assert!(valid_name("a\u{200B}b"));
}

#[test]
fn names_may_hold_at_most_one_hundred_characters() {
    let hundred: String = std::iter::repeat('车').take(100).collect();
    let more: String = std::iter::repeat('车').take(101).collect();
    assert!(valid_name(&hundred));
    assert!(!valid_name(&more));
}

#[test]
fn names_agree_with_std_trim_and_control_classes() {
    let samples = [
        "x", " x", "x ", "\u{2028}x", "x\u{205F}", "\u{1680}", "a\u{9F}", "a\u{A0}b", "a\u{1F}",
        "abc", "\u{FEFF}x",
    ];
    for s in samples {
        let expected = !s.is_empty()
            && s.trim() == s
            && s.chars().count() <= 100
            && !s.chars().any(char::is_control);
        assert_eq!(valid_name(s), expected, "{s:?}");
    }
}

#[test]
fn text_helpers_compare_and_count_characters() {
    assert!(same_text("manual", "manual"));
    assert!(!same_text("manual", "Manual"));
    assert!(!same_text("cycle", "cycles"));
    assert!(char_count_at_most("车位", 2));
    assert!(!char_count_at_most("车位", 1));
    let list = vec!["a".to_owned(), "b".to_owned()];
    assert!(contains_text(&list, &"b".to_owned()));
    assert!(!contains_text(&list, &"c".to_owned()));
}

#[test]
fn lock_order_sorts_by_bytes_and_drops_repeats() {
    let items: Vec<String> = ["key_b", "key_a", "key_b", "key_c", "key_a"]
        .iter()
        .map(|s| s.to_string())
        .collect();
    assert_eq!(sorted_unique(&items), vec!["key_a", "key_b", "key_c"]);
    let mixed: Vec<String> = ["é", "z", "Z", "a", "ab", "a"].iter().map(|s| s.to_string()).collect();
    let mut expected = mixed.clone();
    expected.sort_unstable();
    expected.dedup();
    assert_eq!(sorted_unique(&mixed), expected);
    assert!(sorted_unique(&Vec::new()).is_empty());
}

#[test]
fn text_order_is_that_of_str() {
    let pairs = [("a", "b"), ("a", "ab"), ("ab", "a"), ("é", "z"), ("", "a"), ("a", "a")];
    for (x, y) in pairs {
        assert_eq!(text_before(&x.to_owned(), &y.to_owned()), x < y, "{x:?} {y:?}");
    }
}
