use necronomics::calendar::month_length;
use necronomics::ordering::{are_keys_before, SortKey};
use necronomics::search::{chars_of, contains_text, is_match};
use necronomics::text::is_text_before;

#[test]
fn texts_in_the_order_of_their_characters() {
    assert!(is_text_before("a", "b"));
    assert!(!is_text_before("b", "a"));
    assert!(!is_text_before("a", "a"));
    assert!(is_text_before("", "a"));
    assert!(!is_text_before("a", ""));
    assert!(!is_text_before("", ""));
    assert!(is_text_before("ab", "abc"));
    assert!(!is_text_before("abc", "ab"));
    assert!(is_text_before("Zebra", "apple"));
    assert!(is_text_before("2024-02-29", "2024-03-01"));
    assert!(is_text_before("2024-12-31", "2025-01-01"));
    assert!(is_text_before("+10000-01-01", "2024-01-01"));
    assert!(is_text_before("abc", "abd"));
    assert!(is_text_before("zz", "é"));
    assert!(is_text_before("é", "日本"));
    assert!(is_text_before("日本", "🙂"));
}

#[test]
fn text_order_is_the_order_of_the_bytes() {
    let words = ["", "a", "A", "Zz", "abc", "ab", "é", "e", "日本", "🙂", "~", "ñandú", "zebra"];
    for x in words {
        for y in words {
            assert_eq!(is_text_before(x, y), x.as_bytes() < y.as_bytes(), "{x:?} {y:?}");
        }
    }
}

#[test]
fn keys_in_order() {
    let n = |x: i64| SortKey::Number(x);
    let t = |x: &str| SortKey::Text(x.to_string());
    assert!(are_keys_before(&vec![n(1)], &vec![n(2)]));
    assert!(!are_keys_before(&vec![n(2)], &vec![n(2)]));
    assert!(are_keys_before(&vec![n(-5)], &vec![n(0)]));
    assert!(are_keys_before(&vec![t("a"), t("z")], &vec![t("b"), t("a")]));
    assert!(are_keys_before(&vec![t("a"), t("b")], &vec![t("a"), t("c")]));
    assert!(!are_keys_before(&vec![t("a"), t("c")], &vec![t("a"), t("c")]));
    assert!(are_keys_before(&vec![t("a")], &vec![t("a"), n(0)]));
    assert!(!are_keys_before(&vec![t("a"), n(0)], &vec![t("a")]));
    assert!(are_keys_before(&vec![n(9)], &vec![t("")]));
    assert!(!are_keys_before(&vec![t("")], &vec![n(9)]));
    assert!(!are_keys_before(&vec![], &vec![]));
    assert!(are_keys_before(&vec![], &vec![n(0)]));
}

fn like(pattern: &str, text: &str) -> bool {
    is_match(&chars_of(pattern), &chars_of(text))
}

#[test]
fn patterns() {
    assert!(like("", ""));
    assert!(!like("", "a"));
    assert!(like("%", ""));
    assert!(like("%", "anything"));
    assert!(like("%%", ""));
    assert!(like("a%", "a"));
    assert!(like("a%", "abc"));
    assert!(!like("a%", "ba"));
    assert!(like("%a", "ba"));
    assert!(!like("%a", "ab"));
    assert!(like("a%c", "abbbc"));
    assert!(like("a%c", "ac"));
    assert!(!like("a%c", "abcb"));
    assert!(like("_", "x"));
    assert!(!like("_", ""));
    assert!(!like("_", "xy"));
    assert!(like("a_c", "abc"));
    assert!(!like("a_c", "ac"));
    assert!(like("%a_c%", "xxabcxx"));
    assert!(like("ABC", "abc"));
    assert!(like("abc", "ABC"));
    assert!(like("é", "é"));
    assert!(!like("É", "é"));
    assert!(like("_", "日"));
    assert!(like("%b%b%", "abab"));
    assert!(!like("%b%b%", "ab"));
    assert!(like("%ab%ab%ab%", "ababab"));
    assert!(!like("%ab%ab%ab%", "abab"));
    assert!(!like("@", "`"));
    assert!(!like("[", "{"));
    assert!(like("z", "Z"));
    assert!(like("a", "A"));
}

#[test]
fn text_is_found_anywhere() {
    assert!(contains_text("Pago cuota 3 - Notebook", "cuota"));
    assert!(contains_text("Pago cuota 3 - Notebook", "NOTE"));
    assert!(contains_text("Pago cuota 3 - Notebook", ""));
    assert!(contains_text("", ""));
    assert!(!contains_text("", "a"));
    assert!(!contains_text("Pago", "Pagos"));
    assert!(contains_text("Pago", "P_g"));
    assert_eq!(chars_of("añ🙂"), vec!['a', 'ñ', '🙂']);
    assert!(chars_of("").is_empty());
}

#[test]
fn lengths_of_months() {
    let lengths: Vec<u32> = (1..=12).map(|m| month_length(2023, m)).collect();
    assert_eq!(lengths, vec![31, 28, 31, 30, 31, 30, 31, 31, 30, 31, 30, 31]);
    assert_eq!(month_length(2024, 2), 29);
    assert_eq!(month_length(2000, 2), 29);
    assert_eq!(month_length(1900, 2), 28);
    assert_eq!(month_length(2100, 2), 28);
    assert_eq!(month_length(0, 2), 29);
    assert_eq!(month_length(-4, 2), 29);
    assert_eq!(month_length(-1, 2), 28);
    assert_eq!(month_length(-100, 2), 28);
    assert_eq!(month_length(-400, 2), 29);
    assert_eq!(month_length(-262143, 2), 28);
    assert_eq!(month_length(262142, 2), 28);
}
