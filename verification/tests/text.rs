use fuzzel_secrets::order::{comes_before, sorted};
use fuzzel_secrets::text::{
    chars_of, find, holds, join_lines, kept_range, parse_index, same_text, trim,
};

fn strings(items: &[&str]) -> Vec<String> {
    items.iter().map(|s| s.to_string()).collect()
}

#[test]
fn chars_of_lists_the_characters() {
    assert_eq!(chars_of("a\u{e9}\u{1f511}"), vec!['a', '\u{e9}', '\u{1f511}']);
    assert!(chars_of("").is_empty());
}

#[test]
fn find_returns_the_leftmost_occurrence() {
    let find_in = |hay: &str, needle: &str| find(&chars_of(hay), &chars_of(needle));
    assert_eq!(find_in("abcabc", "bc"), Some(1));
    assert_eq!(find_in("abcabc", "abc"), Some(0));
    assert_eq!(find_in("abcabc", "cab"), Some(2));
    assert_eq!(find_in("abcabc", "d"), None);
    assert_eq!(find_in("abc", "abcd"), None);
    assert_eq!(find_in("abc", ""), Some(0));
    assert_eq!(find_in("", ""), Some(0));
    assert_eq!(find_in("", "a"), None);
    assert_eq!(find_in("aaab", "aab"), Some(1));
    assert_eq!(find_in("\u{e9}\u{e9}: x", ": "), Some(2));
}

#[test]
fn same_text_and_holds_compare_whole_strings() {
    assert!(same_text("abc", "abc"));
    assert!(!same_text("abc", "abd"));
    assert!(!same_text("abc", "ab"));
    assert!(same_text("", ""));
    let list = strings(&["x", "yy", "z"]);
    assert!(holds(&list, &"yy".to_string()));
    assert!(!holds(&list, &"y".to_string()));
    assert!(!holds(&Vec::new(), &"y".to_string()));
}

#[test]
fn join_lines_puts_a_newline_between_lines() {
    assert_eq!(join_lines(&strings(&[])), "");
    assert_eq!(join_lines(&strings(&["only"])), "only");
    assert_eq!(join_lines(&strings(&["a", "b", "c"])), "a\nb\nc");
    assert_eq!(join_lines(&strings(&["", ""])), "\n");
    assert_eq!(join_lines(&strings(&["a", "", "b"])), "a\n\nb");
}

#[test]
fn trim_removes_whitespace_at_both_ends_only() {
    assert_eq!(trim("  a b  "), "a b");
    assert_eq!(trim("\n\tvalue\r\n"), "value");
    assert_eq!(trim("value"), "value");
    assert_eq!(trim(""), "");
    assert_eq!(trim(" \n "), "");
    assert_eq!(trim("\u{a0}\u{2003}x\u{3000}"), "x");
    assert_eq!(trim(" \u{e9}t\u{e9} "), "\u{e9}t\u{e9}");
    assert_eq!(trim("a\n"), "a");
}

#[test]
fn parse_index_reads_decimal_digits() {
    assert_eq!(parse_index("0"), Some(0));
    assert_eq!(parse_index("7"), Some(7));
    assert_eq!(parse_index("42"), Some(42));
    assert_eq!(parse_index("007"), Some(7));
    assert_eq!(parse_index("+5"), Some(5));
    assert_eq!(parse_index(&usize::MAX.to_string()), Some(usize::MAX));
}

#[test]
fn parse_index_rejects_everything_else() {
    assert_eq!(parse_index(""), None);
    assert_eq!(parse_index("+"), None);
    assert_eq!(parse_index("-1"), None);
    assert_eq!(parse_index("-0"), None);
    assert_eq!(parse_index("++1"), None);
    assert_eq!(parse_index("1 "), None);
    assert_eq!(parse_index(" 1"), None);
    assert_eq!(parse_index("1_000"), None);
    assert_eq!(parse_index("12a"), None);
    assert_eq!(parse_index("1.0"), None);
    assert_eq!(parse_index("\u{663}"), None);
    assert_eq!(parse_index(&format!("{}0", usize::MAX)), None);
    assert_eq!(parse_index("99999999999999999999999999"), None);
}

#[test]
fn parse_index_agrees_with_the_standard_parser() {
    let max = usize::MAX.to_string();
    let mut above = max.clone().into_bytes();
    let last = above.len() - 1;
    above[last] += 1;
    let above = String::from_utf8(above).unwrap();
    for text in ["0", "1", "+0", "+00012", "18446744073709551615", "18446744073709551616", "", "+", "x", max.as_str(), above.as_str()] {
        assert_eq!(parse_index(text), text.parse::<usize>().ok());
    }
}

#[test]
fn comes_before_is_the_strict_lexicographic_order() {
    assert!(comes_before("a", "b"));
    assert!(!comes_before("b", "a"));
    assert!(!comes_before("a", "a"));
    assert!(comes_before("", "a"));
    assert!(!comes_before("", ""));
    assert!(comes_before("ab", "abc"));
    assert!(comes_before("Z", "a"));
    assert!(comes_before("abc", "abd"));
    assert!(comes_before("z", "\u{e9}"));
    assert!(comes_before("\u{ffff}", "\u{10000}"));
}

#[test]
fn sorted_orders_like_the_standard_sort() {
    let list = strings(&["pear", "apple", "Zebra", "", "apple", "\u{e9}clair", "fig", "app", "\u{1f511}", "\u{ffff}"]);
    let mut expected = list.clone();
    expected.sort();
    assert_eq!(sorted(&list), expected);
    assert_eq!(sorted(&strings(&["b", "a"])), strings(&["a", "b"]));
    assert!(sorted(&Vec::new()).is_empty());
}

#[test]
fn kept_range_skips_marked_ends() {
    assert_eq!(kept_range(&vec![]), (0, 0));
    assert_eq!(kept_range(&vec![false]), (0, 1));
    assert_eq!(kept_range(&vec![true]), (1, 1));
    assert_eq!(kept_range(&vec![true, true, true]), (3, 3));
    assert_eq!(kept_range(&vec![true, false, true, false, true, true]), (1, 4));
    assert_eq!(kept_range(&vec![false, true, true]), (0, 1));
    assert_eq!(kept_range(&vec![true, true, false]), (2, 3));
    assert_eq!(kept_range(&vec![false, true, false]), (0, 3));
}
