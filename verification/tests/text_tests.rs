use ifs_parser::sorting::{sort, Ranked};
use ifs_parser::text::{
    decimal_string, lower_chars, str_begins_with, str_comes_before, str_eq, str_eq_ignore_case,
    str_finishes_with, str_occurs_in, to_chars, to_lower_char,
};

#[test]
fn characters_and_case() {
    assert_eq!(to_chars("aé∑"), vec!['a', 'é', '∑']);
    assert_eq!(to_lower_char('A'), 'a');
    assert_eq!(to_lower_char('Z'), 'z');
    assert_eq!(to_lower_char('a'), 'a');
    assert_eq!(to_lower_char('É'), 'É');
    assert_eq!(to_lower_char('['), '[');
    assert_eq!(to_lower_char('@'), '@');
    assert_eq!(lower_chars("AbC_É1"), vec!['a', 'b', 'c', '_', 'É', '1']);
}

#[test]
fn comparing_and_searching() {
    assert!(str_eq("abc", "abc"));
    assert!(!str_eq("abc", "abd"));
    assert!(!str_eq("abc", "ab"));
    assert!(str_eq("", ""));
    assert!(str_eq_ignore_case("AbC", "aBc"));
    assert!(!str_eq_ignore_case("AbC", "aBd"));
    assert!(str_begins_with("ab", "abc"));
    assert!(str_begins_with("", "abc"));
    assert!(!str_begins_with("bc", "abc"));
    assert!(str_finishes_with("bc", "abc"));
    assert!(str_finishes_with("", ""));
    assert!(!str_finishes_with("abcd", "bcd"));
    assert!(str_occurs_in("b", "abc"));
    assert!(str_occurs_in("", "abc"));
    assert!(str_occurs_in("", ""));
    assert!(str_occurs_in("abc", "abc"));
    assert!(!str_occurs_in("ac", "abc"));
    assert!(!str_occurs_in("abcd", "abc"));
}

#[test]
fn strings_are_ordered_as_the_standard_library_orders_them() {
    let words = ["", "a", "A", "ab", "abc", "b", "é", "z", "Zebra", "_", "a b", "∑", "ab\u{0}"];
    for x in words {
        for y in words {
            assert_eq!(str_comes_before(x, y), x < y, "{:?} before {:?}", x, y);
        }
    }
}

#[test]
fn numbers_in_decimal() {
    assert_eq!(decimal_string(0), "0");
    assert_eq!(decimal_string(7), "7");
    assert_eq!(decimal_string(10), "10");
    assert_eq!(decimal_string(1234567890), "1234567890");
    assert_eq!(decimal_string(u64::MAX), "18446744073709551615");
}

#[derive(Debug, Clone, PartialEq)]
struct Card {
    rank: u8,
    label: &'static str,
}

struct ByRank;

impl Ranked<ByRank> for Card {
    fn precedes(&self, other: &Self) -> bool {
        self.rank < other.rank
    }

    fn is_before(&self, other: &Self) -> bool {
        self.rank < other.rank
    }
}

#[test]
fn sorting_is_stable() {
    let cards = vec![
        Card { rank: 3, label: "a" },
        Card { rank: 1, label: "b" },
        Card { rank: 3, label: "c" },
        Card { rank: 2, label: "d" },
        Card { rank: 1, label: "e" },
        Card { rank: 3, label: "f" },
    ];
    let sorted = sort::<ByRank, Card>(cards.clone());
    let labels: Vec<&str> = sorted.iter().map(|c| c.label).collect();
    assert_eq!(labels, vec!["b", "e", "d", "a", "c", "f"]);
    assert!(sort::<ByRank, Card>(Vec::new()).is_empty());
    let mut expected = cards;
    expected.sort_by_key(|c| c.rank);
    assert_eq!(sorted, expected);
}
