//! Text, bytes, order and keyed collections.

use harvest_ui::keyed::{KeyedMap, KeyedSet};
use harvest_ui::order::{sort, Ranked};
use harvest_ui::seller_listings::{ListingAvailability, SellerRow};
use harvest_ui::{bytes, clock, text};

#[test]
fn numbers_are_written_and_read_back() {
    for n in [0u64, 7, 10, 909, u64::MAX] {
        assert_eq!(text::decimal_text(n), n.to_string());
        assert_eq!(text::parse_u64(&n.to_string()), Some(n));
    }
    assert_eq!(text::count_text(12), "12");
    for typed in ["", "+", "-1", "1.0", " 1", "1 ", "18446744073709551616", "٣"] {
        assert_eq!(text::parse_u64(typed), typed.parse::<u64>().ok(), "{typed:?}");
    }
    for typed in ["+7", "007", "4294967295", "4294967296", "x"] {
        assert_eq!(text::parse_u32(typed), typed.parse::<u32>().ok(), "{typed:?}");
    }
}

#[test]
fn text_is_trimmed_as_std_does() {
    for s in ["", " ", " a b ", "\t\u{00a0}a\u{2003}\n", "a", "\u{200b}a"] {
        assert_eq!(text::trim(s), s.trim(), "{s:?}");
        assert_eq!(text::trim_start(s), s.trim_start(), "{s:?}");
        assert_eq!(text::trim(text::trim(s)), text::trim(s));
    }
}

#[test]
fn text_is_split_joined_and_searched() {
    assert_eq!(text::split("a,,b", ','), vec!["a", "", "b"]);
    assert_eq!(text::split("", ','), vec![""]);
    let pieces: Vec<String> = vec!["a".into(), "b".into()];
    assert_eq!(text::join(&pieces, ", "), "a, b");
    assert_eq!(text::join(&Vec::new(), ", "), "");
    assert_eq!(text::join3("a", "b", "c"), "abc");
    assert_eq!(text::find_char("h\u{00e9}llo", 0, 'l'), 2);
    assert_eq!(text::find_char("hello", 0, 'z'), 5);
    assert!(text::starts_at("hello", 1, "ell"));
    assert!(!text::starts_at("hello", 4, "ell"));
    assert_eq!(text::strip_prefix("store=a", "store="), Some("a"));
    assert_eq!(text::strip_prefix("stor", "store="), None);
    assert!(text::same_text("a", "a"));
    assert!(!text::same_text("a", "b"));
    assert!(text::ascii_digit('7'));
    assert!(!text::ascii_digit('٣'));
}

#[test]
fn text_and_bytes_are_ordered_as_std_does() {
    let words = ["", "a", "ab", "b", "B", "\u{00e9}", "\u{1f600}", "\u{ffff}"];
    for a in words {
        for b in words {
            assert_eq!(text::comes_before(a, b), a < b, "{a:?} {b:?}");
            assert_eq!(bytes::comes_before(a.as_bytes(), b.as_bytes()), a < b);
        }
    }
}

#[test]
fn bytes_are_compared_and_copied() {
    assert!(bytes::same_key(&[1; 32], &[1; 32]));
    assert!(!bytes::same_key(&[1; 32], &[2; 32]));
    assert!(bytes::same_key_option(&Some([1; 32]), &[1; 32]));
    assert!(!bytes::same_key_option(&None, &[1; 32]));
    assert!(bytes::same_bytes(&[1, 2], &[1, 2]));
    assert!(!bytes::same_bytes(&[1, 2], &[1]));
    assert_eq!(bytes::copy_bytes(&[1, 2]), vec![1, 2]);
    assert!(bytes::starts_with(&[1, 2], &[1]));
    assert!(!bytes::starts_with(&[1], &[1, 2]));
    assert_eq!(bytes::skip_bytes(&[1, 2, 3], 1), vec![2, 3]);
}

#[test]
fn a_keyed_map_keeps_one_value_for_each_key() {
    let mut map: KeyedMap<[u8; 32], u64> = KeyedMap::new();
    assert!(map.is_empty());
    map.insert([1; 32], 10);
    map.insert([2; 32], 20);
    map.insert([1; 32], 11);
    assert_eq!(map.get(&[1; 32]), Some(&11));
    assert_eq!(map.keys().len(), 2);
    assert_eq!(map.remove(&[1; 32]), Some(11));
    assert_eq!(map.remove(&[1; 32]), None);
    assert!(!map.contains_key(&[1; 32]));
    assert!(map.contains_key(&[2; 32]));

    let mut set: KeyedSet<([u8; 32], [u8; 32])> = KeyedSet::new();
    assert!(set.insert(([1; 32], [2; 32])));
    assert!(!set.insert(([1; 32], [2; 32])));
    assert!(set.contains(&([1; 32], [2; 32])));
    assert!(!set.contains(&([2; 32], [1; 32])));
    set.remove(&([1; 32], [2; 32]));
    assert!(set.is_empty());
}

fn row(place: usize, listed_secs: i64) -> SellerRow {
    SellerRow {
        place,
        listed_secs,
        listed_nanos: 0,
        availability: ListingAvailability::SoldOut,
        pending: false,
    }
}

/// Sorting is stable, and the order of arrival does not show where no two
/// values rank the same.
#[test]
fn sorting_is_stable() {
    let sorted = sort(vec![row(0, 5), row(1, 9), row(2, 5), row(3, 7)]);
    let places: Vec<usize> = sorted.iter().map(|r| r.place).collect();
    assert_eq!(places, vec![1, 3, 0, 2], "newest first, equals as they came");
    assert!(row(0, 9).before(&row(1, 5)));
    let again = sort(vec![row(3, 7), row(1, 9), row(0, 5)]);
    let places: Vec<usize> = again.iter().map(|r| r.place).collect();
    assert_eq!(places, vec![1, 3, 0]);
}

#[test]
fn moments_are_written_in_utc() {
    assert_eq!(clock::minute(1_700_000_000), Some("2023-11-14 22:13 UTC".to_string()));
    assert_eq!(clock::day(1_700_000_000), Some("14 Nov 2023".to_string()));
    assert_eq!(clock::date(0), Some("1970-01-01".to_string()));
    assert_eq!(clock::minute(i64::MAX), None);
}
