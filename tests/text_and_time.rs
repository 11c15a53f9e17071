use nauttaja::stamp::{stamp_to_text, timestamp, Stamp};
use nauttaja::text::{same_text, text_before};

#[test]
fn same_text_compares_characters() {
    assert!(same_text("abc", "abc"));
    assert!(!same_text("abc", "abd"));
    assert!(!same_text("abc", "ab"));
    assert!(same_text("", ""));
    assert!(same_text("é", "é"));
}

#[test]
fn text_before_is_lexicographic() {
    assert!(text_before("a", "b"));
    assert!(!text_before("b", "a"));
    assert!(text_before("ab", "abc"));
    assert!(!text_before("abc", "ab"));
    assert!(!text_before("abc", "abc"));
    assert!(text_before("", "a"));
    assert!(text_before("2021-01-01 00:00:00", "2021-01-01 00:00:01"));
}

#[test]
fn stamp_text_pads_fields() {
    let s = Stamp { year: 2021, month: 3, day: 4, hour: 5, minute: 6, second: 7 };
    assert_eq!(stamp_to_text(&s), "2021-03-04 05:06:07");
    let s = Stamp { year: 1999, month: 12, day: 31, hour: 23, minute: 59, second: 59 };
    assert_eq!(stamp_to_text(&s), "1999-12-31 23:59:59");
}

#[test]
fn stamp_text_odd_years() {
    let s = Stamp { year: 0, month: 1, day: 1, hour: 0, minute: 0, second: 0 };
    assert_eq!(stamp_to_text(&s), "0-01-01 00:00:00");
    let s = Stamp { year: -44, month: 3, day: 15, hour: 10, minute: 0, second: 0 };
    assert_eq!(stamp_to_text(&s), "-44-03-15 10:00:00");
    let s = Stamp { year: 12345, month: 10, day: 10, hour: 10, minute: 10, second: 10 };
    assert_eq!(stamp_to_text(&s), "12345-10-10 10:10:10");
}

#[test]
fn timestamp_now_has_fixed_shape() {
    let t: Vec<char> = timestamp().chars().collect();
    assert_eq!(t.len(), 19);
    assert_eq!(t[4], '-');
    assert_eq!(t[7], '-');
    assert_eq!(t[10], ' ');
    assert_eq!(t[13], ':');
    assert_eq!(t[16], ':');
}

#[test]
fn stamp_text_order_follows_time() {
    let a = Stamp { year: 2021, month: 12, day: 31, hour: 23, minute: 59, second: 59 };
    let b = Stamp { year: 2022, month: 1, day: 1, hour: 0, minute: 0, second: 0 };
    let c = Stamp { year: 2022, month: 1, day: 1, hour: 0, minute: 0, second: 9 };
    let d = Stamp { year: 2022, month: 1, day: 1, hour: 0, minute: 0, second: 10 };
    assert!(text_before(&stamp_to_text(&a), &stamp_to_text(&b)));
    assert!(!text_before(&stamp_to_text(&b), &stamp_to_text(&a)));
    assert!(text_before(&stamp_to_text(&c), &stamp_to_text(&d)));
    assert!(!text_before(&stamp_to_text(&c), &stamp_to_text(&c)));
}
