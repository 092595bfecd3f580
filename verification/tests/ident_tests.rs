use collabori::ident::{id_precedes, same_id};
use collabori::utils::{current_timestamp, generate_unique_id, timestamp_from};
use std::time::{SystemTime, UNIX_EPOCH};

#[test]
fn identifier_order_is_byte_lexicographic() {
    assert!(id_precedes("1", "2"));
    assert!(!id_precedes("2", "1"));
    assert!(!id_precedes("1", "1"));
    assert!(id_precedes("", "a"));
    assert!(!id_precedes("a", ""));
    assert!(!id_precedes("", ""));
    assert!(id_precedes("10", "9"));
    assert!(id_precedes("ab", "abc"));
    assert!(!id_precedes("abc", "ab"));
    assert!(id_precedes("Z", "a"));
    assert!(id_precedes("a", "\u{e9}"));
    assert!(id_precedes("\u{e9}", "\u{4e2d}"));
    assert!(id_precedes("\u{ffff}", "\u{10000}"));
}

#[test]
fn identifier_order_agrees_with_string_order() {
    let samples = ["", "0", "00", "1", "a", "A", "ab", "b", "\u{7f}", "\u{80}", "\u{7ff}",
        "\u{800}", "\u{ffff}", "\u{10000}", "z\u{e9}", "z\u{e8}"];
    for a in samples.iter() {
        for b in samples.iter() {
            assert_eq!(id_precedes(a, b), a < b);
            assert_eq!(same_id(a, b), a == b);
        }
    }
}

#[test]
fn generated_identifiers_are_version_four_uuids() {
    let id = generate_unique_id();
    let chars: Vec<char> = id.chars().collect();
    assert_eq!(chars.len(), 36);
    for (i, c) in chars.iter().enumerate() {
        if i == 8 || i == 13 || i == 18 || i == 23 {
            assert_eq!(*c, '-');
        } else {
            assert!(matches!(c, '0'..='9' | 'a'..='f'));
        }
    }
    assert_eq!(chars[14], '4');
    assert!(matches!(chars[19], '8' | '9' | 'a' | 'b'));
    assert!(uuid::Uuid::parse_str(&id).is_ok());
}

#[test]
fn generated_identifiers_differ() {
    let a = generate_unique_id();
    let b = generate_unique_id();
    assert_ne!(a, b);
    assert!(id_precedes(&a, &b) || id_precedes(&b, &a));
}

#[test]
fn timestamp_is_after_the_year_2020() {
    let now = current_timestamp();
    assert!(now > 1_577_836_800_000);
    let later = current_timestamp();
    assert!(later + 60_000 > now);
}

#[test]
fn timestamp_follows_the_reading_of_the_clock() {
    assert_eq!(timestamp_from(Ok(0)), 0);
    assert_eq!(timestamp_from(Ok(1_577_836_800_123)), 1_577_836_800_123);
    assert_eq!(timestamp_from(Ok(u128::MAX)), u128::MAX);
    let before_epoch = UNIX_EPOCH.duration_since(SystemTime::now()).unwrap_err();
    assert_eq!(timestamp_from(Err(before_epoch)), 0);
}
