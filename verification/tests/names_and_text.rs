use no_clone::clock::{add_saturating, point_in_time, remaining_between, remaining_time, unix_time};
use no_clone::name_map::NameMap;
use no_clone::names::{plural, validate_name};
use no_clone::text::{join, push_decimal, push_signed, split_once};

#[test]
fn names_are_checked() {
    let message = |name: &str| validate_name(name, "profile").unwrap_err().message();
    for good in ["production", "a", "...", "a b", "ünïcode", "a/b", "=", &"x".repeat(128)] {
        assert!(validate_name(good, "profile").is_ok(), "{good}");
    }
    assert_eq!(message(""), "profile name cannot be empty");
    assert_eq!(message(&"x".repeat(129)), "profile name is too long");
    assert_eq!(message(&"é".repeat(65)), "profile name is too long");
    assert!(validate_name(&"é".repeat(64), "profile").is_ok());
    for bad in [".", "..", "a\nb", "\0", "a\u{7f}", "\u{85}", "\u{9f}"] {
        assert_eq!(message(bad), "invalid profile name", "{bad:?}");
    }
    assert!(validate_name("\u{a0}", "profile").is_ok());
    assert_eq!(validate_name("..", "secret").unwrap_err().message(), "invalid secret name");
}

#[test]
fn nouns_take_an_ending() {
    assert_eq!(plural(0), "s");
    assert_eq!(plural(1), "");
    assert_eq!(plural(2), "s");
}

#[test]
fn remaining_times_are_worded() {
    assert_eq!(remaining_between(1000, 0), "16m 40s");
    assert_eq!(remaining_between(60, 0), "1m 00s");
    assert_eq!(remaining_between(69, 0), "1m 09s");
    assert_eq!(remaining_between(59, 0), "59s");
    assert_eq!(remaining_between(5, 5), "0s");
    assert_eq!(remaining_between(0, 90), "-30s");
    assert_eq!(remaining_between(0, 60), "0s");
    assert_eq!(remaining_between(i64::MAX, -1), "153722867280912930m 07s");
    assert_eq!(remaining_between(i64::MIN, 1), "-8s");
}

#[test]
fn clock_readings_become_times() {
    assert_eq!(point_in_time(Some(1_700_000_000)).unwrap(), 1_700_000_000);
    assert_eq!(point_in_time(Some(u64::MAX)).unwrap(), -1);
    assert_eq!(
        point_in_time(None).unwrap_err().message(),
        "system clock is before Unix epoch: second time provided was later than self"
    );
}

#[test]
fn the_clock_runs() {
    let now = unix_time().unwrap();
    assert!(now > 1_600_000_000);
    assert!(unix_time().unwrap() >= now);
    assert_eq!(remaining_time(i64::MIN).unwrap(), "-8s");
}

#[test]
fn sums_stop_at_the_limits() {
    assert_eq!(add_saturating(1, 2), 3);
    assert_eq!(add_saturating(i64::MAX, 1), i64::MAX);
    assert_eq!(add_saturating(i64::MIN, -1), i64::MIN);
}

#[test]
fn numbers_are_written_in_decimal() {
    for value in [0, 9, 10, 1234567890, u64::MAX] {
        let mut text = String::from("n=");
        push_decimal(&mut text, value);
        assert_eq!(text, format!("n={value}"));
    }
    for value in [i64::MIN, -10, -1, 0, 7, i64::MAX] {
        let mut text = String::new();
        push_signed(&mut text, value);
        assert_eq!(text, value.to_string());
    }
}

#[test]
fn texts_are_joined_and_parted() {
    let parts = vec!["a".to_string(), "".to_string(), "c".to_string()];
    assert_eq!(join(&parts, ", "), "a, , c");
    assert_eq!(join(&Vec::new(), ", "), "");
    assert_eq!(split_once("a=b=c", '='), Some(("a", "b=c")));
    assert_eq!(split_once("é=ß", '='), Some(("é", "ß")));
    assert_eq!(split_once("abc", '='), None);
}

#[test]
fn name_maps_keep_the_order_of_their_names() {
    let mut map = NameMap::new();
    for name in ["b", "é", "a", "B", "", "ab", "\u{10000}", "\u{ffff}"] {
        assert!(map.insert(name.to_string(), name.len()).is_none());
    }
    let mut expected = vec!["b", "é", "a", "B", "", "ab", "\u{10000}", "\u{ffff}"];
    expected.sort();
    let found: Vec<&str> = (0..map.len()).map(|index| map.name_at(index)).collect();
    assert_eq!(found, expected);
    assert_eq!(map.insert("a".to_string(), 7), Some(1));
    assert_eq!(map.len(), 8);
    assert_eq!(map.get("a"), Some(&7));
    assert_eq!(map.get("c"), None);
    assert_eq!(map.remove("b"), Some(1));
    assert_eq!(map.remove("b"), None);
    assert_eq!(map.remove_at(0), 0);
    assert_eq!(map.len(), 6);
    assert!(!map.is_empty());
    assert!(NameMap::<u8>::new().is_empty());
}
