use polybot::decimal::{checked_total, median_of, parse_decimal, parse_exact, sort_decimals, Decimal};
use polybot::text::{
    before, contains, join, parse_natural, replace, same_any_case, split_once, split_words, trim,
};
use polybot::textmap::TextMap;
use polybot::time::{parse_day, parse_naive, parse_rfc3339, Timestamp};

fn d(text: &str) -> Decimal {
    parse_decimal(text).unwrap()
}

fn largest() -> Decimal {
    Decimal::from_parts(79_228_162_514_264_337_593_543_950_335, 0).unwrap()
}

#[test]
fn arithmetic_keeps_its_places() {
    assert_eq!(d("0.10").checked_add(d("0.2")).unwrap().to_text(), "0.30");
    assert_eq!(d("1").checked_sub(d("0.25")).unwrap().to_text(), "0.75");
    assert_eq!(d("1.50").checked_mul(d("2")).unwrap().to_text(), "3.00");
    assert_eq!(d("1").checked_div(d("8")).unwrap().to_text(), "0.125");
    assert_eq!(d("-7").abs().to_text(), "7");
    assert_eq!(d("-0.5").floor().to_text(), "-1");
    assert_eq!(d("2.345").round_dp(2).to_text(), "2.34");
}

#[test]
fn equal_numbers_compare_equal_whatever_their_places() {
    assert_eq!(d("1.0"), d("1.00"));
    assert!(d("-1") < d("0"));
    assert!(d("0.1").less(d("0.11")));
    assert_eq!(d("5").clamp(d("0"), d("2")), d("2"));
    assert_eq!(d("5").min(d("2")), d("2"));
    assert_eq!(d("5").max(d("2")), d("5"));
}

#[test]
fn overflow_and_division_by_zero_give_nothing() {
    assert!(largest().checked_add(Decimal::one()).is_none());
    assert!(largest().checked_mul(Decimal::two()).is_none());
    assert!(Decimal::one().checked_div(Decimal::zero()).is_none());
    assert!(Decimal::from_parts(79_228_162_514_264_337_593_543_950_336, 0).is_none());
    assert!(Decimal::from_parts(1, 29).is_none());
    assert!(checked_total(&vec![largest(), largest()]).is_none());
}

#[test]
fn texts_are_read_and_printed() {
    assert_eq!(d("-12.340").to_text(), "-12.340");
    assert!(parse_decimal("twelve").is_err());
    assert_eq!(parse_exact("0.4500").unwrap().scale(), 4);
    assert!(parse_exact("").is_err());
}

#[test]
fn medians_and_sorts() {
    let sorted = sort_decimals(vec![d("3"), d("1"), d("2")]);
    assert_eq!(sorted, vec![d("1"), d("2"), d("3")]);
    assert_eq!(median_of(vec![d("4"), d("1"), d("3"), d("2")]), Some(d("2.5")));
    assert_eq!(median_of(vec![d("9")]), Some(d("9")));
}

#[test]
fn instants_are_read_in_their_forms() {
    assert_eq!(
        parse_rfc3339("1970-01-01T01:00:00+01:00").unwrap(),
        Timestamp::from_seconds(0).unwrap()
    );
    assert!(parse_rfc3339("1970-01-01").is_err());
    assert_eq!(parse_day("1970-01-03").unwrap().seconds(), 172_800);
    assert_eq!(
        parse_naive("1970-01-01 00:01:00", "%Y-%m-%d %H:%M:%S").unwrap().seconds(),
        60
    );
    assert!(parse_naive("never", "%Y").is_none());
    assert_eq!(
        parse_rfc3339("2026-05-01T10:00:00Z").unwrap().to_text(),
        "2026-05-01 10:00:00 UTC"
    );
    assert!(Timestamp::from_nanos(i128::MAX).is_none());
}

#[test]
fn spans_are_cut_toward_zero() {
    let a = Timestamp::from_nanos(1_500_000_000).unwrap();
    let b = Timestamp::from_nanos(0).unwrap();
    assert_eq!(a.seconds_since(b), 1);
    assert_eq!(b.seconds_since(a), -1);
    assert_eq!(Timestamp::from_nanos(-1).unwrap().seconds(), -1);
    assert!(b.before(a));
    assert_eq!(a.later(b), a);
}

#[test]
fn text_helpers_do_as_they_say() {
    assert_eq!(trim("  a b \n"), "a b");
    assert_eq!(replace("aXbXc", "X", "--"), "a--b--c");
    assert!(contains("haystack", "stack"));
    assert_eq!(split_once("a=b=c", "="), Some(("a".to_string(), "b=c".to_string())));
    assert!(same_any_case("NFL", "nfl"));
    assert!(before("a", "b") && !before("b", "a"));
    assert_eq!(split_words(" a  b "), vec!["a", "b"]);
    assert_eq!(join(&vec!["a".to_string(), "b".to_string()], ", "), "a, b");
    assert_eq!(parse_natural("0042", 100), Some(42));
    assert_eq!(parse_natural("101", 100), None);
    assert_eq!(parse_natural("x", 100), None);
}

#[test]
fn maps_keep_the_last_value_of_a_key() {
    let map = TextMap::new()
        .put("a".to_string(), "1".to_string())
        .put("b".to_string(), "2".to_string())
        .put("a".to_string(), "3".to_string());
    assert_eq!(map.len(), 2);
    assert_eq!(map.get("a").map(String::as_str), Some("3"));
    assert!(!map.contains_key("c"));
    let counts: TextMap<usize> = TextMap::new().count("x").count("x");
    assert_eq!(counts.get("x"), Some(&2));
}

#[test]
fn plain_numbers_are_read_as_they_stand() {
    let number = d("-0.5700");
    assert_eq!((number.mantissa(), number.scale()), (-5700, 4));
    let longest = parse_exact("1234567890123456789012345.678").unwrap();
    assert_eq!(
        (longest.mantissa(), longest.scale()),
        (1_234_567_890_123_456_789_012_345_678, 3)
    );
    assert_eq!(parse_exact("0").unwrap().scale(), 0);
    assert!(parse_exact("1.2.3").is_err());
}

#[test]
fn calendar_dates_are_counted_in_days() {
    let leap = parse_day("2024-02-29").unwrap();
    assert_eq!(leap.seconds(), 19_782 * 86_400);
    assert!(parse_day("2023-02-29").is_err());
    assert_eq!(parse_day("1900-03-01").unwrap().seconds(), -25_508 * 86_400);
    assert_eq!(
        parse_rfc3339("2026-09-13T17:00:00Z").unwrap().seconds(),
        1_789_318_800
    );
    assert_eq!(
        parse_naive("2026-09-13 17:00:00", "%Y-%m-%d %H:%M:%S").unwrap(),
        parse_rfc3339("2026-09-13T17:00:00Z").unwrap()
    );
}

#[test]
fn quotients_are_exact_where_they_can_be_written() {
    assert_eq!(d("1").checked_div(d("8")), Some(d("0.125")));
    assert_eq!(d("2.4939").checked_div(d("0.01")), Some(d("249.39")));
    assert_eq!(d("-3").checked_div(d("1.5")), Some(d("-2")));
    assert_eq!(largest().checked_div(d("1")), Some(largest()));
}

#[test]
fn quotients_round_to_the_nearest_digit() {
    assert_eq!(
        d("1").checked_div(d("3")).unwrap().to_text(),
        "0.3333333333333333333333333333"
    );
    assert_eq!(
        d("2").checked_div(d("3")).unwrap().to_text(),
        "0.6666666666666666666666666667"
    );
    // Halves of the last digit go to the even one.
    assert_eq!(
        d("0.0000000000000000000000000001").checked_div(d("2")),
        Some(Decimal::zero())
    );
    assert_eq!(
        d("0.0000000000000000000000000003").checked_div(d("2")),
        Some(d("0.0000000000000000000000000002"))
    );
    assert_eq!(d("1").checked_div(Decimal::zero()), None);
    assert_eq!(largest().checked_div(d("0.1")), None);
}
