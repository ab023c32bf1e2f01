use polybot::decimal::{parse_decimal, Decimal};
use polybot::metrics::{brier, max_drawdown, reliability, summary};
use polybot::time::Timestamp;

fn d(value: &str) -> Decimal {
    parse_decimal(value).unwrap()
}

fn t(seconds: i64) -> Timestamp {
    Timestamp::from_seconds(seconds).unwrap()
}

#[test]
fn brier_scores_certainty_and_coin_flips() {
    assert_eq!(brier(&vec![]), Some(None));
    assert_eq!(
        brier(&vec![
            (Decimal::one(), Decimal::one()),
            (Decimal::zero(), Decimal::zero())
        ]),
        Some(Some(Decimal::zero()))
    );
    assert_eq!(
        brier(&vec![
            (d("0.5"), Decimal::one()),
            (d("0.5"), Decimal::zero())
        ]),
        Some(Some(d("0.25")))
    );
}

#[test]
fn reliability_buckets_group_by_probability_and_skip_empty() {
    let pairs = vec![
        (d("0.05"), Decimal::zero()),
        (d("0.15"), Decimal::zero()),
        (d("0.95"), Decimal::one()),
        (Decimal::one(), Decimal::one()),
    ];
    let buckets = reliability(&pairs, 10).unwrap();
    assert_eq!(buckets.len(), 3);
    assert_eq!(buckets[0].count, 1);
    assert_eq!(buckets[0].lower, Decimal::zero());
    assert_eq!(buckets[2].count, 2, "probability 1 lands in the top bucket");
    assert_eq!(buckets[2].mean_outcome, Decimal::one());
}

#[test]
fn summary_reports_median_and_positive_share() {
    let result = summary(&vec![d("-1"), d("2"), d("3"), d("4")])
        .unwrap()
        .unwrap();
    assert_eq!(result.count, 4);
    assert_eq!(result.median, d("2.5"));
    assert_eq!(result.total, d("8"));
    assert_eq!(result.positive_share, d("0.75"));
    assert_eq!(summary(&vec![]), Some(None));
}

#[test]
fn drawdown_is_peak_to_trough() {
    let equity = vec![
        (t(0), d("100")),
        (t(1), d("105")),
        (t(2), d("101")),
        (t(3), d("99")),
        (t(4), d("110")),
        (t(5), d("108")),
    ];
    let result = max_drawdown(&equity).unwrap();
    assert_eq!(result.amount, d("6"));
    assert_eq!(result.peak_at, Some(t(1)));
    assert_eq!(result.trough_at, Some(t(3)));
    assert_eq!(max_drawdown(&vec![]).unwrap().amount, Decimal::zero());
}

#[test]
fn a_rising_series_never_falls() {
    let equity = vec![(t(0), d("1")), (t(1), d("2")), (t(2), d("2")), (t(3), d("5"))];
    let result = max_drawdown(&equity).unwrap();
    assert_eq!(result.amount, Decimal::zero());
    assert_eq!(result.peak_at, None);
}

#[test]
fn an_overflow_is_reported_and_not_wrapped() {
    let huge = Decimal::from_parts(79_228_162_514_264_337_593_543_950_335, 0).unwrap();
    assert_eq!(summary(&vec![huge, huge]), None);
    assert_eq!(brier(&vec![(huge, Decimal::zero())]), None);
}

#[test]
fn every_pair_lands_in_a_bucket() {
    let pairs = vec![
        (d("0"), Decimal::zero()),
        (d("0.249"), Decimal::one()),
        (d("0.25"), Decimal::one()),
        (d("0.999"), Decimal::zero()),
        (d("1"), Decimal::one()),
    ];
    let buckets = reliability(&pairs, 4).unwrap();
    let counted: usize = buckets.iter().map(|bucket| bucket.count).sum();
    assert_eq!(counted, pairs.len());
    assert_eq!(buckets[0].count, 2);
    assert_eq!(buckets[0].mean_outcome, d("0.5"));
    assert!(reliability(&pairs, 0).unwrap().is_empty());
}
