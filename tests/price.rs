use tx_flow::price::{get_price_at_timestamp, PriceRecord};

fn series() -> Vec<PriceRecord> {
    vec![
        PriceRecord { start: 7200, price: 30 },
        PriceRecord { start: 10800, price: 40 },
        PriceRecord { start: 14400, price: 50 },
    ]
}

#[test]
fn price_inside_a_bucket() {
    assert_eq!(get_price_at_timestamp(7200, &series()), Some(30));
    assert_eq!(get_price_at_timestamp(10799, &series()), Some(30));
    assert_eq!(get_price_at_timestamp(10800, &series()), Some(40));
    assert_eq!(get_price_at_timestamp(17999, &series()), Some(50));
}

#[test]
fn price_after_last_bucket_extrapolates() {
    assert_eq!(get_price_at_timestamp(18000, &series()), Some(50));
    assert_eq!(get_price_at_timestamp(u64::MAX, &series()), Some(50));
}

#[test]
fn price_before_first_bucket_is_missing() {
    assert_eq!(get_price_at_timestamp(7199, &series()), None);
    assert_eq!(get_price_at_timestamp(0, &series()), None);
}

#[test]
fn price_of_empty_series_is_missing() {
    assert_eq!(get_price_at_timestamp(100, &Vec::new()), None);
}

#[test]
fn price_gap_between_buckets_is_missing() {
    let prices = vec![PriceRecord { start: 0, price: 1 }, PriceRecord { start: 10000, price: 2 }];
    assert_eq!(get_price_at_timestamp(5000, &prices), None);
}

#[test]
fn price_lookup_is_repeatable() {
    let s = series();
    assert_eq!(get_price_at_timestamp(12000, &s), get_price_at_timestamp(12000, &s));
}

#[test]
fn latest_of_equal_starts_is_the_later_record() {
    let prices = vec![PriceRecord { start: 100, price: 1 }, PriceRecord { start: 100, price: 2 }];
    assert_eq!(get_price_at_timestamp(100, &prices), Some(1));
    assert_eq!(get_price_at_timestamp(5000, &prices), Some(2));
}
