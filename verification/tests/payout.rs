use subscrypt::payout::{immediate_payout, locked_amount, refund_split, RefundSplit, MAX_SCALABLE_PRICE};

#[test]
fn locked_amount_is_the_permille_of_the_price() {
    assert_eq!(locked_amount(100, 500), 50);
    assert_eq!(locked_amount(100, 0), 0);
    assert_eq!(locked_amount(100, 1000), 100);
    assert_eq!(locked_amount(0, 700), 0);
}

#[test]
fn locked_amount_drops_the_fraction() {
    assert_eq!(locked_amount(999, 1), 0);
    assert_eq!(locked_amount(1001, 1), 1);
    assert_eq!(locked_amount(7, 333), 2);
    assert_eq!(locked_amount(12345, 678), 8369);
}

#[test]
fn locked_amount_does_not_overflow_on_the_largest_price() {
    assert_eq!(locked_amount(u128::MAX, 1000), u128::MAX);
    assert_eq!(locked_amount(u128::MAX, 500), u128::MAX / 2);
    assert_eq!(locked_amount(u128::MAX, 1), u128::MAX / 1000);
}

#[test]
fn immediate_payout_is_the_rest_of_the_price() {
    assert_eq!(immediate_payout(100, 500), 50);
    assert_eq!(immediate_payout(100, 0), 100);
    assert_eq!(immediate_payout(100, 1000), 0);
    assert_eq!(immediate_payout(12345, 678), 3975);
    assert_eq!(immediate_payout(u128::MAX, 0), u128::MAX);
}

#[test]
fn locked_and_paid_never_exceed_the_price() {
    for price in [0u128, 1, 7, 999, 1000, 1001, 54321] {
        for permille in [0u128, 1, 333, 500, 999, 1000] {
            let locked = locked_amount(price, permille);
            let paid = immediate_payout(price, permille);
            assert!(locked + paid <= price);
            assert!(price - (locked + paid) <= 1);
        }
    }
}

#[test]
fn refund_in_the_first_half_gives_back_all_that_was_promised() {
    let day = 86400u64;
    let split = refund_split(100, 500, 15 * day, 30 * day);
    assert_eq!(split, RefundSplit { customer: 50, provider: 0 });
}

#[test]
fn refund_on_the_twentieth_day_is_shared() {
    let day = 86400u64;
    let split = refund_split(100, 500, 20 * day, 30 * day);
    assert_eq!(split, RefundSplit { customer: 33, provider: 16 });
}

#[test]
fn refund_at_purchase_is_the_locked_amount() {
    let split = refund_split(100, 500, 0, 30);
    assert_eq!(split.customer, locked_amount(100, 500));
    assert_eq!(split.provider, 0);
    let whole = refund_split(777, 1000, 0, 12);
    assert_eq!(whole, RefundSplit { customer: 777, provider: 0 });
}

#[test]
fn refund_at_maturity_gives_the_customer_nothing() {
    let split = refund_split(100, 500, 30, 30);
    assert_eq!(split, RefundSplit { customer: 0, provider: 50 });
}

#[test]
fn refund_decreases_as_time_passes() {
    let mut last = u128::MAX;
    for elapsed in 0..=30u64 {
        let split = refund_split(100, 500, elapsed, 30);
        assert!(split.customer <= last);
        assert!(split.customer + split.provider <= 50);
        last = split.customer;
    }
    assert_eq!(last, 0);
}

#[test]
fn refund_without_promise_pays_nobody() {
    assert_eq!(refund_split(100, 0, 10, 30), RefundSplit { customer: 0, provider: 0 });
}

#[test]
fn refund_of_the_largest_scalable_price() {
    let split = refund_split(MAX_SCALABLE_PRICE, 1000, 0, u64::MAX);
    assert_eq!(split, RefundSplit { customer: MAX_SCALABLE_PRICE, provider: 0 });
    let late = refund_split(MAX_SCALABLE_PRICE, 1000, u64::MAX, u64::MAX);
    assert_eq!(late, RefundSplit { customer: 0, provider: MAX_SCALABLE_PRICE });
}
