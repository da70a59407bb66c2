use knapsack_dp::coins::{coin_change, coin_change_2};

#[test]
fn test_coin_change() {
    assert_eq!(coin_change(vec![1, 2, 5], 5), 1);
}

#[test]
fn test_coin_change_2() {
    assert_eq!(coin_change(vec![1, 3, 4], 6), 2);
}

#[test]
fn test_coin_change_3() {
    assert_eq!(coin_change_2(vec![1, 3, 4], 6), 2);
}

#[test]
fn zero_amount_needs_no_coins() {
    assert_eq!(coin_change(vec![1, 2, 5], 0), 0);
    assert_eq!(coin_change_2(vec![1, 2, 5], 0), 0);
}

#[test]
fn unreachable_amount_exceeds_amount() {
    // The first strategy reports an unreachable amount as n + 2, the second
    // as its sentinel n + 1; both land above any real coin count.
    assert_eq!(coin_change(vec![2], 3), 5);
    assert_eq!(coin_change_2(vec![2], 3), 4);
}

#[test]
fn exact_single_coin() {
    assert_eq!(coin_change(vec![3, 7], 7), 1);
    assert_eq!(coin_change_2(vec![3, 7], 7), 1);
}

#[test]
fn strategies_agree_when_reachable() {
    for n in 0..=15 {
        let a = coin_change(vec![1, 3, 4], n);
        let b = coin_change_2(vec![1, 3, 4], n);
        assert_eq!(a, b);
    }
}
