use knapsack_dp::item::Item;
use knapsack_dp::solver::{knapsack, knapsack_memoization, KnapsackError};

#[test]
fn test_knapsack() {
    let mut items: Vec<Item> = Vec::new();

    let item = Item {
        weight: 2,
        value: 12,
    };
    items.push(item);

    let item = Item {
        weight: 1,
        value: 10,
    };
    items.push(item);

    let item = Item {
        weight: 3,
        value: 20,
    };
    items.push(item);

    let item = Item {
        weight: 2,
        value: 15,
    };
    items.push(item);

    let capacity = 5;

    let result = knapsack(&items, capacity).unwrap();

    assert_eq!(result.0, 37);
    assert_eq!(result.1, [1, 2, 4]);

    let result = knapsack_memoization(&items, capacity).unwrap();
    assert_eq!(result.0, 37);
    assert_eq!(result.1, [1, 2, 4]);
}

#[test]
fn empty_items_any_capacity() {
    let items: Vec<Item> = Vec::new();
    let (value, chosen) = knapsack(&items, 10).unwrap();
    assert_eq!(value, 0);
    assert!(chosen.is_empty());
    let (value, chosen) = knapsack_memoization(&items, 10).unwrap();
    assert_eq!(value, 0);
    assert!(chosen.is_empty());
}

#[test]
fn single_item_too_heavy() {
    let items = vec![Item {
        weight: 5,
        value: 10,
    }];
    let (value, chosen) = knapsack(&items, 4).unwrap();
    assert_eq!(value, 0);
    assert!(chosen.is_empty());
    let (value, chosen) = knapsack_memoization(&items, 4).unwrap();
    assert_eq!(value, 0);
    assert!(chosen.is_empty());
}

#[test]
fn zero_capacity_selects_nothing() {
    let items = vec![
        Item {
            weight: 1,
            value: 100,
        },
        Item {
            weight: 2,
            value: 200,
        },
    ];
    let (value, chosen) = knapsack(&items, 0).unwrap();
    assert_eq!(value, 0);
    assert!(chosen.is_empty());
    let (value, chosen) = knapsack_memoization(&items, 0).unwrap();
    assert_eq!(value, 0);
    assert!(chosen.is_empty());
}

#[test]
fn weight_zero_item_is_included() {
    let items = vec![
        Item {
            weight: 0,
            value: 5,
        },
        Item {
            weight: 2,
            value: 3,
        },
    ];
    let (value, chosen) = knapsack(&items, 2).unwrap();
    assert_eq!(value, 5);
    assert_eq!(chosen, [1]);
    let (value, chosen) = knapsack_memoization(&items, 2).unwrap();
    assert_eq!(value, 5);
    assert_eq!(chosen, [1]);
}

#[test]
fn negative_capacity_is_rejected() {
    let items = vec![Item {
        weight: 1,
        value: 1,
    }];
    assert_eq!(knapsack(&items, -1), Err(KnapsackError::InvalidInput));
    assert_eq!(
        knapsack_memoization(&items, -1),
        Err(KnapsackError::InvalidInput)
    );
}

#[test]
fn negative_weight_is_rejected() {
    let items = vec![Item {
        weight: -2,
        value: 1,
    }];
    assert_eq!(knapsack(&items, 5), Err(KnapsackError::InvalidInput));
    assert_eq!(
        knapsack_memoization(&items, 5),
        Err(KnapsackError::InvalidInput)
    );
}

#[test]
fn negative_value_is_rejected() {
    let items = vec![
        Item {
            weight: 1,
            value: 3,
        },
        Item {
            weight: 1,
            value: -3,
        },
    ];
    assert_eq!(knapsack(&items, 5), Err(KnapsackError::InvalidInput));
    assert_eq!(
        knapsack_memoization(&items, 5),
        Err(KnapsackError::InvalidInput)
    );
}

#[test]
fn both_strategies_agree_on_many_inputs() {
    let items = vec![
        Item {
            weight: 3,
            value: 4,
        },
        Item {
            weight: 4,
            value: 5,
        },
        Item {
            weight: 7,
            value: 10,
        },
        Item {
            weight: 8,
            value: 11,
        },
        Item {
            weight: 9,
            value: 13,
        },
    ];
    for capacity in 0..=20 {
        let a = knapsack(&items, capacity).unwrap();
        let b = knapsack_memoization(&items, capacity).unwrap();
        assert_eq!(a.0, b.0);
        assert_eq!(a.1, b.1);
    }
}

#[test]
fn more_capacity_never_hurts() {
    let items = vec![
        Item {
            weight: 2,
            value: 12,
        },
        Item {
            weight: 1,
            value: 10,
        },
        Item {
            weight: 3,
            value: 20,
        },
        Item {
            weight: 2,
            value: 15,
        },
    ];
    let mut last = 0;
    for capacity in 0..=8 {
        let (value, _) = knapsack(&items, capacity).unwrap();
        assert!(value >= last);
        last = value;
    }
}

#[test]
fn selection_is_ascending_feasible_and_optimal() {
    let items = vec![
        Item {
            weight: 2,
            value: 12,
        },
        Item {
            weight: 1,
            value: 10,
        },
        Item {
            weight: 3,
            value: 20,
        },
        Item {
            weight: 2,
            value: 15,
        },
        Item {
            weight: 4,
            value: 9,
        },
    ];
    for capacity in 0..=12 {
        for result in [
            knapsack(&items, capacity).unwrap(),
            knapsack_memoization(&items, capacity).unwrap(),
        ] {
            let (value, chosen) = result;
            let mut weight_sum: i64 = 0;
            let mut value_sum: i64 = 0;
            for (pos, &idx) in chosen.iter().enumerate() {
                assert!(1 <= idx && idx as usize <= items.len());
                if pos > 0 {
                    assert!(chosen[pos - 1] < idx);
                }
                weight_sum += items[idx as usize - 1].weight as i64;
                value_sum += items[idx as usize - 1].value as i64;
            }
            assert!(weight_sum <= capacity as i64);
            assert_eq!(value_sum, value as i64);
        }
    }
}
