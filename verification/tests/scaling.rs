use amm::utils::{arbitary_amounts, normal_amount_fn, Decimal};

#[test]
fn normal_amount_keeps_units_and_takes_decimals_as_scale() {
    let normal = normal_amount_fn(1000, 2);
    assert_eq!(normal, Decimal { units: 1000, scale: 2 });
    let normal = normal_amount_fn(0, 9);
    assert_eq!(normal, Decimal { units: 0, scale: 9 });
    let normal = normal_amount_fn(u64::MAX, 255);
    assert_eq!(normal, Decimal { units: u64::MAX, scale: 255 });
}

#[test]
fn whole_amount_has_scale_zero() {
    assert_eq!(Decimal::whole(5), Decimal { units: 5, scale: 0 });
}

#[test]
fn arbitary_amounts_multiplies_whole_amounts_by_a_power_of_ten() {
    assert_eq!(arbitary_amounts(Decimal::whole(5), 2), Some(500));
    assert_eq!(arbitary_amounts(Decimal::whole(5), 0), Some(5));
    assert_eq!(arbitary_amounts(Decimal::whole(0), 255), Some(0));
    assert_eq!(arbitary_amounts(Decimal::whole(1), 19), Some(10_000_000_000_000_000_000));
    assert_eq!(arbitary_amounts(Decimal::whole(18), 18), Some(18_000_000_000_000_000_000));
}

#[test]
fn arbitary_amounts_is_none_beyond_sixty_four_bits() {
    assert_eq!(arbitary_amounts(Decimal::whole(1), 20), None);
    assert_eq!(arbitary_amounts(Decimal::whole(19), 18), None);
    assert_eq!(arbitary_amounts(Decimal::whole(u64::MAX), 1), None);
    assert_eq!(arbitary_amounts(Decimal::whole(1), 255), None);
    assert_eq!(arbitary_amounts(Decimal::whole(u64::MAX), 0), Some(u64::MAX));
}

#[test]
fn arbitary_amounts_rounds_down_where_decimals_are_dropped() {
    assert_eq!(arbitary_amounts(Decimal { units: 13_333, scale: 3 }, 2), Some(1333));
    assert_eq!(arbitary_amounts(Decimal { units: 1999, scale: 3 }, 0), Some(1));
    assert_eq!(arbitary_amounts(Decimal { units: 999, scale: 3 }, 0), Some(0));
    assert_eq!(arbitary_amounts(Decimal { units: 5, scale: 255 }, 0), Some(0));
    assert_eq!(arbitary_amounts(Decimal { units: u64::MAX, scale: 255 }, 254), Some(u64::MAX / 10));
}

#[test]
fn arbitary_amounts_keeps_units_where_scale_and_decimals_agree() {
    assert_eq!(arbitary_amounts(Decimal { units: 1234, scale: 7 }, 7), Some(1234));
    assert_eq!(arbitary_amounts(Decimal { units: 15, scale: 1 }, 3), Some(1500));
}

#[test]
fn normalizing_and_scaling_back_is_exact() {
    let amounts: [u64; 7] = [0, 1, 7, 1000, 123_456_789, u64::MAX - 1, u64::MAX];
    let decimals: [u8; 7] = [0, 1, 2, 6, 9, 18, 255];
    for amount in amounts {
        for decimal in decimals {
            assert_eq!(arbitary_amounts(normal_amount_fn(amount, decimal), decimal), Some(amount));
        }
    }
}

#[test]
fn scaling_agrees_with_floating_point_within_rounding() {
    let amounts: [u64; 5] = [1, 12, 1000, 99_999, 4_000_000_000];
    let decimals: [u8; 4] = [0, 2, 6, 9];
    for amount in amounts {
        for decimal in decimals {
            let mut float = amount as f64;
            for _ in 0..decimal {
                float /= 10.0;
            }
            for _ in 0..decimal {
                float *= 10.0;
            }
            let exact = arbitary_amounts(normal_amount_fn(amount, decimal), decimal).unwrap();
            assert!((float - exact as f64).abs() <= 1e-6 * (exact as f64));
        }
    }
}
