use merged_lands::land::terrain_map::Vec3;
use merged_lands::land::textures::IndexVTEX;
use merged_lands::merge::conflict::{classify_conflict, ConflictParams, ConflictResolver, ConflictType};

#[test]
fn equal_values_do_not_conflict() {
    let params = ConflictParams::default();
    assert!(0i32.average(0, &params).is_none());
    assert!(100i32.average(100, &params).is_none());
    assert!((-7i32).average(-7, &params).is_none());
    assert!(i32::MIN.average(i32::MIN, &params).is_none());
    assert!(255u8.average(255, &params).is_none());
    assert!((-128i8).average(-128, &params).is_none());
    assert!(65535u16.average(65535, &params).is_none());
    assert!(IndexVTEX::new(3).average(IndexVTEX::new(3), &params).is_none());
    assert!(Vec3::new(1u8, 2, 3).average(Vec3::new(1, 2, 3), &params).is_none());
}

#[test]
fn close_values_are_a_minor_conflict() {
    // The average lies within 3 of the smaller value, below the threshold of 30.
    let conflict = 100i32.average(103, &ConflictParams::default());
    assert!(matches!(conflict, Some(ConflictType::Minor(101))));
}

#[test]
fn distant_values_are_a_major_conflict() {
    // The larger value pulls the average to 46, far beyond the threshold of 10.
    let conflict = 10i32.average(50, &ConflictParams::default());
    assert!(matches!(conflict, Some(ConflictType::Major(46))));
}

#[test]
fn the_order_of_the_sides_does_not_matter() {
    let params = ConflictParams::default();
    assert!(matches!(103i32.average(100, &params), Some(ConflictType::Minor(101))));
    assert!(matches!(50i32.average(10, &params), Some(ConflictType::Major(46))));
}

#[test]
fn zero_has_no_weight() {
    let params = ConflictParams::default();
    assert!(matches!(0i32.average(5, &params), Some(ConflictType::Minor(5))));
    assert!(matches!(0i32.average(-5, &params), Some(ConflictType::Minor(-5))));
    assert!(matches!(0i32.average(50, &params), Some(ConflictType::Major(50))));
}

#[test]
fn opposite_values_average_to_zero() {
    let params = ConflictParams::default();
    assert!(matches!(4i32.average(-4, &params), Some(ConflictType::Minor(0))));
    assert!(matches!((-100i32).average(100, &params), Some(ConflictType::Major(0))));
}

#[test]
fn averages_are_rounded_towards_zero() {
    let params = ConflictParams::default();
    // (4^2.5 + 1^2.5) / (4^1.5 + 1^1.5) = 33 / 9 = 3.67
    assert!(matches!(4i32.average(1, &params), Some(ConflictType::Minor(3))));
    // (-32 - 1) / 9 = -3.67
    assert!(matches!((-4i32).average(-1, &params), Some(ConflictType::Minor(-3))));
    // (32 - 1) / 9 = 3.44
    assert!(matches!(4i32.average(-1, &params), Some(ConflictType::Minor(3))));
    // (1 - 32) / 9 = -3.44
    assert!(matches!(1i32.average(-4, &params), Some(ConflictType::Minor(-3))));
}

#[test]
fn the_threshold_is_a_share_of_the_smaller_value() {
    let params = ConflictParams::default();
    // A smaller value of 100 gives a threshold of 30: the average of 100 and 147 is 130.3,
    // that of 100 and 146 is 129.7.
    assert!(matches!(100i32.average(147, &params), Some(ConflictType::Major(130))));
    assert!(matches!(100i32.average(146, &params), Some(ConflictType::Minor(129))));
}

#[test]
fn the_threshold_is_at_most_sixty_four() {
    let params = ConflictParams::default();
    // A smaller value of 1000 would give a threshold of 300, which is cut to 64:
    // the average of 1000 and 1119 is 1064.5, that of 1000 and 1118 is 1063.9.
    assert!(matches!(1000i32.average(1119, &params), Some(ConflictType::Major(1064))));
    assert!(matches!(1000i32.average(1118, &params), Some(ConflictType::Minor(1063))));
}

#[test]
fn the_threshold_is_at_least_ten() {
    let params = ConflictParams::default();
    // A negative smaller value gives the least threshold of 10.
    assert!(matches!((-20i32).average(-1, &params), Some(ConflictType::Minor(-19))));
    assert!(matches!((-50i32).average(-10, &params), Some(ConflictType::Minor(-46))));
    assert!(matches!((-50i32).average(30, &params), Some(ConflictType::Major(-24))));
}

#[test]
fn extreme_values_are_classified() {
    let params = ConflictParams::default();
    assert!(matches!(i32::MAX.average(i32::MIN, &params), Some(ConflictType::Major(-1))));
    assert!(matches!(i32::MAX.average(i32::MAX - 1, &params), Some(ConflictType::Minor(2147483646))));
    assert!(matches!(i32::MIN.average(i32::MIN + 1, &params), Some(ConflictType::Minor(-2147483647))));
    assert!(matches!(i32::MAX.average(0, &params), Some(ConflictType::Major(i32::MAX))));
}

#[test]
fn narrow_types_are_classified_like_wide_ones() {
    let params = ConflictParams::default();
    assert!(matches!(100u8.average(103, &params), Some(ConflictType::Minor(101))));
    assert!(matches!(10u8.average(50, &params), Some(ConflictType::Major(46))));
    assert!(matches!(10i8.average(50, &params), Some(ConflictType::Major(46))));
    assert!(matches!((-4i8).average(-1, &params), Some(ConflictType::Minor(-3))));
    assert!(matches!(100u16.average(103, &params), Some(ConflictType::Minor(101))));
    let textures = IndexVTEX::new(10).average(IndexVTEX::new(50), &params);
    match textures {
        Some(ConflictType::Major(value)) => assert_eq!(value.as_u16(), 46),
        _ => panic!("expected a major conflict"),
    }
}

#[test]
fn classify_conflict_rounds_to_the_width_of_the_result() {
    let params = ConflictParams::default();
    let wide: ConflictType<i32> = classify_conflict(10, 50, &params);
    assert!(matches!(wide, ConflictType::Major(46)));
    let narrow: ConflictType<u8> = classify_conflict(10, 50, &params);
    assert!(matches!(narrow, ConflictType::Major(46)));
    let cut: ConflictType<u8> = classify_conflict(300, 301, &params);
    assert!(matches!(cut, ConflictType::Minor(255)));
    let negative: ConflictType<u8> = classify_conflict(-5, -6, &params);
    assert!(matches!(negative, ConflictType::Minor(0)));
    let signed: ConflictType<i8> = classify_conflict(-300, -301, &params);
    assert!(matches!(signed, ConflictType::Minor(-128)));
}

#[test]
fn other_parameters_move_the_threshold() {
    let strict = ConflictParams { minor_threshold_pct: 0, minor_threshold_min: 1, minor_threshold_max: 1 };
    assert!(matches!(100i32.average(103, &strict), Some(ConflictType::Major(101))));
    let loose = ConflictParams { minor_threshold_pct: 255, minor_threshold_min: 1000, minor_threshold_max: 1000 };
    assert!(matches!(10i32.average(50, &loose), Some(ConflictType::Minor(46))));
}

#[test]
fn vectors_are_resolved_by_component() {
    let params = ConflictParams::default();
    let lhs = Vec3::new(100i32, 7, 10);
    let rhs = Vec3::new(103i32, 7, 50);
    match lhs.average(rhs, &params) {
        Some(ConflictType::Major(value)) => {
            assert_eq!(value, Vec3::new(101, 7, 46));
        }
        _ => panic!("expected a major conflict"),
    }
    let rhs = Vec3::new(103i32, 7, 10);
    match lhs.average(rhs, &params) {
        Some(ConflictType::Minor(value)) => {
            assert_eq!(value, Vec3::new(101, 7, 10));
        }
        _ => panic!("expected a minor conflict"),
    }
}
