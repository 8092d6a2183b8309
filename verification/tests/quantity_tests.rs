//! Tests for quantities, conversion and the error value.

use runits::quantity::{ConversionError, Quantity};
use runits::convert_quantity;
use runits::rational::Ratio;
use runits::unit::Unit;

/// The rational as a floating-point number, for tolerance checks.
fn ratio_f64(r: &Ratio) -> f64 {
    let v = r.num as f64 / r.den as f64;
    if r.neg { -v } else { v }
}

#[test]
fn test_quantity_creation() {
    let distance = Quantity::meters(Ratio::from_u64(10));
    assert_eq!(ratio_f64(&distance.value), 10.0);
    assert_eq!(distance.unit.name, "meter");
}

#[test]
fn test_successful_conversion() {
    // 10 feet are about 3.048 meters
    let unit = Unit::foot();
    let q = Quantity::new(Ratio::from_u64(10), unit.duplicate());
    let result = q.convert_to(&Unit::meter()).unwrap();
    assert!((ratio_f64(&result.value) - 10.0 * ratio_f64(&unit.scale_factor)).abs() < 0.001);
}

#[test]
fn test_failed_conversion() {
    let q = Quantity::new(Ratio::from_u64(1), Unit::meter());
    let result = q.convert_to(&Unit::second());
    assert!(result.is_err());
}

#[test]
fn test_round_trip_conversion() {
    let q1 = Quantity::new(Ratio::from_u64(5), Unit::meter());
    let q2 = q1.convert_to(&Unit::foot()).unwrap();
    let q3 = q2.convert_to(&Unit::meter()).unwrap();
    assert!((ratio_f64(&q1.value) - ratio_f64(&q3.value)).abs() < 0.001);
}

#[test]
fn test_round_trip_conversion_is_exact_on_rationals() {
    // with exact rational arithmetic the round trip is not merely close,
    // it returns the identical reduced value
    let q1 = Quantity::new(Ratio::from_u64(5), Unit::meter());
    let q2 = q1.convert_to(&Unit::foot()).unwrap();
    let q3 = q2.convert_to(&Unit::meter()).unwrap();
    assert_eq!(q3.value, Ratio::from_u64(5));

    let q4 = Quantity::new(Ratio::new(true, 7, 3), Unit::mile());
    let q5 = q4.convert_to(&Unit::inch()).unwrap();
    let q6 = q5.convert_to(&Unit::mile()).unwrap();
    assert_eq!(q6.value, Ratio::new(true, 7, 3));
}

#[test]
fn test_ten_feet_in_meters_scenario() {
    // 10 foot -> meter: 3.048, exactly 381/125 on rationals
    let v = convert_quantity(Ratio::from_u64(10), &Unit::foot(), &Unit::meter()).unwrap();
    assert!((ratio_f64(&v) - 3.048).abs() < 0.001);
    assert_eq!(v, Ratio::new(false, 381, 125));
}

#[test]
fn test_five_miles_in_kilometers_scenario() {
    // 5 mile -> kilometer: 8.04672
    let v = convert_quantity(Ratio::from_u64(5), &Unit::mile(), &Unit::kilometer()).unwrap();
    assert!((ratio_f64(&v) - 8.04672).abs() < 0.001);
}

#[test]
fn test_incompatible_error_carries_both_names() {
    // 90 kilogram -> second fails, and the error names both units
    let q = Quantity::kilograms(Ratio::from_u64(90));
    let result = q.convert_to(&Unit::second());
    match result {
        Ok(_) => panic!("mass does not convert into time"),
        Err(ConversionError::IncompatibleDimensions { from_unit, to_unit }) => {
            assert_eq!(from_unit, "kilogram");
            assert_eq!(to_unit, "second");
        }
    }
}

#[test]
fn test_error_message_text() {
    let q = Quantity::kilograms(Ratio::from_u64(90));
    let err = q.convert_to(&Unit::second()).err().unwrap();
    assert_eq!(
        err.message(),
        "Cannot convert from kilogram to second - incompatible dimensions"
    );
}

#[test]
fn test_convert_value_to_returns_scalar() {
    let q = Quantity::new(Ratio::from_u64(3), Unit::kilometer());
    let v = q.convert_value_to(&Unit::meter()).unwrap();
    assert_eq!(v, Ratio::new(false, 3000, 1));
    assert!(q.convert_value_to(&Unit::second()).is_err());
}

#[test]
fn test_quantity_to_string() {
    let q = Quantity::meters(Ratio::from_u64(100));
    assert_eq!(q.to_string(), "100 meter");
    let half = Quantity::new(Ratio::new(true, 1, 2), Unit::second());
    assert_eq!(half.to_string(), "-1/2 second");
}

#[test]
fn test_quantity_factories() {
    assert_eq!(Quantity::feet(Ratio::from_u64(2)).unit.name, "foot");
    assert_eq!(Quantity::seconds(Ratio::from_u64(2)).unit.name, "second");
    assert_eq!(Quantity::kilograms(Ratio::from_u64(2)).unit.name, "kilogram");
}

#[test]
fn test_negative_values_and_factors_convert_with_sign() {
    // values keep their sign through conversion
    let v = convert_quantity(Ratio::new(true, 10, 1), &Unit::foot(), &Unit::meter()).unwrap();
    assert_eq!(v, Ratio::new(true, 381, 125));

    // a negative scale factor is legal and flips the sign
    let flipped = Unit::new(
        "antimeter",
        Ratio::new(true, 1, 1),
        &[(runits::Dimension::Length, 1)],
    );
    let w = convert_quantity(Ratio::from_u64(5), &Unit::meter(), &flipped).unwrap();
    assert_eq!(ratio_f64(&w), -5.0);
}

#[test]
fn test_conversion_result_keeps_target_unit() {
    let q = Quantity::new(Ratio::from_u64(1), Unit::hour());
    let res = q.convert_to(&Unit::minute()).unwrap();
    assert_eq!(res.unit.name, "minute");
    assert_eq!(res.unit.scale_factor, Ratio::new(false, 60, 1));
    assert_eq!(ratio_f64(&res.value), 60.0);
}
