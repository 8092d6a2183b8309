//! Tests for the dimension registry and formula construction.

use runits::dimension::Dimension;
use runits::create_dimensions;

#[test]
fn test_dimension_creation() {
    let length = Dimension::Length;
    assert_eq!(length.name(), "length");
}

#[test]
fn test_map_dimension_creation() {
    let dims = create_dimensions(&[(Dimension::Length, 1)]);
    assert_eq!(dims.get(Dimension::Length), Some(1));
    assert_eq!(dims.get(Dimension::Mass), None);
}

#[test]
fn test_compound_dimension_velocity() {
    let dims = create_dimensions(&[(Dimension::Length, 1), (Dimension::Time, -1)]);
    assert_eq!(dims.get(Dimension::Length), Some(1));
    assert_eq!(dims.get(Dimension::Time), Some(-1));
    assert_eq!(dims.get(Dimension::Mass), None);
}

#[test]
fn test_base_dimensions_list() {
    let base = Dimension::base_dimensions();
    assert_eq!(base.len(), 7);
    assert!(base.contains(&Dimension::Length));
    assert!(base.contains(&Dimension::Mass));
    assert!(base.contains(&Dimension::Time));
    assert!(base.contains(&Dimension::Temperature));
    assert!(base.contains(&Dimension::Current));
    assert!(base.contains(&Dimension::AmountOfSubstance));
    assert!(base.contains(&Dimension::LuminousIntensity));
    assert!(!base.contains(&Dimension::Angle));
    assert!(!base.contains(&Dimension::Currency));
}

#[test]
fn test_dimension_names_stable() {
    assert_eq!(Dimension::AmountOfSubstance.name(), "amount");
    assert_eq!(Dimension::LuminousIntensity.name(), "intensity");
    assert_eq!(Dimension::Temperature.name(), "temperature");
    assert_eq!(Dimension::Information.name(), "information");
    assert_eq!(Dimension::Currency.name(), "currency");
    assert_eq!(Dimension::Angle.name(), "angle");
    assert_eq!(Dimension::Current.name(), "current");
    assert_eq!(Dimension::Mass.name(), "mass");
    assert_eq!(Dimension::Time.name(), "time");
}

#[test]
fn test_formula_last_write_wins() {
    // a repeated dimension overwrites, it does not sum
    let dims = create_dimensions(&[(Dimension::Length, 1), (Dimension::Length, 3)]);
    assert_eq!(dims.get(Dimension::Length), Some(3));
}

#[test]
fn test_formula_drops_zero_exponents() {
    // exponent 0 leaves the dimension out entirely
    let dims = create_dimensions(&[(Dimension::Length, 0), (Dimension::Time, 2)]);
    assert_eq!(dims.get(Dimension::Length), None);
    assert_eq!(dims.get(Dimension::Time), Some(2));
}

#[test]
fn test_formula_equality_is_order_independent() {
    let a = create_dimensions(&[(Dimension::Length, 1), (Dimension::Time, -1)]);
    let b = create_dimensions(&[(Dimension::Time, -1), (Dimension::Length, 1)]);
    assert!(a.same_map(&b));
    assert!(b.same_map(&a));
}
