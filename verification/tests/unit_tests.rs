//! Tests for unit construction, the catalog, algebra and rendering.

use runits::dimension::Dimension;
use runits::rational::Ratio;
use runits::unit::Unit;
use runits::quantity::Quantity;

/// The rational as a floating-point number, for tolerance checks.
fn ratio_f64(r: &Ratio) -> f64 {
    let v = r.num as f64 / r.den as f64;
    if r.neg { -v } else { v }
}

#[test]
fn test_unit_creation() {
    let meter = Unit::meter();
    assert_eq!(meter.name, "meter");
    assert_eq!(ratio_f64(&meter.scale_factor), 1.0);
}

#[test]
fn test_compatible_units() {
    let meter = Unit::meter();
    let foot = Unit::foot();
    assert!(meter.is_compatible_with(&foot));
    assert!(foot.is_compatible_with(&meter));
}

#[test]
fn test_incompatible_units() {
    let meter = Unit::meter();
    let second = Unit::second();
    assert!(!meter.is_compatible_with(&second));
    assert!(!second.is_compatible_with(&meter));
}

#[test]
fn test_unit_multiplication() {
    let meter = Unit::meter();
    let second = Unit::second();
    let meter_second = meter.combine_mul(&second);

    assert_eq!(meter_second.name, "meter*second");
    assert_eq!(ratio_f64(&meter_second.scale_factor), 1.0);

    let meter_second_dims = meter_second.dimension_string();
    assert!(
        meter_second_dims.contains("length")
            && meter_second_dims.contains("*")
            && meter_second_dims.contains("time")
    );
}

#[test]
fn test_unit_division() {
    let meter = Unit::meter();
    let second = Unit::second();
    let velocity = meter.combine_div(&second);

    assert_eq!(velocity.name, "meter/second");
    assert_eq!(ratio_f64(&velocity.scale_factor), 1.0);
    assert_eq!(velocity.dimension_string(), "length/time");
}

#[test]
fn test_compound_unit_conversion() {
    let km = Unit::kilometer();
    let hour = Unit::hour();
    let kmh = km.combine_div(&hour);

    let m = Unit::meter();
    let s = Unit::second();
    let ms = m.combine_div(&s);

    // 1 km/hr = 1000m/3600s = 0.2778 m/s
    let speed = Quantity::new(Ratio::from_u64(1), kmh);
    let converted = speed.convert_to(&ms).unwrap();
    assert!((ratio_f64(&converted.value) - 0.2778).abs() < 0.001);
}

#[test]
fn test_operator_precedence() {
    // a / b * c evaluates as (a / b) * c, not a / (b * c):
    // the two give DIFFERENT results
    let ltr = Unit::meter().combine_div(&Unit::second()).combine_mul(&Unit::kilogram());
    let with_parens = Unit::meter().combine_div(&Unit::second().combine_mul(&Unit::kilogram()));
    let ltr_dims = ltr.dimension_string();

    assert_ne!(ltr_dims, with_parens.dimension_string());
    assert!(ltr_dims.contains("/time"));
    assert!(ltr_dims.contains("length") && ltr_dims.contains("mass"));
    assert!(with_parens.dimension_string().contains("length/"));
}

#[test]
fn test_new_si_dimensions() {
    let mol = Unit::mole();
    assert_eq!(mol.name, "mole");
    assert_eq!(mol.dimension_string(), "amount");

    let cd = Unit::candela();
    assert_eq!(cd.name, "candela");
    assert_eq!(cd.dimension_string(), "intensity");

    // 180 degrees = pi radians
    let rad = Unit::radian();
    let deg = Unit::degree();
    let angle = Quantity::new(Ratio::from_u64(180), deg);
    let in_radians = angle.convert_to(&rad).unwrap();
    assert!((ratio_f64(&in_radians.value) - std::f64::consts::PI).abs() < 0.001);

    // 1024 bytes are exactly 8192 bits
    let bits = Unit::bit();
    let bytes = Unit::byte();
    let data = Quantity::new(Ratio::from_u64(1024), bytes);
    let in_bits = data.convert_to(&bits).unwrap();
    assert_eq!(ratio_f64(&in_bits.value), 8192.0);
}

#[test]
fn test_dimension_string() {
    let meter = Unit::meter();
    assert_eq!(meter.dimension_string(), "length");

    let velocity = Unit::new(
        "velocity",
        Ratio::one(),
        &[(Dimension::Length, 1), (Dimension::Time, -1)],
    );
    assert_eq!(velocity.dimension_string(), "length/time");

    let acceleration = Unit::new(
        "acceleration",
        Ratio::one(),
        &[(Dimension::Length, 1), (Dimension::Time, -2)],
    );
    assert_eq!(acceleration.dimension_string(), "length/time^2");

    // term order within a side is unspecified: check membership only
    let force = Unit::new(
        "newton",
        Ratio::one(),
        &[(Dimension::Mass, 1), (Dimension::Length, 1), (Dimension::Time, -2)],
    );
    let result = force.dimension_string();
    assert!(result.contains("mass"));
    assert!(result.contains("length"));
    assert!(result.contains("time^2"));
}

#[test]
fn test_dimension_string_denominator_only() {
    let hertz = Unit::new("hertz", Ratio::one(), &[(Dimension::Time, -1)]);
    assert_eq!(hertz.dimension_string(), "1/time");
}

#[test]
fn test_dimension_string_empty_for_dimensionless() {
    let scalar = Unit::new("scalar", Ratio::one(), &[]);
    assert_eq!(scalar.dimension_string(), "");
}

#[test]
fn test_dimension_string_large_exponent() {
    let hypervolume = Unit::new("hypervolume", Ratio::one(), &[(Dimension::Length, 12)]);
    assert_eq!(hypervolume.dimension_string(), "length^12");
}

#[test]
fn test_catalog_scale_factors_exact() {
    assert_eq!(Unit::foot().scale_factor, Ratio::new(false, 381, 1250)); // 0.3048
    assert_eq!(Unit::inch().scale_factor, Ratio::new(false, 127, 5000)); // 0.0254
    assert_eq!(Unit::mile().scale_factor, Ratio::new(false, 201168, 125)); // 1609.344
    assert_eq!(Unit::kilometer().scale_factor, Ratio::new(false, 1000, 1));
    assert_eq!(Unit::minute().scale_factor, Ratio::new(false, 60, 1));
    assert_eq!(Unit::hour().scale_factor, Ratio::new(false, 3600, 1));
    assert_eq!(Unit::byte().scale_factor, Ratio::new(false, 8, 1));
    assert!((ratio_f64(&Unit::degree().scale_factor) - std::f64::consts::PI / 180.0).abs() < 1e-15);
}

#[test]
fn test_unit_equality_ignores_scale_factor() {
    // identity is name and formula; a rounded factor does not split it
    let a = Unit::new("meter", Ratio::one(), &[(Dimension::Length, 1)]);
    let b = Unit::new("meter", Ratio::new(false, 999999999, 1000000000), &[(Dimension::Length, 1)]);
    assert!(a == b);
    let c = Unit::new("metre", Ratio::one(), &[(Dimension::Length, 1)]);
    assert!(a != c);
    let d = Unit::new("meter", Ratio::one(), &[(Dimension::Time, 1)]);
    assert!(a != d);
}

#[test]
fn test_self_division_is_dimensionless_with_unit_scale() {
    // any unit divided by itself: empty formula, scale factor exactly 1
    let foot = Unit::foot();
    let ratio = foot.combine_div(&Unit::foot());
    assert_eq!(ratio.name, "foot/foot");
    assert_eq!(ratio.dimension_string(), "");
    assert_eq!(ratio.scale_factor, Ratio::one());

    let kmh = Unit::kilometer().combine_div(&Unit::hour());
    let again = kmh.combine_div(&Unit::kilometer().combine_div(&Unit::hour()));
    assert_eq!(again.dimension_string(), "");
    assert_eq!(again.scale_factor, Ratio::one());
}

#[test]
fn test_multiplication_associative_in_formula_and_scale() {
    let a = Unit::foot();
    let b = Unit::mile();
    let c = Unit::hour();
    let left = a.combine_mul(&b).combine_mul(&c);
    let right = a.combine_mul(&b.combine_mul(&c));
    assert!(left.is_compatible_with(&right));
    // equal scale factors as values: cross-multiplication agrees
    let ln = left.scale_factor.num as u128 * right.scale_factor.den as u128;
    let rn = right.scale_factor.num as u128 * left.scale_factor.den as u128;
    assert_eq!(ln, rn);
    assert_eq!(left.scale_factor.neg, right.scale_factor.neg);
}

#[test]
fn test_multiplication_commutative_except_name() {
    let ms = Unit::meter().combine_mul(&Unit::second());
    let sm = Unit::second().combine_mul(&Unit::meter());
    assert!(ms.is_compatible_with(&sm));
    assert_eq!(ms.scale_factor, sm.scale_factor);
    assert_ne!(ms.name, sm.name);

    let fm = Unit::foot().combine_mul(&Unit::mile());
    let mf = Unit::mile().combine_mul(&Unit::foot());
    assert!(fm.is_compatible_with(&mf));
    assert_eq!(fm.scale_factor, mf.scale_factor);
}

#[test]
fn test_compatibility_symmetric_and_formula_based() {
    // symmetric, and blind to scale factor and name
    let units = [Unit::meter(), Unit::foot(), Unit::second(), Unit::byte()];
    for x in units.iter() {
        for y in units.iter() {
            assert_eq!(x.is_compatible_with(y), y.is_compatible_with(x));
            assert_eq!(x.is_compatible_with(y), x.formula.same_map(&y.formula));
        }
    }
}

#[test]
fn test_division_by_zero_scale_propagates() {
    // a zero scale factor is caller error, not trapped: the quotient
    // carries an infinity-like factor and conversion does not panic
    let zero = Unit::new("zilch", Ratio::new(false, 0, 1), &[(Dimension::Length, 1)]);
    let weird = Unit::meter().combine_div(&zero);
    assert_eq!(weird.scale_factor.den, 0);
    let q = Quantity::new(Ratio::from_u64(1), Unit::meter());
    let converted = q.convert_to(&zero).unwrap();
    assert!(ratio_f64(&converted.value).is_infinite());
}
