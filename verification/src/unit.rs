//! Units of measure: a display name, a rational scale factor relative to
//! the base unit of the dimensional formula, and the formula itself.
//! Units multiply and divide into compound units, and two units are
//! convertible exactly when their formulas are equal as maps.

use crate::dimension::{
    combined_exp, combined_formula_map, create_dimensions, entries_wf, exp_of_entries, last_exp,
    spec_formula_str, Dimension, DimensionFormula,
};
use crate::rational::{rat_div, rat_mul, rat_one, Ratio};
use vstd::prelude::*;

verus! {

/// A unit of measure.
///
/// `scale_factor` says how many of the formula's base unit one of this
/// unit amounts to: base units carry 1, and a foot, with the meter as
/// the length base unit, carries 0.3048 as the exact rational 381/1250.
/// A unit is an immutable value; the combinators return fresh units and
/// never touch their operands.
#[derive(Debug)]
pub struct Unit {
    /// Display name: lowercase, singular, as in `meter` or the
    /// synthesized `meter/second`.
    pub name: String,
    /// How many base units one of this unit is. Zero and negative
    /// factors are pathological but legal; they are never rejected here.
    pub scale_factor: Ratio,
    /// What the unit measures, as a map from dimensions to exponents.
    pub formula: DimensionFormula,
}

/// Two units are compatible exactly when their dimensional formulas are
/// equal as maps; names and scale factors play no part in it.
pub open spec fn compatible(a: Unit, b: Unit) -> bool {
    a.formula@ == b.formula@
}

/// The exponent a one-dimension constructor list gives each dimension.
proof fn lemma_single_dim(p: Seq<(Dimension, i8)>, d0: Dimension, e0: i8, d: Dimension)
    requires
        p.len() == 1,
        p[0] == (d0, e0),
    ensures
        last_exp(p, d) == (if d == d0 {
            e0 as int
        } else {
            0int
        }),
{
    reveal_with_fuel(last_exp, 2);
    assert(p.last() == (d0, e0));
    assert(p.drop_last().len() == 0);
}

/// A unit over a single dimension, the shape of every catalog unit.
fn one_dim_unit(name: &str, scale_factor: Ratio, d0: Dimension, e0: i8) -> (u: Unit)
    ensures
        u.name@ == name@,
        u.scale_factor == scale_factor,
        forall|d: Dimension| #[trigger]
            u.formula.exp(d) == (if d == d0 {
                e0 as int
            } else {
                0int
            }),
{
    let mut dims: Vec<(Dimension, i8)> = Vec::new();
    dims.push((d0, e0));
    let u = Unit::new(name, scale_factor, dims.as_slice());
    proof {
        assert forall|d: Dimension| #[trigger]
            u.formula.exp(d) == (if d == d0 {
                e0 as int
            } else {
                0int
            }) by {
            lemma_single_dim(dims@, d0, e0, d);
        }
    }
    u
}

impl Unit {
    /// A unit built from raw parts. No validation happens here: any name
    /// and any scale factor are accepted, and repeated dimensions in the
    /// pair list overwrite earlier ones, exponent 0 dropping the
    /// dimension altogether.
    pub fn new(name: &str, scale_factor: Ratio, dimensions: &[(Dimension, i8)]) -> (u: Unit)
        ensures
            u.name@ == name@,
            u.scale_factor == scale_factor,
            forall|d: Dimension| #[trigger] u.formula.exp(d) == last_exp(dimensions@, d),
    {
        Unit { name: name.to_owned(), scale_factor, formula: create_dimensions(dimensions) }
    }

    /// Whether a quantity in this unit can be converted into `other`:
    /// true exactly when the two dimensional formulas are equal as maps.
    /// Symmetric by construction, and blind to names and scale factors.
    pub fn is_compatible_with(&self, other: &Unit) -> (r: bool)
        ensures
            r == compatible(*self, *other),
    {
        self.formula.same_map(&other.formula)
    }

    /// Renders this unit's formula, `mass*length/time^2` style. Term
    /// order within the numerator and denominator follows the formula's
    /// entry order and is not part of the unit's identity.
    ///
    /// The last two clauses tie the rendered entry sequence back to the
    /// formula's exponent map, so callers can derive concrete renderings
    /// from the map alone — only the term order within a side is left
    /// open, as the rendering policy intends.
    pub fn dimension_string(&self) -> (s: String)
        ensures
            s@ == spec_formula_str(self.formula.entry_seq()),
            entries_wf(self.formula.entry_seq()),
            forall|d: Dimension| #[trigger]
                exp_of_entries(self.formula.entry_seq(), d) == self.formula.exp(d),
    {
        self.formula.render()
    }

    /// A fresh unit equal to this one in every observable part.
    pub fn duplicate(&self) -> (u: Unit)
        ensures
            u.name@ == self.name@,
            u.scale_factor == self.scale_factor,
            u.formula@ == self.formula@,
            u.formula.entry_seq() == self.formula.entry_seq(),
            forall|d: Dimension| #[trigger] u.formula.exp(d) == self.formula.exp(d),
    {
        Unit {
            name: self.name.clone(),
            scale_factor: self.scale_factor,
            formula: self.formula.duplicate(),
        }
    }

    /// The product unit: name `a*b`, scale factors multiplied exactly,
    /// and exponents added dimension-wise with zero results dropped.
    pub fn combine_mul(&self, other: &Unit) -> (u: Unit)
        ensures
            u.name@ == self.name@ + "*"@ + other.name@,
            u.scale_factor == rat_mul(self.scale_factor, other.scale_factor),
            forall|d: Dimension| #[trigger]
                u.formula.exp(d) == combined_exp(self.formula.exp(d), other.formula.exp(d), false),
            u.formula@ == combined_formula_map(self.formula@, other.formula@, false),
    {
        let mut name = self.name.clone();
        name.append("*");
        name.append(other.name.as_str());
        Unit {
            name,
            scale_factor: self.scale_factor.multiply(other.scale_factor),
            formula: self.formula.combined(&other.formula, false),
        }
    }

    /// The quotient unit: name `a/b`, scale factors divided exactly (a
    /// zero divisor yields an infinity-like factor that propagates), and
    /// exponents subtracted dimension-wise with zero results dropped.
    pub fn combine_div(&self, other: &Unit) -> (u: Unit)
        ensures
            u.name@ == self.name@ + "/"@ + other.name@,
            u.scale_factor == rat_div(self.scale_factor, other.scale_factor),
            forall|d: Dimension| #[trigger]
                u.formula.exp(d) == combined_exp(self.formula.exp(d), other.formula.exp(d), true),
            u.formula@ == combined_formula_map(self.formula@, other.formula@, true),
    {
        let mut name = self.name.clone();
        name.append("/");
        name.append(other.name.as_str());
        Unit {
            name,
            scale_factor: self.scale_factor.divide(other.scale_factor),
            formula: self.formula.combined(&other.formula, true),
        }
    }
}

impl PartialEq for Unit {
    /// Units are equal on name and formula alone. Scale factors are left
    /// out on purpose: chained algebra can rebuild a unit with a
    /// slightly different factor, and such a rebuilt unit still counts
    /// as the same unit.
    fn eq(&self, other: &Self) -> (r: bool) {
        self.name == other.name && self.formula.same_map(&other.formula)
    }
}

impl vstd::std_specs::cmp::PartialEqSpecImpl for Unit {
    open spec fn obeys_eq_spec() -> bool {
        true
    }

    open spec fn eq_spec(&self, other: &Unit) -> bool {
        self.name@ == other.name@ && self.formula@ == other.formula@
    }
}

impl Unit {
    /// The SI base unit of length.
    pub fn meter() -> (u: Unit)
        ensures
            u.name@ == "meter"@,
            u.scale_factor == rat_one(),
            forall|d: Dimension| #[trigger]
                u.formula.exp(d) == (if d == Dimension::Length {
                    1int
                } else {
                    0int
                }),
    {
        one_dim_unit("meter", Ratio::one(), Dimension::Length, 1)
    }

    /// The SI base unit of mass.
    pub fn kilogram() -> (u: Unit)
        ensures
            u.name@ == "kilogram"@,
            u.scale_factor == rat_one(),
            forall|d: Dimension| #[trigger]
                u.formula.exp(d) == (if d == Dimension::Mass {
                    1int
                } else {
                    0int
                }),
    {
        one_dim_unit("kilogram", Ratio::one(), Dimension::Mass, 1)
    }

    /// The SI base unit of time.
    pub fn second() -> (u: Unit)
        ensures
            u.name@ == "second"@,
            u.scale_factor == rat_one(),
            forall|d: Dimension| #[trigger]
                u.formula.exp(d) == (if d == Dimension::Time {
                    1int
                } else {
                    0int
                }),
    {
        one_dim_unit("second", Ratio::one(), Dimension::Time, 1)
    }

    /// The SI base unit of thermodynamic temperature.
    pub fn kelvin() -> (u: Unit)
        ensures
            u.name@ == "kelvin"@,
            u.scale_factor == rat_one(),
            forall|d: Dimension| #[trigger]
                u.formula.exp(d) == (if d == Dimension::Temperature {
                    1int
                } else {
                    0int
                }),
    {
        one_dim_unit("kelvin", Ratio::one(), Dimension::Temperature, 1)
    }

    /// The SI base unit of electric current.
    pub fn ampere() -> (u: Unit)
        ensures
            u.name@ == "ampere"@,
            u.scale_factor == rat_one(),
            forall|d: Dimension| #[trigger]
                u.formula.exp(d) == (if d == Dimension::Current {
                    1int
                } else {
                    0int
                }),
    {
        one_dim_unit("ampere", Ratio::one(), Dimension::Current, 1)
    }

    /// The SI base unit of amount of substance.
    pub fn mole() -> (u: Unit)
        ensures
            u.name@ == "mole"@,
            u.scale_factor == rat_one(),
            forall|d: Dimension| #[trigger]
                u.formula.exp(d) == (if d == Dimension::AmountOfSubstance {
                    1int
                } else {
                    0int
                }),
    {
        one_dim_unit("mole", Ratio::one(), Dimension::AmountOfSubstance, 1)
    }

    /// The SI base unit of luminous intensity.
    pub fn candela() -> (u: Unit)
        ensures
            u.name@ == "candela"@,
            u.scale_factor == rat_one(),
            forall|d: Dimension| #[trigger]
                u.formula.exp(d) == (if d == Dimension::LuminousIntensity {
                    1int
                } else {
                    0int
                }),
    {
        one_dim_unit("candela", Ratio::one(), Dimension::LuminousIntensity, 1)
    }

    /// The base unit of planar angle.
    pub fn radian() -> (u: Unit)
        ensures
            u.name@ == "radian"@,
            u.scale_factor == rat_one(),
            forall|d: Dimension| #[trigger]
                u.formula.exp(d) == (if d == Dimension::Angle {
                    1int
                } else {
                    0int
                }),
    {
        one_dim_unit("radian", Ratio::one(), Dimension::Angle, 1)
    }

    /// The base unit of digital information.
    pub fn bit() -> (u: Unit)
        ensures
            u.name@ == "bit"@,
            u.scale_factor == rat_one(),
            forall|d: Dimension| #[trigger]
                u.formula.exp(d) == (if d == Dimension::Information {
                    1int
                } else {
                    0int
                }),
    {
        one_dim_unit("bit", Ratio::one(), Dimension::Information, 1)
    }

    /// One kilometer is exactly 1000 meters.
    pub fn kilometer() -> (u: Unit)
        ensures
            u.name@ == "kilometer"@,
            u.scale_factor == (Ratio { neg: false, num: 1000, den: 1 }),
            forall|d: Dimension| #[trigger]
                u.formula.exp(d) == (if d == Dimension::Length {
                    1int
                } else {
                    0int
                }),
    {
        one_dim_unit("kilometer", Ratio::new(false, 1000, 1), Dimension::Length, 1)
    }

    /// One mile is exactly 1609.344 meters: 201168/125.
    pub fn mile() -> (u: Unit)
        ensures
            u.name@ == "mile"@,
            u.scale_factor == (Ratio { neg: false, num: 201168, den: 125 }),
            forall|d: Dimension| #[trigger]
                u.formula.exp(d) == (if d == Dimension::Length {
                    1int
                } else {
                    0int
                }),
    {
        one_dim_unit("mile", Ratio::new(false, 201168, 125), Dimension::Length, 1)
    }

    /// One foot is exactly 0.3048 meters: 381/1250.
    pub fn foot() -> (u: Unit)
        ensures
            u.name@ == "foot"@,
            u.scale_factor == (Ratio { neg: false, num: 381, den: 1250 }),
            forall|d: Dimension| #[trigger]
                u.formula.exp(d) == (if d == Dimension::Length {
                    1int
                } else {
                    0int
                }),
    {
        one_dim_unit("foot", Ratio::new(false, 381, 1250), Dimension::Length, 1)
    }

    /// One inch is exactly 0.0254 meters: 127/5000.
    pub fn inch() -> (u: Unit)
        ensures
            u.name@ == "inch"@,
            u.scale_factor == (Ratio { neg: false, num: 127, den: 5000 }),
            forall|d: Dimension| #[trigger]
                u.formula.exp(d) == (if d == Dimension::Length {
                    1int
                } else {
                    0int
                }),
    {
        one_dim_unit("inch", Ratio::new(false, 127, 5000), Dimension::Length, 1)
    }

    /// One minute is exactly 60 seconds.
    pub fn minute() -> (u: Unit)
        ensures
            u.name@ == "minute"@,
            u.scale_factor == (Ratio { neg: false, num: 60, den: 1 }),
            forall|d: Dimension| #[trigger]
                u.formula.exp(d) == (if d == Dimension::Time {
                    1int
                } else {
                    0int
                }),
    {
        one_dim_unit("minute", Ratio::new(false, 60, 1), Dimension::Time, 1)
    }

    /// One hour is exactly 3600 seconds.
    pub fn hour() -> (u: Unit)
        ensures
            u.name@ == "hour"@,
            u.scale_factor == (Ratio { neg: false, num: 3600, den: 1 }),
            forall|d: Dimension| #[trigger]
                u.formula.exp(d) == (if d == Dimension::Time {
                    1int
                } else {
                    0int
                }),
    {
        one_dim_unit("hour", Ratio::new(false, 3600, 1), Dimension::Time, 1)
    }

    /// One degree is pi/180 radians. The constant is the value of pi a
    /// 64-bit float carries, 884279719003555/281474976710656, divided by
    /// 180 and reduced: 176855943800711/10133099161583616.
    pub fn degree() -> (u: Unit)
        ensures
            u.name@ == "degree"@,
            u.scale_factor == (Ratio {
                neg: false,
                num: 176855943800711,
                den: 10133099161583616,
            }),
            forall|d: Dimension| #[trigger]
                u.formula.exp(d) == (if d == Dimension::Angle {
                    1int
                } else {
                    0int
                }),
    {
        one_dim_unit(
            "degree",
            Ratio::new(false, 176855943800711, 10133099161583616),
            Dimension::Angle,
            1,
        )
    }

    /// One byte is exactly 8 bits.
    pub fn byte() -> (u: Unit)
        ensures
            u.name@ == "byte"@,
            u.scale_factor == (Ratio { neg: false, num: 8, den: 1 }),
            forall|d: Dimension| #[trigger]
                u.formula.exp(d) == (if d == Dimension::Information {
                    1int
                } else {
                    0int
                }),
    {
        one_dim_unit("byte", Ratio::new(false, 8, 1), Dimension::Information, 1)
    }
}

} // verus!
