//! Quantities: a rational value paired with a unit, and conversion
//! between units with equal dimensional formulas.

use crate::rational::{rat_div, rat_mul, rat_one, spec_ratio_str, Ratio};
use crate::unit::{compatible, Unit};
use crate::dimension::Dimension;
use vstd::prelude::*;

verus! {

/// The one failure a conversion can meet: the source and target formulas
/// differ. It carries both display names for diagnostics.
#[derive(Debug, Clone)]
pub enum ConversionError {
    /// The two units measure different things.
    IncompatibleDimensions {
        /// Name of the unit the quantity was in.
        from_unit: String,
        /// Name of the unit the conversion aimed at.
        to_unit: String,
    },
}

/// The source-unit name an error carries.
pub open spec fn error_from_name(e: ConversionError) -> Seq<char> {
    match e {
        ConversionError::IncompatibleDimensions { from_unit, to_unit } => from_unit@,
    }
}

/// The target-unit name an error carries.
pub open spec fn error_to_name(e: ConversionError) -> Seq<char> {
    match e {
        ConversionError::IncompatibleDimensions { from_unit, to_unit } => to_unit@,
    }
}

impl ConversionError {
    /// The human-readable message, always of the one fixed shape.
    pub fn message(&self) -> (s: String)
        ensures
            s@ == "Cannot convert from "@ + error_from_name(*self) + " to "@ + error_to_name(
                *self,
            ) + " - incompatible dimensions"@,
    {
        match self {
            ConversionError::IncompatibleDimensions { from_unit, to_unit } => {
                let mut s: String = "Cannot convert from ".to_owned();
                s.append(from_unit.as_str());
                s.append(" to ");
                s.append(to_unit.as_str());
                s.append(" - incompatible dimensions");
                s
            },
        }
    }
}

/// A physical amount: a rational value expressed in one unit. Immutable;
/// conversion returns a fresh quantity and leaves the source alone.
#[derive(Debug)]
pub struct Quantity {
    /// The numeric value.
    pub value: Ratio,
    /// The unit the value is expressed in.
    pub unit: Unit,
}

impl Quantity {
    /// Wraps a value in a unit. No validation happens here.
    pub fn new(value: Ratio, unit: Unit) -> (q: Quantity)
        ensures
            q.value == value,
            q.unit == unit,
    {
        Quantity { value, unit }
    }

    /// Converts into `target_unit`.
    ///
    /// Succeeds exactly when the two formulas are equal as maps; the
    /// result then holds the value rescaled through the base unit —
    /// `value * self.unit.scale_factor / target_unit.scale_factor`,
    /// computed exactly on rationals — and a copy of the target unit.
    /// Otherwise it fails with the one error kind, carrying both names.
    pub fn convert_to(&self, target_unit: &Unit) -> (res: Result<Quantity, ConversionError>)
        ensures
            res is Ok <==> compatible(self.unit, *target_unit),
            (match res {
                Ok(q) => {
                    &&& q.value == rat_div(
                        rat_mul(self.value, self.unit.scale_factor),
                        target_unit.scale_factor,
                    )
                    &&& q.unit.name@ == target_unit.name@
                    &&& q.unit.scale_factor == target_unit.scale_factor
                    &&& q.unit.formula@ == target_unit.formula@
                    &&& q.unit.formula.entry_seq() == target_unit.formula.entry_seq()
                },
                Err(e) => {
                    &&& error_from_name(e) == self.unit.name@
                    &&& error_to_name(e) == target_unit.name@
                },
            }),
    {
        if !self.unit.is_compatible_with(target_unit) {
            return Err(
                ConversionError::IncompatibleDimensions {
                    from_unit: self.unit.name.clone(),
                    to_unit: target_unit.name.clone(),
                },
            );
        }
        let base_value = self.value.multiply(self.unit.scale_factor);
        let target_value = base_value.divide(target_unit.scale_factor);
        Ok(Quantity::new(target_value, target_unit.duplicate()))
    }

    /// Converts into `target_unit` and keeps only the rescaled value.
    pub fn convert_value_to(&self, target_unit: &Unit) -> (res: Result<Ratio, ConversionError>)
        ensures
            res is Ok <==> compatible(self.unit, *target_unit),
            (match res {
                Ok(v) => v == rat_div(
                    rat_mul(self.value, self.unit.scale_factor),
                    target_unit.scale_factor,
                ),
                Err(e) => {
                    &&& error_from_name(e) == self.unit.name@
                    &&& error_to_name(e) == target_unit.name@
                },
            }),
    {
        match self.convert_to(target_unit) {
            Ok(q) => Ok(q.value),
            Err(e) => Err(e),
        }
    }

    /// The display form `value unit-name`, the value rendered as a
    /// rational.
    pub fn to_string(&self) -> (s: String)
        ensures
            s@ == spec_ratio_str(self.value) + " "@ + self.unit.name@,
    {
        let mut s = self.value.render();
        s.append(" ");
        s.append(self.unit.name.as_str());
        s
    }
}

/// Converts a bare value from one unit into another in one call.
pub fn convert_quantity(value: Ratio, from_unit: &Unit, to_unit: &Unit) -> (res: Result<
    Ratio,
    ConversionError,
>)
    ensures
        res is Ok <==> compatible(*from_unit, *to_unit),
        (match res {
            Ok(v) => v == rat_div(rat_mul(value, from_unit.scale_factor), to_unit.scale_factor),
            Err(e) => {
                &&& error_from_name(e) == from_unit.name@
                &&& error_to_name(e) == to_unit.name@
            },
        }),
{
    let quantity = Quantity::new(value, from_unit.duplicate());
    quantity.convert_value_to(to_unit)
}

impl Quantity {
    /// `value` meters.
    pub fn meters(value: Ratio) -> (q: Quantity)
        ensures
            q.value == value,
            q.unit.name@ == "meter"@,
            q.unit.scale_factor == rat_one(),
            forall|d: Dimension| #[trigger]
                q.unit.formula.exp(d) == (if d == Dimension::Length {
                    1int
                } else {
                    0int
                }),
    {
        Self::new(value, Unit::meter())
    }

    /// `value` feet.
    pub fn feet(value: Ratio) -> (q: Quantity)
        ensures
            q.value == value,
            q.unit.name@ == "foot"@,
            q.unit.scale_factor == (Ratio { neg: false, num: 381, den: 1250 }),
            forall|d: Dimension| #[trigger]
                q.unit.formula.exp(d) == (if d == Dimension::Length {
                    1int
                } else {
                    0int
                }),
    {
        Self::new(value, Unit::foot())
    }

    /// `value` seconds.
    pub fn seconds(value: Ratio) -> (q: Quantity)
        ensures
            q.value == value,
            q.unit.name@ == "second"@,
            q.unit.scale_factor == rat_one(),
            forall|d: Dimension| #[trigger]
                q.unit.formula.exp(d) == (if d == Dimension::Time {
                    1int
                } else {
                    0int
                }),
    {
        Self::new(value, Unit::second())
    }

    /// `value` kilograms.
    pub fn kilograms(value: Ratio) -> (q: Quantity)
        ensures
            q.value == value,
            q.unit.name@ == "kilogram"@,
            q.unit.scale_factor == rat_one(),
            forall|d: Dimension| #[trigger]
                q.unit.formula.exp(d) == (if d == Dimension::Mass {
                    1int
                } else {
                    0int
                }),
    {
        Self::new(value, Unit::kilogram())
    }
}

} // verus!
