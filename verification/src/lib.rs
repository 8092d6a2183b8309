//! A dimensional-analysis and unit-algebra library.
//!
//! Units carry a display name, a rational scale factor relative to the base
//! unit of their dimensional formula, and the formula itself: a map from
//! physical dimensions to signed integer exponents. Units can be multiplied
//! and divided, quantities can be converted between units with equal
//! formulas, and every operation is specified and verified down to the
//! arithmetic on the rational scale factors.

pub mod digits;
pub mod dimension;
pub mod rational;
pub mod laws;
pub mod quantity;
pub mod unit;

pub use dimension::{create_dimensions, Dimension, DimensionFormula};
pub use quantity::{convert_quantity, ConversionError, Quantity};
pub use rational::Ratio;
pub use unit::Unit;
