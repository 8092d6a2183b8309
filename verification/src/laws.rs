//! The algebraic laws of the unit engine, stated over the same spec
//! functions the executable contracts use and proved once and for all.

use crate::dimension::{
    combined_exp, combined_formula_map, lemma_map_exp_combined, map_exp, Dimension,
};
use crate::rational::{
    lemma_mul_assoc_equiv, lemma_mul_commutes, lemma_scale_round_trip, lemma_self_div_is_one,
    mul_fits, rat_div,
    rat_equiv, rat_mul, rat_one, recip, Ratio,
};
use crate::unit::{compatible, Unit};
use vstd::prelude::*;

verus! {

/// Compatibility is symmetric and decided by the dimensional formulas
/// alone: `a.is_compatible_with(b)`, `b.is_compatible_with(a)` and
/// equality of the two formula maps all return the same answer, whatever
/// the names and scale factors are.
pub proof fn lemma_compatibility_symmetric(a: Unit, b: Unit)
    ensures
        compatible(a, b) == compatible(b, a),
        compatible(a, b) <==> a.formula@ == b.formula@,
{
}

/// The conversion round trip: taking a finite value from unit `a` into a
/// compatible unit `b` and back — which `convert_to` computes as
/// `v * a.scale_factor / b.scale_factor`, then
/// `* b.scale_factor / a.scale_factor` — returns exactly the value it
/// started from, as long as both scale factors are finite and nonzero
/// and no intermediate reduced product overflows its 64-bit parts.
pub proof fn lemma_conversion_round_trip(v: Ratio, a: Unit, b: Unit)
    requires
        compatible(a, b),
        v.den != 0,
        a.scale_factor.num != 0,
        a.scale_factor.den != 0,
        b.scale_factor.num != 0,
        b.scale_factor.den != 0,
        mul_fits(v, a.scale_factor),
        mul_fits(rat_mul(v, a.scale_factor), recip(b.scale_factor)),
        mul_fits(rat_div(rat_mul(v, a.scale_factor), b.scale_factor), b.scale_factor),
        mul_fits(
            rat_mul(rat_div(rat_mul(v, a.scale_factor), b.scale_factor), b.scale_factor),
            recip(a.scale_factor),
        ),
    ensures
        rat_equiv(
            rat_div(
                rat_mul(
                    rat_div(rat_mul(v, a.scale_factor), b.scale_factor),
                    b.scale_factor,
                ),
                a.scale_factor,
            ),
            v,
        ),
{
    lemma_scale_round_trip(v, a.scale_factor, b.scale_factor);
}

/// Dividing a unit by itself is the exact identity: the combined formula
/// is always empty — the quotient is dimensionless — and the scale
/// factor is exactly one whenever the unit's own scale factor is finite
/// and nonzero. (A unit with scale factor zero divides into the
/// undefined quotient `0/0`, just as an unchecked floating-point
/// division would produce.)
pub proof fn lemma_self_division_dimensionless(u: Unit)
    ensures
        combined_formula_map(u.formula@, u.formula@, true) == Map::<Dimension, int>::empty(),
        u.scale_factor.num != 0 && u.scale_factor.den != 0 ==> rat_div(
            u.scale_factor,
            u.scale_factor,
        ) == rat_one(),
{
    if u.scale_factor.num != 0 && u.scale_factor.den != 0 {
        lemma_self_div_is_one(u.scale_factor);
    }
    assert(combined_formula_map(u.formula@, u.formula@, true) =~= Map::<Dimension, int>::empty());
}

/// Multiplication of units is associative: `(a*b)*c` and `a*(b*c)` have
/// equal formula maps, value-equal scale factors, and the same
/// synthesized name `a*b*c` (the third clause, by associativity of
/// concatenation). The exponent sums must stay inside the 64-bit range
/// and the scale-factor products must fit when reduced.
pub proof fn lemma_multiplication_associative(a: Unit, b: Unit, c: Unit)
    requires
        a.scale_factor.den != 0,
        b.scale_factor.den != 0,
        c.scale_factor.den != 0,
        mul_fits(a.scale_factor, b.scale_factor),
        mul_fits(rat_mul(a.scale_factor, b.scale_factor), c.scale_factor),
        mul_fits(b.scale_factor, c.scale_factor),
        mul_fits(a.scale_factor, rat_mul(b.scale_factor, c.scale_factor)),
        forall|d: Dimension|
            i64::MIN <= #[trigger] map_exp(a.formula@, d) + map_exp(b.formula@, d) <= i64::MAX,
        forall|d: Dimension|
            i64::MIN <= #[trigger] map_exp(b.formula@, d) + map_exp(c.formula@, d) <= i64::MAX,
        forall|d: Dimension|
            i64::MIN <= #[trigger] map_exp(a.formula@, d) + map_exp(b.formula@, d) + map_exp(
                c.formula@,
                d,
            ) <= i64::MAX,
    ensures
        combined_formula_map(
            combined_formula_map(a.formula@, b.formula@, false),
            c.formula@,
            false,
        ) == combined_formula_map(
            a.formula@,
            combined_formula_map(b.formula@, c.formula@, false),
            false,
        ),
        rat_equiv(
            rat_mul(rat_mul(a.scale_factor, b.scale_factor), c.scale_factor),
            rat_mul(a.scale_factor, rat_mul(b.scale_factor, c.scale_factor)),
        ),
        (a.name@ + "*"@ + b.name@) + "*"@ + c.name@ == a.name@ + "*"@ + (b.name@ + "*"@
            + c.name@),
{
    assert((a.name@ + "*"@ + b.name@) + "*"@ + c.name@ =~= a.name@ + "*"@ + (b.name@ + "*"@
        + c.name@));
    lemma_mul_assoc_equiv(a.scale_factor, b.scale_factor, c.scale_factor);
    let ma = a.formula@;
    let mb = b.formula@;
    let mc = c.formula@;
    let left = combined_formula_map(combined_formula_map(ma, mb, false), mc, false);
    let right = combined_formula_map(ma, combined_formula_map(mb, mc, false), false);
    assert forall|d: Dimension| #[trigger]
        map_exp(left, d) == map_exp(right, d) && map_exp(left, d) == map_exp(ma, d) + map_exp(
        mb,
        d,
    ) + map_exp(mc, d) by {
        lemma_map_exp_combined(ma, mb, false, d);
        lemma_map_exp_combined(combined_formula_map(ma, mb, false), mc, false, d);
        lemma_map_exp_combined(mb, mc, false, d);
        lemma_map_exp_combined(ma, combined_formula_map(mb, mc, false), false, d);
    }
    assert(left =~= right) by {
        assert forall|d: Dimension| left.dom().contains(d) == right.dom().contains(d) by {
            assert(map_exp(left, d) == map_exp(right, d));
        }
        assert forall|d: Dimension| left.dom().contains(d) implies left[d] == right[d] by {
            assert(map_exp(left, d) == map_exp(right, d));
        }
    }
}

/// Multiplication is commutative in everything but the synthesized name:
/// `a*b` and `b*a` have equal formula maps and identical scale factors.
/// Only the names `a.name*b.name` and `b.name*a.name` tell them apart.
pub proof fn lemma_multiplication_commutative(a: Unit, b: Unit)
    ensures
        combined_formula_map(a.formula@, b.formula@, false) == combined_formula_map(
            b.formula@,
            a.formula@,
            false,
        ),
        rat_mul(a.scale_factor, b.scale_factor) == rat_mul(b.scale_factor, a.scale_factor),
{
    lemma_mul_commutes(a.scale_factor, b.scale_factor);
    let left = combined_formula_map(a.formula@, b.formula@, false);
    let right = combined_formula_map(b.formula@, a.formula@, false);
    assert forall|d: Dimension| #[trigger] map_exp(left, d) == map_exp(right, d) by {
        lemma_map_exp_combined(a.formula@, b.formula@, false, d);
        lemma_map_exp_combined(b.formula@, a.formula@, false, d);
    }
    assert(left =~= right) by {
        assert forall|d: Dimension| left.dom().contains(d) == right.dom().contains(d) by {
            assert(map_exp(left, d) == map_exp(right, d));
        }
        assert forall|d: Dimension| left.dom().contains(d) implies left[d] == right[d] by {
            assert(map_exp(left, d) == map_exp(right, d));
        }
    }
}

/// Mixed operations evaluate left to right, and the grouping matters:
/// `a / b * c` and `a / (b * c)` give different formulas whenever some
/// dimension `d0` has a nonzero exponent in `c` — the two exponents of
/// `d0` differ by twice that amount. For a dimensionless `c` the two
/// agree, so such a witness dimension is genuinely needed.
pub proof fn lemma_mixed_ops_differ(a: Unit, b: Unit, c: Unit, d0: Dimension)
    requires
        map_exp(c.formula@, d0) != 0,
        i64::MIN <= map_exp(a.formula@, d0) - map_exp(b.formula@, d0) <= i64::MAX,
        i64::MIN <= map_exp(a.formula@, d0) - map_exp(b.formula@, d0) + map_exp(c.formula@, d0)
            <= i64::MAX,
        i64::MIN <= map_exp(b.formula@, d0) + map_exp(c.formula@, d0) <= i64::MAX,
        i64::MIN <= map_exp(a.formula@, d0) - (map_exp(b.formula@, d0) + map_exp(c.formula@, d0))
            <= i64::MAX,
    ensures
        combined_formula_map(
            combined_formula_map(a.formula@, b.formula@, true),
            c.formula@,
            false,
        ) != combined_formula_map(
            a.formula@,
            combined_formula_map(b.formula@, c.formula@, false),
            true,
        ),
{
    let ma = a.formula@;
    let mb = b.formula@;
    let mc = c.formula@;
    let left = combined_formula_map(combined_formula_map(ma, mb, true), mc, false);
    let right = combined_formula_map(ma, combined_formula_map(mb, mc, false), true);
    lemma_map_exp_combined(ma, mb, true, d0);
    lemma_map_exp_combined(combined_formula_map(ma, mb, true), mc, false, d0);
    lemma_map_exp_combined(mb, mc, false, d0);
    lemma_map_exp_combined(ma, combined_formula_map(mb, mc, false), true, d0);
    assert(map_exp(left, d0) == map_exp(ma, d0) - map_exp(mb, d0) + map_exp(mc, d0));
    assert(map_exp(right, d0) == map_exp(ma, d0) - map_exp(mb, d0) - map_exp(mc, d0));
    assert(map_exp(left, d0) != map_exp(right, d0));
}

} // verus!
