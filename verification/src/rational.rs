//! Exact rational scalars.
//!
//! Scale factors and quantity values are signed rationals `(-1)^neg * num
//! / den`, kept in reduced form by a verified Euclidean gcd. A zero
//! denominator is a legal, infinity-like value: dividing by a zero scale
//! factor produces one and it propagates through later arithmetic instead
//! of being trapped, mirroring how an unchecked floating-point quotient
//! would behave; `0/0` plays the role of an undefined result.

use crate::digits::{dec_str, u64_to_string};
use vstd::prelude::*;
use vstd::arithmetic::div_mod::{
    lemma_add_mod_noop, lemma_div_by_self, lemma_fundamental_div_mod, lemma_mod_multiples_basic,
    lemma_mod_self_0, lemma_small_mod,
};
use vstd::arithmetic::mul::{
    lemma_mul_cancels_negatives, lemma_mul_equality_converse, lemma_mul_is_commutative,
    lemma_mul_nonzero, lemma_mul_unary_negation,
};

verus! {

/// A signed rational number: `(-1)^neg * num / den`.
///
/// `den == 0` encodes an infinite (or, with `num == 0`, undefined) value;
/// arithmetic is total and such values simply propagate.
#[derive(Debug, Clone, Copy, PartialEq, Eq, Structural)]
pub struct Ratio {
    /// Sign: true for negative values.
    pub neg: bool,
    /// Magnitude of the numerator.
    pub num: u64,
    /// Denominator; 0 stands for an infinite value.
    pub den: u64,
}

impl Ratio {
    /// The numerator with its sign applied.
    pub open spec fn signed_num(self) -> int {
        if self.neg {
            -(self.num as int)
        } else {
            self.num as int
        }
    }

    /// A rational from its three parts, exactly as given.
    pub fn new(neg: bool, num: u64, den: u64) -> (r: Ratio)
        ensures
            r == (Ratio { neg, num, den }),
    {
        Ratio { neg, num, den }
    }

    /// The whole number `n`.
    pub fn from_u64(n: u64) -> (r: Ratio)
        ensures
            r == (Ratio { neg: false, num: n, den: 1 }),
    {
        Ratio { neg: false, num: n, den: 1 }
    }

    /// The number one.
    pub fn one() -> (r: Ratio)
        ensures
            r == rat_one(),
    {
        Ratio { neg: false, num: 1, den: 1 }
    }
}

/// The number one as a rational.
pub open spec fn rat_one() -> Ratio {
    Ratio { neg: false, num: 1, den: 1 }
}

/// Two rationals denote the same value: cross-multiplication of the
/// signed numerators with the denominators agrees.
pub open spec fn rat_equiv(a: Ratio, b: Ratio) -> bool {
    a.signed_num() * (b.den as int) == b.signed_num() * (a.den as int)
}

/// The reciprocal: numerator and denominator trade places, the sign
/// stays.
pub open spec fn recip(r: Ratio) -> Ratio {
    Ratio { neg: r.neg, num: r.den, den: r.num }
}

/// The greatest common divisor by Euclid's algorithm; `gcd(a, 0) == a`.
pub open spec fn gcd(a: nat, b: nat) -> nat
    decreases b,
{
    if b == 0 {
        a
    } else {
        gcd(b, a % b)
    }
}

/// A natural number squeezed into `u64`, saturating at the top.
pub open spec fn sat64(n: nat) -> u64 {
    if n > u64::MAX {
        u64::MAX
    } else {
        n as u64
    }
}

/// The rational `(-1)^neg * p / q` brought into reduced form: both parts
/// are divided by their gcd, then saturated into `u64`. The undefined
/// quotient `0/0` stays as it is.
pub open spec fn reduced(neg: bool, p: nat, q: nat) -> Ratio {
    if p == 0 && q == 0 {
        Ratio { neg, num: 0, den: 0 }
    } else {
        let g = gcd(p, q);
        Ratio { neg, num: sat64(p / g), den: sat64(q / g) }
    }
}

/// The exact product of two rationals, in reduced form. Signs combine as
/// exclusive or, so zeros and infinities keep the sign rules of ordinary
/// arithmetic.
pub open spec fn rat_mul(a: Ratio, b: Ratio) -> Ratio {
    reduced(a.neg != b.neg, (a.num * b.num) as nat, (a.den * b.den) as nat)
}

/// The exact quotient: multiplication by the reciprocal.
pub open spec fn rat_div(a: Ratio, b: Ratio) -> Ratio {
    rat_mul(a, recip(b))
}

/// The reduced product of the two rationals fits in `u64` without
/// saturating, so `rat_mul` is exact.
pub open spec fn mul_fits(a: Ratio, b: Ratio) -> bool {
    let p = (a.num * b.num) as nat;
    let q = (a.den * b.den) as nat;
    (p == 0 && q == 0) || (p / gcd(p, q) <= u64::MAX && q / gcd(p, q) <= u64::MAX)
}

/// `r` denotes the product of the values of `a` and `b`:
/// cross-multiplication with the product's raw numerator and denominator
/// agrees.
pub open spec fn is_product(a: Ratio, b: Ratio, r: Ratio) -> bool {
    r.signed_num() * ((a.den as int) * (b.den as int)) == (a.signed_num() * b.signed_num()) * (
    r.den as int)
}

/// The Euclidean gcd of two numbers, not both zero, is positive and
/// divides both.
pub proof fn lemma_gcd_divides(a: nat, b: nat)
    requires
        a != 0 || b != 0,
    ensures
        gcd(a, b) >= 1,
        a % gcd(a, b) == 0,
        b % gcd(a, b) == 0,
    decreases b,
{
    if b == 0 {
        lemma_mod_self_0(a as int);
        lemma_small_mod(0, a);
    } else {
        lemma_gcd_divides(b, a % b);
        let g = gcd(b, a % b);
        let r = a % b;
        lemma_fundamental_div_mod(a as int, b as int);
        assert(a == b * (a as int / b as int) + r);
        let k = a as int / b as int;
        assert((b * k) % (g as int) == 0) by {
            lemma_fundamental_div_mod(b as int, g as int);
            assert(b == g * (b as int / g as int));
            let m = b as int / g as int;
            assert(b * k == (m * k) * g) by (nonlinear_arith)
                requires
                    b == g * m,
            ;
            lemma_mod_multiples_basic(m * k, g as int);
        }
        assert((a as int) % (g as int) == 0) by {
            lemma_add_mod_noop(b * k, r as int, g as int);
            lemma_small_mod(0, g);
        }
    }
}

/// Dividing a positive multiple of `g` by `g` gives a positive result.
proof fn lemma_div_of_multiple_positive(q: nat, g: nat)
    requires
        q >= 1,
        g >= 1,
        q % g == 0,
    ensures
        q / g >= 1,
{
    lemma_fundamental_div_mod(q as int, g as int);
    assert(q == g * (q as int / g as int));
    assert(q as int / g as int >= 1) by (nonlinear_arith)
        requires
            q as int == g as int * (q as int / g as int),
            q >= 1,
            g >= 1,
    ;
}

/// When the reduced product fits, `rat_mul` returns an exact
/// representation of the product of the two values.
pub proof fn lemma_mul_exact(a: Ratio, b: Ratio)
    requires
        mul_fits(a, b),
    ensures
        is_product(a, b, rat_mul(a, b)),
{
    let p = (a.num * b.num) as nat;
    let q = (a.den * b.den) as nat;
    let r = rat_mul(a, b);
    assert((a.num as int) * (b.num as int) == p as int);
    assert((a.den as int) * (b.den as int) == q as int);
    assert(a.signed_num() * b.signed_num() == (if a.neg != b.neg {
        -(p as int)
    } else {
        p as int
    })) by {
        lemma_mul_unary_negation(a.num as int, b.num as int);
        lemma_mul_cancels_negatives(a.num as int, b.num as int);
    }
    if p == 0 && q == 0 {
        assert(r.signed_num() == 0);
        assert(r.den == 0);
    } else {
        lemma_gcd_divides(p, q);
        let g = gcd(p, q);
        let p2 = (p / g) as int;
        let q2 = (q / g) as int;
        lemma_fundamental_div_mod(p as int, g as int);
        lemma_fundamental_div_mod(q as int, g as int);
        assert(p as int == (g as int) * p2);
        assert(q as int == (g as int) * q2);
        assert(p2 * (q as int) == (p as int) * q2) by (nonlinear_arith)
            requires
                p as int == (g as int) * p2,
                q as int == (g as int) * q2,
        ;
        assert(r.num as int == p2);
        assert(r.den as int == q2);
        if a.neg != b.neg {
            assert(r.signed_num() == -p2);
            lemma_mul_unary_negation(p2, q as int);
            lemma_mul_unary_negation(p as int, q2);
        }
    }
}

/// A product of rationals with nonzero denominators has a nonzero
/// denominator, and one of rationals with nonzero numerators a nonzero
/// numerator, saturation or not.
pub proof fn lemma_mul_parts_nonzero(a: Ratio, b: Ratio)
    ensures
        a.den != 0 && b.den != 0 ==> rat_mul(a, b).den != 0,
        a.num != 0 && b.num != 0 ==> rat_mul(a, b).num != 0,
{
    let p = (a.num * b.num) as nat;
    let q = (a.den * b.den) as nat;
    if a.den != 0 && b.den != 0 {
        lemma_mul_nonzero(a.den as int, b.den as int);
        lemma_gcd_divides(p, q);
        lemma_div_of_multiple_positive(q, gcd(p, q));
    }
    if a.num != 0 && b.num != 0 {
        lemma_mul_nonzero(a.num as int, b.num as int);
        lemma_gcd_divides(p, q);
        lemma_div_of_multiple_positive(p, gcd(p, q));
    }
}

/// Dividing a rational with nonzero numerator and denominator by itself
/// gives exactly one: the raw numerator and denominator agree, so
/// reduction collapses them to `1/1` and the signs cancel.
pub proof fn lemma_self_div_is_one(s: Ratio)
    requires
        s.num != 0,
        s.den != 0,
    ensures
        rat_div(s, s) == rat_one(),
{
    let p = (s.num * s.den) as nat;
    let q = (s.den * s.num) as nat;
    lemma_mul_is_commutative(s.num as int, s.den as int);
    assert(p == q);
    lemma_mul_nonzero(s.num as int, s.den as int);
    assert(p != 0);
    lemma_mod_self_0(p as int);
    assert(gcd(p, p) == p) by {
        reveal_with_fuel(gcd, 2);
        assert(p % p == 0);
    }
    lemma_div_by_self(p as int);
    assert(sat64((p / p) as nat) == 1);
}

/// Cancels a common nonzero factor on the right of an equation.
proof fn lemma_cancel(k: int, x: int, y: int)
    requires
        k != 0,
        x * k == y * k,
    ensures
        x == y,
{
    lemma_mul_is_commutative(x, k);
    lemma_mul_is_commutative(y, k);
    lemma_mul_equality_converse(k, x, y);
}

/// Scaling by `n1/p1`, passing through a value-equal rational, and
/// scaling by `n2/p2` with `n1*n2 == p1*p2` lands back on the starting
/// value: the composed scalings cancel. All relations are given as
/// cross-multiplication equations over signed numerators (`xsn`, ...)
/// and denominators (`xd`, ...).
proof fn lemma_scaling_cancels(
    xsn: int,
    xd: int,
    ysn: int,
    yd: int,
    y2sn: int,
    y2d: int,
    zsn: int,
    zd: int,
    n1: int,
    p1: int,
    n2: int,
    p2: int,
)
    requires
        ysn * (xd * p1) == (xsn * n1) * yd,
        y2sn * yd == ysn * y2d,
        zsn * (y2d * p2) == (y2sn * n2) * zd,
        n1 * n2 == p1 * p2,
        n1 * n2 != 0,
        yd != 0,
        y2d != 0,
    ensures
        zsn * xd == xsn * zd,
{
    assert(((zsn * p2) * yd) * y2d == (zsn * (y2d * p2)) * yd) by (nonlinear_arith);
    assert(((y2sn * n2) * zd) * yd == (y2sn * yd) * (n2 * zd)) by (nonlinear_arith);
    assert((ysn * y2d) * (n2 * zd) == ((ysn * n2) * zd) * y2d) by (nonlinear_arith);
    assert(((zsn * p2) * yd) * y2d == ((ysn * n2) * zd) * y2d);
    lemma_cancel(y2d, (zsn * p2) * yd, (ysn * n2) * zd);
    assert(((zsn * p2) * (xd * p1)) * yd == ((xsn * n1) * (n2 * zd)) * yd) by (nonlinear_arith)
        requires
            (zsn * p2) * yd == (ysn * n2) * zd,
            ysn * (xd * p1) == (xsn * n1) * yd,
    ;
    lemma_cancel(yd, (zsn * p2) * (xd * p1), (xsn * n1) * (n2 * zd));
    assert((zsn * xd) * (p1 * p2) == (xsn * zd) * (n1 * n2)) by (nonlinear_arith)
        requires
            (zsn * p2) * (xd * p1) == (xsn * n1) * (n2 * zd),
    ;
    lemma_cancel(n1 * n2, zsn * xd, xsn * zd);
}

/// Multiplying a value by a scale factor and dividing by the same one,
/// in either order (`v * a / b * b / a` as a whole), returns the original
/// value exactly, provided every intermediate reduced product fits and
/// the scale factors are finite and nonzero. This is the arithmetic core
/// of the conversion round trip.
pub proof fn lemma_scale_round_trip(v: Ratio, a: Ratio, b: Ratio)
    requires
        v.den != 0,
        a.num != 0,
        a.den != 0,
        b.num != 0,
        b.den != 0,
        mul_fits(v, a),
        mul_fits(rat_mul(v, a), recip(b)),
        mul_fits(rat_div(rat_mul(v, a), b), b),
        mul_fits(rat_mul(rat_div(rat_mul(v, a), b), b), recip(a)),
    ensures
        rat_equiv(rat_div(rat_mul(rat_div(rat_mul(v, a), b), b), a), v),
{
    let r1 = rat_mul(v, a);
    let r2 = rat_mul(r1, recip(b));
    let r3 = rat_mul(r2, b);
    let r4 = rat_mul(r3, recip(a));
    lemma_mul_exact(v, a);
    lemma_mul_exact(r1, recip(b));
    lemma_mul_exact(r2, b);
    lemma_mul_exact(r3, recip(a));
    lemma_mul_parts_nonzero(v, a);
    lemma_mul_parts_nonzero(r1, recip(b));
    lemma_mul_parts_nonzero(r2, b);
    let rb = recip(b);
    let ra = recip(a);
    assert(rb.signed_num() * b.signed_num() == (b.num as int) * (b.den as int)) by {
        lemma_mul_cancels_negatives(b.den as int, b.num as int);
        lemma_mul_is_commutative(b.den as int, b.num as int);
    }
    assert((b.num as int) * (b.den as int) != 0) by {
        lemma_mul_nonzero(b.num as int, b.den as int);
    }
    lemma_scaling_cancels(
        r1.signed_num(),
        r1.den as int,
        r2.signed_num(),
        r2.den as int,
        r2.signed_num(),
        r2.den as int,
        r3.signed_num(),
        r3.den as int,
        rb.signed_num(),
        b.num as int,
        b.signed_num(),
        b.den as int,
    );
    assert(a.signed_num() * ra.signed_num() == (a.num as int) * (a.den as int)) by {
        lemma_mul_cancels_negatives(a.num as int, a.den as int);
    }
    assert((a.num as int) * (a.den as int) != 0) by {
        lemma_mul_nonzero(a.num as int, a.den as int);
    }
    assert((a.den as int) * (a.num as int) == (a.num as int) * (a.den as int)) by {
        lemma_mul_is_commutative(a.den as int, a.num as int);
    }
    lemma_scaling_cancels(
        v.signed_num(),
        v.den as int,
        r1.signed_num(),
        r1.den as int,
        r3.signed_num(),
        r3.den as int,
        r4.signed_num(),
        r4.den as int,
        a.signed_num(),
        a.den as int,
        ra.signed_num(),
        a.num as int,
    );
}

/// Multiplication of rationals is commutative outright: the raw products
/// agree factor for factor, so even the reduced representations coincide.
pub proof fn lemma_mul_commutes(a: Ratio, b: Ratio)
    ensures
        rat_mul(a, b) == rat_mul(b, a),
{
    lemma_mul_is_commutative(a.num as int, b.num as int);
    lemma_mul_is_commutative(a.den as int, b.den as int);
}

/// Left-nested chained products: from `m = a*b` and `t = m*c`, the result
/// relates to all three factors at once.
proof fn lemma_chain_product_left(
    asn: int,
    ad: int,
    bsn: int,
    bd: int,
    csn: int,
    cd: int,
    msn: int,
    md: int,
    tsn: int,
    td: int,
)
    requires
        msn * (ad * bd) == (asn * bsn) * md,
        tsn * (md * cd) == (msn * csn) * td,
        md != 0,
    ensures
        tsn * ((ad * bd) * cd) == ((asn * bsn) * csn) * td,
{
    assert((tsn * ((ad * bd) * cd)) * md == (tsn * (md * cd)) * (ad * bd)) by (nonlinear_arith);
    assert(((msn * csn) * td) * (ad * bd) == (msn * (ad * bd)) * (csn * td)) by (nonlinear_arith);
    assert(((asn * bsn) * md) * (csn * td) == (((asn * bsn) * csn) * td) * md)
        by (nonlinear_arith);
    assert((tsn * ((ad * bd) * cd)) * md == (((asn * bsn) * csn) * td) * md);
    lemma_cancel(md, tsn * ((ad * bd) * cd), ((asn * bsn) * csn) * td);
}

/// Right-nested chained products: from `m = b*c` and `t = a*m`, the
/// result relates to all three factors in the same left-grouped form.
proof fn lemma_chain_product_right(
    asn: int,
    ad: int,
    bsn: int,
    bd: int,
    csn: int,
    cd: int,
    msn: int,
    md: int,
    tsn: int,
    td: int,
)
    requires
        msn * (bd * cd) == (bsn * csn) * md,
        tsn * (ad * md) == (asn * msn) * td,
        md != 0,
    ensures
        tsn * ((ad * bd) * cd) == ((asn * bsn) * csn) * td,
{
    assert((tsn * ((ad * bd) * cd)) * md == (tsn * (ad * md)) * (bd * cd)) by (nonlinear_arith);
    assert(((asn * msn) * td) * (bd * cd) == (msn * (bd * cd)) * (asn * td)) by (nonlinear_arith);
    assert(((bsn * csn) * md) * (asn * td) == (((asn * bsn) * csn) * td) * md)
        by (nonlinear_arith);
    assert((tsn * ((ad * bd) * cd)) * md == (((asn * bsn) * csn) * td) * md);
    lemma_cancel(md, tsn * ((ad * bd) * cd), ((asn * bsn) * csn) * td);
}

/// Multiplication of rationals is associative in value: `(a*b)*c` and
/// `a*(b*c)` denote the same number whenever the denominators are
/// nonzero and every intermediate reduced product fits.
pub proof fn lemma_mul_assoc_equiv(a: Ratio, b: Ratio, c: Ratio)
    requires
        a.den != 0,
        b.den != 0,
        c.den != 0,
        mul_fits(a, b),
        mul_fits(rat_mul(a, b), c),
        mul_fits(b, c),
        mul_fits(a, rat_mul(b, c)),
    ensures
        rat_equiv(rat_mul(rat_mul(a, b), c), rat_mul(a, rat_mul(b, c))),
{
    let ab = rat_mul(a, b);
    let l = rat_mul(ab, c);
    let bc = rat_mul(b, c);
    let r = rat_mul(a, bc);
    lemma_mul_exact(a, b);
    lemma_mul_exact(ab, c);
    lemma_mul_exact(b, c);
    lemma_mul_exact(a, bc);
    lemma_mul_parts_nonzero(a, b);
    lemma_mul_parts_nonzero(b, c);
    lemma_chain_product_left(
        a.signed_num(),
        a.den as int,
        b.signed_num(),
        b.den as int,
        c.signed_num(),
        c.den as int,
        ab.signed_num(),
        ab.den as int,
        l.signed_num(),
        l.den as int,
    );
    lemma_chain_product_right(
        a.signed_num(),
        a.den as int,
        b.signed_num(),
        b.den as int,
        c.signed_num(),
        c.den as int,
        bc.signed_num(),
        bc.den as int,
        r.signed_num(),
        r.den as int,
    );
    let dd = ((a.den as int) * (b.den as int)) * (c.den as int);
    let nn = (a.signed_num() * b.signed_num()) * c.signed_num();
    assert(dd != 0) by {
        lemma_mul_nonzero(a.den as int, b.den as int);
        lemma_mul_nonzero((a.den as int) * (b.den as int), c.den as int);
    }
    assert((l.signed_num() * (r.den as int)) * dd == (l.signed_num() * dd) * (r.den as int))
        by (nonlinear_arith);
    assert((nn * (l.den as int)) * (r.den as int) == (nn * (r.den as int)) * (l.den as int))
        by (nonlinear_arith);
    assert((r.signed_num() * dd) * (l.den as int) == (r.signed_num() * (l.den as int)) * dd)
        by (nonlinear_arith);
    assert((l.signed_num() * (r.den as int)) * dd == (r.signed_num() * (l.den as int)) * dd);
    lemma_cancel(dd, l.signed_num() * (r.den as int), r.signed_num() * (l.den as int));
}

/// The gcd of two `u128` values, by Euclid's algorithm.
fn gcd_u128(a: u128, b: u128) -> (g: u128)
    ensures
        g as nat == gcd(a as nat, b as nat),
{
    let mut x: u128 = a;
    let mut y: u128 = b;
    while y != 0
        invariant
            gcd(x as nat, y as nat) == gcd(a as nat, b as nat),
        decreases y,
    {
        let t: u128 = x % y;
        x = y;
        y = t;
    }
    x
}

/// The rendering of a rational value: a minus sign for negative nonzero
/// numerators, the numerator in decimal, and `/` with the denominator in
/// decimal unless the denominator is 1. The infinity-like values render
/// as `inf`, `-inf` and `nan`.
pub open spec fn spec_ratio_str(r: Ratio) -> Seq<char> {
    if r.den == 0 {
        if r.num == 0 {
            "nan"@
        } else if r.neg {
            "-inf"@
        } else {
            "inf"@
        }
    } else {
        let sign: Seq<char> = if r.neg && r.num != 0 {
            "-"@
        } else {
            Seq::empty()
        };
        if r.den == 1 {
            sign + dec_str(r.num as nat)
        } else {
            sign + dec_str(r.num as nat) + "/"@ + dec_str(r.den as nat)
        }
    }
}

impl Ratio {
    /// Renders the value as `spec_ratio_str` describes.
    pub fn render(&self) -> (s: String)
        ensures
            s@ == spec_ratio_str(*self),
    {
        if self.den == 0 {
            if self.num == 0 {
                "nan".to_owned()
            } else if self.neg {
                "-inf".to_owned()
            } else {
                "inf".to_owned()
            }
        } else {
            let mut s: String = if self.neg && self.num != 0 {
                "-".to_owned()
            } else {
                String::new()
            };
            let num_digits = u64_to_string(self.num);
            s.append(num_digits.as_str());
            if self.den != 1 {
                s.append("/");
                let den_digits = u64_to_string(self.den);
                s.append(den_digits.as_str());
            }
            proof {
                assert(s@ =~= spec_ratio_str(*self));
            }
            s
        }
    }
}

impl Ratio {
    /// The exact product of `self` and `other`, reduced by the gcd of the
    /// raw numerator and denominator and saturated into `u64` only when
    /// even the reduced form cannot fit.
    pub fn multiply(self, other: Ratio) -> (r: Ratio)
        ensures
            r == rat_mul(self, other),
    {
        proof {
            assert((self.num as int) * (other.num as int) <= (u64::MAX as int) * (
            u64::MAX as int) && (self.den as int) * (other.den as int) <= (u64::MAX as int) * (
            u64::MAX as int)) by (nonlinear_arith)
                requires
                    self.num <= u64::MAX,
                    other.num <= u64::MAX,
                    self.den <= u64::MAX,
                    other.den <= u64::MAX,
            ;
        }
        let p: u128 = (self.num as u128) * (other.num as u128);
        let q: u128 = (self.den as u128) * (other.den as u128);
        let neg = self.neg != other.neg;
        if p == 0 && q == 0 {
            return Ratio { neg, num: 0, den: 0 };
        }
        proof {
            lemma_gcd_divides(p as nat, q as nat);
        }
        let g = gcd_u128(p, q);
        let p2: u128 = p / g;
        let q2: u128 = q / g;
        let num: u64 = if p2 > (u64::MAX as u128) {
            u64::MAX
        } else {
            p2 as u64
        };
        let den: u64 = if q2 > (u64::MAX as u128) {
            u64::MAX
        } else {
            q2 as u64
        };
        Ratio { neg, num, den }
    }

    /// The exact quotient of `self` by `other`: multiplication by the
    /// reciprocal. A zero `other` yields an infinity-like value that
    /// propagates; it is not trapped here.
    pub fn divide(self, other: Ratio) -> (r: Ratio)
        ensures
            r == rat_div(self, other),
    {
        self.multiply(Ratio { neg: other.neg, num: other.den, den: other.num })
    }
}

} // verus!
