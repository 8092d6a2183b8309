//! The closed set of base physical dimensions and the dimensional formula
//! type: a map from dimensions to signed nonzero exponents.

use crate::digits::{dec_str, u64_to_string};
use vstd::prelude::*;

verus! {

/// A fundamental physical dimension: the category a unit measures.
///
/// Both meters and feet measure `Length`, which is what makes them
/// convertible into one another.
#[derive(Debug, Clone, Copy, PartialEq, Eq, Structural)]
pub enum Dimension {
    /// Spatial extent - SI base unit: meter
    Length,
    /// Inertial property - SI base unit: kilogram
    Mass,
    /// Duration - SI base unit: second
    Time,
    /// Thermodynamic temperature - SI base unit: kelvin
    Temperature,
    /// Electric current - SI base unit: ampere
    Current,
    /// Amount of substance - SI base unit: mole
    AmountOfSubstance,
    /// Luminous intensity - SI base unit: candela
    LuminousIntensity,
    /// Planar angle - base unit: radian. Dimensionless in the SI proper,
    /// but kept apart so angles do not mix with pure numbers.
    Angle,
    /// Digital information - base unit: bit
    Information,
    /// Monetary value - conversions need external exchange-rate data
    Currency,
}

/// The canonical spelling of each dimension's lowercase name, as a
/// sequence of characters. Formula rendering builds on these names.
pub open spec fn spec_dimension_name(d: Dimension) -> Seq<char> {
    match d {
        Dimension::Length => "length"@,
        Dimension::Mass => "mass"@,
        Dimension::Time => "time"@,
        Dimension::Temperature => "temperature"@,
        Dimension::Current => "current"@,
        Dimension::AmountOfSubstance => "amount"@,
        Dimension::LuminousIntensity => "intensity"@,
        Dimension::Angle => "angle"@,
        Dimension::Information => "information"@,
        Dimension::Currency => "currency"@,
    }
}

/// No dimension occurs twice among the entries.
pub open spec fn uniq_dims(s: Seq<(Dimension, i64)>) -> bool {
    forall|i: int, j: int|
        0 <= i < j < s.len() ==> (#[trigger] s[i]).0 != (#[trigger] s[j]).0
}

/// Well-formed entry list of a formula: dimensions are unique and no
/// exponent is zero, so the formula is always in lowest terms.
pub open spec fn entries_wf(s: Seq<(Dimension, i64)>) -> bool {
    uniq_dims(s) && forall|i: int| 0 <= i < s.len() ==> (#[trigger] s[i]).1 != 0
}

/// Some entry carries dimension `d`.
pub open spec fn contains_dim(s: Seq<(Dimension, i64)>, d: Dimension) -> bool {
    exists|i: int| 0 <= i < s.len() && (#[trigger] s[i]).0 == d
}

/// The exponent of dimension `d` among the entries, reading from the back;
/// 0 when `d` does not occur.
pub open spec fn exp_of_entries(s: Seq<(Dimension, i64)>, d: Dimension) -> int
    decreases s.len(),
{
    if s.len() == 0 {
        0
    } else if s.last().0 == d {
        s.last().1 as int
    } else {
        exp_of_entries(s.drop_last(), d)
    }
}

/// In a duplicate-free entry list, the exponent of `s[j].0` is `s[j].1`.
pub proof fn lemma_exp_entry(s: Seq<(Dimension, i64)>, j: int)
    requires
        uniq_dims(s),
        0 <= j < s.len(),
    ensures
        exp_of_entries(s, s[j].0) == s[j].1,
        contains_dim(s, s[j].0),
    decreases s.len(),
{
    if j == s.len() - 1 {
        assert(s.last() == s[j]);
    } else {
        assert(s.last().0 != s[j].0);
        assert(s.drop_last()[j] == s[j]);
        lemma_exp_entry(s.drop_last(), j);
    }
}

/// A dimension that occurs nowhere has exponent 0.
pub proof fn lemma_exp_absent(s: Seq<(Dimension, i64)>, d: Dimension)
    requires
        !contains_dim(s, d),
    ensures
        exp_of_entries(s, d) == 0,
    decreases s.len(),
{
    if s.len() > 0 {
        assert(s.last() == s[s.len() - 1]);
        assert(s.last().0 != d);
        assert(!contains_dim(s.drop_last(), d)) by {
            if contains_dim(s.drop_last(), d) {
                let i = choose|i: int|
                    0 <= i < s.drop_last().len() && (#[trigger] s.drop_last()[i]).0 == d;
                assert(s[i].0 == d);
            }
        }
        lemma_exp_absent(s.drop_last(), d);
    }
}

/// In a well-formed entry list, a dimension occurs iff its exponent is
/// nonzero.
pub proof fn lemma_contains_iff_nonzero(s: Seq<(Dimension, i64)>, d: Dimension)
    requires
        entries_wf(s),
    ensures
        contains_dim(s, d) <==> exp_of_entries(s, d) != 0,
{
    if contains_dim(s, d) {
        let i = choose|i: int| 0 <= i < s.len() && (#[trigger] s[i]).0 == d;
        lemma_exp_entry(s, i);
    } else {
        lemma_exp_absent(s, d);
    }
}

/// Last-write-wins exponent of `d` in a list of constructor pairs: the
/// exponent of the final occurrence of `d`, or 0 when `d` never occurs.
pub open spec fn last_exp(p: Seq<(Dimension, i8)>, d: Dimension) -> int
    decreases p.len(),
{
    if p.len() == 0 {
        0
    } else if p.last().0 == d {
        p.last().1 as int
    } else {
        last_exp(p.drop_last(), d)
    }
}

/// Dimension `d` occurs in `p` at some index at or after `i`.
pub open spec fn occurs_from(p: Seq<(Dimension, i8)>, i: int, d: Dimension) -> bool {
    exists|k: int| i <= k < p.len() && (#[trigger] p[k]).0 == d
}

/// When index `i` holds the final occurrence of `d`, the last-write-wins
/// exponent is the one written there.
proof fn lemma_last_exp_at(p: Seq<(Dimension, i8)>, i: int)
    requires
        0 <= i < p.len(),
        !occurs_from(p, i + 1, p[i].0),
    ensures
        last_exp(p, p[i].0) == p[i].1,
    decreases p.len(),
{
    if i == p.len() - 1 {
        assert(p.last() == p[i]);
    } else {
        assert(p.last() == p[p.len() - 1]);
        assert(p.last().0 != p[i].0);
        assert(p.drop_last()[i] == p[i]);
        assert(!occurs_from(p.drop_last(), i + 1, p[i].0)) by {
            if occurs_from(p.drop_last(), i + 1, p[i].0) {
                let k = choose|k: int|
                    i + 1 <= k < p.drop_last().len() && (#[trigger] p.drop_last()[k]).0 == p[i].0;
                assert(p[k].0 == p[i].0);
            }
        }
        lemma_last_exp_at(p.drop_last(), i);
    }
}

/// A dimension that never occurs has last-write-wins exponent 0.
proof fn lemma_last_exp_absent(p: Seq<(Dimension, i8)>, d: Dimension)
    requires
        !occurs_from(p, 0, d),
    ensures
        last_exp(p, d) == 0,
    decreases p.len(),
{
    if p.len() > 0 {
        assert(p.last() == p[p.len() - 1]);
        assert(p.last().0 != d);
        assert(!occurs_from(p.drop_last(), 0, d)) by {
            if occurs_from(p.drop_last(), 0, d) {
                let k = choose|k: int|
                    0 <= k < p.drop_last().len() && (#[trigger] p.drop_last()[k]).0 == d;
                assert(p[k].0 == d);
            }
        }
        lemma_last_exp_absent(p.drop_last(), d);
    }
}

/// The magnitude of an exponent.
pub open spec fn abs_nat(e: int) -> nat {
    if e < 0 {
        (-e) as nat
    } else {
        e as nat
    }
}

/// How one formula entry renders: the dimension name alone when the
/// exponent's magnitude is 1, else the name, a caret, and the magnitude.
pub open spec fn term_str(d: Dimension, e: int) -> Seq<char> {
    if abs_nat(e) == 1 {
        spec_dimension_name(d)
    } else {
        spec_dimension_name(d) + "^"@ + dec_str(abs_nat(e))
    }
}

/// One side of a rendered formula: the terms of the entries with positive
/// (or, for the denominator, negative) exponent, in entry order, joined
/// by `*`.
pub open spec fn side_str(s: Seq<(Dimension, i64)>, positive: bool) -> Seq<char>
    decreases s.len(),
{
    if s.len() == 0 {
        Seq::empty()
    } else {
        let rest = side_str(s.drop_last(), positive);
        let e = s.last().1 as int;
        if (positive && e > 0) || (!positive && e < 0) {
            if rest.len() == 0 {
                term_str(s.last().0, e)
            } else {
                rest + "*"@ + term_str(s.last().0, e)
            }
        } else {
            rest
        }
    }
}

/// The full rendering of a formula's entries: the numerator side alone
/// when no exponent is negative; `1/` and the denominator side when none
/// is positive; both sides joined by `/` otherwise. The empty formula
/// renders as the empty string.
pub open spec fn spec_formula_str(s: Seq<(Dimension, i64)>) -> Seq<char> {
    let num = side_str(s, true);
    let den = side_str(s, false);
    if den.len() == 0 {
        num
    } else if num.len() == 0 {
        "1/"@ + den
    } else {
        num + "/"@ + den
    }
}

/// A dimensional formula: a finite map from dimensions to signed nonzero
/// integer exponents, stored as a duplicate-free entry list. Velocity, for
/// example, is `{ Length: 1, Time: -1 }`. The abstract view is the map of
/// nonzero exponents; the order of the entries carries no meaning for
/// equality or compatibility and only fixes the rendering order.
#[derive(Debug)]
pub struct DimensionFormula {
    entries: Vec<(Dimension, i64)>,
}

impl View for DimensionFormula {
    type V = Map<Dimension, int>;

    open spec fn view(&self) -> Map<Dimension, int> {
        Map::new(|d: Dimension| self.exp(d) != 0, |d: Dimension| self.exp(d))
    }
}

impl DimensionFormula {
    /// Entries hold unique dimensions and never a zero exponent.
    #[verifier::type_invariant]
    spec fn wf(self) -> bool {
        entries_wf(self.entries@)
    }

    /// The exponent this formula gives to dimension `d`; 0 when `d` is
    /// absent.
    pub closed spec fn exp(self, d: Dimension) -> int {
        exp_of_entries(self.entries@, d)
    }

    /// The entry list itself, exposed for specifications that depend on
    /// the rendering order.
    pub closed spec fn entry_seq(self) -> Seq<(Dimension, i64)> {
        self.entries@
    }

    /// The exponent of `d`, or `None` when `d` is absent from the formula
    /// (equivalently, when its exponent is 0).
    pub fn get(&self, d: Dimension) -> (e: Option<i64>)
        ensures
            (match e {
                Some(v) => self.exp(d) == v as int && v != 0,
                None => self.exp(d) == 0,
            }),
    {
        proof {
            use_type_invariant(&*self);
        }
        let ghost s = self.entries@;
        let mut i: usize = self.entries.len();
        proof {
            assert(s.take(i as int) =~= s);
        }
        while i > 0
            invariant
                i <= self.entries.len(),
                s == self.entries@,
                entries_wf(s),
                exp_of_entries(s, d) == exp_of_entries(s.take(i as int), d),
            decreases i,
        {
            i = i - 1;
            let entry = self.entries[i];
            proof {
                assert(s.take(i as int + 1).last() == s[i as int]);
                assert(s.take(i as int + 1).drop_last() =~= s.take(i as int));
            }
            if entry.0 == d {
                return Some(entry.1);
            }
        }
        proof {
            assert(s.take(0).len() == 0);
        }
        None
    }
}

/// An integer clamped into the `i64` range. Exponent arithmetic saturates
/// there instead of wrapping; the bound is far beyond any physically
/// meaningful exponent.
pub open spec fn clamp_i64(x: int) -> int {
    if x > i64::MAX {
        i64::MAX as int
    } else if x < i64::MIN {
        i64::MIN as int
    } else {
        x
    }
}

/// The exponent a combination gives one dimension: the sum of the two
/// exponents under multiplication, their difference under division,
/// clamped into the `i64` range.
pub open spec fn combined_exp(a: int, b: int, subtract: bool) -> int {
    if subtract {
        clamp_i64(a - b)
    } else {
        clamp_i64(a + b)
    }
}

/// The exponent a formula map gives to `d`; 0 when `d` is absent.
pub open spec fn map_exp(m: Map<Dimension, int>, d: Dimension) -> int {
    if m.dom().contains(d) {
        m[d]
    } else {
        0
    }
}

/// The formula map of a product (or, with `subtract`, a quotient) of two
/// formulas: exponents combine dimension-wise and dimensions whose
/// combined exponent is 0 drop out.
pub open spec fn combined_formula_map(
    ma: Map<Dimension, int>,
    mb: Map<Dimension, int>,
    subtract: bool,
) -> Map<Dimension, int> {
    Map::new(
        |d: Dimension| combined_exp(map_exp(ma, d), map_exp(mb, d), subtract) != 0,
        |d: Dimension| combined_exp(map_exp(ma, d), map_exp(mb, d), subtract),
    )
}

/// The exponent a combined formula map gives each dimension is the
/// combination of the exponents the operands give it, absent dimensions
/// counting as 0 on both sides of the equation.
pub proof fn lemma_map_exp_combined(
    ma: Map<Dimension, int>,
    mb: Map<Dimension, int>,
    subtract: bool,
    d: Dimension,
)
    ensures
        map_exp(combined_formula_map(ma, mb, subtract), d) == combined_exp(
            map_exp(ma, d),
            map_exp(mb, d),
            subtract,
        ),
{
}

impl DimensionFormula {
    /// Two formulas have equal maps exactly when they give every dimension
    /// the same exponent.
    pub proof fn lemma_view_eq(self, other: DimensionFormula)
        ensures
            (self@ == other@) <==> (forall|d: Dimension| self.exp(d) == other.exp(d)),
    {
        if forall|d: Dimension| self.exp(d) == other.exp(d) {
            assert(self@ =~= other@);
        } else {
            let d = choose|d: Dimension| self.exp(d) != other.exp(d);
            assert(map_exp(self@, d) != map_exp(other@, d));
        }
    }

    /// One dimension with different exponents separates the two maps.
    pub proof fn lemma_exp_neq_views_differ(self, other: DimensionFormula, d: Dimension)
        requires
            self.exp(d) != other.exp(d),
        ensures
            self@ != other@,
    {
        assert(map_exp(self@, d) != map_exp(other@, d));
    }

    /// The exponent of `d` as a plain value; 0 when `d` is absent.
    fn exp_value(&self, d: Dimension) -> (e: i64)
        ensures
            e as int == self.exp(d),
    {
        match self.get(d) {
            Some(v) => v,
            None => 0,
        }
    }

    /// A fresh formula with the same entries, in the same order.
    pub fn duplicate(&self) -> (r: Self)
        ensures
            r.entry_seq() == self.entry_seq(),
            r@ == self@,
            forall|d: Dimension| #[trigger] r.exp(d) == self.exp(d),
    {
        proof {
            use_type_invariant(&*self);
        }
        let mut entries: Vec<(Dimension, i64)> = Vec::new();
        let mut i: usize = 0;
        while i < self.entries.len()
            invariant
                i <= self.entries.len(),
                entries@ == self.entries@.take(i as int),
            decreases self.entries.len() - i,
        {
            entries.push(self.entries[i]);
            proof {
                assert(self.entries@.take(i as int).push(self.entries@[i as int]) =~= self
                    .entries@.take(i as int + 1));
            }
            i = i + 1;
        }
        proof {
            assert(self.entries@.take(self.entries@.len() as int) =~= self.entries@);
        }
        let r = DimensionFormula { entries };
        proof {
            assert(r@ =~= self@);
        }
        r
    }

    /// Whether both formulas give every dimension the same exponent; this
    /// is equality of the underlying maps, independent of entry order.
    pub fn same_map(&self, other: &Self) -> (r: bool)
        ensures
            r == (self@ == other@),
    {
        proof {
            use_type_invariant(&*self);
            use_type_invariant(&*other);
            self.lemma_view_eq(*other);
        }
        let ghost sa = self.entries@;
        let ghost sb = other.entries@;
        let mut i: usize = 0;
        while i < self.entries.len()
            invariant
                i <= sa.len(),
                sa == self.entries@,
                sb == other.entries@,
                entries_wf(sa),
                entries_wf(sb),
                forall|j: int|
                    0 <= j < i ==> exp_of_entries(sb, (#[trigger] sa[j]).0) == sa[j].1,
            decreases sa.len() - i,
        {
            let pair = self.entries[i];
            let eb = other.exp_value(pair.0);
            if eb != pair.1 {
                proof {
                    lemma_exp_entry(sa, i as int);
                    self.lemma_exp_neq_views_differ(*other, pair.0);
                }
                return false;
            }
            i = i + 1;
        }
        let mut j: usize = 0;
        while j < other.entries.len()
            invariant
                j <= sb.len(),
                sa == self.entries@,
                sb == other.entries@,
                entries_wf(sa),
                entries_wf(sb),
                forall|k: int|
                    0 <= k < sa.len() ==> exp_of_entries(sb, (#[trigger] sa[k]).0) == sa[k].1,
                forall|k: int|
                    0 <= k < j ==> exp_of_entries(sa, (#[trigger] sb[k]).0) == sb[k].1,
            decreases sb.len() - j,
        {
            let pair = other.entries[j];
            let ea = self.exp_value(pair.0);
            if ea != pair.1 {
                proof {
                    lemma_exp_entry(sb, j as int);
                    self.lemma_exp_neq_views_differ(*other, pair.0);
                }
                return false;
            }
            j = j + 1;
        }
        proof {
            assert forall|d: Dimension| self.exp(d) == other.exp(d) by {
                if contains_dim(sa, d) {
                    let k = choose|k: int| 0 <= k < sa.len() && (#[trigger] sa[k]).0 == d;
                    lemma_exp_entry(sa, k);
                } else if contains_dim(sb, d) {
                    let k = choose|k: int| 0 <= k < sb.len() && (#[trigger] sb[k]).0 == d;
                    lemma_exp_entry(sb, k);
                    lemma_exp_absent(sa, d);
                } else {
                    lemma_exp_absent(sa, d);
                    lemma_exp_absent(sb, d);
                }
            }
        }
        true
    }

    /// The dimension-wise combination of two formulas: exponents add, or
    /// subtract under division, and dimensions whose combined exponent is
    /// 0 drop out of the result.
    pub(crate) fn combined(&self, other: &Self, subtract: bool) -> (r: Self)
        ensures
            forall|d: Dimension| #[trigger]
                r.exp(d) == combined_exp(self.exp(d), other.exp(d), subtract),
            r@ == combined_formula_map(self@, other@, subtract),
    {
        proof {
            use_type_invariant(&*self);
            use_type_invariant(&*other);
        }
        let ghost sa = self.entries@;
        let ghost sb = other.entries@;
        let mut out: Vec<(Dimension, i64)> = Vec::new();
        let mut i: usize = 0;
        while i < self.entries.len()
            invariant
                i <= sa.len(),
                sa == self.entries@,
                sb == other.entries@,
                entries_wf(sa),
                entries_wf(sb),
                entries_wf(out@),
                forall|k: int|
                    0 <= k < out@.len() ==> exists|j: int|
                        0 <= j < i && sa[j].0 == (#[trigger] out@[k]).0,
                forall|j: int|
                    0 <= j < i ==> (combined_exp(
                        exp_of_entries(sa, (#[trigger] sa[j]).0),
                        exp_of_entries(sb, sa[j].0),
                        subtract,
                    ) != 0 ==> contains_dim(out@, sa[j].0)),
                forall|d: Dimension|
                    contains_dim(out@, d) ==> #[trigger] exp_of_entries(out@, d) == combined_exp(
                        exp_of_entries(sa, d),
                        exp_of_entries(sb, d),
                        subtract,
                    ),
            decreases sa.len() - i,
        {
            let pair = self.entries[i];
            let d0 = pair.0;
            proof {
                lemma_exp_entry(sa, i as int);
            }
            let eb = other.exp_value(d0);
            let wide: i128 = if subtract {
                (pair.1 as i128) - (eb as i128)
            } else {
                (pair.1 as i128) + (eb as i128)
            };
            let e_new: i64 = if wide > (i64::MAX as i128) {
                i64::MAX
            } else if wide < (i64::MIN as i128) {
                i64::MIN
            } else {
                wide as i64
            };
            proof {
                assert(e_new as int == combined_exp(
                    exp_of_entries(sa, d0),
                    exp_of_entries(sb, d0),
                    subtract,
                ));
            }
            let ghost old_out = out@;
            if e_new != 0 {
                proof {
                    assert(!contains_dim(old_out, d0)) by {
                        if contains_dim(old_out, d0) {
                            let k = choose|k: int|
                                0 <= k < old_out.len() && (#[trigger] old_out[k]).0 == d0;
                            let j = choose|j: int| 0 <= j < i && sa[j].0 == old_out[k].0;
                            assert(sa[j].0 == sa[i as int].0);
                        }
                    }
                }
                out.push((d0, e_new));
                proof {
                    let s2 = out@;
                    assert(s2.drop_last() =~= old_out);
                    assert(entries_wf(s2)) by {
                        assert forall|a: int, b: int| 0 <= a < b < s2.len() implies (
                        #[trigger] s2[a]).0 != (#[trigger] s2[b]).0 by {
                            if b == s2.len() - 1 {
                                assert(s2[a] == old_out[a]);
                            } else {
                                assert(s2[a] == old_out[a]);
                                assert(s2[b] == old_out[b]);
                            }
                        }
                        assert forall|a: int| 0 <= a < s2.len() implies (#[trigger] s2[a]).1
                            != 0 by {
                            if a < s2.len() - 1 {
                                assert(s2[a] == old_out[a]);
                            }
                        }
                    }
                    assert forall|d: Dimension| contains_dim(s2, d) implies (
                    #[trigger] exp_of_entries(s2, d)) == combined_exp(
                        exp_of_entries(sa, d),
                        exp_of_entries(sb, d),
                        subtract,
                    ) by {
                        if d == d0 {
                            assert(exp_of_entries(s2, d0) == e_new as int);
                        } else {
                            assert(exp_of_entries(s2, d) == exp_of_entries(old_out, d));
                            assert(contains_dim(old_out, d)) by {
                                let k = choose|k: int|
                                    0 <= k < s2.len() && (#[trigger] s2[k]).0 == d;
                                assert(s2[k] == old_out[k]);
                            }
                        }
                    }
                    assert forall|k: int| 0 <= k < s2.len() implies exists|j: int|
                        0 <= j < i + 1 && sa[j].0 == (#[trigger] s2[k]).0 by {
                        if k < s2.len() - 1 {
                            assert(s2[k] == old_out[k]);
                            let j = choose|j: int| 0 <= j < i && sa[j].0 == old_out[k].0;
                            assert(0 <= j < i + 1 && sa[j].0 == s2[k].0);
                        } else {
                            assert(sa[i as int].0 == s2[k].0);
                        }
                    }
                    assert forall|j: int|
                        0 <= j < i + 1 && combined_exp(
                            exp_of_entries(sa, (#[trigger] sa[j]).0),
                            exp_of_entries(sb, sa[j].0),
                            subtract,
                        ) != 0 implies contains_dim(s2, sa[j].0) by {
                        if sa[j].0 == d0 {
                            assert((#[trigger] s2[s2.len() - 1]).0 == d0);
                        } else if contains_dim(old_out, sa[j].0) {
                            let k = choose|k: int|
                                0 <= k < old_out.len() && (#[trigger] old_out[k]).0 == sa[j].0;
                            assert(s2[k] == old_out[k]);
                        }
                    }
                }
            } else {
                proof {
                    assert forall|j: int|
                        0 <= j < i + 1 && combined_exp(
                            exp_of_entries(sa, (#[trigger] sa[j]).0),
                            exp_of_entries(sb, sa[j].0),
                            subtract,
                        ) != 0 implies contains_dim(out@, sa[j].0) by {}
                }
            }
            i = i + 1;
        }
        let mut j: usize = 0;
        while j < other.entries.len()
            invariant
                j <= sb.len(),
                sa == self.entries@,
                sb == other.entries@,
                entries_wf(sa),
                entries_wf(sb),
                entries_wf(out@),
                forall|k: int|
                    0 <= k < out@.len() ==> (contains_dim(sa, (#[trigger] out@[k]).0)
                        || exists|m: int| 0 <= m < j && sb[m].0 == out@[k].0),
                forall|m: int|
                    0 <= m < sa.len() ==> (combined_exp(
                        exp_of_entries(sa, (#[trigger] sa[m]).0),
                        exp_of_entries(sb, sa[m].0),
                        subtract,
                    ) != 0 ==> contains_dim(out@, sa[m].0)),
                forall|m: int|
                    0 <= m < j ==> (combined_exp(
                        exp_of_entries(sa, (#[trigger] sb[m]).0),
                        exp_of_entries(sb, sb[m].0),
                        subtract,
                    ) != 0 ==> contains_dim(out@, sb[m].0)),
                forall|d: Dimension|
                    contains_dim(out@, d) ==> #[trigger] exp_of_entries(out@, d) == combined_exp(
                        exp_of_entries(sa, d),
                        exp_of_entries(sb, d),
                        subtract,
                    ),
            decreases sb.len() - j,
        {
            let pair = other.entries[j];
            let d1 = pair.0;
            proof {
                lemma_exp_entry(sb, j as int);
            }
            let ea = self.exp_value(d1);
            if ea == 0 {
                proof {
                    lemma_contains_iff_nonzero(sa, d1);
                }
                let wide: i128 = if subtract {
                    -(pair.1 as i128)
                } else {
                    pair.1 as i128
                };
                let e_new: i64 = if wide > (i64::MAX as i128) {
                    i64::MAX
                } else if wide < (i64::MIN as i128) {
                    i64::MIN
                } else {
                    wide as i64
                };
                proof {
                    assert(e_new as int == combined_exp(
                        exp_of_entries(sa, d1),
                        exp_of_entries(sb, d1),
                        subtract,
                    ));
                }
                let ghost old_out = out@;
                if e_new != 0 {
                    proof {
                        assert(!contains_dim(old_out, d1)) by {
                            if contains_dim(old_out, d1) {
                                let k = choose|k: int|
                                    0 <= k < old_out.len() && (#[trigger] old_out[k]).0 == d1;
                                if contains_dim(sa, d1) {
                                    let m = choose|m: int|
                                        0 <= m < sa.len() && (#[trigger] sa[m]).0 == d1;
                                    lemma_exp_entry(sa, m);
                                } else {
                                    let m = choose|m: int| 0 <= m < j && sb[m].0 == old_out[k].0;
                                    assert(sb[m].0 == sb[j as int].0);
                                }
                            }
                        }
                    }
                    out.push((d1, e_new));
                    proof {
                        let s2 = out@;
                        assert(s2.drop_last() =~= old_out);
                        assert(entries_wf(s2)) by {
                            assert forall|a: int, b: int| 0 <= a < b < s2.len() implies (
                            #[trigger] s2[a]).0 != (#[trigger] s2[b]).0 by {
                                if b == s2.len() - 1 {
                                    assert(s2[a] == old_out[a]);
                                } else {
                                    assert(s2[a] == old_out[a]);
                                    assert(s2[b] == old_out[b]);
                                }
                            }
                            assert forall|a: int| 0 <= a < s2.len() implies (#[trigger] s2[a]).1
                                != 0 by {
                                if a < s2.len() - 1 {
                                    assert(s2[a] == old_out[a]);
                                }
                            }
                        }
                        assert forall|d: Dimension| contains_dim(s2, d) implies (
                        #[trigger] exp_of_entries(s2, d)) == combined_exp(
                            exp_of_entries(sa, d),
                            exp_of_entries(sb, d),
                            subtract,
                        ) by {
                            if d == d1 {
                                assert(exp_of_entries(s2, d1) == e_new as int);
                            } else {
                                assert(exp_of_entries(s2, d) == exp_of_entries(old_out, d));
                                assert(contains_dim(old_out, d)) by {
                                    let k = choose|k: int|
                                        0 <= k < s2.len() && (#[trigger] s2[k]).0 == d;
                                    assert(s2[k] == old_out[k]);
                                }
                            }
                        }
                        assert forall|k: int| 0 <= k < s2.len() implies (contains_dim(
                            sa,
                            (#[trigger] s2[k]).0,
                        ) || exists|m: int| 0 <= m < j + 1 && sb[m].0 == s2[k].0) by {
                            if k < s2.len() - 1 {
                                assert(s2[k] == old_out[k]);
                                if !contains_dim(sa, old_out[k].0) {
                                    let m = choose|m: int| 0 <= m < j && sb[m].0 == old_out[k].0;
                                    assert(0 <= m < j + 1 && sb[m].0 == s2[k].0);
                                }
                            } else {
                                assert(sb[j as int].0 == s2[k].0);
                            }
                        }
                        assert forall|m: int|
                            0 <= m < sa.len() && combined_exp(
                                exp_of_entries(sa, (#[trigger] sa[m]).0),
                                exp_of_entries(sb, sa[m].0),
                                subtract,
                            ) != 0 implies contains_dim(s2, sa[m].0) by {
                            if contains_dim(old_out, sa[m].0) {
                                let k = choose|k: int|
                                    0 <= k < old_out.len() && (#[trigger] old_out[k]).0 == sa[m].0;
                                assert(s2[k] == old_out[k]);
                            }
                        }
                        assert forall|m: int|
                            0 <= m < j + 1 && combined_exp(
                                exp_of_entries(sa, (#[trigger] sb[m]).0),
                                exp_of_entries(sb, sb[m].0),
                                subtract,
                            ) != 0 implies contains_dim(s2, sb[m].0) by {
                            if sb[m].0 == d1 {
                                assert((#[trigger] s2[s2.len() - 1]).0 == d1);
                            } else if contains_dim(old_out, sb[m].0) {
                                let k = choose|k: int|
                                    0 <= k < old_out.len() && (#[trigger] old_out[k]).0 == sb[m].0;
                                assert(s2[k] == old_out[k]);
                            }
                        }
                    }
                } else {
                    proof {
                        assert forall|m: int|
                            0 <= m < j + 1 && combined_exp(
                                exp_of_entries(sa, (#[trigger] sb[m]).0),
                                exp_of_entries(sb, sb[m].0),
                                subtract,
                            ) != 0 implies contains_dim(out@, sb[m].0) by {}
                    }
                }
            } else {
                proof {
                    lemma_contains_iff_nonzero(sa, d1);
                    assert forall|m: int|
                        0 <= m < j + 1 && combined_exp(
                            exp_of_entries(sa, (#[trigger] sb[m]).0),
                            exp_of_entries(sb, sb[m].0),
                            subtract,
                        ) != 0 implies contains_dim(out@, sb[m].0) by {
                        if m == j {
                            let k = choose|k: int|
                                0 <= k < sa.len() && (#[trigger] sa[k]).0 == d1;
                            assert(contains_dim(out@, sa[k].0));
                        }
                    }
                }
            }
            j = j + 1;
        }
        proof {
            assert forall|d: Dimension| #[trigger] exp_of_entries(out@, d) == combined_exp(
                exp_of_entries(sa, d),
                exp_of_entries(sb, d),
                subtract,
            ) by {
                if contains_dim(out@, d) {
                } else {
                    lemma_exp_absent(out@, d);
                    if combined_exp(exp_of_entries(sa, d), exp_of_entries(sb, d), subtract)
                        != 0 {
                        if exp_of_entries(sa, d) != 0 {
                            lemma_contains_iff_nonzero(sa, d);
                            let m = choose|m: int|
                                0 <= m < sa.len() && (#[trigger] sa[m]).0 == d;
                            assert(contains_dim(out@, d));
                        } else if exp_of_entries(sb, d) != 0 {
                            lemma_contains_iff_nonzero(sb, d);
                            let m = choose|m: int|
                                0 <= m < sb.len() && (#[trigger] sb[m]).0 == d;
                            assert(contains_dim(out@, d));
                        }
                    }
                }
            }
        }
        let r = DimensionFormula { entries: out };
        proof {
            assert(r@ =~= combined_formula_map(self@, other@, subtract));
        }
        r
    }
}

impl DimensionFormula {
    /// Renders the formula in the compound style `mass*length/time^2`:
    /// positive-exponent terms joined by `*`, a `/`, then the
    /// negative-exponent terms joined by `*`, each term carrying `^` and
    /// the exponent's magnitude when that magnitude is not 1. Entry order
    /// decides term order within a side; equality of formulas never
    /// depends on it.
    ///
    /// The last two clauses tie the rendered entry sequence back to the
    /// exponent map: the entries are duplicate-free with no zero
    /// exponent, and their exponent function is `exp` itself. Together
    /// with the first clause they pin the rendering up to the one thing
    /// left open on purpose, the order of terms within a side.
    pub fn render(&self) -> (out: String)
        ensures
            out@ == spec_formula_str(self.entry_seq()),
            entries_wf(self.entry_seq()),
            forall|d: Dimension| #[trigger]
                exp_of_entries(self.entry_seq(), d) == self.exp(d),
    {
        proof {
            use_type_invariant(&*self);
        }
        let ghost s = self.entries@;
        let mut num = String::new();
        let mut den = String::new();
        let mut i: usize = 0;
        proof {
            assert(s.take(0).len() == 0);
        }
        while i < self.entries.len()
            invariant
                i <= s.len(),
                s == self.entries@,
                entries_wf(s),
                num@ == side_str(s.take(i as int), true),
                den@ == side_str(s.take(i as int), false),
            decreases s.len() - i,
        {
            let pair = self.entries[i];
            let d = pair.0;
            let e = pair.1;
            proof {
                assert(s.take(i as int + 1).last() == s[i as int]);
                assert(s.take(i as int + 1).drop_last() =~= s.take(i as int));
                assert(e != 0);
            }
            let mag: u64 = if e < 0 {
                (-(e as i128)) as u64
            } else {
                e as u64
            };
            proof {
                assert(mag as nat == abs_nat(e as int));
            }
            let mut term: String = d.name().to_owned();
            if mag != 1 {
                term.append("^");
                let digits = u64_to_string(mag);
                term.append(digits.as_str());
            }
            proof {
                assert(term@ == term_str(d, e as int));
            }
            if e > 0 {
                if num.as_str().is_empty() {
                    num = term;
                } else {
                    num.append("*");
                    num.append(term.as_str());
                }
            } else {
                if den.as_str().is_empty() {
                    den = term;
                } else {
                    den.append("*");
                    den.append(term.as_str());
                }
            }
            i = i + 1;
        }
        proof {
            assert(s.take(s.len() as int) =~= s);
        }
        if den.as_str().is_empty() {
            num
        } else if num.as_str().is_empty() {
            let mut out: String = "1/".to_owned();
            out.append(den.as_str());
            out
        } else {
            num.append("/");
            num.append(den.as_str());
            num
        }
    }
}

/// Builds a formula from constructor pairs. When a dimension occurs more
/// than once, the last pair wins outright (entries overwrite, they do not
/// sum); pairs with exponent 0 leave the dimension out, keeping the
/// formula in lowest terms.
pub fn create_dimensions(dimensions: &[(Dimension, i8)]) -> (f: DimensionFormula)
    ensures
        forall|d: Dimension| #[trigger] f.exp(d) == last_exp(dimensions@, d),
{
    let ghost p = dimensions@;
    let n = dimensions.len();
    let mut entries: Vec<(Dimension, i64)> = Vec::new();
    let mut i: usize = 0;
    proof {
        assert forall|d: Dimension| !occurs_from(p, 0, d) implies (
        #[trigger] exp_of_entries(entries@, d)) == last_exp(p, d) by {
            lemma_last_exp_absent(p, d);
        }
    }
    while i < n
        invariant
            i <= n,
            n == p.len(),
            p == dimensions@,
            entries_wf(entries@),
            forall|d: Dimension|
                !occurs_from(p, i as int, d) ==> #[trigger] exp_of_entries(entries@, d)
                    == last_exp(p, d),
            forall|d: Dimension|
                occurs_from(p, i as int, d) ==> !contains_dim(entries@, d),
        decreases n - i,
    {
        let pair = dimensions[i];
        let d0 = pair.0;
        let e0 = pair.1;
        let mut later = false;
        let mut j: usize = i + 1;
        while j < n
            invariant
                i < j <= n,
                n == p.len(),
                p == dimensions@,
                later == (exists|k: int| i < k < j && (#[trigger] p[k]).0 == d0),
                d0 == p[i as int].0,
            decreases n - j,
        {
            if dimensions[j].0 == d0 {
                later = true;
            }
            j = j + 1;
        }
        proof {
            assert(later == occurs_from(p, i as int + 1, d0));
        }
        if !later {
            let ghost old_entries = entries@;
            if e0 != 0 {
                proof {
                    assert(occurs_from(p, i as int, d0)) by {
                        assert(p[i as int].0 == d0);
                    }
                    assert(!contains_dim(old_entries, d0));
                }
                entries.push((d0, e0 as i64));
                proof {
                    let s2 = entries@;
                    assert(s2 == old_entries.push((d0, e0 as i64)));
                    assert(s2.last() == (d0, e0 as i64));
                    assert(s2.drop_last() =~= old_entries);
                    assert(entries_wf(s2)) by {
                        assert forall|a: int, b: int| 0 <= a < b < s2.len() implies (
                        #[trigger] s2[a]).0 != (#[trigger] s2[b]).0 by {
                            if b == s2.len() - 1 {
                                assert(s2[a] == old_entries[a]);
                                assert(!contains_dim(old_entries, d0));
                            } else {
                                assert(s2[a] == old_entries[a]);
                                assert(s2[b] == old_entries[b]);
                            }
                        }
                    }
                    lemma_last_exp_at(p, i as int);
                }
            } else {
                proof {
                    lemma_last_exp_at(p, i as int);
                    assert(occurs_from(p, i as int, d0)) by {
                        assert(p[i as int].0 == d0);
                    }
                    lemma_exp_absent(old_entries, d0);
                }
            }
            proof {
                let s2 = entries@;
                assert forall|d: Dimension| !occurs_from(p, i as int + 1, d) implies (
                #[trigger] exp_of_entries(s2, d)) == last_exp(p, d) by {
                    if d == d0 {
                        if e0 != 0 {
                            assert(s2.last() == (d0, e0 as i64));
                            assert(exp_of_entries(s2, d0) == e0 as i64);
                        }
                    } else {
                        assert(!occurs_from(p, i as int, d)) by {
                            if occurs_from(p, i as int, d) {
                                let k = choose|k: int|
                                    i as int <= k < p.len() && (#[trigger] p[k]).0 == d;
                                assert(k != i as int);
                                assert(occurs_from(p, i as int + 1, d));
                            }
                        }
                        if e0 != 0 {
                            assert(s2.drop_last() =~= old_entries);
                            assert(exp_of_entries(s2, d) == exp_of_entries(old_entries, d));
                        }
                    }
                }
                assert forall|d: Dimension| occurs_from(p, i as int + 1, d) implies !contains_dim(
                    s2,
                    d,
                ) by {
                    assert(occurs_from(p, i as int, d)) by {
                        let k = choose|k: int|
                            i as int + 1 <= k < p.len() && (#[trigger] p[k]).0 == d;
                        assert(i as int <= k < p.len() && p[k].0 == d);
                    }
                    assert(!contains_dim(old_entries, d));
                    assert(d != d0);
                    if e0 != 0 {
                        if contains_dim(s2, d) {
                            let k = choose|k: int|
                                0 <= k < s2.len() && (#[trigger] s2[k]).0 == d;
                            assert(k < s2.len() - 1);
                            assert(s2[k] == old_entries[k]);
                        }
                    }
                }
            }
        } else {
            proof {
                assert forall|d: Dimension| !occurs_from(p, i as int + 1, d) implies (
                #[trigger] exp_of_entries(entries@, d)) == last_exp(p, d) by {
                    assert(d != d0);
                    assert(!occurs_from(p, i as int, d)) by {
                        if occurs_from(p, i as int, d) {
                            let k = choose|k: int|
                                i as int <= k < p.len() && (#[trigger] p[k]).0 == d;
                            assert(k != i as int);
                            assert(occurs_from(p, i as int + 1, d));
                        }
                    }
                }
                assert forall|d: Dimension| occurs_from(p, i as int + 1, d)
                    implies !contains_dim(entries@, d) by {
                    assert(occurs_from(p, i as int, d)) by {
                        let k = choose|k: int|
                            i as int + 1 <= k < p.len() && (#[trigger] p[k]).0 == d;
                        assert(i as int <= k < p.len() && p[k].0 == d);
                    }
                }
            }
        }
        i = i + 1;
    }
    let f = DimensionFormula { entries };
    proof {
        assert forall|d: Dimension| #[trigger] f.exp(d) == last_exp(p, d) by {
            assert(!occurs_from(p, n as int, d));
        }
    }
    f
}

impl Dimension {
    /// The seven SI base dimensions, in their canonical order. Derived
    /// dimensions (`Angle`, `Information`, `Currency`) are excluded.
    pub fn base_dimensions() -> (dims: Vec<Dimension>)
        ensures
            dims@ == seq![
                Dimension::Length,
                Dimension::Mass,
                Dimension::Time,
                Dimension::Temperature,
                Dimension::Current,
                Dimension::AmountOfSubstance,
                Dimension::LuminousIntensity,
            ],
    {
        let mut dims: Vec<Dimension> = Vec::new();
        dims.push(Dimension::Length);
        dims.push(Dimension::Mass);
        dims.push(Dimension::Time);
        dims.push(Dimension::Temperature);
        dims.push(Dimension::Current);
        dims.push(Dimension::AmountOfSubstance);
        dims.push(Dimension::LuminousIntensity);
        proof {
            assert(dims@ =~= seq![
                Dimension::Length,
                Dimension::Mass,
                Dimension::Time,
                Dimension::Temperature,
                Dimension::Current,
                Dimension::AmountOfSubstance,
                Dimension::LuminousIntensity,
            ]);
        }
        dims
    }

    /// The human-readable lowercase name of this dimension, stable because
    /// formula rendering is built from it.
    pub fn name(&self) -> (s: &str)
        ensures
            s@ == spec_dimension_name(*self),
    {
        match self {
            Dimension::Length => "length",
            Dimension::Mass => "mass",
            Dimension::Time => "time",
            Dimension::Temperature => "temperature",
            Dimension::Current => "current",
            Dimension::AmountOfSubstance => "amount",
            Dimension::LuminousIntensity => "intensity",
            Dimension::Angle => "angle",
            Dimension::Information => "information",
            Dimension::Currency => "currency",
        }
    }
}

} // verus!
