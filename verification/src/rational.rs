//! Exact rational numbers.
//!
//! `Rat` is the mathematical value: an unreduced fraction of unbounded
//! integers.  Every contract of this crate speaks of `Rat` values.  `Ratio`
//! is the executable carrier: an `i64` fraction whose operations compute the
//! corresponding `Rat` operation exactly, or report that the result does not
//! fit.

use vstd::prelude::*;

verus! {

/// A mathematical rational number, kept as an unreduced fraction.
pub struct Rat {
    pub n: int,
    pub d: int,
}

/// A well-formed rational has a positive denominator.
pub open spec fn rat_wf(a: Rat) -> bool {
    a.d > 0
}

/// Equality of fractions, by cross multiplication.
pub open spec fn rat_eq(a: Rat, b: Rat) -> bool {
    a.n * b.d == b.n * a.d
}

/// `a <= b`, by cross multiplication; meaningful for well-formed fractions.
pub open spec fn rat_le(a: Rat, b: Rat) -> bool {
    a.n * b.d <= b.n * a.d
}

/// `a < b`, by cross multiplication; meaningful for well-formed fractions.
pub open spec fn rat_lt(a: Rat, b: Rat) -> bool {
    a.n * b.d < b.n * a.d
}

pub open spec fn rat_zero() -> Rat {
    Rat { n: 0, d: 1 }
}

pub open spec fn rat_one() -> Rat {
    Rat { n: 1, d: 1 }
}

pub open spec fn rat_add(a: Rat, b: Rat) -> Rat {
    Rat { n: a.n * b.d + b.n * a.d, d: a.d * b.d }
}

pub open spec fn rat_sub(a: Rat, b: Rat) -> Rat {
    Rat { n: a.n * b.d - b.n * a.d, d: a.d * b.d }
}

pub open spec fn rat_mul(a: Rat, b: Rat) -> Rat {
    Rat { n: a.n * b.n, d: a.d * b.d }
}

/// Division by an integer `k >= 1`.
pub open spec fn rat_div_int(a: Rat, k: int) -> Rat {
    Rat { n: a.n, d: a.d * k }
}

/// The fractions that a `Ratio` can hold.
pub open spec fn rat_fits(a: Rat) -> bool {
    &&& -(i64::MAX as int) <= a.n <= i64::MAX as int
    &&& 0 < a.d <= i64::MAX as int
}

/// Executable rational: an `i64` fraction.  Exposed fields let a caller
/// write a value directly; every operation requires `wf()`.
#[derive(Clone, Copy, Debug, PartialEq, Eq, Structural)]
pub struct Ratio {
    pub num: i64,
    pub den: i64,
}

impl View for Ratio {
    type V = Rat;

    open spec fn view(&self) -> Rat {
        Rat { n: self.num as int, d: self.den as int }
    }
}

/// A product of positives is positive.
pub proof fn lemma_pos_mul(a: int, b: int) by (nonlinear_arith)
    requires
        0 < a,
        0 < b,
    ensures
        0 < a * b,
{
}

proof fn lemma_prod_bound(a: int, b: int, m: int) by (nonlinear_arith)
    requires
        -m <= a <= m,
        -m <= b <= m,
        0 <= m,
    ensures
        -(m * m) <= a * b <= m * m,
{
}

impl Ratio {
    /// The representation invariant: positive denominator, and a numerator
    /// whose negation also fits in an `i64`.
    pub open spec fn wf(self) -> bool {
        rat_fits(self@)
    }

    pub fn new(num: i64, den: i64) -> (r: Ratio)
        requires
            1 <= den,
            -i64::MAX <= num,
        ensures
            r.wf(),
            r@ == (Rat { n: num as int, d: den as int }),
    {
        Ratio { num, den }
    }

    pub fn zero() -> (r: Ratio)
        ensures
            r.wf(),
            r@ == rat_zero(),
    {
        Ratio { num: 0, den: 1 }
    }

    pub fn one() -> (r: Ratio)
        ensures
            r.wf(),
            r@ == rat_one(),
    {
        Ratio { num: 1, den: 1 }
    }

    /// Narrows an exactly computed fraction back to `i64` fields.
    fn pack(n: i128, d: i128) -> (r: Option<Ratio>)
        requires
            0 < d,
        ensures
            r is Some <==> rat_fits(Rat { n: n as int, d: d as int }),
            r is Some ==> (r->Some_0).wf() && (r->Some_0)@ == (Rat { n: n as int, d: d as int }),
    {
        let max: i128 = i64::MAX as i128;
        if -max <= n && n <= max && d <= max {
            Some(Ratio { num: n as i64, den: d as i64 })
        } else {
            None
        }
    }

    /// Exact sum; `None` when the result does not fit.
    pub fn checked_add(self, other: Ratio) -> (r: Option<Ratio>)
        requires
            self.wf(),
            other.wf(),
        ensures
            r is Some <==> rat_fits(rat_add(self@, other@)),
            r is Some ==> (r->Some_0).wf() && (r->Some_0)@ == rat_add(self@, other@),
    {
        proof {
            lemma_prod_bound(self.num as int, other.den as int, i64::MAX as int);
            lemma_prod_bound(other.num as int, self.den as int, i64::MAX as int);
            lemma_prod_bound(self.den as int, other.den as int, i64::MAX as int);
            lemma_pos_mul(self.den as int, other.den as int);
        }
        let n: i128 = self.num as i128 * other.den as i128 + other.num as i128 * self.den as i128;
        let d: i128 = self.den as i128 * other.den as i128;
        Self::pack(n, d)
    }

    /// Exact difference; `None` when the result does not fit.
    pub fn checked_sub(self, other: Ratio) -> (r: Option<Ratio>)
        requires
            self.wf(),
            other.wf(),
        ensures
            r is Some <==> rat_fits(rat_sub(self@, other@)),
            r is Some ==> (r->Some_0).wf() && (r->Some_0)@ == rat_sub(self@, other@),
    {
        proof {
            lemma_prod_bound(self.num as int, other.den as int, i64::MAX as int);
            lemma_prod_bound(other.num as int, self.den as int, i64::MAX as int);
            lemma_prod_bound(self.den as int, other.den as int, i64::MAX as int);
            lemma_pos_mul(self.den as int, other.den as int);
        }
        let n: i128 = self.num as i128 * other.den as i128 - other.num as i128 * self.den as i128;
        let d: i128 = self.den as i128 * other.den as i128;
        Self::pack(n, d)
    }

    /// Exact product; `None` when the result does not fit.
    pub fn checked_mul(self, other: Ratio) -> (r: Option<Ratio>)
        requires
            self.wf(),
            other.wf(),
        ensures
            r is Some <==> rat_fits(rat_mul(self@, other@)),
            r is Some ==> (r->Some_0).wf() && (r->Some_0)@ == rat_mul(self@, other@),
    {
        proof {
            lemma_prod_bound(self.num as int, other.num as int, i64::MAX as int);
            lemma_prod_bound(self.den as int, other.den as int, i64::MAX as int);
            lemma_pos_mul(self.den as int, other.den as int);
        }
        let n: i128 = self.num as i128 * other.num as i128;
        let d: i128 = self.den as i128 * other.den as i128;
        Self::pack(n, d)
    }

    /// Exact division by an integer `k >= 1`; `None` when the result does
    /// not fit.
    pub fn checked_div_int(self, k: i64) -> (r: Option<Ratio>)
        requires
            self.wf(),
            1 <= k,
        ensures
            r is Some <==> rat_fits(rat_div_int(self@, k as int)),
            r is Some ==> (r->Some_0).wf() && (r->Some_0)@ == rat_div_int(self@, k as int),
    {
        proof {
            lemma_prod_bound(self.den as int, k as int, i64::MAX as int);
            lemma_pos_mul(self.den as int, k as int);
        }
        let n: i128 = self.num as i128;
        let d: i128 = self.den as i128 * k as i128;
        Self::pack(n, d)
    }

    /// Whether the two fractions stand for the same rational.
    pub fn eq_value(self, other: Ratio) -> (r: bool)
        requires
            self.wf(),
            other.wf(),
        ensures
            r == rat_eq(self@, other@),
    {
        proof {
            lemma_prod_bound(self.num as int, other.den as int, i64::MAX as int);
            lemma_prod_bound(other.num as int, self.den as int, i64::MAX as int);
        }
        self.num as i128 * other.den as i128 == other.num as i128 * self.den as i128
    }

    /// Whether `self <= other` as rationals.
    pub fn le_value(self, other: Ratio) -> (r: bool)
        requires
            self.wf(),
            other.wf(),
        ensures
            r == rat_le(self@, other@),
    {
        proof {
            lemma_prod_bound(self.num as int, other.den as int, i64::MAX as int);
            lemma_prod_bound(other.num as int, self.den as int, i64::MAX as int);
        }
        self.num as i128 * other.den as i128 <= other.num as i128 * self.den as i128
    }
}


/// The sum of the first `k` entries of a sequence of fractions.
pub open spec fn rat_sum_to(s: Seq<Rat>, k: int) -> Rat
    decreases k,
{
    if k <= 0 {
        rat_zero()
    } else {
        rat_add(rat_sum_to(s, k - 1), s[k - 1])
    }
}

/// Every entry is well-formed.
pub open spec fn all_wf(s: Seq<Rat>) -> bool {
    forall|i: int| 0 <= i < s.len() ==> rat_wf(#[trigger] s[i])
}

/// Multiplication by an integer, leaving the denominator alone.
pub open spec fn rat_int_scale(k: int, a: Rat) -> Rat {
    Rat { n: k * a.n, d: a.d }
}

/// Addition is associative, as unreduced fractions.
pub proof fn lemma_add_assoc(a: Rat, b: Rat, c: Rat)
    ensures
        rat_add(rat_add(a, b), c) == rat_add(a, rat_add(b, c)),
{
    nl_distr(a.n * b.d, b.n * a.d, c.d);
    nl_distr(b.n * c.d, c.n * b.d, a.d);
    nl3(a.n, b.d, c.d);
    nl3(b.n, a.d, c.d);
    nl3(c.n, a.d, b.d);
    nl3(a.d, b.d, c.d);
}

/// The two right-hand summands of a double sum can change places.
pub proof fn lemma_add_shuffle(a: Rat, b: Rat, c: Rat)
    ensures
        rat_add(rat_add(a, b), c) == rat_add(rat_add(a, c), b),
{
    nl_distr(a.n * b.d, b.n * a.d, c.d);
    nl_distr(a.n * c.d, c.n * a.d, b.d);
    nl3(a.n, b.d, c.d);
    nl3(b.n, a.d, c.d);
    nl3(c.n, a.d, b.d);
    nl3(a.d, b.d, c.d);
}

/// One more copy of `c` folds into an integer multiple of `c`.
pub proof fn lemma_scale_fold(a: int, c: Rat)
    ensures
        rat_eq(rat_add(rat_int_scale(a, c), c), rat_int_scale(a + 1, c)),
{
    nl_fold(a, c.n, c.d);
}

proof fn nl_fold(a: int, cn: int, cd: int) by (nonlinear_arith)
    ensures
        ((a * cn) * cd + cn * cd) * cd == ((a + 1) * cn) * (cd * cd),
{
}


/// The associative and commutative reshuffles of a triple product.
pub proof fn nl3(x: int, y: int, z: int) by (nonlinear_arith)
    ensures
        (x * y) * z == x * (y * z),
        (x * y) * z == (x * z) * y,
        x * (y * z) == (x * z) * y,
        x * (y * z) == y * (x * z),
        x * y == y * x,
{
}

/// The reshuffles of a product of two products.
pub proof fn nl4(x: int, y: int, z: int, w: int) by (nonlinear_arith)
    ensures
        (x * y) * (z * w) == (x * z) * (y * w),
        (x * y) * (z * w) == (x * w) * (y * z),
        (x * y) * (z * w) == (x * w) * (z * y),
{
}

/// Distributivity, in the forms the fraction lemmas use.
pub proof fn nl_distr(p: int, q: int, r: int) by (nonlinear_arith)
    ensures
        (p + q) * r == p * r + q * r,
        (p - q) * r == p * r - q * r,
        r * (p + q) == r * p + r * q,
{
}

/// `rat_eq` is transitive between well-formed fractions.
pub proof fn lemma_rat_eq_trans(a: Rat, b: Rat, c: Rat)
    requires
        rat_wf(a),
        rat_wf(b),
        rat_wf(c),
        rat_eq(a, b),
        rat_eq(b, c),
    ensures
        rat_eq(a, c),
{
    nl3(a.n, c.d, b.d);
    assert((a.n * c.d) * b.d == (a.n * b.d) * c.d) by {
        nl3(a.n, b.d, c.d);
    }
    assert((a.n * b.d) * c.d == (b.n * c.d) * a.d) by {
        nl3(b.n, a.d, c.d);
        nl3(b.n, c.d, a.d);
    }
    assert((b.n * c.d) * a.d == (c.n * a.d) * b.d) by {
        nl3(c.n, b.d, a.d);
        nl3(c.n, a.d, b.d);
    }
    vstd::arithmetic::mul::lemma_mul_equality_converse(b.d, a.n * c.d, c.n * a.d);
    assert(b.d * (a.n * c.d) == (a.n * c.d) * b.d) by {
        nl3(b.d, a.n * c.d, 1);
    }
    assert(b.d * (c.n * a.d) == (c.n * a.d) * b.d) by {
        nl3(b.d, c.n * a.d, 1);
    }
}

/// Sums of equal fractions are equal.
pub proof fn lemma_add_congr(a: Rat, a2: Rat, b: Rat, b2: Rat)
    requires
        rat_wf(a),
        rat_wf(a2),
        rat_wf(b),
        rat_wf(b2),
        rat_eq(a, a2),
        rat_eq(b, b2),
    ensures
        rat_eq(rat_add(a, b), rat_add(a2, b2)),
{
    nl_distr(a.n * b.d, b.n * a.d, a2.d * b2.d);
    nl_distr(a2.n * b2.d, b2.n * a2.d, a.d * b.d);
    nl4(a.n, b.d, a2.d, b2.d);
    nl4(a2.n, a.d, b.d, b2.d);
    assert((a.n * a2.d) * (b.d * b2.d) == (a2.n * a.d) * (b.d * b2.d));
    nl4(b.n, a.d, a2.d, b2.d);
    nl4(b2.n, b.d, a.d, a2.d);
    assert((b.n * b2.d) * (a.d * a2.d) == (b2.n * b.d) * (a.d * a2.d));
}

/// Differences of equal fractions are equal.
pub proof fn lemma_sub_congr(a: Rat, a2: Rat, b: Rat, b2: Rat)
    requires
        rat_wf(a),
        rat_wf(a2),
        rat_wf(b),
        rat_wf(b2),
        rat_eq(a, a2),
        rat_eq(b, b2),
    ensures
        rat_eq(rat_sub(a, b), rat_sub(a2, b2)),
{
    nl_distr(a.n * b.d, b.n * a.d, a2.d * b2.d);
    nl_distr(a2.n * b2.d, b2.n * a2.d, a.d * b.d);
    nl4(a.n, b.d, a2.d, b2.d);
    nl4(a2.n, a.d, b.d, b2.d);
    assert((a.n * a2.d) * (b.d * b2.d) == (a2.n * a.d) * (b.d * b2.d));
    nl4(b.n, a.d, a2.d, b2.d);
    nl4(b2.n, b.d, a.d, a2.d);
    assert((b.n * b2.d) * (a.d * a2.d) == (b2.n * b.d) * (a.d * a2.d));
}

/// Products of equal fractions are equal.
pub proof fn lemma_mul_congr(a: Rat, a2: Rat, b: Rat, b2: Rat)
    requires
        rat_wf(a),
        rat_wf(a2),
        rat_wf(b),
        rat_wf(b2),
        rat_eq(a, a2),
        rat_eq(b, b2),
    ensures
        rat_eq(rat_mul(a, b), rat_mul(a2, b2)),
{
    nl4(a.n, b.n, a2.d, b2.d);
    assert((a.n * a2.d) * (b.n * b2.d) == (a2.n * a.d) * (b2.n * b.d));
    nl4(a2.n, a.d, b2.n, b.d);
}

/// Integer division respects `rat_eq`.
pub proof fn lemma_div_int_congr(a: Rat, a2: Rat, k: int)
    requires
        rat_wf(a),
        rat_wf(a2),
        k >= 1,
        rat_eq(a, a2),
    ensures
        rat_eq(rat_div_int(a, k), rat_div_int(a2, k)),
{
    nl3(a.n, a2.d, k);
    nl3(a2.n, a.d, k);
    assert((a.n * a2.d) * k == (a2.n * a.d) * k);
}

/// Well-formedness is closed under the arithmetic operations.
pub proof fn lemma_wf_ops(a: Rat, b: Rat)
    requires
        rat_wf(a),
        rat_wf(b),
    ensures
        rat_wf(rat_add(a, b)),
        rat_wf(rat_sub(a, b)),
        rat_wf(rat_mul(a, b)),
{
    lemma_pos_mul(a.d, b.d);
}

pub proof fn lemma_wf_div_int(a: Rat, k: int)
    requires
        rat_wf(a),
        k >= 1,
    ensures
        rat_wf(rat_div_int(a, k)),
{
    lemma_pos_mul(a.d, k);
}















pub proof fn lemma_sum_to_wf(s: Seq<Rat>, k: int)
    requires
        forall|i: int| 0 <= i < k ==> rat_wf(#[trigger] s[i]),
    ensures
        rat_wf(rat_sum_to(s, k)),
    decreases k,
{
    if k > 0 {
        lemma_sum_to_wf(s, k - 1);
        lemma_wf_ops(rat_sum_to(s, k - 1), s[k - 1]);
    }
}

/// Sums agree on sequences that agree entrywise below `k`.
pub proof fn lemma_sum_agrees(s: Seq<Rat>, s2: Seq<Rat>, k: int)
    requires
        forall|i: int| 0 <= i < k ==> s[i] == s2[i],
    ensures
        rat_sum_to(s, k) == rat_sum_to(s2, k),
    decreases k,
{
    if k > 0 {
        lemma_sum_agrees(s, s2, k - 1);
    }
}








} // verus!


