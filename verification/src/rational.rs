//! Exact rational numbers over `i128`, together with the ghost-level pair
//! arithmetic that every contract in this crate is stated over.
//!
//! A rational is kept as a numerator/denominator pair with a positive
//! denominator and is never reduced: each executable operation computes
//! exactly the pair that the corresponding spec-level operation describes,
//! and fails (returns `None`) precisely when an intermediate product or sum
//! leaves the `i128` range.

use vstd::prelude::*;

verus! {

/// An exact rational number `num / den` with `den > 0`.
#[derive(Clone, Copy, Debug, PartialEq, Eq, Structural)]
pub struct Rat {
    pub num: i128,
    pub den: i128,
}

/// Whether the unbounded integer `x` fits in an `i128`.
pub open spec fn in_i128(x: int) -> bool {
    i128::MIN <= x <= i128::MAX
}

/// Pair addition without reduction: `a/b + c/d = (a*d + c*b) / (b*d)`.
pub open spec fn q_add(a: (int, int), b: (int, int)) -> (int, int) {
    (a.0 * b.1 + b.0 * a.1, a.1 * b.1)
}

/// Pair multiplication without reduction: `(a/b) * (c/d) = (a*c) / (b*d)`.
pub open spec fn q_mul(a: (int, int), b: (int, int)) -> (int, int) {
    (a.0 * b.0, a.1 * b.1)
}

/// Pair division `(a/b) / (c/d) = (a*d) / (b*c)`, with the sign of `c` moved
/// into the numerator so that the denominator stays positive.
pub open spec fn q_div(a: (int, int), b: (int, int)) -> (int, int) {
    if b.0 < 0 {
        (-(a.0 * b.1), -(a.1 * b.0))
    } else {
        (a.0 * b.1, a.1 * b.0)
    }
}

/// The two pairs denote the same rational number (cross multiplication).
pub open spec fn q_eq(a: (int, int), b: (int, int)) -> bool {
    a.0 * b.1 == b.0 * a.1
}

/// Every intermediate of the unreduced pair addition fits in an `i128`.
pub open spec fn q_add_fits(a: (int, int), b: (int, int)) -> bool {
    &&& in_i128(a.0 * b.1)
    &&& in_i128(b.0 * a.1)
    &&& in_i128(a.0 * b.1 + b.0 * a.1)
    &&& in_i128(a.1 * b.1)
}

/// Both products of the unreduced pair multiplication fit in an `i128`.
pub open spec fn q_mul_fits(a: (int, int), b: (int, int)) -> bool {
    &&& in_i128(a.0 * b.0)
    &&& in_i128(a.1 * b.1)
}

/// Every intermediate of the pair division fits in an `i128`.
pub open spec fn q_div_fits(a: (int, int), b: (int, int)) -> bool {
    &&& in_i128(a.0 * b.1)
    &&& in_i128(a.1 * b.0)
    &&& in_i128(q_div(a, b).0)
    &&& in_i128(q_div(a, b).1)
}

/// The product of two positive integers is positive.
pub proof fn lemma_pos_mul(a: int, b: int)
    by (nonlinear_arith)
    requires
        a > 0,
        b > 0,
    ensures
        a * b > 0,
{
}

/// `q_eq` is transitive, through a pair whose denominator is not zero.
pub proof fn lemma_q_eq_trans(a: (int, int), b: (int, int), c: (int, int))
    by (nonlinear_arith)
    requires
        q_eq(a, b),
        q_eq(b, c),
        b.1 != 0,
    ensures
        q_eq(a, c),
{
}

/// Replacing one summand by a pair denoting the same rational keeps the
/// rational value of the sum.
#[verifier::rlimit(50)]
pub proof fn lemma_q_add_congruence(a: (int, int), a2: (int, int), b: (int, int))
    by (nonlinear_arith)
    requires
        q_eq(a, a2),
    ensures
        q_eq(q_add(a, b), q_add(a2, b)),
{
}

/// Replacing one factor by a pair denoting the same rational keeps the
/// rational value of the product.
pub proof fn lemma_q_mul_congruence(a: (int, int), a2: (int, int), b: (int, int))
    by (nonlinear_arith)
    requires
        q_eq(a, a2),
    ensures
        q_eq(q_mul(a, b), q_mul(a2, b)),
{
}

/// Replacing the other summand by a pair denoting the same rational keeps
/// the rational value of the sum.
#[verifier::rlimit(50)]
pub proof fn lemma_q_add_congruence_right(a: (int, int), b: (int, int), b2: (int, int))
    by (nonlinear_arith)
    requires
        q_eq(b, b2),
    ensures
        q_eq(q_add(a, b), q_add(a, b2)),
{
}

/// Adding two pairs over one common denominator denotes the sum of the
/// numerators over that denominator.
pub proof fn lemma_q_add_same_den(a: int, c: int, d: int)
    by (nonlinear_arith)
    ensures
        q_eq(q_add((a, d), (c, d)), (a + c, d)),
{
}

/// Dividing by a pair that denotes `1` keeps the rational value.
pub proof fn lemma_q_div_one(a: (int, int), s: (int, int))
    by (nonlinear_arith)
    requires
        s.0 == s.1,
        s.1 > 0,
    ensures
        q_eq(q_div(a, s), a),
{
}

impl Rat {
    /// Well-formed: the denominator is positive.
    pub open spec fn wf(self) -> bool {
        self.den > 0
    }

    /// The rational as a pair of unbounded integers.
    pub open spec fn pair(self) -> (int, int) {
        (self.num as int, self.den as int)
    }

    /// The rational `num / den`.
    pub fn new(num: i64, den: i64) -> (r: Rat)
        requires
            den > 0,
        ensures
            r.wf(),
            r.pair() == (num as int, den as int),
    {
        Rat { num: num as i128, den: den as i128 }
    }

    /// The integer `v`, as the rational `v / 1`.
    pub fn from_int(v: i64) -> (r: Rat)
        ensures
            r.wf(),
            r.pair() == (v as int, 1int),
    {
        Rat { num: v as i128, den: 1 }
    }

    /// Exact sum, or `None` when an intermediate leaves the `i128` range.
    pub fn checked_add(&self, other: &Rat) -> (r: Option<Rat>)
        requires
            self.wf(),
            other.wf(),
        ensures
            r matches Some(v) ==> v.wf() && v.pair() == q_add(self.pair(), other.pair()),
            r is Some <==> q_add_fits(self.pair(), other.pair()),
    {
        let x = match self.num.checked_mul(other.den) {
            Some(x) => x,
            None => {
                return None;
            },
        };
        let y = match other.num.checked_mul(self.den) {
            Some(y) => y,
            None => {
                return None;
            },
        };
        let n = match x.checked_add(y) {
            Some(n) => n,
            None => {
                return None;
            },
        };
        let d = match self.den.checked_mul(other.den) {
            Some(d) => d,
            None => {
                return None;
            },
        };
        proof {
            assert(self.den * other.den > 0) by (nonlinear_arith)
                requires
                    self.den > 0,
                    other.den > 0,
            ;
        }
        Some(Rat { num: n, den: d })
    }

    /// Exact product, or `None` when a product leaves the `i128` range.
    pub fn checked_mul(&self, other: &Rat) -> (r: Option<Rat>)
        requires
            self.wf(),
            other.wf(),
        ensures
            r matches Some(v) ==> v.wf() && v.pair() == q_mul(self.pair(), other.pair()),
            r is Some <==> q_mul_fits(self.pair(), other.pair()),
    {
        let n = match self.num.checked_mul(other.num) {
            Some(n) => n,
            None => {
                return None;
            },
        };
        let d = match self.den.checked_mul(other.den) {
            Some(d) => d,
            None => {
                return None;
            },
        };
        proof {
            assert(self.den * other.den > 0) by (nonlinear_arith)
                requires
                    self.den > 0,
                    other.den > 0,
            ;
        }
        Some(Rat { num: n, den: d })
    }

    /// Exact quotient by a non-zero rational, or `None` when an intermediate
    /// leaves the `i128` range.
    pub fn checked_div(&self, other: &Rat) -> (r: Option<Rat>)
        requires
            self.wf(),
            other.wf(),
            other.num != 0,
        ensures
            r matches Some(v) ==> v.wf() && v.pair() == q_div(self.pair(), other.pair()),
            r is Some <==> q_div_fits(self.pair(), other.pair()),
    {
        let n = match self.num.checked_mul(other.den) {
            Some(n) => n,
            None => {
                return None;
            },
        };
        let d = match self.den.checked_mul(other.num) {
            Some(d) => d,
            None => {
                return None;
            },
        };
        if other.num < 0 {
            let n2 = match 0i128.checked_sub(n) {
                Some(n2) => n2,
                None => {
                    return None;
                },
            };
            let d2 = match 0i128.checked_sub(d) {
                Some(d2) => d2,
                None => {
                    return None;
                },
            };
            proof {
                assert(self.den * other.num < 0) by (nonlinear_arith)
                    requires
                        self.den > 0,
                        other.num < 0,
                ;
            }
            Some(Rat { num: n2, den: d2 })
        } else {
            proof {
                assert(self.den * other.num > 0) by (nonlinear_arith)
                    requires
                        self.den > 0,
                        other.num > 0,
                ;
            }
            Some(Rat { num: n, den: d })
        }
    }
}

} // verus!
