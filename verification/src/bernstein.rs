//! The Bernstein basis polynomial `B(n, i, t) = C(n,i) * t^i * (1-t)^(n-i)`,
//! evaluated exactly over rationals, together with its classical properties:
//! its values at the ends of the parameter range and the partition of unity.

use vstd::prelude::*;

use crate::binomial::{binom, binom_fits, binomial, lemma_binom_self};
use crate::error::CurveError;
use crate::rational::{
    in_i128, lemma_pos_mul, lemma_q_add_congruence, lemma_q_add_same_den, lemma_q_eq_trans, q_add,
    q_eq, Rat,
};

verus! {

/// `b` to the power `e`.
pub open spec fn pow_int(b: int, e: nat) -> int
    decreases e,
{
    if e == 0 {
        1
    } else {
        pow_int(b, (e - 1) as nat) * b
    }
}

/// A positive base gives a positive power.
pub proof fn lemma_pow_int_pos(b: int, e: nat)
    requires
        b > 0,
    ensures
        pow_int(b, e) > 0,
    decreases e,
{
    if e > 0 {
        lemma_pow_int_pos(b, (e - 1) as nat);
        lemma_pos_mul(pow_int(b, (e - 1) as nat), b);
    }
}

/// `1^e == 1`.
pub proof fn lemma_pow_int_one(e: nat)
    ensures
        pow_int(1, e) == 1,
    decreases e,
{
    if e > 0 {
        lemma_pow_int_one((e - 1) as nat);
    }
}

/// Every power of `b` up to `e` fits in an `i128`. This is exactly the
/// condition under which the power can be computed: the computation passes
/// through each of these values.
pub open spec fn pow_fits(b: int, e: nat) -> bool {
    forall|j: nat| j <= e ==> in_i128(pow_int(b, j))
}

/// `b^e`, exactly, or `None` when an intermediate power leaves the `i128`
/// range.
fn pow_i128(b: i128, e: u64) -> (r: Option<i128>)
    ensures
        r matches Some(v) ==> v == pow_int(b as int, e as nat),
        r is Some <==> pow_fits(b as int, e as nat),
{
    let mut acc: i128 = 1;
    let mut j: u64 = 0;
    while j < e
        invariant
            j <= e,
            acc == pow_int(b as int, j as nat),
            forall|jj: nat| jj <= j ==> in_i128(pow_int(b as int, jj)),
        decreases e - j,
    {
        acc = match acc.checked_mul(b) {
            Some(a) => a,
            None => {
                proof {
                    assert(pow_int(b as int, (j + 1) as nat) == pow_int(b as int, j as nat) * (
                    b as int));
                }
                return None;
            },
        };
        proof {
            assert(pow_int(b as int, (j + 1) as nat) == pow_int(b as int, j as nat) * (b as int));
        }
        j = j + 1;
    }
    Some(acc)
}

/// The Bernstein basis value `B(n, i, t) = C(n,i) * t^i * (1-t)^(n-i)`, as a
/// numerator over the common denominator `den(t)^n`. For `i > n` the value
/// is zero.
pub open spec fn bern(n: nat, i: nat, t: (int, int)) -> (int, int) {
    if i <= n {
        (
            binom(n, i) * pow_int(t.0, i) * pow_int(t.1 - t.0, (n - i) as nat),
            pow_int(t.1, n),
        )
    } else {
        (0, pow_int(t.1, n))
    }
}

/// Every intermediate of the Bernstein computation fits its machine word:
/// the binomial coefficient in `u64`, and the subtraction, the powers and
/// the two products in `i128`.
pub open spec fn bern_fits(n: nat, i: nat, t: (int, int)) -> bool {
    &&& binom_fits(n, i)
    &&& in_i128(t.1 - t.0)
    &&& pow_fits(t.0, i)
    &&& pow_fits(t.1 - t.0, (n - i) as nat)
    &&& pow_fits(t.1, n)
    &&& in_i128(binom(n, i) * pow_int(t.0, i))
    &&& in_i128(binom(n, i) * pow_int(t.0, i) * pow_int(t.1 - t.0, (n - i) as nat))
}

/// The Bernstein basis value `B(n, i, t)`, exactly.
///
/// Fails with `InvalidArgument` exactly when `i > n` (the binomial
/// coefficient is undefined there), and with `Overflow` exactly when an
/// intermediate of the exact computation leaves its machine word. `t` is not
/// restricted to `[0, 1]`.
pub fn bernstein_poly(n: u64, i: u64, t: &Rat) -> (r: Result<Rat, CurveError>)
    requires
        t.wf(),
    ensures
        r matches Ok(v) ==> v.wf() && v.pair() == bern(n as nat, i as nat, t.pair()),
        (r is Err && r->Err_0 == CurveError::InvalidArgument) <==> i > n,
        r is Ok <==> (i <= n && bern_fits(n as nat, i as nat, t.pair())),
        (r is Err && r->Err_0 == CurveError::Overflow) <==> (i <= n && !bern_fits(
            n as nat,
            i as nat,
            t.pair(),
        )),
{
    if i > n {
        return Err(CurveError::InvalidArgument);
    }
    let c = match binomial(n, i) {
        Some(c) => c,
        None => {
            return Err(CurveError::Overflow);
        },
    };
    let u = match t.den.checked_sub(t.num) {
        Some(u) => u,
        None => {
            return Err(CurveError::Overflow);
        },
    };
    let tp = match pow_i128(t.num, i) {
        Some(v) => v,
        None => {
            return Err(CurveError::Overflow);
        },
    };
    let up = match pow_i128(u, n - i) {
        Some(v) => v,
        None => {
            return Err(CurveError::Overflow);
        },
    };
    let dp = match pow_i128(t.den, n) {
        Some(v) => v,
        None => {
            return Err(CurveError::Overflow);
        },
    };
    let m1 = match (c as i128).checked_mul(tp) {
        Some(v) => v,
        None => {
            return Err(CurveError::Overflow);
        },
    };
    let m2 = match m1.checked_mul(up) {
        Some(v) => v,
        None => {
            return Err(CurveError::Overflow);
        },
    };
    proof {
        lemma_pow_int_pos(t.den as int, n as nat);
    }
    Ok(Rat { num: m2, den: dp })
}

/// At `t == 0` the Bernstein basis collapses to the first index:
/// `B(n, 0, 0) == 1` and `B(n, i, 0) == 0` for `i > 0`.
pub proof fn lemma_bernstein_at_zero(n: nat, i: nat)
    requires
        i <= n,
    ensures
        bern(n, 0, (0, 1)) == (1int, 1int),
        i > 0 ==> bern(n, i, (0, 1)) == (0int, 1int),
{
    lemma_pow_int_one(n);
    lemma_pow_int_one((n - i) as nat);
    if i > 0 {
        assert(pow_int(0, i) == pow_int(0, (i - 1) as nat) * 0);
    }
}

/// At `t == 1` the Bernstein basis collapses to the last index:
/// `B(n, n, 1) == 1` and `B(n, i, 1) == 0` for `i < n`.
pub proof fn lemma_bernstein_at_one(n: nat, i: nat)
    requires
        i <= n,
    ensures
        bern(n, n, (1, 1)) == (1int, 1int),
        i < n ==> bern(n, i, (1, 1)) == (0int, 1int),
{
    lemma_binom_self(n);
    lemma_pow_int_one(n);
    lemma_pow_int_one(i);
    if i < n {
        assert(pow_int(0, (n - i) as nat) == pow_int(0, (n - i - 1) as nat) * 0);
        assert(binom(n, i) * pow_int(1, i) * pow_int(0, (n - i) as nat) == 0) by (nonlinear_arith)
            requires
                pow_int(0, (n - i) as nat) == 0,
        ;
    }
}

/// The left-fold of the first `k` Bernstein basis values of degree `n` at
/// `t`, added as exact rationals.
pub open spec fn bern_sum(n: nat, t: (int, int), k: nat) -> (int, int)
    decreases k,
{
    if k == 0 {
        (0, 1)
    } else {
        q_add(bern_sum(n, t, (k - 1) as nat), bern(n, (k - 1) as nat, t))
    }
}

/// The fold of Bernstein values keeps a positive denominator.
pub proof fn lemma_bern_sum_den_pos(n: nat, t: (int, int), k: nat)
    requires
        t.1 > 0,
    ensures
        bern_sum(n, t, k).1 > 0,
    decreases k,
{
    lemma_pow_int_pos(t.1, n);
    if k > 0 {
        lemma_bern_sum_den_pos(n, t, (k - 1) as nat);
        lemma_pos_mul(bern_sum(n, t, (k - 1) as nat).1, pow_int(t.1, n));
    }
}

/// The first `k` terms of the binomial expansion of `(x + y)^n`:
/// `sum_{i < k} C(n,i) * x^i * y^(n-i)`.
pub open spec fn expansion_sum(n: nat, x: int, y: int, k: nat) -> int
    decreases k,
{
    if k == 0 {
        0
    } else {
        expansion_sum(n, x, y, (k - 1) as nat) + binom(n, (k - 1) as nat) * pow_int(
            x,
            (k - 1) as nat,
        ) * pow_int(y, (n - (k - 1)) as nat)
    }
}

/// One step of the binomial-theorem induction: the first `k` terms of row
/// `n + 1` regrouped, through Pascal's rule, over the terms of row `n`.
proof fn lemma_expansion_step(n: nat, x: int, y: int, k: nat)
    requires
        1 <= k <= n + 2,
    ensures
        expansion_sum(n + 1, x, y, k) == x * expansion_sum(n, x, y, (k - 1) as nat) + y
            * expansion_sum(n, x, y, k),
    decreases k,
{
    if k == 1 {
        // The single term is C(n+1, 0) * x^0 * y^(n+1) == y * y^n.
        assert(expansion_sum(n + 1, x, y, 0) == 0);
        assert(expansion_sum(n, x, y, 0) == 0);
        assert(expansion_sum(n + 1, x, y, 1) == binom(n + 1, 0) * pow_int(x, 0) * pow_int(
            y,
            (n + 1) as nat,
        ));
        assert(expansion_sum(n, x, y, 1) == binom(n, 0) * pow_int(x, 0) * pow_int(y, n));
        assert(pow_int(y, (n + 1) as nat) == pow_int(y, n) * y);
        assert(1 * pow_int(x, 0) * (pow_int(y, n) * y) == y * (1 * pow_int(x, 0) * pow_int(y, n)))
            by (nonlinear_arith);
    } else {
        let c = (k - 1) as nat;
        lemma_expansion_step(n, x, y, (k - 1) as nat);
        // Pascal's rule on the new term, index c with 1 <= c <= n + 1.
        assert(binom(n + 1, c) == binom(n, (c - 1) as nat) + binom(n, c));
        let tx = binom(n, (c - 1) as nat) * pow_int(x, c) * pow_int(y, (n + 1 - c) as nat);
        let ty = binom(n, c) * pow_int(x, c) * pow_int(y, (n + 1 - c) as nat);
        assert(binom(n + 1, c) * pow_int(x, c) * pow_int(y, (n + 1 - c) as nat) == tx + ty)
            by (nonlinear_arith)
            requires
                binom(n + 1, c) == binom(n, (c - 1) as nat) + binom(n, c),
                tx == binom(n, (c - 1) as nat) * pow_int(x, c) * pow_int(y, (n + 1 - c) as nat),
                ty == binom(n, c) * pow_int(x, c) * pow_int(y, (n + 1 - c) as nat),
        ;
        // The x-part: C(n, c-1) * x^c * y^(n+1-c) is x times the term c-1 of row n.
        assert(pow_int(x, c) == pow_int(x, (c - 1) as nat) * x);
        assert(tx == x * (binom(n, (c - 1) as nat) * pow_int(x, (c - 1) as nat) * pow_int(
            y,
            (n - (c - 1)) as nat,
        ))) by (nonlinear_arith)
            requires
                pow_int(x, c) == pow_int(x, (c - 1) as nat) * x,
                (n + 1 - c) as nat == (n - (c - 1)) as nat,
                tx == binom(n, (c - 1) as nat) * pow_int(x, c) * pow_int(y, (n + 1 - c) as nat),
        ;
        // The y-part: C(n, c) * x^c * y^(n+1-c) is y times the term c of row n.
        if c <= n {
            assert(pow_int(y, (n + 1 - c) as nat) == pow_int(y, (n - c) as nat) * y);
            assert(ty == y * (binom(n, c) * pow_int(x, c) * pow_int(y, (n - c) as nat)))
                by (nonlinear_arith)
                requires
                    pow_int(y, (n + 1 - c) as nat) == pow_int(y, (n - c) as nat) * y,
                    ty == binom(n, c) * pow_int(x, c) * pow_int(y, (n + 1 - c) as nat),
            ;
        } else {
            // c == n + 1: the term c of row n is zero, and so is ty.
            assert(binom(n, c) == 0);
            assert(ty == 0 * pow_int(x, c) * pow_int(y, (n + 1 - c) as nat));
            assert(ty == y * (binom(n, c) * pow_int(x, c) * pow_int(y, (n - c) as nat)))
                by (nonlinear_arith)
                requires
                    binom(n, c) == 0,
                    ty == 0 * pow_int(x, c) * pow_int(y, (n + 1 - c) as nat),
            ;
        }
        assert(x * expansion_sum(n, x, y, c) + y * expansion_sum(n, x, y, k) == x * expansion_sum(
            n,
            x,
            y,
            (c - 1) as nat,
        ) + y * expansion_sum(n, x, y, c) + tx + ty) by (nonlinear_arith)
            requires
                expansion_sum(n, x, y, k) == expansion_sum(n, x, y, c) + binom(n, c) * pow_int(
                    x,
                    c,
                ) * pow_int(y, (n - c) as nat),
                expansion_sum(n, x, y, c) == expansion_sum(n, x, y, (c - 1) as nat) + binom(
                    n,
                    (c - 1) as nat,
                ) * pow_int(x, (c - 1) as nat) * pow_int(y, (n - (c - 1)) as nat),
                tx == x * (binom(n, (c - 1) as nat) * pow_int(x, (c - 1) as nat) * pow_int(
                    y,
                    (n - (c - 1)) as nat,
                )),
                ty == y * (binom(n, c) * pow_int(x, c) * pow_int(y, (n - c) as nat)),
        ;
    }
}

/// The binomial theorem: `sum_{i=0}^{n} C(n,i) * x^i * y^(n-i) == (x + y)^n`.
pub proof fn lemma_binomial_theorem(n: nat, x: int, y: int)
    ensures
        expansion_sum(n, x, y, n + 1) == pow_int(x + y, n),
    decreases n,
{
    if n == 0 {
        assert(expansion_sum(0, x, y, 0) == 0);
        assert(expansion_sum(0, x, y, 1) == 0 + binom(0, 0) * pow_int(x, 0) * pow_int(y, 0));
    } else {
        let m = (n - 1) as nat;
        lemma_binomial_theorem(m, x, y);
        lemma_expansion_step(m, x, y, n + 1);
        // The last term of row n - 1 at index n is zero: C(n-1, n) == 0.
        assert(binom(m, n) == 0);
        assert(expansion_sum(m, x, y, n + 1) == expansion_sum(m, x, y, n) + 0 * pow_int(x, n)
            * pow_int(y, (m - n) as nat));
        assert(expansion_sum(n, x, y, n + 1) == x * pow_int(x + y, m) + y * pow_int(x + y, m));
        assert(x * pow_int(x + y, m) + y * pow_int(x + y, m) == pow_int(x + y, m) * (x + y))
            by (nonlinear_arith);
        assert(pow_int(x + y, n) == pow_int(x + y, m) * (x + y));
    }
}

/// The value of the Bernstein fold: over the common denominator `den(t)^n`
/// its numerator is the binomial expansion sum of `(t + (1-t))^n`.
proof fn lemma_bern_sum_value(n: nat, t: (int, int), k: nat)
    requires
        t.1 > 0,
        k <= n + 1,
    ensures
        q_eq(bern_sum(n, t, k), (expansion_sum(n, t.0, t.1 - t.0, k), pow_int(t.1, n))),
        bern_sum(n, t, k).1 > 0,
    decreases k,
{
    let d = pow_int(t.1, n);
    lemma_pow_int_pos(t.1, n);
    if k == 0 {
        assert(q_eq((0, 1), (0, d)));
    } else {
        let c = (k - 1) as nat;
        lemma_bern_sum_value(n, t, c);
        let u = bern_sum(n, t, c);
        let v = bern(n, c, t);
        let es = expansion_sum(n, t.0, t.1 - t.0, c);
        // The Bernstein value at index c is exactly a numerator over d.
        assert(v == (binom(n, c) * pow_int(t.0, c) * pow_int(t.1 - t.0, (n - c) as nat), d));
        lemma_q_add_congruence(u, (es, d), v);
        lemma_q_add_same_den(es, v.0, d);
        lemma_pos_mul(d, d);
        lemma_q_eq_trans(q_add(u, v), q_add((es, d), v), (es + v.0, d));
        assert(expansion_sum(n, t.0, t.1 - t.0, k) == es + v.0);
        lemma_pos_mul(u.1, d);
    }
}

/// Partition of unity: for every degree `n` and every parameter `t`, the
/// Bernstein basis values `B(n, 0, t), ..., B(n, n, t)` sum to exactly `1`.
pub proof fn lemma_partition_of_unity(n: nat, t: (int, int))
    requires
        t.1 > 0,
    ensures
        q_eq(bern_sum(n, t, n + 1), (1int, 1int)),
{
    let d = pow_int(t.1, n);
    lemma_bern_sum_value(n, t, n + 1);
    lemma_binomial_theorem(n, t.0, t.1 - t.0);
    assert(t.0 + (t.1 - t.0) == t.1);
    assert(expansion_sum(n, t.0, t.1 - t.0, n + 1) == d);
    lemma_pow_int_pos(t.1, n);
    assert(q_eq((d, d), (1int, 1int))) by (nonlinear_arith);
    lemma_q_eq_trans(bern_sum(n, t, n + 1), (d, d), (1int, 1int));
}

} // verus!
