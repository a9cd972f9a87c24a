//! Exact evaluation of points on Bezier and rational Bezier curves.
//!
//! A control polygon is a non-empty sequence of control points of one common
//! dimension. A curve point is the direct Bernstein-weighted sum of the
//! control points; the rational variant also accumulates a Bernstein-weighted
//! sum of the weights and divides the point by it at the end. The weights
//! enter only through that final division — the numerator sum is deliberately
//! unweighted, mirroring the evaluation rule this crate implements (not the
//! textbook rational-Bezier formula, which would weight each control point
//! inside the numerator as well).

use vstd::prelude::*;

use crate::bernstein::{
    bern, bern_fits, bern_sum, bernstein_poly, lemma_bern_sum_den_pos, lemma_bernstein_at_one,
    lemma_bernstein_at_zero, lemma_partition_of_unity,
};
use crate::error::CurveError;
use crate::rational::{
    lemma_pos_mul, lemma_q_add_congruence, lemma_q_add_congruence_right, lemma_q_div_one,
    lemma_q_eq_trans, lemma_q_mul_congruence, q_add, q_add_fits, q_div, q_div_fits, q_eq, q_mul,
    q_mul_fits, Rat,
};

verus! {

/// The rows of a vector of control points, as a sequence of sequences.
pub open spec fn rows(p: Vec<Vec<Rat>>) -> Seq<Seq<Rat>> {
    p@.map_values(|row: Vec<Rat>| row@)
}

/// Every entry of the control polygon is a well-formed rational.
pub open spec fn polygon_wf(p: Seq<Seq<Rat>>) -> bool {
    forall|i: int, j: int| 0 <= i < p.len() && 0 <= j < p[i].len() ==> p[i][j].wf()
}

/// Every entry of the weight vector is a well-formed rational.
pub open spec fn weights_wf(w: Seq<Rat>) -> bool {
    forall|i: int| 0 <= i < w.len() ==> w[i].wf()
}

/// A control polygon the evaluator accepts: non-empty, with every control
/// point of the same dimension as the first.
pub open spec fn polygon_valid(p: Seq<Seq<Rat>>) -> bool {
    &&& p.len() > 0
    &&& forall|i: int| 0 <= i < p.len() ==> (#[trigger] p[i].len()) == p[0].len()
}

/// The exact partial sum of coordinate `j` over the first `k` control
/// points: the fold of `acc + P[i][j] * B(n, i, t)` with `n` the degree of
/// the polygon.
pub open spec fn eval_acc(p: Seq<Seq<Rat>>, t: (int, int), j: int, k: nat) -> (int, int)
    decreases k,
{
    if k == 0 {
        (0, 1)
    } else {
        q_add(
            eval_acc(p, t, j, (k - 1) as nat),
            q_mul(p[k - 1][j].pair(), bern((p.len() - 1) as nat, (k - 1) as nat, t)),
        )
    }
}

/// Step `i` of the sum for coordinate `j` stays inside `i128`: the product
/// with the Bernstein value and the addition onto the partial sum.
pub open spec fn eval_step_fits(p: Seq<Seq<Rat>>, t: (int, int), j: int, i: int) -> bool {
    let b = bern((p.len() - 1) as nat, i as nat, t);
    &&& q_mul_fits(p[i][j].pair(), b)
    &&& q_add_fits(eval_acc(p, t, j, i as nat), q_mul(p[i][j].pair(), b))
}

/// The whole exact evaluation stays inside its machine words: every
/// Bernstein value and every accumulation step, for every coordinate.
pub open spec fn eval_fits(p: Seq<Seq<Rat>>, t: (int, int)) -> bool {
    &&& forall|i: int|
        0 <= i < p.len() ==> #[trigger] bern_fits((p.len() - 1) as nat, i as nat, t)
    &&& forall|i: int, j: int|
        0 <= i < p.len() && 0 <= j < p[0].len() ==> #[trigger] eval_step_fits(p, t, j, i)
}

/// The point of the Bezier curve over control polygon `p` at parameter `t`,
/// exactly: coordinate `j` of the result is the sum of `P[i][j] * B(n,i,t)`
/// over all control points.
///
/// Fails with `InvalidArgument` exactly when the polygon is empty or its
/// control points do not share one dimension, and with `Overflow` exactly
/// when an intermediate of the exact computation leaves its machine word.
pub fn bezier_curve_eval(p: &Vec<Vec<Rat>>, t: &Rat) -> (r: Result<Vec<Rat>, CurveError>)
    requires
        t.wf(),
        polygon_wf(rows(*p)),
    ensures
        r matches Ok(v) ==> {
            &&& v@.len() == rows(*p)[0].len()
            &&& forall|j: int|
                0 <= j < v@.len() ==> v@[j].wf() && v@[j].pair() == eval_acc(
                    rows(*p),
                    t.pair(),
                    j,
                    rows(*p).len(),
                )
        },
        (r is Err && r->Err_0 == CurveError::InvalidArgument) <==> !polygon_valid(rows(*p)),
        r is Ok <==> (polygon_valid(rows(*p)) && eval_fits(rows(*p), t.pair())),
        (r is Err && r->Err_0 == CurveError::Overflow) <==> (polygon_valid(rows(*p))
            && !eval_fits(rows(*p), t.pair())),
{
    let ghost pv = rows(*p);
    let ghost tp = t.pair();
    if p.len() == 0 {
        return Err(CurveError::InvalidArgument);
    }
    let dim = p[0].len();
    let mut i: usize = 1;
    while i < p.len()
        invariant
            1 <= i <= p@.len(),
            pv == rows(*p),
            pv.len() == p@.len(),
            dim == pv[0].len(),
            forall|ii: int| 0 <= ii < i ==> pv[ii].len() == dim,
        decreases p@.len() - i,
    {
        if p[i].len() != dim {
            proof {
                assert(pv[i as int].len() != pv[0].len());
            }
            return Err(CurveError::InvalidArgument);
        }
        i = i + 1;
    }
    assert(polygon_valid(pv));
    let ghost nn = (pv.len() - 1) as nat;
    let n: u64 = (p.len() - 1) as u64;
    let mut acc: Vec<Rat> = Vec::new();
    let mut j: usize = 0;
    while j < dim
        invariant
            j <= dim,
            acc@.len() == j,
            forall|jj: int| 0 <= jj < j ==> (#[trigger] acc@[jj]).wf() && acc@[jj].pair() == (0int, 1int),
        decreases dim - j,
    {
        acc.push(Rat { num: 0, den: 1 });
        j = j + 1;
    }
    let mut i: usize = 0;
    while i < p.len()
        invariant
            t.wf(),
            polygon_wf(pv),
            polygon_valid(pv),
            pv == rows(*p),
            tp == t.pair(),
            pv.len() == p@.len(),
            nn == (pv.len() - 1) as nat,
            n as nat == nn,
            dim == pv[0].len(),
            i <= p@.len(),
            acc@.len() == dim,
            forall|jj: int|
                0 <= jj < dim ==> (#[trigger] acc@[jj]).wf() && acc@[jj].pair() == eval_acc(
                    pv,
                    tp,
                    jj,
                    i as nat,
                ),
            forall|ii: int| 0 <= ii < i ==> #[trigger] bern_fits(nn, ii as nat, tp),
            forall|ii: int, jj: int|
                0 <= ii < i && 0 <= jj < dim ==> #[trigger] eval_step_fits(pv, tp, jj, ii),
        decreases p@.len() - i,
    {
        let b = match bernstein_poly(n, i as u64, t) {
            Ok(b) => b,
            Err(_) => {
                proof {
                    assert(i as u64 <= n);
                    assert((i as u64) as nat == i as nat);
                    assert(!bern_fits(nn, i as nat, tp));
                    if eval_fits(pv, tp) {
                        let ghost gi: int = i as int;
                        assert(0 <= gi < pv.len());
                        assert(bern_fits((pv.len() - 1) as nat, gi as nat, tp));
                        assert(gi as nat == i as nat);
                        assert(false);
                    }
                }
                return Err(CurveError::Overflow);
            },
        };
        let mut j: usize = 0;
        while j < dim
            invariant
                t.wf(),
                polygon_wf(pv),
                polygon_valid(pv),
                pv == rows(*p),
                tp == t.pair(),
                pv.len() == p@.len(),
                nn == (pv.len() - 1) as nat,
                n as nat == nn,
                dim == pv[0].len(),
                i < p@.len(),
                j <= dim,
                acc@.len() == dim,
                b.wf(),
                b.pair() == bern(nn, i as nat, tp),
                forall|jj: int|
                    0 <= jj < j ==> (#[trigger] acc@[jj]).wf() && acc@[jj].pair() == eval_acc(
                        pv,
                        tp,
                        jj,
                        (i + 1) as nat,
                    ),
                forall|jj: int|
                    j <= jj < dim ==> (#[trigger] acc@[jj]).wf() && acc@[jj].pair() == eval_acc(
                        pv,
                        tp,
                        jj,
                        i as nat,
                    ),
                forall|ii: int| 0 <= ii <= i ==> #[trigger] bern_fits(nn, ii as nat, tp),
                forall|ii: int, jj: int|
                    0 <= ii < i && 0 <= jj < dim ==> #[trigger] eval_step_fits(pv, tp, jj, ii),
                forall|jj: int| 0 <= jj < j ==> #[trigger] eval_step_fits(pv, tp, jj, i as int),
            decreases dim - j,
        {
            proof {
                assert(pv[i as int][j as int] == p@[i as int]@[j as int]);
            }
            let term = match p[i][j].checked_mul(&b) {
                Some(v) => v,
                None => {
                    proof {
                        assert(!eval_step_fits(pv, tp, j as int, i as int));
                    }
                    return Err(CurveError::Overflow);
                },
            };
            let s = match acc[j].checked_add(&term) {
                Some(v) => v,
                None => {
                    proof {
                        assert(!eval_step_fits(pv, tp, j as int, i as int));
                    }
                    return Err(CurveError::Overflow);
                },
            };
            acc.set(j, s);
            proof {
                assert(eval_acc(pv, tp, j as int, (i + 1) as nat) == q_add(
                    eval_acc(pv, tp, j as int, i as nat),
                    q_mul(pv[i as int][j as int].pair(), bern(nn, i as nat, tp)),
                ));
            }
            j = j + 1;
        }
        i = i + 1;
    }
    Ok(acc)
}

/// The exact partial Bernstein-weighted sum of the weights: the fold of
/// `acc + w[i] * B(n, i, t)` over the first `k` weights.
pub open spec fn weight_acc(w: Seq<Rat>, n: nat, t: (int, int), k: nat) -> (int, int)
    decreases k,
{
    if k == 0 {
        (0, 1)
    } else {
        q_add(weight_acc(w, n, t, (k - 1) as nat), q_mul(w[k - 1].pair(), bern(n, (k - 1) as nat, t)))
    }
}

/// Step `i` of the weight sum stays inside `i128`: the product with the
/// Bernstein value and the addition onto the partial sum.
pub open spec fn weight_step_fits(w: Seq<Rat>, n: nat, t: (int, int), i: int) -> bool {
    let b = bern(n, i as nat, t);
    &&& q_mul_fits(w[i].pair(), b)
    &&& q_add_fits(weight_acc(w, n, t, i as nat), q_mul(w[i].pair(), b))
}

/// The whole exact rational evaluation stays inside its machine words: the
/// point sums, the weight sum, and — when the weight sum is not zero — the
/// final division of every coordinate.
pub open spec fn rational_fits(p: Seq<Seq<Rat>>, w: Seq<Rat>, t: (int, int)) -> bool {
    let n = (p.len() - 1) as nat;
    let ws = weight_acc(w, n, t, p.len());
    &&& eval_fits(p, t)
    &&& forall|i: int| 0 <= i < p.len() ==> #[trigger] weight_step_fits(w, n, t, i)
    &&& (ws.0 != 0 ==> forall|j: int|
        0 <= j < p[0].len() ==> #[trigger] q_div_fits(eval_acc(p, t, j, p.len()), ws))
}

/// The point of the rational Bezier curve over control polygon `p` with
/// weights `w` at parameter `t`, exactly: coordinate `j` of the result is
/// the plain Bernstein sum of `P[i][j] * B(n,i,t)` divided by the weight sum
/// of `w[i] * B(n,i,t)`. The weights enter only through that division; the
/// numerator sum is deliberately left unweighted.
///
/// Fails with `InvalidArgument` exactly when the polygon is empty, its
/// control points do not share one dimension, or the weight vector's length
/// differs from the polygon's; with `Overflow` exactly when an intermediate
/// of the exact computation leaves its machine word; and with
/// `ZeroWeightSum` exactly when the weight sum is exactly zero, so that no
/// finite exact result exists.
pub fn rational_bezier_curve_eval(p: &Vec<Vec<Rat>>, w: &Vec<Rat>, t: &Rat) -> (r: Result<
    Vec<Rat>,
    CurveError,
>)
    requires
        t.wf(),
        polygon_wf(rows(*p)),
        weights_wf(w@),
    ensures
        r matches Ok(v) ==> {
            &&& v@.len() == rows(*p)[0].len()
            &&& forall|j: int|
                0 <= j < v@.len() ==> v@[j].wf() && v@[j].pair() == q_div(
                    eval_acc(rows(*p), t.pair(), j, rows(*p).len()),
                    weight_acc(w@, (rows(*p).len() - 1) as nat, t.pair(), rows(*p).len()),
                )
        },
        (r is Err && r->Err_0 == CurveError::InvalidArgument) <==> !(polygon_valid(rows(*p))
            && w@.len() == rows(*p).len()),
        r is Ok <==> (polygon_valid(rows(*p)) && w@.len() == rows(*p).len() && rational_fits(
            rows(*p),
            w@,
            t.pair(),
        ) && weight_acc(w@, (rows(*p).len() - 1) as nat, t.pair(), rows(*p).len()).0 != 0),
        (r is Err && r->Err_0 == CurveError::Overflow) <==> (polygon_valid(rows(*p)) && w@.len()
            == rows(*p).len() && !rational_fits(rows(*p), w@, t.pair())),
        (r is Err && r->Err_0 == CurveError::ZeroWeightSum) <==> (polygon_valid(rows(*p))
            && w@.len() == rows(*p).len() && rational_fits(rows(*p), w@, t.pair()) && weight_acc(
            w@,
            (rows(*p).len() - 1) as nat,
            t.pair(),
            rows(*p).len(),
        ).0 == 0),
{
    let ghost pv = rows(*p);
    let ghost wv = w@;
    let ghost tp = t.pair();
    if p.len() == 0 {
        return Err(CurveError::InvalidArgument);
    }
    let dim = p[0].len();
    let mut i: usize = 1;
    while i < p.len()
        invariant
            1 <= i <= p@.len(),
            pv == rows(*p),
            pv.len() == p@.len(),
            dim == pv[0].len(),
            forall|ii: int| 0 <= ii < i ==> pv[ii].len() == dim,
        decreases p@.len() - i,
    {
        if p[i].len() != dim {
            proof {
                assert(pv[i as int].len() != pv[0].len());
            }
            return Err(CurveError::InvalidArgument);
        }
        i = i + 1;
    }
    assert(polygon_valid(pv));
    if w.len() != p.len() {
        return Err(CurveError::InvalidArgument);
    }
    let ghost nn = (pv.len() - 1) as nat;
    let n: u64 = (p.len() - 1) as u64;
    let mut acc: Vec<Rat> = Vec::new();
    let mut j: usize = 0;
    while j < dim
        invariant
            j <= dim,
            acc@.len() == j,
            forall|jj: int| 0 <= jj < j ==> (#[trigger] acc@[jj]).wf() && acc@[jj].pair() == (
            0int,
            1int,
            ),
        decreases dim - j,
    {
        acc.push(Rat { num: 0, den: 1 });
        j = j + 1;
    }
    let mut w_sum = Rat { num: 0, den: 1 };
    let mut i: usize = 0;
    while i < p.len()
        invariant
            t.wf(),
            polygon_wf(pv),
            polygon_valid(pv),
            weights_wf(wv),
            pv == rows(*p),
            wv == w@,
            tp == t.pair(),
            pv.len() == p@.len(),
            wv.len() == pv.len(),
            nn == (pv.len() - 1) as nat,
            n as nat == nn,
            dim == pv[0].len(),
            i <= p@.len(),
            acc@.len() == dim,
            w_sum.wf(),
            w_sum.pair() == weight_acc(wv, nn, tp, i as nat),
            forall|jj: int|
                0 <= jj < dim ==> (#[trigger] acc@[jj]).wf() && acc@[jj].pair() == eval_acc(
                    pv,
                    tp,
                    jj,
                    i as nat,
                ),
            forall|ii: int| 0 <= ii < i ==> #[trigger] bern_fits(nn, ii as nat, tp),
            forall|ii: int, jj: int|
                0 <= ii < i && 0 <= jj < dim ==> #[trigger] eval_step_fits(pv, tp, jj, ii),
            forall|ii: int| 0 <= ii < i ==> #[trigger] weight_step_fits(wv, nn, tp, ii),
        decreases p@.len() - i,
    {
        let b = match bernstein_poly(n, i as u64, t) {
            Ok(b) => b,
            Err(_) => {
                proof {
                    assert(i as u64 <= n);
                    assert((i as u64) as nat == i as nat);
                    assert(!bern_fits(nn, i as nat, tp));
                    if eval_fits(pv, tp) {
                        let ghost gi: int = i as int;
                        assert(0 <= gi < pv.len());
                        assert(bern_fits((pv.len() - 1) as nat, gi as nat, tp));
                        assert(gi as nat == i as nat);
                        assert(false);
                    }
                }
                return Err(CurveError::Overflow);
            },
        };
        let wterm = match w[i].checked_mul(&b) {
            Some(v) => v,
            None => {
                proof {
                    assert(!weight_step_fits(wv, nn, tp, i as int));
                }
                return Err(CurveError::Overflow);
            },
        };
        let new_w_sum = match w_sum.checked_add(&wterm) {
            Some(v) => v,
            None => {
                proof {
                    assert(!weight_step_fits(wv, nn, tp, i as int));
                }
                return Err(CurveError::Overflow);
            },
        };
        w_sum = new_w_sum;
        proof {
            assert(weight_acc(wv, nn, tp, (i + 1) as nat) == q_add(
                weight_acc(wv, nn, tp, i as nat),
                q_mul(wv[i as int].pair(), bern(nn, i as nat, tp)),
            ));
        }
        let mut j: usize = 0;
        while j < dim
            invariant
                t.wf(),
                polygon_wf(pv),
                polygon_valid(pv),
                weights_wf(wv),
                pv == rows(*p),
                wv == w@,
                tp == t.pair(),
                pv.len() == p@.len(),
                wv.len() == pv.len(),
                nn == (pv.len() - 1) as nat,
                n as nat == nn,
                dim == pv[0].len(),
                i < p@.len(),
                j <= dim,
                acc@.len() == dim,
                b.wf(),
                b.pair() == bern(nn, i as nat, tp),
                forall|jj: int|
                    0 <= jj < j ==> (#[trigger] acc@[jj]).wf() && acc@[jj].pair() == eval_acc(
                        pv,
                        tp,
                        jj,
                        (i + 1) as nat,
                    ),
                forall|jj: int|
                    j <= jj < dim ==> (#[trigger] acc@[jj]).wf() && acc@[jj].pair() == eval_acc(
                        pv,
                        tp,
                        jj,
                        i as nat,
                    ),
                forall|ii: int| 0 <= ii <= i ==> #[trigger] bern_fits(nn, ii as nat, tp),
                forall|ii: int, jj: int|
                    0 <= ii < i && 0 <= jj < dim ==> #[trigger] eval_step_fits(pv, tp, jj, ii),
                forall|jj: int| 0 <= jj < j ==> #[trigger] eval_step_fits(pv, tp, jj, i as int),
            decreases dim - j,
        {
            proof {
                assert(pv[i as int][j as int] == p@[i as int]@[j as int]);
            }
            let term = match p[i][j].checked_mul(&b) {
                Some(v) => v,
                None => {
                    proof {
                        assert(!eval_step_fits(pv, tp, j as int, i as int));
                    }
                    return Err(CurveError::Overflow);
                },
            };
            let s = match acc[j].checked_add(&term) {
                Some(v) => v,
                None => {
                    proof {
                        assert(!eval_step_fits(pv, tp, j as int, i as int));
                    }
                    return Err(CurveError::Overflow);
                },
            };
            acc.set(j, s);
            proof {
                assert(eval_acc(pv, tp, j as int, (i + 1) as nat) == q_add(
                    eval_acc(pv, tp, j as int, i as nat),
                    q_mul(pv[i as int][j as int].pair(), bern(nn, i as nat, tp)),
                ));
            }
            j = j + 1;
        }
        i = i + 1;
    }
    proof {
        assert(pv.len() as nat == pv.len());
        assert(weight_acc(wv, nn, tp, pv.len()) == w_sum.pair());
    }
    let ghost wsp = w_sum.pair();
    if w_sum.num == 0 {
        return Err(CurveError::ZeroWeightSum);
    }
    let mut j: usize = 0;
    while j < dim
        invariant
            t.wf(),
            polygon_wf(pv),
            polygon_valid(pv),
            weights_wf(wv),
            pv == rows(*p),
            wv == w@,
            tp == t.pair(),
            pv.len() == p@.len(),
            wv.len() == pv.len(),
            nn == (pv.len() - 1) as nat,
            dim == pv[0].len(),
            j <= dim,
            acc@.len() == dim,
            w_sum.wf(),
            w_sum.num != 0,
            wsp == w_sum.pair(),
            wsp == weight_acc(wv, nn, tp, pv.len()),
            forall|jj: int|
                0 <= jj < j ==> (#[trigger] acc@[jj]).wf() && acc@[jj].pair() == q_div(
                    eval_acc(pv, tp, jj, pv.len()),
                    wsp,
                ),
            forall|jj: int|
                j <= jj < dim ==> (#[trigger] acc@[jj]).wf() && acc@[jj].pair() == eval_acc(
                    pv,
                    tp,
                    jj,
                    pv.len(),
                ),
            forall|ii: int| 0 <= ii < pv.len() ==> #[trigger] bern_fits(nn, ii as nat, tp),
            forall|ii: int, jj: int|
                0 <= ii < pv.len() && 0 <= jj < dim ==> #[trigger] eval_step_fits(pv, tp, jj, ii),
            forall|ii: int| 0 <= ii < pv.len() ==> #[trigger] weight_step_fits(wv, nn, tp, ii),
            forall|jj: int|
                0 <= jj < j ==> #[trigger] q_div_fits(eval_acc(pv, tp, jj, pv.len()), wsp),
        decreases dim - j,
    {
        let res = match acc[j].checked_div(&w_sum) {
            Some(v) => v,
            None => {
                proof {
                    assert(!q_div_fits(eval_acc(pv, tp, j as int, pv.len()), wsp));
                }
                return Err(CurveError::Overflow);
            },
        };
        acc.set(j, res);
        j = j + 1;
    }
    Ok(acc)
}

/// The partial sums at `t == 0`, past the first control point, all denote
/// that first control point: every later Bernstein value is zero there.
proof fn lemma_eval_acc_prefix_zero(p: Seq<Seq<Rat>>, j: int, k: nat)
    requires
        polygon_wf(p),
        polygon_valid(p),
        0 <= j < p[0].len(),
        1 <= k <= p.len(),
    ensures
        q_eq(eval_acc(p, (0, 1), j, k), p[0][j].pair()),
        eval_acc(p, (0, 1), j, k).1 > 0,
    decreases k,
{
    let n = (p.len() - 1) as nat;
    if k == 1 {
        lemma_bernstein_at_zero(n, 0);
        let c0 = p[0][j].pair();
        assert(eval_acc(p, (0, 1), j, 0) == (0int, 1int));
        assert(q_mul(c0, (1int, 1int)).0 == c0.0 * 1);
        assert(q_mul(c0, (1int, 1int)).1 == c0.1 * 1);
        assert(c0.0 * 1 == c0.0);
        assert(c0.1 * 1 == c0.1);
        assert(q_mul(c0, (1int, 1int)) == c0);
        assert(eval_acc(p, (0, 1), j, 1) == q_add((0int, 1int), c0));
        assert(q_add((0int, 1int), c0).0 == 0 * c0.1 + c0.0 * 1);
        assert(q_add((0int, 1int), c0).1 == 1 * c0.1);
        assert(q_add((0int, 1int), c0) == c0);
    } else {
        lemma_eval_acc_prefix_zero(p, j, (k - 1) as nat);
        let u = eval_acc(p, (0, 1), j, (k - 1) as nat);
        lemma_bernstein_at_zero(n, (k - 1) as nat);
        assert(bern(n, (k - 1) as nat, (0, 1)) == (0int, 1int));
        let c = p[k - 1][j].pair();
        assert(q_mul(c, (0int, 1int)) == (0int, c.1));
        assert(eval_acc(p, (0, 1), j, k) == q_add(u, (0int, c.1)));
        assert(q_add(u, (0int, c.1)).0 == u.0 * c.1 + 0 * u.1);
        assert(q_add(u, (0int, c.1)).1 == u.1 * c.1);
        assert(q_add(u, (0int, c.1)) == (u.0 * c.1, u.1 * c.1));
        assert(p[k - 1][j].wf());
        assert(c.1 > 0);
        assert(q_eq((u.0 * c.1, u.1 * c.1), u)) by (nonlinear_arith);
        lemma_q_eq_trans((u.0 * c.1, u.1 * c.1), u, p[0][j].pair());
        lemma_pos_mul(u.1, c.1);
    }
}

/// At `t == 0` the curve point is exactly the first control point, in every
/// coordinate.
pub proof fn lemma_eval_at_zero(p: Seq<Seq<Rat>>, j: int)
    requires
        polygon_wf(p),
        polygon_valid(p),
        0 <= j < p[0].len(),
    ensures
        q_eq(eval_acc(p, (0, 1), j, p.len()), p[0][j].pair()),
{
    lemma_eval_acc_prefix_zero(p, j, p.len());
}

/// The partial sums at `t == 1`, short of the last control point, all denote
/// zero: every earlier Bernstein value is zero there.
proof fn lemma_eval_acc_prefix_one(p: Seq<Seq<Rat>>, j: int, k: nat)
    requires
        polygon_wf(p),
        polygon_valid(p),
        0 <= j < p[0].len(),
        k <= p.len() - 1,
    ensures
        eval_acc(p, (1, 1), j, k).0 == 0,
        eval_acc(p, (1, 1), j, k).1 > 0,
    decreases k,
{
    let n = (p.len() - 1) as nat;
    if k > 0 {
        lemma_eval_acc_prefix_one(p, j, (k - 1) as nat);
        let u = eval_acc(p, (1, 1), j, (k - 1) as nat);
        lemma_bernstein_at_one(n, (k - 1) as nat);
        assert(bern(n, (k - 1) as nat, (1, 1)) == (0int, 1int));
        let c = p[k - 1][j].pair();
        assert(q_mul(c, (0int, 1int)) == (0int, c.1));
        assert(eval_acc(p, (1, 1), j, k) == q_add(u, (0int, c.1)));
        assert(q_add(u, (0int, c.1)) == (u.0 * c.1, u.1 * c.1));
        assert(u.0 * c.1 == 0);
        assert(p[k - 1][j].wf());
        lemma_pos_mul(u.1, c.1);
    }
}

/// At `t == 1` the curve point is exactly the last control point, in every
/// coordinate.
pub proof fn lemma_eval_at_one(p: Seq<Seq<Rat>>, j: int)
    requires
        polygon_wf(p),
        polygon_valid(p),
        0 <= j < p[0].len(),
    ensures
        q_eq(eval_acc(p, (1, 1), j, p.len()), p[p.len() - 1][j].pair()),
{
    let n = (p.len() - 1) as nat;
    lemma_eval_acc_prefix_one(p, j, n);
    let u = eval_acc(p, (1, 1), j, n);
    lemma_bernstein_at_one(n, n);
    assert(bern(n, n, (1, 1)) == (1int, 1int));
    let c = p[p.len() - 1][j].pair();
    assert(q_mul(c, (1int, 1int)) == c);
    assert(eval_acc(p, (1, 1), j, p.len()) == q_add(u, c));
    assert(q_add(u, c) == (u.0 * c.1 + c.0 * u.1, u.1 * c.1));
    assert(u.0 * c.1 == 0);
    assert(q_eq((c.0 * u.1, u.1 * c.1), c)) by (nonlinear_arith);
}

/// With every weight denoting `1`, the partial weight sums denote the
/// partial Bernstein sums.
proof fn lemma_unit_weight_acc(w: Seq<Rat>, n: nat, t: (int, int), k: nat)
    requires
        weights_wf(w),
        t.1 > 0,
        k <= w.len(),
        forall|i: int| 0 <= i < w.len() ==> (#[trigger] w[i]).num == w[i].den,
    ensures
        q_eq(weight_acc(w, n, t, k), bern_sum(n, t, k)),
        weight_acc(w, n, t, k).1 > 0,
    decreases k,
{
    if k > 0 {
        lemma_unit_weight_acc(w, n, t, (k - 1) as nat);
        lemma_bern_sum_den_pos(n, t, (k - 1) as nat);
        let uw = weight_acc(w, n, t, (k - 1) as nat);
        let ub = bern_sum(n, t, (k - 1) as nat);
        let b = bern(n, (k - 1) as nat, t);
        let wk = w[k - 1].pair();
        let m = q_mul(wk, b);
        assert(w[k - 1].wf());
        assert(q_eq(wk, (1int, 1int)));
        lemma_q_mul_congruence(wk, (1int, 1int), b);
        assert(q_mul((1int, 1int), b) == b);
        lemma_q_add_congruence(uw, ub, m);
        lemma_q_add_congruence_right(ub, m, b);
        crate::bernstein::lemma_pow_int_pos(t.1, n);
        assert(b.1 == crate::bernstein::pow_int(t.1, n));
        lemma_pos_mul(wk.1, b.1);
        lemma_pos_mul(ub.1, m.1);
        lemma_q_eq_trans(q_add(uw, m), q_add(ub, m), q_add(ub, b));
        lemma_pos_mul(uw.1, m.1);
    }
}

/// With every weight equal to `1`, the rational evaluation reduces to the
/// plain polynomial evaluation: the weight sum denotes exactly `1` (the
/// partition of unity), and dividing by it leaves every coordinate's value
/// unchanged.
pub proof fn lemma_unit_weights_reduce(p: Seq<Seq<Rat>>, w: Seq<Rat>, t: (int, int), j: int)
    requires
        polygon_wf(p),
        polygon_valid(p),
        weights_wf(w),
        w.len() == p.len(),
        t.1 > 0,
        0 <= j < p[0].len(),
        forall|i: int| 0 <= i < w.len() ==> (#[trigger] w[i]).num == w[i].den,
    ensures
        q_eq(weight_acc(w, (p.len() - 1) as nat, t, p.len()), (1int, 1int)),
        q_eq(
            q_div(
                eval_acc(p, t, j, p.len()),
                weight_acc(w, (p.len() - 1) as nat, t, p.len()),
            ),
            eval_acc(p, t, j, p.len()),
        ),
{
    let n = (p.len() - 1) as nat;
    lemma_unit_weight_acc(w, n, t, p.len());
    lemma_bern_sum_den_pos(n, t, p.len());
    assert(n + 1 == p.len());
    lemma_partition_of_unity(n, t);
    let ws = weight_acc(w, n, t, p.len());
    lemma_q_eq_trans(ws, bern_sum(n, t, p.len()), (1int, 1int));
    assert(ws.0 == ws.1);
    lemma_q_div_one(eval_acc(p, t, j, p.len()), ws);
}

} // verus!
