//! Tests of the exact Bezier curve evaluator: Bernstein basis values at the
//! ends of the parameter range, partition of unity, endpoint interpolation,
//! midpoint examples, the reduction of unit-weight rational evaluation to the
//! plain one, and every error condition.

use rust_math::bernstein::bernstein_poly;
use rust_math::binomial::binomial;
use rust_math::curve::{bezier_curve_eval, rational_bezier_curve_eval};
use rust_math::error::CurveError;
use rust_math::rational::Rat;

/// The result denotes the rational `num / den` (cross multiplication, so the
/// representation need not be reduced).
fn assert_rat_is(r: &Rat, num: i128, den: i128) {
    assert!(den > 0);
    assert!(r.den > 0);
    assert_eq!(r.num * den, num * r.den, "{}/{} is not {}/{}", r.num, r.den, num, den);
}

fn polygon(points: &[&[i64]]) -> Vec<Vec<Rat>> {
    points
        .iter()
        .map(|row| row.iter().map(|&c| Rat::from_int(c)).collect())
        .collect()
}

#[test]
fn binomial_small_values() {
    assert_eq!(binomial(0, 0), Some(1));
    assert_eq!(binomial(5, 2), Some(10));
    assert_eq!(binomial(6, 3), Some(20));
    assert_eq!(binomial(10, 0), Some(1));
    assert_eq!(binomial(10, 10), Some(1));
    assert_eq!(binomial(20, 10), Some(184756));
}

#[test]
fn binomial_overflow_is_none() {
    assert_eq!(binomial(100, 50), None);
}

#[test]
fn bernstein_at_zero_collapses_to_first_index() {
    let t = Rat::from_int(0);
    assert_rat_is(&bernstein_poly(3, 0, &t).unwrap(), 1, 1);
    assert_rat_is(&bernstein_poly(3, 1, &t).unwrap(), 0, 1);
    assert_rat_is(&bernstein_poly(3, 2, &t).unwrap(), 0, 1);
    assert_rat_is(&bernstein_poly(3, 3, &t).unwrap(), 0, 1);
}

#[test]
fn bernstein_at_one_collapses_to_last_index() {
    let t = Rat::from_int(1);
    assert_rat_is(&bernstein_poly(3, 3, &t).unwrap(), 1, 1);
    assert_rat_is(&bernstein_poly(3, 0, &t).unwrap(), 0, 1);
    assert_rat_is(&bernstein_poly(3, 1, &t).unwrap(), 0, 1);
    assert_rat_is(&bernstein_poly(3, 2, &t).unwrap(), 0, 1);
}

#[test]
fn bernstein_partition_of_unity_degree_four() {
    let t = Rat::new(1, 3);
    let mut num_sum: i128 = 0;
    for i in 0..=4 {
        let b = bernstein_poly(4, i, &t).unwrap();
        // All five values share the denominator 3^4.
        assert_eq!(b.den, 81);
        num_sum += b.num;
    }
    assert_eq!(num_sum, 81);
}

#[test]
fn bernstein_halfway_quadratic() {
    let t = Rat::new(1, 2);
    assert_rat_is(&bernstein_poly(2, 0, &t).unwrap(), 1, 4);
    assert_rat_is(&bernstein_poly(2, 1, &t).unwrap(), 1, 2);
    assert_rat_is(&bernstein_poly(2, 2, &t).unwrap(), 1, 4);
}

#[test]
fn bernstein_outside_unit_interval_is_not_clamped() {
    let t = Rat::from_int(2);
    // B(1, 0, 2) = 1 - 2 = -1 and B(1, 1, 2) = 2.
    assert_rat_is(&bernstein_poly(1, 0, &t).unwrap(), -1, 1);
    assert_rat_is(&bernstein_poly(1, 1, &t).unwrap(), 2, 1);
}

#[test]
fn bernstein_index_above_degree_is_invalid() {
    let t = Rat::new(1, 2);
    assert_eq!(bernstein_poly(2, 3, &t), Err(CurveError::InvalidArgument));
}

#[test]
fn bernstein_huge_parameter_overflows() {
    let t = Rat::from_int(i64::MAX);
    assert_eq!(bernstein_poly(5, 2, &t), Err(CurveError::Overflow));
}

#[test]
fn bezier_linear_midpoint() {
    let p = polygon(&[&[0, 0], &[10, 0]]);
    let r = bezier_curve_eval(&p, &Rat::new(1, 2)).unwrap();
    assert_eq!(r.len(), 2);
    assert_rat_is(&r[0], 5, 1);
    assert_rat_is(&r[1], 0, 1);
}

#[test]
fn bezier_quadratic_midpoint() {
    let p = polygon(&[&[0, 0], &[1, 2], &[2, 0]]);
    let r = bezier_curve_eval(&p, &Rat::new(1, 2)).unwrap();
    assert_eq!(r.len(), 2);
    assert_rat_is(&r[0], 1, 1);
    assert_rat_is(&r[1], 1, 1);
}

#[test]
fn bezier_endpoints_interpolate() {
    let p = polygon(&[&[1, 5], &[2, 3], &[4, 4], &[7, 9]]);
    let at_zero = bezier_curve_eval(&p, &Rat::from_int(0)).unwrap();
    assert_rat_is(&at_zero[0], 1, 1);
    assert_rat_is(&at_zero[1], 5, 1);
    let at_one = bezier_curve_eval(&p, &Rat::from_int(1)).unwrap();
    assert_rat_is(&at_one[0], 7, 1);
    assert_rat_is(&at_one[1], 9, 1);
}

#[test]
fn bezier_empty_polygon_is_invalid() {
    let p: Vec<Vec<Rat>> = Vec::new();
    assert_eq!(bezier_curve_eval(&p, &Rat::new(1, 2)), Err(CurveError::InvalidArgument));
}

#[test]
fn bezier_dimension_mismatch_is_invalid() {
    let p = vec![vec![Rat::from_int(0), Rat::from_int(0)], vec![Rat::from_int(1)]];
    assert_eq!(bezier_curve_eval(&p, &Rat::new(1, 2)), Err(CurveError::InvalidArgument));
}

#[test]
fn rational_unit_weights_match_plain_evaluation() {
    let p = polygon(&[&[0, 0], &[1, 2], &[2, 0]]);
    let w = vec![Rat::from_int(1), Rat::from_int(1), Rat::from_int(1)];
    let t = Rat::new(1, 3);
    let plain = bezier_curve_eval(&p, &t).unwrap();
    let rational = rational_bezier_curve_eval(&p, &w, &t).unwrap();
    assert_eq!(plain.len(), rational.len());
    for (a, b) in plain.iter().zip(rational.iter()) {
        assert_eq!(a.num * b.den, b.num * a.den);
    }
}

#[test]
fn rational_weighted_line() {
    // P = [[0], [2]], w = [1, 3], t = 1/2: both basis values are 1/2, so the
    // (unweighted) numerator is 1 and the weight sum is 2: the point is 1/2.
    let p = polygon(&[&[0], &[2]]);
    let w = vec![Rat::from_int(1), Rat::from_int(3)];
    let r = rational_bezier_curve_eval(&p, &w, &Rat::new(1, 2)).unwrap();
    assert_eq!(r.len(), 1);
    assert_rat_is(&r[0], 1, 2);
}

#[test]
fn rational_weight_length_mismatch_is_invalid() {
    let p = polygon(&[&[0, 0], &[10, 0]]);
    let w = vec![Rat::from_int(1)];
    let r = rational_bezier_curve_eval(&p, &w, &Rat::new(1, 2));
    assert_eq!(r, Err(CurveError::InvalidArgument));
}

#[test]
fn rational_empty_polygon_is_invalid() {
    let p: Vec<Vec<Rat>> = Vec::new();
    let w: Vec<Rat> = Vec::new();
    let r = rational_bezier_curve_eval(&p, &w, &Rat::new(1, 2));
    assert_eq!(r, Err(CurveError::InvalidArgument));
}

#[test]
fn rational_zero_weight_sum_is_reported() {
    let p = polygon(&[&[1]]);
    let w = vec![Rat::from_int(0)];
    let r = rational_bezier_curve_eval(&p, &w, &Rat::new(1, 2));
    assert_eq!(r, Err(CurveError::ZeroWeightSum));
}

#[test]
fn rational_constructors() {
    let half = Rat::new(1, 2);
    assert_eq!(half.num, 1);
    assert_eq!(half.den, 2);
    let three = Rat::from_int(3);
    assert_eq!(three.num, 3);
    assert_eq!(three.den, 1);
}
