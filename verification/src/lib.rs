//! Exact evaluation of points on Bezier and rational Bezier curves through
//! Bernstein basis polynomials.
//!
//! Every quantity is an exact rational number ([`rational::Rat`]), so the
//! contracts can state the value of each result precisely: the Bernstein
//! basis value is `C(n,i) * t^i * (1-t)^(n-i)`, a curve point is the direct
//! Bernstein-weighted sum of the control points, and the rational variant
//! divides that sum by the Bernstein-weighted sum of the weights.

pub mod bernstein;
pub mod binomial;
pub mod curve;
pub mod error;
pub mod rational;
