//! Exact building blocks of a Newton-fractal explorer: the monic polynomial of
//! a list of Gaussian-integer roots (with Vieta's formulas and the vanishing of
//! the polynomial at its roots proved), Horner evaluation, nearest-root
//! classification, the enumeration of index selections, and the decisions
//! taken on user commands.
use vstd::prelude::*;

pub mod classify;
pub mod combinations;
pub mod controls;
pub mod field;
pub mod gaussian;
pub mod polynomial;
pub mod tangents;
pub mod vieta;

verus! {

} // verus!
