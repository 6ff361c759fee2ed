//! Reconstruction of a structured rectilinear grid from a flat list of
//! coordinate-tagged samples of two complex vector fields.
//!
//! Every floating-point sample is held as its IEEE-754 binary64 bit pattern,
//! so that the grid logic can be stated and proved over plain integers.
use vstd::prelude::*;

pub mod coord;
pub mod reshape;
pub mod row;
pub mod spans;

verus! {

} // verus!
