//! One sample of the input table.
use vstd::prelude::*;

verus! {

/// One axis of the grid.
#[derive(Clone, Copy, Debug, PartialEq, Eq, Structural)]
pub enum Axis {
    X,
    Y,
    Z,
}

/// One of the four dense vector arrays: real or imaginary part of the
/// velocity field or of the `w` field.
#[derive(Clone, Copy, Debug, PartialEq, Eq, Structural)]
pub enum FieldPart {
    VelocityReal,
    VelocityImaginary,
    WReal,
    WImaginary,
}

/// A sample row: three coordinates and the real and imaginary parts of the
/// three components of the velocity and `w` fields, each as binary64 bits.
#[derive(Clone, Copy, Debug, PartialEq, Eq, Structural)]
pub struct SampleRow {
    pub x: u64,
    pub y: u64,
    pub z: u64,
    pub u1r: u64,
    pub u2r: u64,
    pub u3r: u64,
    pub u1i: u64,
    pub u2i: u64,
    pub u3i: u64,
    pub w1r: u64,
    pub w2r: u64,
    pub w3r: u64,
    pub w1i: u64,
    pub w2i: u64,
    pub w3i: u64,
}

/// The coordinate of a row along an axis.
pub open spec fn coord_of(r: SampleRow, a: Axis) -> u64 {
    match a {
        Axis::X => r.x,
        Axis::Y => r.y,
        Axis::Z => r.z,
    }
}

/// Component `v` (0, 1 or 2) of one of the four vector parts of a row.
pub open spec fn component(r: SampleRow, p: FieldPart, v: int) -> u64 {
    match p {
        FieldPart::VelocityReal => if v == 0 { r.u1r } else if v == 1 { r.u2r } else { r.u3r },
        FieldPart::VelocityImaginary => if v == 0 { r.u1i } else if v == 1 { r.u2i } else { r.u3i },
        FieldPart::WReal => if v == 0 { r.w1r } else if v == 1 { r.w2r } else { r.w3r },
        FieldPart::WImaginary => if v == 0 { r.w1i } else if v == 1 { r.w2i } else { r.w3i },
    }
}

/// The coordinates of a sequence of rows along one axis, in row order.
pub open spec fn column(rows: Seq<SampleRow>, a: Axis) -> Seq<u64> {
    rows.map_values(|r: SampleRow| coord_of(r, a))
}

} // verus!
