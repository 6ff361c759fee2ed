//! Grid reshaping: rows consumed in axis-major order fill dense vector arrays
//! of shape `(3, nx, ny, nz)`, laid out flat in row-major order.
use vstd::prelude::*;
use crate::coord::{is_nan, same_value};
use crate::row::{column, component, Axis, FieldPart, SampleRow};

verus! {

use crate::spans::{ceil_div, lemma_ceil_step, lemma_first_appearance_enumerates, spans_of};

/// Position of cell `(i, j, k)` in axis-major order, which is also the index
/// of the row that fills it.
pub open spec fn cell_index(i: int, j: int, k: int, ny: int, nz: int) -> int {
    i * (ny * nz) + j * nz + k
}

/// The dense array of one vector part for `n` cells: entry `v * n + c` is
/// component `v` of row `c`.
pub open spec fn dense_array(rows: Seq<SampleRow>, n: nat, p: FieldPart) -> Seq<u64> {
    Seq::new(3 * n, |t: int| component(rows[t % (n as int)], p, t / (n as int)))
}

/// Why the rows do not fill the grid.
#[derive(Clone, Copy, Debug, PartialEq, Eq, Structural)]
pub enum ReshapeError {
    /// The rows ran out before cell `(i, j, k)`, the first unfilled one:
    /// the discovered grid size may be wrong.
    TooFewRows { i: usize, j: usize, k: usize },
    /// Rows remain after every cell was filled.
    LeftoverRows,
}

/// The four dense vector arrays, each of length `3 * nx * ny * nz`.
#[derive(Debug)]
pub struct FieldArrays {
    pub real_velocity: Vec<u64>,
    pub imaginary_velocity: Vec<u64>,
    pub real_w: Vec<u64>,
    pub imaginary_w: Vec<u64>,
}

impl FieldArrays {
    /// The array of one vector part.
    pub open spec fn part(&self, p: FieldPart) -> Seq<u64> {
        match p {
            FieldPart::VelocityReal => self.real_velocity@,
            FieldPart::VelocityImaginary => self.imaginary_velocity@,
            FieldPart::WReal => self.real_w@,
            FieldPart::WImaginary => self.imaginary_w@,
        }
    }
}

/// What reshaping `rows` onto an `nx` by `ny` by `nz` grid gives.
pub open spec fn reshape_post(
    rows: Seq<SampleRow>,
    nx: int,
    ny: int,
    nz: int,
    r: Result<FieldArrays, ReshapeError>,
) -> bool {
    let n = nx * ny * nz;
    match r {
        Ok(f) => rows.len() == n && forall|p: FieldPart| #[trigger] f.part(p) == dense_array(rows, n as nat, p),
        Err(ReshapeError::TooFewRows { i, j, k }) => rows.len() < n && i < nx && j < ny && k < nz
            && cell_index(i as int, j as int, k as int, ny, nz) == rows.len(),
        Err(ReshapeError::LeftoverRows) => rows.len() > n,
    }
}

proof fn lemma_cell_in_grid(i: int, j: int, k: int, nx: int, ny: int, nz: int)
    requires
        0 <= i < nx,
        0 <= j <= ny,
        0 <= k <= nz,
        j < ny || k == 0,
    ensures
        0 <= cell_index(i, j, k, ny, nz) <= nx * ny * nz,
        j < ny && k < nz ==> cell_index(i, j, k, ny, nz) < nx * ny * nz,
        cell_index(i, j, nz, ny, nz) == cell_index(i, j + 1, 0, ny, nz),
        cell_index(i, ny, 0, ny, nz) == cell_index(i + 1, 0, 0, ny, nz),
{
    assert(0 <= j * nz + k <= ny * nz) by (nonlinear_arith)
        requires
            0 <= j <= ny,
            0 <= k <= nz,
            j < ny || k == 0,
    ;
    assert(j < ny && k < nz ==> j * nz + k < ny * nz) by (nonlinear_arith)
        requires
            0 <= j,
            0 <= k,
    ;
    assert(0 <= i * (ny * nz) && (i + 1) * (ny * nz) <= nx * (ny * nz)) by (nonlinear_arith)
        requires
            0 <= i < nx,
            0 <= ny * nz,
    ;
    assert((i + 1) * (ny * nz) == i * (ny * nz) + ny * nz) by (nonlinear_arith);
    assert((j + 1) * nz == j * nz + nz) by (nonlinear_arith);
    assert(nx * (ny * nz) == nx * ny * nz) by (nonlinear_arith);
    assert(ny * nz >= 0) by (nonlinear_arith)
        requires
            0 <= j <= ny,
            0 <= k <= nz,
    ;
}

proof fn lemma_dense_array_index(n: int, t: int)
    requires
        0 <= t < 3 * n,
    ensures
        t == (t / n) * n + t % n,
        0 <= t % n < n,
        0 <= t / n < 3,
{
    vstd::arithmetic::div_mod::lemma_fundamental_div_mod(t, n);
    vstd::arithmetic::div_mod::lemma_mod_bound(t, n);
    vstd::arithmetic::div_mod::lemma_div_pos_is_pos(t, n);
    assert(t == (t / n) * n + t % n) by (nonlinear_arith)
        requires
            t == n * (t / n) + t % n,
    ;
    assert(t / n < 3) by (nonlinear_arith)
        requires
            t == (t / n) * n + t % n,
            0 <= t % n,
            t < 3 * n,
            0 < n,
    ;
}

/// Fills the four dense vector arrays of an `nx` by `ny` by `nz` grid from
/// `rows`, taking the next row for each cell `(i, j, k)` with `i` outermost
/// and `k` innermost. Fails if the rows run out first, or if rows remain.
pub fn reshape(nx: usize, ny: usize, nz: usize, rows: &Vec<SampleRow>) -> (r: Result<FieldArrays, ReshapeError>)
    requires
        3 * nx * ny * nz <= usize::MAX,
    ensures
        reshape_post(rows@, nx as int, ny as int, nz as int, r),
{
    let ghost n: int = nx * ny * nz;
    proof {
        assert(nx * ny * nz <= 3 * nx * ny * nz) by (nonlinear_arith)
            requires
                0 <= nx * ny * nz,
        ;
        assert(3 * nx * ny * nz == 3 * (nx * ny * nz)) by (nonlinear_arith);
    }
    let cells: usize = if nx == 0 || ny == 0 || nz == 0 {
        0
    } else {
        assert(nx * ny <= nx * ny * nz) by (nonlinear_arith)
            requires
                nz >= 1,
                nx >= 1,
                ny >= 1,
        ;
        nx * ny * nz
    };
    proof {
        if nx == 0 || ny == 0 || nz == 0 {
            assert(nx * ny * nz == 0) by (nonlinear_arith)
                requires
                    nx == 0 || ny == 0 || nz == 0,
            ;
        }
    }
    assert(cells == n);
    assert(3 * cells <= usize::MAX);
    let total: usize = 3 * cells;
    let mut real_velocity: Vec<u64> = Vec::new();
    let mut imaginary_velocity: Vec<u64> = Vec::new();
    let mut real_w: Vec<u64> = Vec::new();
    let mut imaginary_w: Vec<u64> = Vec::new();
    let mut t: usize = 0;
    while t < total
        invariant
            t <= total,
            total == 3 * cells,
            real_velocity@.len() == t,
            imaginary_velocity@.len() == t,
            real_w@.len() == t,
            imaginary_w@.len() == t,
        decreases total - t,
    {
        real_velocity.push(0);
        imaginary_velocity.push(0);
        real_w.push(0);
        imaginary_w.push(0);
        t = t + 1;
    }
    let mut c: usize = 0;
    let mut i: usize = 0;
    while i < nx
        invariant
            cells == n,
            n == nx * ny * nz,
            total == 3 * cells,
            i <= nx,
            c == cell_index(i as int, 0, 0, ny as int, nz as int),
            c <= rows@.len(),
            c <= cells,
            real_velocity@.len() == total,
            imaginary_velocity@.len() == total,
            real_w@.len() == total,
            imaginary_w@.len() == total,
            forall|p: FieldPart, v: int, q: int| 0 <= v < 3 && 0 <= q < c ==>
                (match p {
                    FieldPart::VelocityReal => real_velocity@,
                    FieldPart::VelocityImaginary => imaginary_velocity@,
                    FieldPart::WReal => real_w@,
                    FieldPart::WImaginary => imaginary_w@,
                })[v * cells + q] == #[trigger] component(rows@[q], p, v),
        decreases nx - i,
    {
        let mut j: usize = 0;
        while j < ny
            invariant
                cells == n,
            n == nx * ny * nz,
                total == 3 * cells,
                i < nx,
                j <= ny,
                c == cell_index(i as int, j as int, 0, ny as int, nz as int),
                c <= rows@.len(),
                c <= cells,
                real_velocity@.len() == total,
                imaginary_velocity@.len() == total,
                real_w@.len() == total,
                imaginary_w@.len() == total,
                forall|p: FieldPart, v: int, q: int| 0 <= v < 3 && 0 <= q < c ==>
                    (match p {
                        FieldPart::VelocityReal => real_velocity@,
                        FieldPart::VelocityImaginary => imaginary_velocity@,
                        FieldPart::WReal => real_w@,
                        FieldPart::WImaginary => imaginary_w@,
                    })[v * cells + q] == #[trigger] component(rows@[q], p, v),
            decreases ny - j,
        {
            let mut k: usize = 0;
            while k < nz
                invariant
                    cells == n,
            n == nx * ny * nz,
                    total == 3 * cells,
                    i < nx,
                    j < ny,
                    k <= nz,
                    c == cell_index(i as int, j as int, k as int, ny as int, nz as int),
                    c <= rows@.len(),
                    c <= cells,
                    real_velocity@.len() == total,
                    imaginary_velocity@.len() == total,
                    real_w@.len() == total,
                    imaginary_w@.len() == total,
                    forall|p: FieldPart, v: int, q: int| 0 <= v < 3 && 0 <= q < c ==>
                        (match p {
                            FieldPart::VelocityReal => real_velocity@,
                            FieldPart::VelocityImaginary => imaginary_velocity@,
                            FieldPart::WReal => real_w@,
                            FieldPart::WImaginary => imaginary_w@,
                        })[v * cells + q] == #[trigger] component(rows@[q], p, v),
                decreases nz - k,
            {
                proof {
                    lemma_cell_in_grid(i as int, j as int, k as int, nx as int, ny as int, nz as int);
                }
                assert(c < cells);
                if c >= rows.len() {
                    return Err(ReshapeError::TooFewRows { i, j, k });
                }
                let row = &rows[c];
                let ghost before = (real_velocity@, imaginary_velocity@, real_w@, imaginary_w@);
                real_velocity.set(c, row.u1r);
                real_velocity.set(cells + c, row.u2r);
                real_velocity.set(2 * cells + c, row.u3r);
                imaginary_velocity.set(c, row.u1i);
                imaginary_velocity.set(cells + c, row.u2i);
                imaginary_velocity.set(2 * cells + c, row.u3i);
                real_w.set(c, row.w1r);
                real_w.set(cells + c, row.w2r);
                real_w.set(2 * cells + c, row.w3r);
                imaginary_w.set(c, row.w1i);
                imaginary_w.set(cells + c, row.w2i);
                imaginary_w.set(2 * cells + c, row.w3i);
                proof {
                    assert forall|p: FieldPart, v: int, q: int| 0 <= v < 3 && 0 <= q < c + 1 implies
                        (match p {
                            FieldPart::VelocityReal => real_velocity@,
                            FieldPart::VelocityImaginary => imaginary_velocity@,
                            FieldPart::WReal => real_w@,
                            FieldPart::WImaginary => imaginary_w@,
                        })[v * cells + q] == #[trigger] component(rows@[q], p, v) by {
                        assert(v * cells == 0 || v * cells == cells || v * cells == 2 * cells) by (nonlinear_arith)
                            requires
                                0 <= v < 3,
                        ;
                        if q < c {
                            assert((match p {
                                FieldPart::VelocityReal => before.0,
                                FieldPart::VelocityImaginary => before.1,
                                FieldPart::WReal => before.2,
                                FieldPart::WImaginary => before.3,
                            })[v * cells + q] == component(rows@[q], p, v));
                        }
                    }
                }
                c = c + 1;
                k = k + 1;
            }
            proof {
                lemma_cell_in_grid(i as int, j as int, nz as int, nx as int, ny as int, nz as int);
            }
            j = j + 1;
        }
        proof {
            lemma_cell_in_grid(i as int, ny as int, 0, nx as int, ny as int, nz as int);
        }
        i = i + 1;
    }
    proof {
        assert(nx * (ny * nz) == nx * ny * nz) by (nonlinear_arith);
    }
    if c < rows.len() {
        return Err(ReshapeError::LeftoverRows);
    }
    let r = FieldArrays { real_velocity, imaginary_velocity, real_w, imaginary_w };
    proof {
        assert forall|p: FieldPart| #[trigger] r.part(p) == dense_array(rows@, n as nat, p) by {
            assert forall|t: int| 0 <= t < 3 * n implies r.part(p)[t] == dense_array(rows@, n as nat, p)[t] by {
                lemma_dense_array_index(n, t);
                assert(component(rows@[t % n], p, t / n) == r.part(p)[(t / n) * cells + t % n]);
            }
            assert(r.part(p) =~= dense_array(rows@, n as nat, p));
        }
    }
    Ok(r)
}

/// Reshaping is a function of its inputs: two results that both meet the
/// contract of `reshape` for the same rows and grid are equal, array for
/// array, so running it twice on the same input hands on identical arrays.
pub proof fn lemma_reshape_deterministic(
    rows: Seq<SampleRow>,
    nx: int,
    ny: int,
    nz: int,
    a: Result<FieldArrays, ReshapeError>,
    b: Result<FieldArrays, ReshapeError>,
)
    requires
        0 <= nx,
        0 <= ny,
        0 <= nz,
        reshape_post(rows, nx, ny, nz, a),
        reshape_post(rows, nx, ny, nz, b),
    ensures
        a is Ok <==> b is Ok,
        a is Ok ==> forall|p: FieldPart| #[trigger] a.unwrap().part(p) == b.unwrap().part(p),
        a is Err ==> a.unwrap_err() == b.unwrap_err(),
{
    match (a, b) {
        (Err(ReshapeError::TooFewRows { i, j, k }), Err(ReshapeError::TooFewRows { i: i2, j: j2, k: k2 })) => {
            lemma_cell_index_unique(i as int, j as int, k as int, ny, nz);
            lemma_cell_index_unique(i2 as int, j2 as int, k2 as int, ny, nz);
        },
        _ => {},
    }
}

proof fn lemma_cell_index_unique(i: int, j: int, k: int, ny: int, nz: int)
    requires
        0 <= i,
        0 <= j < ny,
        0 <= k < nz,
    ensures
        cell_index(i, j, k, ny, nz) / nz == i * ny + j,
        cell_index(i, j, k, ny, nz) % nz == k,
        (i * ny + j) / ny == i,
        (i * ny + j) % ny == j,
{
    assert(cell_index(i, j, k, ny, nz) == (i * ny + j) * nz + k) by (nonlinear_arith);
    assert(0 <= i * ny + j) by (nonlinear_arith)
        requires
            0 <= i,
            0 <= j < ny,
    ;
    vstd::arithmetic::div_mod::lemma_fundamental_div_mod_converse(cell_index(i, j, k, ny, nz), nz, i * ny + j, k);
    vstd::arithmetic::div_mod::lemma_fundamental_div_mod_converse(i * ny + j, ny, i, j);
}

/// With no rows, span discovery finds no coordinate on any axis, and
/// reshaping onto the resulting `0` by `0` by `0` grid succeeds with empty
/// arrays.
pub proof fn lemma_empty_input(r: Result<FieldArrays, ReshapeError>)
    requires
        reshape_post(Seq::empty(), 0, 0, 0, r),
    ensures
        spans_of(Seq::empty(), Axis::X).len() == 0,
        spans_of(Seq::empty(), Axis::Y).len() == 0,
        spans_of(Seq::empty(), Axis::Z).len() == 0,
        r is Ok,
        forall|p: FieldPart| #[trigger] r.unwrap().part(p).len() == 0,
{
    assert(0int * 0 * 0 == 0);
    assert forall|p: FieldPart| #[trigger] r.unwrap().part(p).len() == 0 by {
        assert(r.unwrap().part(p) == dense_array(Seq::empty(), 0, p));
    }
}

/// No two entries of `s` are equal and none is a NaN.
pub open spec fn distinct_values(s: Seq<u64>) -> bool {
    &&& forall|a: int, b: int|
        0 <= a < s.len() && 0 <= b < s.len() && a != b ==> !same_value(#[trigger] s[a], #[trigger] s[b])
    &&& forall|a: int| 0 <= a < s.len() ==> !is_nan(#[trigger] s[a])
}

proof fn lemma_cell_of_row(t: int, nx: int, ny: int, nz: int)
    requires
        0 < ny,
        0 < nz,
        0 <= t < nx * ny * nz,
    ensures
        0 <= t / (ny * nz) < nx,
        0 <= (t / nz) % ny < ny,
        0 <= t % nz < nz,
        cell_index(t / (ny * nz), (t / nz) % ny, t % nz, ny, nz) == t,
{
    let m = ny * nz;
    assert(m > 0) by (nonlinear_arith)
        requires
            0 < ny,
            0 < nz,
            m == ny * nz,
    ;
    vstd::arithmetic::div_mod::lemma_fundamental_div_mod(t, nz);
    vstd::arithmetic::div_mod::lemma_fundamental_div_mod(t / nz, ny);
    vstd::arithmetic::div_mod::lemma_div_denominator(t, nz, ny);
    vstd::arithmetic::div_mod::lemma_mod_bound(t, nz);
    vstd::arithmetic::div_mod::lemma_mod_bound(t / nz, ny);
    vstd::arithmetic::div_mod::lemma_div_pos_is_pos(t, m);
    let i = t / m;
    let j = (t / nz) % ny;
    let k = t % nz;
    assert(nz * ny == m) by (nonlinear_arith)
        requires
            m == ny * nz,
    ;
    assert(t == i * m + j * nz + k) by (nonlinear_arith)
        requires
            t == nz * (t / nz) + k,
            t / nz == ny * i + j,
            m == ny * nz,
    ;
    assert(nx * ny * nz == nx * m) by (nonlinear_arith)
        requires
            m == ny * nz,
    ;
    assert(i >= nx ==> i * m >= nx * m) by (nonlinear_arith)
        requires
            m > 0,
    ;
    assert(j * nz >= 0) by (nonlinear_arith)
        requires
            0 <= j,
            0 < nz,
    ;
}

/// Round trip of the grid shape: when the rows list the cells of a grid with
/// distinct axis coordinates `xs`, `ys`, `zs` in axis-major order (`x`
/// outermost, `z` innermost), span discovery recovers exactly those axis
/// lists, so the grid dimensions are the counts of distinct coordinates, and
/// the row count is the cell count that reshaping needs.
pub proof fn lemma_grid_order_round_trip(rows: Seq<SampleRow>, xs: Seq<u64>, ys: Seq<u64>, zs: Seq<u64>)
    requires
        xs.len() > 0,
        ys.len() > 0,
        zs.len() > 0,
        distinct_values(xs),
        distinct_values(ys),
        distinct_values(zs),
        rows.len() == xs.len() * ys.len() * zs.len(),
        forall|i: int, j: int, k: int|
            0 <= i < xs.len() && 0 <= j < ys.len() && 0 <= k < zs.len() ==> {
                let r = #[trigger] rows[cell_index(i, j, k, ys.len() as int, zs.len() as int)];
                r.x == xs[i] && r.y == ys[j] && r.z == zs[k]
            },
    ensures
        spans_of(rows, Axis::X) == xs,
        spans_of(rows, Axis::Y) == ys,
        spans_of(rows, Axis::Z) == zs,
        rows.len() == spans_of(rows, Axis::X).len() * spans_of(rows, Axis::Y).len() * spans_of(rows, Axis::Z).len(),
{
    let nx = xs.len() as int;
    let ny = ys.len() as int;
    let nz = zs.len() as int;
    let n = rows.len() as int;
    let m = ny * nz;
    assert(m > 0 && nx * ny > 0 && nx * ny >= ny && n == (nx * ny) * nz && n == nx * m && n >= nz) by (nonlinear_arith)
        requires
            nx > 0,
            ny > 0,
            nz > 0,
            m == ny * nz,
            n == nx * ny * nz,
    ;
    assert forall|t: int| 0 <= t < n implies {
        &&& #[trigger] rows[t].x == xs[t / m]
        &&& rows[t].y == ys[(t / nz) % ny]
        &&& rows[t].z == zs[t % nz]
    } by {
        lemma_cell_of_row(t, nx, ny, nz);
        let r = rows[cell_index(t / m, (t / nz) % ny, t % nz, ny, nz)];
    }
    vstd::arithmetic::div_mod::lemma_fundamental_div_mod_converse(0, m, 0, 0);
    vstd::arithmetic::div_mod::lemma_fundamental_div_mod_converse(0, nz, 0, 0);
    vstd::arithmetic::div_mod::lemma_fundamental_div_mod_converse(n, m, nx, 0);
    vstd::arithmetic::div_mod::lemma_fundamental_div_mod_converse(n, nz, nx * ny, 0);

    let sx = column(rows, Axis::X);
    let fx = |u: int| u / m;
    let hx = |u: int| ceil_div(u, m);
    assert forall|u: int| 0 <= u < sx.len() implies 0 <= #[trigger] fx(u) < xs.len() && sx[u] == xs[fx(u)] by {
        lemma_cell_of_row(u, nx, ny, nz);
    }
    assert forall|u: int| 0 <= u < sx.len() implies (fx(u) < #[trigger] hx(u) && hx(u + 1) == hx(u)) || (fx(u)
        == hx(u) && hx(u + 1) == hx(u) + 1) by {
        lemma_ceil_step(u, m);
    }
    lemma_first_appearance_enumerates(sx, xs, fx, hx, n);

    let sz = column(rows, Axis::Z);
    let fz = |u: int| u % nz;
    let hz = |u: int| if u < nz { u } else { nz };
    assert forall|u: int| 0 <= u < sz.len() implies 0 <= #[trigger] fz(u) < zs.len() && sz[u] == zs[fz(u)] by {
        lemma_cell_of_row(u, nx, ny, nz);
    }
    assert forall|u: int| 0 <= u < sz.len() implies (fz(u) < #[trigger] hz(u) && hz(u + 1) == hz(u)) || (fz(u)
        == hz(u) && hz(u + 1) == hz(u) + 1) by {
        lemma_cell_of_row(u, nx, ny, nz);
        if u < nz {
            vstd::arithmetic::div_mod::lemma_fundamental_div_mod_converse(u, nz, 0, u);
        }
    }
    lemma_first_appearance_enumerates(sz, zs, fz, hz, n);

    let sy = column(rows, Axis::Y);
    let fy = |u: int| (u / nz) % ny;
    let hy = |u: int| if ceil_div(u, nz) < ny { ceil_div(u, nz) } else { ny };
    assert forall|u: int| 0 <= u < sy.len() implies 0 <= #[trigger] fy(u) < ys.len() && sy[u] == ys[fy(u)] by {
        lemma_cell_of_row(u, nx, ny, nz);
    }
    assert forall|u: int| 0 <= u < sy.len() implies (fy(u) < #[trigger] hy(u) && hy(u + 1) == hy(u)) || (fy(u)
        == hy(u) && hy(u + 1) == hy(u) + 1) by {
        lemma_cell_of_row(u, nx, ny, nz);
        lemma_ceil_step(u, nz);
        let q = u / nz;
        if q < ny {
            vstd::arithmetic::div_mod::lemma_fundamental_div_mod_converse(q, ny, 0, q);
        }
    }
    lemma_first_appearance_enumerates(sy, ys, fy, hy, n);

    assert(rows.take(n) =~= rows);
    assert(sx.take(n) =~= sx);
    assert(sy.take(n) =~= sy);
    assert(sz.take(n) =~= sz);
    assert(xs.take(nx) =~= xs);
    assert(ys.take(ny) =~= ys);
    assert(zs.take(nz) =~= zs);
}

} // verus!
