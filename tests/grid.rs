use csv_vtk::coord::coord_eq;
use csv_vtk::reshape::{reshape, ReshapeError};
use csv_vtk::row::SampleRow;
use csv_vtk::spans::{discover_spans, push_distinct};

fn row(x: f64, y: f64, z: f64, base: f64) -> SampleRow {
    let b = |d: f64| (base + d).to_bits();
    SampleRow {
        x: x.to_bits(),
        y: y.to_bits(),
        z: z.to_bits(),
        u1r: b(0.0),
        u2r: b(1.0),
        u3r: b(2.0),
        u1i: b(3.0),
        u2i: b(4.0),
        u3i: b(5.0),
        w1r: b(6.0),
        w2r: b(7.0),
        w3r: b(8.0),
        w1i: b(9.0),
        w2i: b(10.0),
        w3i: b(11.0),
    }
}

/// Rows of an axis-major grid over the given axis coordinates; row `c` has
/// field values starting at `100 * c`.
fn grid_rows(xs: &[f64], ys: &[f64], zs: &[f64]) -> Vec<SampleRow> {
    let mut rows = Vec::new();
    for &x in xs {
        for &y in ys {
            for &z in zs {
                let c = rows.len() as f64;
                rows.push(row(x, y, z, 100.0 * c));
            }
        }
    }
    rows
}

fn bits(v: &[f64]) -> Vec<u64> {
    v.iter().map(|f| f.to_bits()).collect()
}

#[test]
fn coordinates_compare_as_floats() {
    assert!(coord_eq(1.5f64.to_bits(), 1.5f64.to_bits()));
    assert!(!coord_eq(1.5f64.to_bits(), 2.5f64.to_bits()));
    assert!(coord_eq(0.0f64.to_bits(), (-0.0f64).to_bits()));
    assert!(!coord_eq(f64::NAN.to_bits(), f64::NAN.to_bits()));
    assert!(coord_eq(f64::INFINITY.to_bits(), f64::INFINITY.to_bits()));
}

#[test]
fn push_distinct_skips_equal_values() {
    let mut list = bits(&[2.0, 1.0]);
    push_distinct(&mut list, 2.0f64.to_bits());
    assert_eq!(list, bits(&[2.0, 1.0]));
    push_distinct(&mut list, 3.0f64.to_bits());
    assert_eq!(list, bits(&[2.0, 1.0, 3.0]));
    push_distinct(&mut list, (-0.0f64).to_bits());
    push_distinct(&mut list, 0.0f64.to_bits());
    assert_eq!(list.len(), 4);
}

#[test]
fn spans_keep_first_appearance_order() {
    let rows: Vec<SampleRow> = [2.0, 1.0, 2.0, 3.0].iter().map(|&x| row(x, 0.0, 0.0, 0.0)).collect();
    let spans = discover_spans(&rows);
    assert_eq!(spans.x, bits(&[2.0, 1.0, 3.0]));
    assert_eq!(spans.y, bits(&[0.0]));
    assert_eq!(spans.z, bits(&[0.0]));
    assert_eq!(spans.dims(), (3, 1, 1));
}

#[test]
fn spans_of_a_nonuniform_grid() {
    let rows = grid_rows(&[0.0, 0.5, 2.0], &[-1.0, 1.0], &[7.0, 3.0, 5.0, 4.0]);
    let spans = discover_spans(&rows);
    assert_eq!(spans.dims(), (3, 2, 4));
    assert_eq!(spans.x, bits(&[0.0, 0.5, 2.0]));
    assert_eq!(spans.y, bits(&[-1.0, 1.0]));
    assert_eq!(spans.z, bits(&[7.0, 3.0, 5.0, 4.0]));
}

#[test]
fn each_nan_coordinate_counts_once() {
    let rows = vec![row(f64::NAN, 1.0, 1.0, 0.0), row(f64::NAN, 1.0, 1.0, 0.0)];
    assert_eq!(discover_spans(&rows).dims(), (2, 1, 1));
}

#[test]
fn empty_input_gives_an_empty_grid() {
    let rows: Vec<SampleRow> = Vec::new();
    let spans = discover_spans(&rows);
    assert_eq!(spans.dims(), (0, 0, 0));
    let f = reshape(0, 0, 0, &rows).unwrap();
    assert!(f.real_velocity.is_empty());
    assert!(f.imaginary_velocity.is_empty());
    assert!(f.real_w.is_empty());
    assert!(f.imaginary_w.is_empty());
}

#[test]
fn reshape_fills_every_cell_once() {
    let rows = grid_rows(&[0.0, 1.0], &[0.0, 1.0, 2.0], &[0.0, 1.0]);
    let (nx, ny, nz) = discover_spans(&rows).dims();
    assert_eq!((nx, ny, nz), (2, 3, 2));
    let f = reshape(nx, ny, nz, &rows).unwrap();
    let n = nx * ny * nz;
    assert_eq!(f.real_velocity.len(), 3 * n);
    for i in 0..nx {
        for j in 0..ny {
            for k in 0..nz {
                let c = i * ny * nz + j * nz + k;
                let base = 100.0 * c as f64;
                for v in 0..3 {
                    let at = v * n + c;
                    assert_eq!(f64::from_bits(f.real_velocity[at]), base + v as f64);
                    assert_eq!(f64::from_bits(f.imaginary_velocity[at]), base + 3.0 + v as f64);
                    assert_eq!(f64::from_bits(f.real_w[at]), base + 6.0 + v as f64);
                    assert_eq!(f64::from_bits(f.imaginary_w[at]), base + 9.0 + v as f64);
                }
            }
        }
    }
}

#[test]
fn reshape_reports_first_unfilled_cell() {
    let mut rows = grid_rows(&[0.0, 1.0], &[0.0, 1.0], &[0.0, 1.0]);
    rows.pop();
    assert_eq!(reshape(2, 2, 2, &rows).unwrap_err(), ReshapeError::TooFewRows { i: 1, j: 1, k: 1 });
    rows.truncate(3);
    assert_eq!(reshape(2, 2, 2, &rows).unwrap_err(), ReshapeError::TooFewRows { i: 0, j: 1, k: 1 });
}

#[test]
fn reshape_reports_leftover_rows() {
    let mut rows = grid_rows(&[0.0, 1.0], &[0.0, 1.0], &[0.0, 1.0]);
    rows.push(row(0.0, 0.0, 0.0, 0.0));
    assert_eq!(reshape(2, 2, 2, &rows).unwrap_err(), ReshapeError::LeftoverRows);
}

#[test]
fn conversion_is_repeatable() {
    let rows = grid_rows(&[3.0, 1.0], &[2.0], &[0.0, 0.25, 0.5]);
    let a = discover_spans(&rows);
    let b = discover_spans(&rows);
    assert_eq!((a.x.clone(), a.y.clone(), a.z.clone()), (b.x, b.y, b.z));
    let (nx, ny, nz) = a.dims();
    let fa = reshape(nx, ny, nz, &rows).unwrap();
    let fb = reshape(nx, ny, nz, &rows).unwrap();
    assert_eq!(fa.real_velocity, fb.real_velocity);
    assert_eq!(fa.imaginary_velocity, fb.imaginary_velocity);
    assert_eq!(fa.real_w, fb.real_w);
    assert_eq!(fa.imaginary_w, fb.imaginary_w);
}
