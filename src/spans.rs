//! Span discovery: the distinct coordinates along each axis, in order of
//! first appearance, and the grid dimensions they give.
use vstd::prelude::*;
use crate::coord::{coord_eq, is_nan, same_value};
use crate::row::{column, coord_of, Axis, SampleRow};

verus! {

/// Some element of `s` holds the same value as `b`.
pub open spec fn contains_value(s: Seq<u64>, b: u64) -> bool {
    exists|i: int| 0 <= i < s.len() && same_value(#[trigger] s[i], b)
}

/// The values of `s` with every value dropped that equals an earlier kept
/// one, in order of first appearance.
pub open spec fn first_appearance(s: Seq<u64>) -> Seq<u64>
    decreases s.len(),
{
    if s.len() == 0 {
        Seq::empty()
    } else {
        let kept = first_appearance(s.drop_last());
        if contains_value(kept, s.last()) {
            kept
        } else {
            kept.push(s.last())
        }
    }
}

/// The first-appearance list of `s` holds each value of `s` once: no two of
/// its entries are equal, every value of `s` but a NaN equals one of them,
/// each of them is taken from `s`, and it is no longer than `s`. Its length is
/// thus the count of distinct values of `s`.
pub proof fn lemma_first_appearance_distinct(s: Seq<u64>)
    ensures
        first_appearance(s).len() <= s.len(),
        forall|i: int, j: int|
            0 <= i < j < first_appearance(s).len() ==> !same_value(
                #[trigger] first_appearance(s)[i],
                #[trigger] first_appearance(s)[j],
            ),
        forall|t: int| 0 <= t < s.len() && !is_nan(s[t]) ==> contains_value(first_appearance(s), #[trigger] s[t]),
        forall|i: int|
            0 <= i < first_appearance(s).len() ==> exists|t: int| 0 <= t < s.len() && s[t] == #[trigger] first_appearance(s)[i],
    decreases s.len(),
{
    if s.len() > 0 {
        let p = s.drop_last();
        lemma_first_appearance_distinct(p);
        let kept = first_appearance(p);
        let r = first_appearance(s);
        assert forall|t: int| 0 <= t < s.len() && !is_nan(s[t]) implies contains_value(r, #[trigger] s[t]) by {
            if t < s.len() - 1 {
                assert(p[t] == s[t]);
                let w = choose|w: int| 0 <= w < kept.len() && same_value(#[trigger] kept[w], p[t]);
                assert(r[w] == kept[w]);
            } else if !contains_value(kept, s.last()) {
                assert(r[kept.len() as int] == s[t]);
            }
        }
        assert forall|i: int| 0 <= i < r.len() implies exists|t: int| 0 <= t < s.len() && s[t] == #[trigger] r[i] by {
            if i < kept.len() {
                assert(r[i] == kept[i]);
                let t = choose|t: int| 0 <= t < p.len() && p[t] == #[trigger] kept[i];
                assert(s[t] == r[i]);
            } else {
                assert(s[s.len() - 1] == r[i]);
            }
        }
        assert forall|i: int, j: int| 0 <= i < j < r.len() implies !same_value(#[trigger] r[i], #[trigger] r[j]) by {
            if j < kept.len() {
                assert(r[i] == kept[i] && r[j] == kept[j]);
            } else {
                assert(r[i] == kept[i]);
                assert(!same_value(kept[i], s.last()));
            }
        }
    }
}

/// `t / m` rounded up.
pub open spec fn ceil_div(t: int, m: int) -> int {
    if t % m == 0 {
        t / m
    } else {
        t / m + 1
    }
}

/// Stepping `t` by one either leaves `ceil_div(t, m)` above `t / m`, and
/// unchanged, or finds it equal to `t / m` and raises it by one.
pub(crate) proof fn lemma_ceil_step(t: int, m: int)
    requires
        0 <= t,
        0 < m,
    ensures
        (t / m < ceil_div(t, m) && ceil_div(t + 1, m) == ceil_div(t, m)) || (t / m == ceil_div(t, m)
            && ceil_div(t + 1, m) == ceil_div(t, m) + 1),
{
    vstd::arithmetic::div_mod::lemma_fundamental_div_mod(t, m);
    vstd::arithmetic::div_mod::lemma_mod_bound(t, m);
    let q = t / m;
    let r = t % m;
    assert(t == q * m + r) by (nonlinear_arith)
        requires
            t == m * q + r,
    ;
    if r + 1 < m {
        vstd::arithmetic::div_mod::lemma_fundamental_div_mod_converse(t + 1, m, q, r + 1);
    } else {
        assert(t + 1 == (q + 1) * m + 0) by (nonlinear_arith)
            requires
                t == q * m + r,
                r + 1 == m,
        ;
        vstd::arithmetic::div_mod::lemma_fundamental_div_mod_converse(t + 1, m, q + 1, 0);
    }
}

/// When `s[u]` is `xs[f(u)]` for distinct, NaN-free `xs`, and each step
/// either repeats one of the first `h(u)` entries of `xs` or brings the next
/// one, the first-appearance list of the first `t` values of `s` is the first
/// `h(t)` entries of `xs`.
pub(crate) proof fn lemma_first_appearance_enumerates(
    s: Seq<u64>,
    xs: Seq<u64>,
    f: spec_fn(int) -> int,
    h: spec_fn(int) -> int,
    t: int,
)
    requires
        0 <= t <= s.len(),
        forall|a: int, b: int|
            0 <= a < xs.len() && 0 <= b < xs.len() && a != b ==> !same_value(#[trigger] xs[a], #[trigger] xs[b]),
        forall|a: int| 0 <= a < xs.len() ==> !is_nan(#[trigger] xs[a]),
        forall|u: int| 0 <= u < s.len() ==> 0 <= #[trigger] f(u) < xs.len() && s[u] == xs[f(u)],
        h(0) == 0,
        forall|u: int|
            0 <= u < s.len() ==> (f(u) < #[trigger] h(u) && h(u + 1) == h(u)) || (f(u) == h(u) && h(u + 1) == h(u)
                + 1),
    ensures
        0 <= h(t) <= xs.len(),
        first_appearance(s.take(t)) == xs.take(h(t)),
    decreases t,
{
    if t == 0 {
        assert(s.take(0) =~= Seq::<u64>::empty());
        assert(xs.take(0) =~= Seq::<u64>::empty());
    } else {
        lemma_first_appearance_enumerates(s, xs, f, h, t - 1);
        let u = t - 1;
        let kept = xs.take(h(u));
        assert(s.take(t).drop_last() =~= s.take(u));
        assert(s.take(t).last() == xs[f(u)]);
        if f(u) < h(u) {
            assert(kept[f(u)] == xs[f(u)]);
            assert(contains_value(kept, xs[f(u)]));
        } else {
            assert forall|i: int| 0 <= i < kept.len() implies !same_value(#[trigger] kept[i], xs[f(u)]) by {
                assert(kept[i] == xs[i]);
            }
            assert(kept.push(xs[f(u)]) =~= xs.take(h(t)));
        }
    }
}

/// The distinct coordinates along each axis, in order of first appearance.
#[derive(Debug)]
pub struct GridSpans {
    pub x: Vec<u64>,
    pub y: Vec<u64>,
    pub z: Vec<u64>,
}

impl GridSpans {
    /// The grid dimensions `(nx, ny, nz)`.
    pub fn dims(&self) -> (r: (usize, usize, usize))
        ensures
            r.0 == self.x@.len(),
            r.1 == self.y@.len(),
            r.2 == self.z@.len(),
    {
        (self.x.len(), self.y.len(), self.z.len())
    }
}

/// The spans that the rows give: along each axis, the first-appearance
/// distinct list of that axis' column.
pub open spec fn spans_of(rows: Seq<SampleRow>, a: Axis) -> Seq<u64> {
    first_appearance(column(rows, a))
}

/// Appends `b` to `list` unless the list already holds the same value.
pub fn push_distinct(list: &mut Vec<u64>, b: u64)
    ensures
        final(list)@ == (if contains_value(old(list)@, b) {
            old(list)@
        } else {
            old(list)@.push(b)
        }),
{
    let mut i: usize = 0;
    while i < list.len()
        invariant
            i <= list@.len(),
            list@ == old(list)@,
            forall|t: int| 0 <= t < i ==> !same_value(#[trigger] list@[t], b),
        decreases list@.len() - i,
    {
        if coord_eq(list[i], b) {
            return;
        }
        i = i + 1;
    }
    list.push(b);
}

proof fn lemma_column_prefix(rows: Seq<SampleRow>, t: int, a: Axis)
    requires
        0 <= t < rows.len(),
    ensures
        column(rows.take(t + 1), a).drop_last() == column(rows.take(t), a),
        column(rows.take(t + 1), a).last() == coord_of(rows[t], a),
        column(rows.take(t + 1), a).len() > 0,
{
    assert(column(rows.take(t + 1), a).drop_last() =~= column(rows.take(t), a));
}

/// Scans the rows once and collects, along each axis, the distinct
/// coordinates in order of first appearance.
pub fn discover_spans(rows: &Vec<SampleRow>) -> (r: GridSpans)
    ensures
        r.x@ == spans_of(rows@, Axis::X),
        r.y@ == spans_of(rows@, Axis::Y),
        r.z@ == spans_of(rows@, Axis::Z),
{
    let mut x: Vec<u64> = Vec::new();
    let mut y: Vec<u64> = Vec::new();
    let mut z: Vec<u64> = Vec::new();
    let mut t: usize = 0;
    proof {
        assert(column(rows@.take(0), Axis::X) =~= Seq::<u64>::empty());
        assert(column(rows@.take(0), Axis::Y) =~= Seq::<u64>::empty());
        assert(column(rows@.take(0), Axis::Z) =~= Seq::<u64>::empty());
    }
    while t < rows.len()
        invariant
            t <= rows@.len(),
            x@ == first_appearance(column(rows@.take(t as int), Axis::X)),
            y@ == first_appearance(column(rows@.take(t as int), Axis::Y)),
            z@ == first_appearance(column(rows@.take(t as int), Axis::Z)),
        decreases rows@.len() - t,
    {
        let row = &rows[t];
        proof {
            lemma_column_prefix(rows@, t as int, Axis::X);
            lemma_column_prefix(rows@, t as int, Axis::Y);
            lemma_column_prefix(rows@, t as int, Axis::Z);
        }
        push_distinct(&mut x, row.x);
        push_distinct(&mut y, row.y);
        push_distinct(&mut z, row.z);
        t = t + 1;
    }
    proof {
        assert(rows@.take(t as int) =~= rows@);
    }
    GridSpans { x, y, z }
}

} // verus!
