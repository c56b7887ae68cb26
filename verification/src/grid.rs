//! The elevation grid: a square, row-major heightmap with gradient queries,
//! mass-conserving local deposits, and seeded terrain generation.

use vstd::prelude::*;
use vstd::pervasive::VecAdditionalExecFns;
use vstd::arithmetic::div_mod::{
    lemma_div_pos_is_pos,
    lemma_fundamental_div_mod,
    lemma_fundamental_div_mod_converse,
    lemma_multiply_divide_lt,
    lemma_small_mod,
};
use crate::fixed::{
    SCALE, HALF, HMAX, QMAX, PMAX, MAX_SIZE, tdiv, spec_cap, cap, spec_isqrt, isqrt,
};

verus! {

/// Clamp one fixed-point coordinate onto the grid and resolve its cell:
/// negative values map to cell 0, values at or beyond the far edge map to
/// the last cell, and interior values truncate toward zero.
pub open spec fn spec_axis_cell(p: int, size: int) -> int
    recommends
        2 <= size,
{
    if p < 0 {
        0
    } else if p >= size * SCALE {
        size - 1
    } else {
        p / (SCALE as int)
    }
}

/// The flat row-major index of the cell containing a continuous position.
/// The modulo on the column is a defensive no-op once the column is clamped
/// below `size`; it is kept for parity with the executable code.
pub open spec fn spec_unroll(px: int, py: int, size: int) -> int {
    spec_axis_cell(px, size) % size + spec_axis_cell(py, size) * size
}

/// Each clamped axis cell lies on the grid.
pub proof fn lemma_axis_cell_bounds(p: int, size: int)
    requires
        2 <= size <= MAX_SIZE,
    ensures
        0 <= spec_axis_cell(p, size) < size,
{
    if 0 <= p < size * SCALE {
        lemma_div_pos_is_pos(p, SCALE as int);
        assert(p < (SCALE as int) * size) by (nonlinear_arith)
            requires
                p < size * SCALE,
        ;
        lemma_multiply_divide_lt(p, SCALE as int, size);
    }
}

/// The projection always lands inside the flat height array.
pub proof fn lemma_unroll_bounds(px: int, py: int, size: int)
    requires
        2 <= size <= MAX_SIZE,
    ensures
        0 <= spec_unroll(px, py, size) < size * size,
        spec_unroll(px, py, size) == spec_axis_cell(px, size) + spec_axis_cell(py, size) * size,
{
    let x = spec_axis_cell(px, size);
    let y = spec_axis_cell(py, size);
    lemma_axis_cell_bounds(px, size);
    lemma_axis_cell_bounds(py, size);
    lemma_small_mod(x as nat, size as nat);
    assert(x + y * size <= (size - 1) + (size - 1) * size) by (nonlinear_arith)
        requires
            x <= size - 1,
            0 <= y <= size - 1,
            2 <= size,
    ;
    assert((size - 1) + (size - 1) * size < size * size) by (nonlinear_arith)
        requires
            2 <= size,
    ;
    assert(0 <= x + y * size) by (nonlinear_arith)
        requires
            0 <= x,
            0 <= y,
            2 <= size,
    ;
}

/// Project a continuous fixed-point position onto the flat grid index.
pub fn unroll(px: i64, py: i64, size: usize) -> (i: usize)
    requires
        2 <= size <= MAX_SIZE,
    ensures
        i == spec_unroll(px as int, py as int, size as int),
        i < size * size,
{
    proof {
        lemma_unroll_bounds(px as int, py as int, size as int);
    }
    let extent: i64 = (size as i64) * SCALE;
    let x: usize = if px < 0 {
        0
    } else if px >= extent {
        size - 1
    } else {
        (px / SCALE) as usize
    };
    let y: usize = if py < 0 {
        0
    } else if py >= extent {
        size - 1
    } else {
        (py / SCALE) as usize
    };
    proof {
        assert(x == spec_axis_cell(px as int, size as int));
        assert(y == spec_axis_cell(py as int, size as int));
        assert(y * size + size <= size * size) by (nonlinear_arith)
            requires
                0 <= y <= size - 1,
                2 <= size,
        ;
        assert(size * size <= 0x4000_0000) by (nonlinear_arith)
            requires
                2 <= size <= 32768,
        ;
    }
    x % size + y * size
}

/// The square heightmap: `size * size` fixed-point heights in row-major
/// order (index `x + y * size`), each bounded by `HMAX` in magnitude.
pub struct Elevation {
    pub data: Vec<i64>,
    pub size: usize,
}

/// The window base for the gradient's 2x2 finite-difference neighborhood:
/// a cell on the rightmost column shifts one cell left, one on the bottom
/// row shifts one row up, so the window never leaves the grid.
pub open spec fn spec_grad_base(i: int, size: int) -> int {
    let i1 = if i % size == size - 1 {
        i - 1
    } else {
        i
    };
    if i1 + size >= size * size {
        i1 - size
    } else {
        i1
    }
}

/// The finite-difference gradient at a cell: each axis averages the two
/// fixed-point height differences along that axis over the 2x2 window.
pub open spec fn spec_grad(data: Seq<i64>, size: int, i: int) -> (int, int) {
    let b = spec_grad_base(i, size);
    (
        tdiv(data[b + 1] - data[b], 2) + tdiv(data[b + 1 + size] - data[b + size], 2),
        tdiv(data[b + size] - data[b], 2) + tdiv(data[b + 1 + size] - data[b + 1], 2),
    )
}

/// The gradient window stays strictly inside the grid for every cell.
pub proof fn lemma_grad_base_bounds(i: int, size: int)
    requires
        2 <= size <= MAX_SIZE,
        0 <= i < size * size,
    ensures
        0 <= spec_grad_base(i, size),
        spec_grad_base(i, size) + 1 + size < size * size,
{
    let q = i / size;
    let r = i % size;
    lemma_fundamental_div_mod(i, size);
    assert(0 <= r < size);
    assert(0 <= q < size) by (nonlinear_arith)
        requires
            i == size * q + r,
            0 <= r < size,
            0 <= i < size * size,
            2 <= size,
    ;
    let i1 = if r == size - 1 {
        i - 1
    } else {
        i
    };
    let r1 = if r == size - 1 {
        r - 1
    } else {
        r
    };
    assert(i1 == size * q + r1) by (nonlinear_arith)
        requires
            i == size * q + r,
            (r == size - 1 && i1 == i - 1 && r1 == r - 1) || (r != size - 1 && i1 == i && r1
                == r),
    ;
    assert(i1 == q * size + r1) by (nonlinear_arith)
        requires
            i1 == size * q + r1,
    ;
    lemma_fundamental_div_mod_converse(i1, size, q, r1);
    assert(i1 % size == r1 && i1 / size == q);
    assert(r1 <= size - 2);
    let b = spec_grad_base(i, size);
    if i1 + size >= size * size {
        assert(b == i1 - size);
        assert(q == size - 1) by (nonlinear_arith)
            requires
                i1 == size * q + r1,
                0 <= r1 < size,
                0 <= q < size,
                i1 + size >= size * size,
                2 <= size,
        ;
        assert(b == (size - 2) * size + r1) by (nonlinear_arith)
            requires
                b == i1 - size,
                i1 == size * q + r1,
                q == size - 1,
        ;
        assert(b >= 0 && b + 1 + size < size * size) by (nonlinear_arith)
            requires
                b == (size - 2) * size + r1,
                0 <= r1 <= size - 2,
                2 <= size,
        ;
    } else {
        assert(b == i1);
        assert(b + 1 + size < size * size) by (nonlinear_arith)
            requires
                b == size * q + r1,
                0 <= r1 <= size - 2,
                0 <= q,
                b + size < size * size,
                2 <= size,
        ;
    }
}

/// The sum of every height in the grid, the conserved quantity of deposits.
pub open spec fn total(s: Seq<i64>) -> int
    decreases s.len(),
{
    if s.len() == 0 {
        0
    } else {
        total(s.drop_last()) + s.last()
    }
}

/// Rewriting one cell moves the grid total by exactly the difference.
pub proof fn lemma_total_update(s: Seq<i64>, i: int, x: i64)
    requires
        0 <= i < s.len(),
    ensures
        total(s.update(i, x)) == total(s) - s[i] + x,
    decreases s.len(),
{
    let t = s.update(i, x);
    if i == s.len() - 1 {
        assert(t.drop_last() =~= s.drop_last());
    } else {
        assert(t.drop_last() =~= s.drop_last().update(i, x));
        lemma_total_update(s.drop_last(), i, x);
        assert(t.last() == s.last());
    }
}

/// The fraction of a deposit landing on each diagonal neighbor.
pub open spec fn spec_corner_share(v: int) -> int {
    tdiv(v, 20)
}

/// The fraction of a deposit landing on each orthogonal neighbor.
pub open spec fn spec_edge_share(v: int) -> int {
    tdiv(v, 10)
}

/// The fraction of a deposit landing on the center cell: the 0.4 weight
/// plus whatever rounding left over from the eight neighbor shares, so the
/// nine shares always sum to the deposited amount exactly.
pub open spec fn spec_center_share(v: int) -> int {
    v - 4 * spec_corner_share(v) - 4 * spec_edge_share(v)
}

/// One cell update of a deposit: the share is added to the cell containing
/// the (clamped) position, and the result is kept within `HMAX`.
pub open spec fn spec_bump(s: Seq<i64>, size: int, qx: int, qy: int, a: int) -> Seq<i64> {
    let i = spec_unroll(qx, qy, size);
    s.update(i, spec_cap(s[i] + a, HMAX as int) as i64)
}

/// A whole deposit: the amount spread over the 3x3 neighborhood of the cell
/// containing the position, diagonal neighbors first within each column,
/// with weights 0.05 (diagonal), 0.1 (orthogonal) and 0.4 (center, plus the
/// rounding remainder). Neighbors beyond the edge clamp to the nearest cell.
pub open spec fn spec_deposit(s: Seq<i64>, size: int, px: int, py: int, v: int) -> Seq<i64> {
    let c = spec_corner_share(v);
    let e = spec_edge_share(v);
    let m = spec_center_share(v);
    let s1 = spec_bump(s, size, px - SCALE, py - SCALE, c);
    let s2 = spec_bump(s1, size, px - SCALE, py, e);
    let s3 = spec_bump(s2, size, px - SCALE, py + SCALE, c);
    let s4 = spec_bump(s3, size, px, py - SCALE, e);
    let s5 = spec_bump(s4, size, px, py, m);
    let s6 = spec_bump(s5, size, px, py + SCALE, e);
    let s7 = spec_bump(s6, size, px + SCALE, py - SCALE, c);
    let s8 = spec_bump(s7, size, px + SCALE, py, e);
    spec_bump(s8, size, px + SCALE, py + SCALE, c)
}

impl Elevation {
    /// The grid's structural invariant: a square grid of bounded heights.
    pub open spec fn wf(&self) -> bool {
        &&& 2 <= self.size <= MAX_SIZE
        &&& self.data@.len() == self.size * self.size
        &&& forall|i: int| 0 <= i < self.data@.len() ==> -HMAX <= #[trigger] self.data@[i]
            <= HMAX
    }

    /// The height of the cell containing a continuous position.
    pub fn height_at(&self, px: i64, py: i64) -> (h: i64)
        requires
            self.wf(),
        ensures
            h == self.data@[spec_unroll(px as int, py as int, self.size as int)],
            -HMAX <= h <= HMAX,
    {
        let i = unroll(px, py, self.size);
        self.data[i]
    }

    /// The finite-difference gradient at a flat cell index. The 2x2 window
    /// shifts off the rightmost column and the bottom row, so every index of
    /// the grid has a well-defined gradient.
    pub fn grad(&self, i: usize) -> (g: (i64, i64))
        requires
            self.wf(),
            i < self.size * self.size,
        ensures
            g.0 == spec_grad(self.data@, self.size as int, i as int).0,
            g.1 == spec_grad(self.data@, self.size as int, i as int).1,
            -2 * HMAX <= g.0 <= 2 * HMAX,
            -2 * HMAX <= g.1 <= 2 * HMAX,
    {
        proof {
            lemma_grad_base_bounds(i as int, self.size as int);
            assert(self.size * self.size <= 0x4000_0000) by (nonlinear_arith)
                requires
                    2 <= self.size <= 32768,
            ;
        }
        let size = self.size;
        let mut b = i;
        if b % size == size - 1 {
            b = b - 1;
        }
        if b + size >= self.data.len() {
            b = b - size;
        }
        assert(b == spec_grad_base(i as int, size as int));
        let d00 = self.data[b];
        let d10 = self.data[b + 1];
        let d01 = self.data[b + size];
        let d11 = self.data[b + 1 + size];
        let gx = (d10 - d00) / 2 + (d11 - d01) / 2;
        let gy = (d01 - d00) / 2 + (d11 - d10) / 2;
        (gx, gy)
    }

    /// Add one share of a deposit to the cell containing `(qx, qy)`,
    /// keeping the cell within the height bound.
    fn bump(&mut self, qx: i64, qy: i64, a: i64)
        requires
            old(self).wf(),
            -QMAX <= a <= QMAX,
        ensures
            final(self).wf(),
            final(self).size == old(self).size,
            final(self).data@ == spec_bump(
                old(self).data@,
                old(self).size as int,
                qx as int,
                qy as int,
                a as int,
            ),
    {
        proof {
            lemma_unroll_bounds(qx as int, qy as int, self.size as int);
        }
        let i = unroll(qx, qy, self.size);
        let sum = self.data[i] + a;
        let nv = if sum < -HMAX {
            -HMAX
        } else if sum > HMAX {
            HMAX
        } else {
            sum
        };
        self.data.set(i, nv);
    }

    /// Deposit `v` (or draw `-v` out, for negative `v`) across the 3x3
    /// neighborhood of the cell containing the position, with the fixed
    /// smoothing weights; see `spec_deposit`.
    pub fn add(&mut self, px: i64, py: i64, v: i64)
        requires
            old(self).wf(),
            -QMAX <= v <= QMAX,
            -PMAX <= px <= PMAX,
            -PMAX <= py <= PMAX,
        ensures
            final(self).wf(),
            final(self).size == old(self).size,
            final(self).data@ == spec_deposit(
                old(self).data@,
                old(self).size as int,
                px as int,
                py as int,
                v as int,
            ),
    {
        let c = v / 20;
        let e = v / 10;
        let m = v - 4 * c - 4 * e;
        proof {
            lemma_share_bounds(v as int);
        }
        self.bump(px - SCALE, py - SCALE, c);
        self.bump(px - SCALE, py, e);
        self.bump(px - SCALE, py + SCALE, c);
        self.bump(px, py - SCALE, e);
        self.bump(px, py, m);
        self.bump(px, py + SCALE, e);
        self.bump(px + SCALE, py - SCALE, c);
        self.bump(px + SCALE, py, e);
        self.bump(px + SCALE, py + SCALE, c);
    }
}

/// One bump under headroom: the cell does not clip, the grid total moves by
/// exactly the share, and every cell stays within the slack applied so far
/// around the starting grid `s`.
proof fn lemma_bump_tracked(
    t: Seq<i64>,
    s: Seq<i64>,
    size: int,
    qx: int,
    qy: int,
    a: int,
    lo: int,
    hi: int,
)
    requires
        2 <= size <= MAX_SIZE,
        s.len() == size * size,
        t.len() == s.len(),
        -QMAX <= lo <= 0,
        0 <= hi <= QMAX,
        lo + (if a < 0 { a } else { 0 }) >= -QMAX,
        hi + (if a > 0 { a } else { 0 }) <= QMAX,
        forall|i: int| 0 <= i < s.len() ==> s[i] + lo <= #[trigger] t[i] <= s[i] + hi,
        forall|i: int| 0 <= i < s.len() ==> -(HMAX - QMAX) <= #[trigger] s[i] <= HMAX - QMAX,
    ensures
        spec_bump(t, size, qx, qy, a).len() == s.len(),
        total(spec_bump(t, size, qx, qy, a)) == total(t) + a,
        forall|i: int| 0 <= i < s.len() ==> s[i] + (lo + (if a < 0 { a } else { 0 }))
            <= #[trigger] spec_bump(t, size, qx, qy, a)[i] <= s[i] + (hi + (if a > 0 { a } else {
            0
        })),
{
    let idx = spec_unroll(qx, qy, size);
    lemma_unroll_bounds(qx, qy, size);
    let w = t[idx];
    assert(-HMAX <= w + a <= HMAX);
    assert(spec_cap(w + a, HMAX as int) == w + a);
    let t2 = spec_bump(t, size, qx, qy, a);
    assert(t2 =~= t.update(idx, (w + a) as i64));
    lemma_total_update(t, idx, (w + a) as i64);
}

/// Mass conservation of a deposit: wherever every height leaves at least
/// `QMAX` of headroom below the height bound, a deposit moves the total of
/// all heights by exactly the deposited amount — the nine weighted shares
/// sum to the amount, and clamped edge neighbors concentrate rather than
/// lose mass.
pub proof fn lemma_deposit_conserves_mass(s: Seq<i64>, size: int, px: int, py: int, v: int)
    requires
        2 <= size <= MAX_SIZE,
        s.len() == size * size,
        -QMAX <= v <= QMAX,
        forall|i: int| 0 <= i < s.len() ==> -(HMAX - QMAX) <= #[trigger] s[i] <= HMAX - QMAX,
    ensures
        total(spec_deposit(s, size, px, py, v)) == total(s) + v,
{
    lemma_share_bounds(v);
    let c = spec_corner_share(v);
    let e = spec_edge_share(v);
    let m = spec_center_share(v);
    let p1 = c;
    let p2 = c + e;
    let p3 = 2 * c + e;
    let p4 = 2 * c + 2 * e;
    let p5 = 2 * c + 2 * e + m;
    let p6 = 2 * c + 3 * e + m;
    let p7 = 3 * c + 3 * e + m;
    let p8 = 3 * c + 4 * e + m;
    let lo = |p: int| if v >= 0 { 0 } else { p };
    let hi = |p: int| if v >= 0 { p } else { 0 };
    let s1 = spec_bump(s, size, px - SCALE, py - SCALE, c);
    lemma_bump_tracked(s, s, size, px - SCALE, py - SCALE, c, 0, 0);
    let s2 = spec_bump(s1, size, px - SCALE, py, e);
    lemma_bump_tracked(s1, s, size, px - SCALE, py, e, lo(p1), hi(p1));
    let s3 = spec_bump(s2, size, px - SCALE, py + SCALE, c);
    lemma_bump_tracked(s2, s, size, px - SCALE, py + SCALE, c, lo(p2), hi(p2));
    let s4 = spec_bump(s3, size, px, py - SCALE, e);
    lemma_bump_tracked(s3, s, size, px, py - SCALE, e, lo(p3), hi(p3));
    let s5 = spec_bump(s4, size, px, py, m);
    lemma_bump_tracked(s4, s, size, px, py, m, lo(p4), hi(p4));
    let s6 = spec_bump(s5, size, px, py + SCALE, e);
    lemma_bump_tracked(s5, s, size, px, py + SCALE, e, lo(p5), hi(p5));
    let s7 = spec_bump(s6, size, px + SCALE, py - SCALE, c);
    lemma_bump_tracked(s6, s, size, px + SCALE, py - SCALE, c, lo(p6), hi(p6));
    let s8 = spec_bump(s7, size, px + SCALE, py, e);
    lemma_bump_tracked(s7, s, size, px + SCALE, py, e, lo(p7), hi(p7));
    lemma_bump_tracked(s8, s, size, px + SCALE, py + SCALE, c, lo(p8), hi(p8));
}

/// The normalized coordinate of a grid column (or row): `2 x / size - 1`
/// in fixed point, spanning `[-1, 1)` across the grid.
pub open spec fn spec_normalized_coord(x: int, size: int) -> int
    recommends
        2 <= size,
        0 <= x < size,
{
    2 * x * SCALE / (size as int) - SCALE
}

/// Map a column (or row) index to its normalized coordinate in `[-1, 1)`.
pub fn normalized_coord(x: usize, size: usize) -> (u: i64)
    requires
        2 <= size <= MAX_SIZE,
        x < size,
    ensures
        u == spec_normalized_coord(x as int, size as int),
        -SCALE <= u < SCALE,
{
    proof {
        assert(2 * (x as int) * SCALE < (size as int) * (2 * SCALE)) by (nonlinear_arith)
            requires
                0 <= x < size,
        ;
        assert(2 * (x as int) * SCALE <= 2 * 32768 * 65536) by (nonlinear_arith)
            requires
                0 <= x < size <= 32768,
        ;
    }
    let num: i64 = 2 * (x as i64) * SCALE;
    proof {
        lemma_div_pos_is_pos(num as int, size as int);
        lemma_multiply_divide_lt(num as int, size as int, 2 * SCALE);
    }
    num / (size as i64) - SCALE
}

/// One generated cell: the noise sample for the cell, minus the radial
/// distance of the cell's normalized coordinates from the grid center
/// (carving an island-shaped falloff), plus a half-unit sea-level bias,
/// kept within the height bound.
pub open spec fn spec_gen_cell(size: int, samples: Seq<i64>, i: int) -> int
    recommends
        2 <= size,
        samples.len() == size * size,
        0 <= i < size * size,
{
    let u = spec_normalized_coord(i % size, size);
    let v = spec_normalized_coord(i / size, size);
    spec_cap(samples[i] - spec_isqrt(u * u + v * v) + HALF, HMAX as int)
}

/// The whole generated heightmap for a sampled noise field.
pub open spec fn spec_generate(size: int, samples: Seq<i64>) -> Seq<i64>
    recommends
        2 <= size,
        samples.len() == size * size,
{
    Seq::new((size * size) as nat, |i: int| spec_gen_cell(size, samples, i) as i64)
}

impl Elevation {
    /// Build the initial terrain from a field of noise samples, one per
    /// cell in row-major order; sample `i` is expected at the normalized
    /// coordinates of cell `i`. The same samples always yield the same
    /// terrain, so generation from a seeded sampler is reproducible.
    pub fn new(size: usize, samples: &Vec<i64>) -> (e: Elevation)
        requires
            2 <= size <= MAX_SIZE,
            samples@.len() == size * size,
        ensures
            e.wf(),
            e.size == size,
            e.data@ == spec_generate(size as int, samples@),
    {
        proof {
            assert(size * size <= MAX_SIZE * MAX_SIZE) by (nonlinear_arith)
                requires
                    2 <= size <= MAX_SIZE,
            ;
        }
        let n: usize = size * size;
        let mut data: Vec<i64> = Vec::new();
        let mut i: usize = 0;
        while i < n
            invariant
                2 <= size <= MAX_SIZE,
                n == size * size,
                n <= MAX_SIZE * MAX_SIZE,
                samples@.len() == n,
                i <= n,
                data@.len() == i,
                forall|j: int| 0 <= j < i ==> data@[j] == spec_gen_cell(
                    size as int,
                    samples@,
                    j,
                ),
                forall|j: int| 0 <= j < i ==> -HMAX <= #[trigger] data@[j] <= HMAX,
            decreases n - i,
        {
            let x = i % size;
            let y = i / size;
            proof {
                lemma_fundamental_div_mod(i as int, size as int);
                assert(y < size) by (nonlinear_arith)
                    requires
                        i as int == y * size + x,
                        0 <= x < size,
                        i < size * size,
                        2 <= size,
                ;
            }
            let u = normalized_coord(x, size);
            let v = normalized_coord(y, size);
            proof {
                assert(0 <= (u as int) * (u as int) <= SCALE * SCALE && 0 <= (v as int) * (
                v as int) <= SCALE * SCALE) by (nonlinear_arith)
                    requires
                        -SCALE <= u as int <= SCALE,
                        -SCALE <= v as int <= SCALE,
                ;
            }
            let radial = isqrt((u * u + v * v) as u128);
            proof {
                crate::fixed::lemma_isqrt_bounds((u * u + v * v) as int);
                assert(spec_isqrt((u * u + v * v) as int) * spec_isqrt((u * u + v * v) as int)
                    <= 2 * SCALE * SCALE);
                assert(spec_isqrt((u * u + v * v) as int) <= 2 * SCALE) by (nonlinear_arith)
                    requires
                        spec_isqrt((u * u + v * v) as int) * spec_isqrt((u * u + v * v) as int)
                            <= 2 * SCALE * SCALE,
                        spec_isqrt((u * u + v * v) as int) >= 0,
                ;
            }
            let cell = cap((samples[i] as i128) - (radial as i128) + (HALF as i128), HMAX);
            data.push(cell);
            i = i + 1;
        }
        let e = Elevation { data, size };
        proof {
            assert(e.data@ =~= spec_generate(size as int, samples@));
        }
        e
    }
}

/// The nine shares of a deposit lie between zero and the amount, share the
/// amount's sign, and sum to it exactly.
pub proof fn lemma_share_bounds(v: int)
    ensures
        4 * spec_corner_share(v) + 4 * spec_edge_share(v) + spec_center_share(v) == v,
        v >= 0 ==> 0 <= spec_corner_share(v) <= v && 0 <= spec_edge_share(v) <= v && 0
            <= spec_center_share(v) <= v,
        v < 0 ==> v <= spec_corner_share(v) <= 0 && v <= spec_edge_share(v) <= 0 && v
            <= spec_center_share(v) <= 0,
{
    if v >= 0 {
        assert(4 * (v / 20) + 4 * (v / 10) <= v);
        assert(0 <= v / 20 <= v);
        assert(0 <= v / 10 <= v);
    } else {
        let w = -v;
        assert(4 * (w / 20) + 4 * (w / 10) <= w);
        assert(0 <= w / 20 <= w);
        assert(0 <= w / 10 <= w);
    }
}

} // verus!
