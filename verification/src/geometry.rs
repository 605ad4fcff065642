//! Exact integer geometry over contour point sequences.
//!
//! A contour is an ordered, cyclically closed polygon of integer pixel
//! coordinates (the first and last points are implicitly joined). Derived
//! quantities are exact integers:
//! - areas are kept doubled (the absolute shoelace sum, before halving);
//! - lengths and positions are in milli-pixels (thousandths of a pixel);
//! - circularity is in per-mille, clamped to `[0, 1000]`.

use vstd::prelude::*;

verus! {

/// View of an executable contour as a sequence of mathematical points.
pub open spec fn pts(c: Seq<(i64, i64)>) -> Seq<(int, int)> {
    Seq::new(c.len(), |i: int| (c[i].0 as int, c[i].1 as int))
}

/// The contours the pipeline accepts: at least a triangle, of bounded
/// length, with coordinates inside the largest supported raster.
pub open spec fn valid_contour(c: Seq<(int, int)>) -> bool {
    &&& 3 <= c.len() <= 0x4000000
    &&& forall|i: int|
        0 <= i < c.len() ==> {
            &&& 0 <= (#[trigger] c[i]).0 < 16384
            &&& 0 <= c[i].1 < 16384
        }
}

/// Squared Euclidean distance between two points.
pub open spec fn d2(p: (int, int), q: (int, int)) -> int {
    (p.0 - q.0) * (p.0 - q.0) + (p.1 - q.1) * (p.1 - q.1)
}

pub proof fn lemma_d2_sym(p: (int, int), q: (int, int))
    ensures
        d2(p, q) == d2(q, p),
{
    assert((p.0 - q.0) * (p.0 - q.0) == (q.0 - p.0) * (q.0 - p.0)) by (nonlinear_arith);
    assert((p.1 - q.1) * (p.1 - q.1) == (q.1 - p.1) * (q.1 - p.1)) by (nonlinear_arith);
}

/// The integer square root, rounded down.
pub open spec fn sqrt_floor(n: nat) -> nat
    decreases n,
{
    if n == 0 {
        0
    } else {
        let s = sqrt_floor((n - 1) as nat);
        if (s + 1) * (s + 1) <= n {
            s + 1
        } else {
            s
        }
    }
}

pub proof fn lemma_sqrt_floor_bounds(n: nat)
    ensures
        sqrt_floor(n) * sqrt_floor(n) <= n,
        n < (sqrt_floor(n) + 1) * (sqrt_floor(n) + 1),
    decreases n,
{
    let r = sqrt_floor(n);
    if n == 0 {
        assert(r == 0);
        assert(r * r <= n && n < (r + 1) * (r + 1)) by (nonlinear_arith)
            requires
                r == 0 && n == 0,
        ;
    } else {
        lemma_sqrt_floor_bounds((n - 1) as nat);
        let s = sqrt_floor((n - 1) as nat);
        assert(s * s <= n - 1);
        assert(n - 1 < (s + 1) * (s + 1));
        if (s + 1) * (s + 1) <= n {
            assert(r == s + 1);
            assert(r * r <= n && n < (r + 1) * (r + 1)) by (nonlinear_arith)
                requires
                    r == s + 1 && (s + 1) * (s + 1) <= n && n - 1 < (s + 1) * (s + 1),
            ;
        } else {
            assert(r == s);
            assert(r * r <= n && n < (r + 1) * (r + 1)) by (nonlinear_arith)
                requires
                    r == s && s * s <= n - 1 && n >= 1 && !((s + 1) * (s + 1) <= n),
            ;
        }
    }
}

pub proof fn lemma_sqrt_floor_is(n: nat, r: nat)
    requires
        r * r <= n,
        n < (r + 1) * (r + 1),
    ensures
        r == sqrt_floor(n),
{
    lemma_sqrt_floor_bounds(n);
    let s = sqrt_floor(n);
    if r < s {
        assert((r + 1) * (r + 1) <= s * s) by (nonlinear_arith)
            requires
                r + 1 <= s,
        ;
    }
    if s < r {
        assert((s + 1) * (s + 1) <= r * r) by (nonlinear_arith)
            requires
                s + 1 <= r,
        ;
    }
}

/// A square root is below any bound whose square exceeds the radicand.
pub proof fn lemma_sqrt_floor_lt(n: nat, b: nat)
    requires
        n < b * b,
    ensures
        sqrt_floor(n) < b,
{
    lemma_sqrt_floor_bounds(n);
    let s = sqrt_floor(n);
    if b <= s {
        assert(b * b <= s * s) by (nonlinear_arith)
            requires
                b <= s,
        ;
    }
}

/// Integer square root of a `u64`.
pub fn isqrt(n: u64) -> (r: u64)
    requires
        n < 0x4000000000000000,
    ensures
        r == sqrt_floor(n as nat),
        r * r <= n < (r + 1) * (r + 1),
        r < 0x80000000,
{
    let mut lo: u64 = 0;
    let mut hi: u64 = 0x80000000;
    while lo + 1 < hi
        invariant
            lo < hi <= 0x80000000,
            (lo as int) * (lo as int) <= n as int,
            (n as int) < (hi as int) * (hi as int),
        decreases hi - lo,
    {
        let mid = lo + (hi - lo) / 2;
        assert((mid as int) * (mid as int) <= 0x4000000000000000) by (nonlinear_arith)
            requires
                0 <= mid <= 0x80000000u64,
        ;
        if mid * mid <= n {
            lo = mid;
        } else {
            hi = mid;
        }
    }
    proof {
        lemma_sqrt_floor_is(n as nat, lo as nat);
    }
    lo
}

/// Integer square root of a `u128`, for doubled areas scaled to
/// milli-pixel units.
pub fn isqrt128(n: u128) -> (r: u64)
    requires
        n < 0x4000000000000000000000000000000,
    ensures
        r == sqrt_floor(n as nat),
        (r as int) * (r as int) <= n < (r + 1) as int * (r + 1) as int,
{
    let mut lo: u128 = 0;
    let mut hi: u128 = 0x80000000000000000000000000000000;
    while lo + 1 < hi
        invariant
            lo < hi <= 0x80000000000000000000000000000000,
            (lo as int) * (lo as int) <= n as int,
            (n as int) < (hi as int) * (hi as int),
        decreases hi - lo,
    {
        let mid = lo + (hi - lo) / 2;
        if n / mid >= mid {
            proof {
                assert((mid as int) * (mid as int) <= n as int) by (nonlinear_arith)
                    requires
                        mid >= 1 && (n as int) / (mid as int) >= mid as int,
                ;
            }
            lo = mid;
        } else {
            proof {
                assert((mid as int) * (mid as int) > n as int) by (nonlinear_arith)
                    requires
                        mid >= 1 && (n as int) / (mid as int) < mid as int && n >= 0,
                ;
            }
            hi = mid;
        }
    }
    proof {
        lemma_sqrt_floor_is(n as nat, lo as nat);
        assert((lo as int) * (lo as int) <= n < 0x4000000000000000000000000000000);
        assert(lo < 0x2000000000000000) by (nonlinear_arith)
            requires
                (lo as int) * (lo as int) < 0x4000000000000000000000000000000 && lo >= 0,
        ;
    }
    lo as u64
}

/// One term of the shoelace sum: the cross product of the edge from point
/// `i` to its cyclic successor with the origin.
pub open spec fn cross_at(c: Seq<(int, int)>, i: int) -> int {
    let j = if i + 1 == c.len() {
        0
    } else {
        i + 1
    };
    c[i].0 * c[j].1 - c[j].0 * c[i].1
}

/// Partial shoelace sum over the first `k` edges.
pub open spec fn shoelace(c: Seq<(int, int)>, k: int) -> int
    decreases k,
{
    if k <= 0 {
        0
    } else {
        shoelace(c, k - 1) + cross_at(c, k - 1)
    }
}

/// Twice the enclosed area of a contour: the absolute shoelace sum.
pub open spec fn area2(c: Seq<(int, int)>) -> int {
    if shoelace(c, c.len() as int) >= 0 {
        shoelace(c, c.len() as int)
    } else {
        -shoelace(c, c.len() as int)
    }
}

/// Twice the enclosed area of a contour, by the shoelace formula. Exact.
pub fn contour_area2(c: &Vec<(i64, i64)>) -> (a2: u64)
    requires
        valid_contour(pts(c@)),
    ensures
        a2 == area2(pts(c@)),
        a2 <= c@.len() * 0x20000000,
{
    let ghost m = pts(c@);
    let n = c.len();
    let mut acc: i128 = 0;
    let mut i: usize = 0;
    while i < n
        invariant
            i <= n,
            n == c@.len(),
            m == pts(c@),
            valid_contour(m),
            acc == shoelace(m, i as int),
            -(i as int) * 0x20000000 <= acc <= (i as int) * 0x20000000,
        decreases n - i,
    {
        let j = if i + 1 == n {
            0
        } else {
            i + 1
        };
        proof {
            assert(m[i as int] == (c@[i as int].0 as int, c@[i as int].1 as int));
            assert(m[j as int] == (c@[j as int].0 as int, c@[j as int].1 as int));
        }
        let xi = c[i].0;
        let yi = c[i].1;
        let xj = c[j].0;
        let yj = c[j].1;
        proof {
            assert(0 <= (xi as int) * (yj as int) < 0x10000000) by (nonlinear_arith)
                requires
                    0 <= xi < 16384 && 0 <= yj < 16384,
            ;
            assert(0 <= (xj as int) * (yi as int) < 0x10000000) by (nonlinear_arith)
                requires
                    0 <= xj < 16384 && 0 <= yi < 16384,
            ;
        }
        let t: i128 = (xi as i128) * (yj as i128) - (xj as i128) * (yi as i128);
        proof {
            assert(t == cross_at(m, i as int));
            assert((i as int + 1) * 0x20000000 == (i as int) * 0x20000000 + 0x20000000);
            assert((i as int + 1) * 0x20000000 <= 0x4000000 * 0x20000000) by (nonlinear_arith)
                requires
                    0 <= i as int + 1 <= 0x4000000,
            ;
        }
        acc = acc + t;
        i = i + 1;
    }
    let a: i128 = if acc >= 0 {
        acc
    } else {
        -acc
    };
    proof {
        assert((n as int) * 0x20000000 <= 0x4000000 * 0x20000000) by (nonlinear_arith)
            requires
                0 <= n <= 0x4000000,
        ;
    }
    a as u64
}

/// The length in milli-pixels of the cyclic edge starting at point `i`.
pub open spec fn seg_len_mpx(c: Seq<(int, int)>, i: int) -> int {
    let j = if i + 1 == c.len() {
        0
    } else {
        i + 1
    };
    sqrt_floor((d2(c[i], c[j]) * 1000000) as nat) as int
}

/// Partial perimeter over the first `k` cyclic edges, in milli-pixels.
pub open spec fn perim_prefix(c: Seq<(int, int)>, k: int) -> int
    decreases k,
{
    if k <= 0 {
        0
    } else {
        perim_prefix(c, k - 1) + seg_len_mpx(c, k - 1)
    }
}

/// Contour perimeter: summed Euclidean edge lengths, in milli-pixels.
pub open spec fn perimeter_mpx(c: Seq<(int, int)>) -> int {
    perim_prefix(c, c.len() as int)
}

pub fn contour_perimeter_mpx(c: &Vec<(i64, i64)>) -> (p: u64)
    requires
        valid_contour(pts(c@)),
    ensures
        p == perimeter_mpx(pts(c@)),
        p <= c@.len() * 0x2000000,
{
    let ghost m = pts(c@);
    let n = c.len();
    let mut acc: u64 = 0;
    let mut i: usize = 0;
    while i < n
        invariant
            i <= n,
            n == c@.len(),
            m == pts(c@),
            valid_contour(m),
            acc == perim_prefix(m, i as int),
            acc <= (i as int) * 0x2000000,
        decreases n - i,
    {
        let j = if i + 1 == n {
            0
        } else {
            i + 1
        };
        proof {
            assert(m[i as int] == (c@[i as int].0 as int, c@[i as int].1 as int));
            assert(m[j as int] == (c@[j as int].0 as int, c@[j as int].1 as int));
        }
        let dx = c[i].0 - c[j].0;
        let dy = c[i].1 - c[j].1;
        proof {
            assert(0 <= dx * dx < 0x10000000) by (nonlinear_arith)
                requires
                    -16384 < dx < 16384,
            ;
            assert(0 <= dy * dy < 0x10000000) by (nonlinear_arith)
                requires
                    -16384 < dy < 16384,
            ;
        }
        let sq: u64 = ((dx * dx + dy * dy) as u64) * 1000000;
        let s = isqrt(sq);
        proof {
            assert(sq == d2(m[i as int], m[j as int]) * 1000000);
            assert(sq < 0x2000000 * 0x2000000) by (nonlinear_arith)
                requires
                    sq < 536870912000000u64,
            ;
            lemma_sqrt_floor_lt(sq as nat, 0x2000000);
            assert(s == seg_len_mpx(m, i as int));
            assert((i as int + 1) * 0x2000000 == (i as int) * 0x2000000 + 0x2000000);
            assert((i as int + 1) * 0x2000000 <= 0x4000000 * 0x2000000) by (nonlinear_arith)
                requires
                    0 <= i as int + 1 <= 0x4000000,
            ;
        }
        acc = acc + s;
        i = i + 1;
    }
    proof {
        assert((n as int) * 0x2000000 <= 0x4000000 * 0x2000000) by (nonlinear_arith)
            requires
                0 <= n <= 0x4000000,
        ;
    }
    acc
}

/// Sum of the x coordinates of the first `k` points.
pub open spec fn sum_x(c: Seq<(int, int)>, k: int) -> int
    decreases k,
{
    if k <= 0 {
        0
    } else {
        sum_x(c, k - 1) + c[k - 1].0
    }
}

/// Sum of the y coordinates of the first `k` points.
pub open spec fn sum_y(c: Seq<(int, int)>, k: int) -> int
    decreases k,
{
    if k <= 0 {
        0
    } else {
        sum_y(c, k - 1) + c[k - 1].1
    }
}

/// The centroid of a contour in milli-pixels: the arithmetic mean of its
/// points, each coordinate rounded down.
pub open spec fn centroid_mpx(c: Seq<(int, int)>) -> (int, int) {
    (1000 * sum_x(c, c.len() as int) / c.len() as int, 1000 * sum_y(c, c.len() as int)
        / c.len() as int)
}

pub fn contour_centroid_mpx(c: &Vec<(i64, i64)>) -> (cen: (i64, i64))
    requires
        valid_contour(pts(c@)),
    ensures
        cen.0 == centroid_mpx(pts(c@)).0,
        cen.1 == centroid_mpx(pts(c@)).1,
        0 <= cen.0 <= 16383000,
        0 <= cen.1 <= 16383000,
{
    let ghost m = pts(c@);
    let n = c.len();
    let mut sx: u64 = 0;
    let mut sy: u64 = 0;
    let mut i: usize = 0;
    while i < n
        invariant
            i <= n,
            n == c@.len(),
            m == pts(c@),
            valid_contour(m),
            sx == sum_x(m, i as int),
            sy == sum_y(m, i as int),
            sx <= (i as int) * 16383,
            sy <= (i as int) * 16383,
        decreases n - i,
    {
        proof {
            assert(m[i as int] == (c@[i as int].0 as int, c@[i as int].1 as int));
            assert((i as int + 1) * 16383 == (i as int) * 16383 + 16383);
            assert((i as int + 1) * 16383 <= 0x4000000 * 16383) by (nonlinear_arith)
                requires
                    0 <= i as int + 1 <= 0x4000000,
            ;
        }
        sx = sx + (c[i].0 as u64);
        sy = sy + (c[i].1 as u64);
        i = i + 1;
    }
    proof {
        assert((n as int) * 16383 <= 0x4000000 * 16383) by (nonlinear_arith)
            requires
                0 <= n <= 0x4000000,
        ;
        assert((1000 * sx as int) / (n as int) <= 16383000) by (nonlinear_arith)
            requires
                3 <= n as int && 0 <= sx as int <= (n as int) * 16383,
        ;
        assert((1000 * sy as int) / (n as int) <= 16383000) by (nonlinear_arith)
            requires
                3 <= n as int && 0 <= sy as int <= (n as int) * 16383,
        ;
    }
    let cx = ((sx * 1000) / (n as u64)) as i64;
    let cy = ((sy * 1000) / (n as u64)) as i64;
    (cx, cy)
}

/// Distance in milli-pixels from point `i` of the contour to a fixed
/// milli-pixel position.
pub open spec fn pdist_mpx(c: Seq<(int, int)>, cx: int, cy: int, i: int) -> int {
    sqrt_floor(d2((1000 * c[i].0, 1000 * c[i].1), (cx, cy)) as nat) as int
}

/// Sum of the distances of the first `k` points to a fixed position.
pub open spec fn radsum(c: Seq<(int, int)>, cx: int, cy: int, k: int) -> int
    decreases k,
{
    if k <= 0 {
        0
    } else {
        radsum(c, cx, cy, k - 1) + pdist_mpx(c, cx, cy, k - 1)
    }
}

/// The fitted radius: the mean distance of the points to the centroid,
/// in milli-pixels, rounded down.
pub open spec fn radius_mpx(c: Seq<(int, int)>) -> int {
    radsum(c, centroid_mpx(c).0, centroid_mpx(c).1, c.len() as int) / c.len() as int
}

/// Circularity in per-mille: the isoperimetric quotient
/// `4 * pi * area / perimeter^2`, scaled by 1000 and clamped to 1000.
/// `pi` is approximated by `355 / 113`; a zero perimeter scores zero.
pub open spec fn circ_pm(c: Seq<(int, int)>) -> int {
    let p = perimeter_mpx(c);
    if p == 0 {
        0
    } else {
        let q = 710 * area2(c) * 1000000000 / (113 * p * p);
        if q > 1000 {
            1000
        } else {
            q
        }
    }
}

/// The circle fitted to a contour: center and radius in milli-pixels,
/// circularity in per-mille.
pub struct CircleFit {
    pub cx_mpx: i64,
    pub cy_mpx: i64,
    pub radius_mpx: u64,
    pub circ_pm: u32,
}

/// Fits a circle to a contour: the center is the centroid, the radius the
/// mean distance of the points to it, and the circularity the
/// isoperimetric quotient of the contour itself.
pub fn fit_circle(c: &Vec<(i64, i64)>) -> (f: CircleFit)
    requires
        valid_contour(pts(c@)),
    ensures
        f.cx_mpx == centroid_mpx(pts(c@)).0,
        f.cy_mpx == centroid_mpx(pts(c@)).1,
        f.radius_mpx == radius_mpx(pts(c@)),
        f.circ_pm == circ_pm(pts(c@)),
        0 <= f.cx_mpx <= 16383000,
        0 <= f.cy_mpx <= 16383000,
        f.radius_mpx < 0x2000000,
        f.circ_pm <= 1000,
{
    let ghost m = pts(c@);
    let n = c.len();
    let (cx, cy) = contour_centroid_mpx(c);
    let mut dsum: u64 = 0;
    let mut i: usize = 0;
    while i < n
        invariant
            i <= n,
            n == c@.len(),
            m == pts(c@),
            valid_contour(m),
            0 <= cx <= 16383000,
            0 <= cy <= 16383000,
            cx == centroid_mpx(m).0,
            cy == centroid_mpx(m).1,
            dsum == radsum(m, cx as int, cy as int, i as int),
            dsum <= (i as int) * 0x1ffffff,
        decreases n - i,
    {
        proof {
            assert(m[i as int] == (c@[i as int].0 as int, c@[i as int].1 as int));
        }
        let px = 1000 * c[i].0;
        let py = 1000 * c[i].1;
        let dx = px - cx;
        let dy = py - cy;
        proof {
            assert(0 <= dx * dx <= 268402689000000) by (nonlinear_arith)
                requires
                    -16383000 <= dx <= 16383000,
            ;
            assert(0 <= dy * dy <= 268402689000000) by (nonlinear_arith)
                requires
                    -16383000 <= dy <= 16383000,
            ;
        }
        let sq: u64 = (dx * dx + dy * dy) as u64;
        let s = isqrt(sq);
        proof {
            assert(sq == d2((1000 * m[i as int].0, 1000 * m[i as int].1), (cx as int, cy as int)));
            assert(sq < 0x2000000 * 0x2000000) by (nonlinear_arith)
                requires
                    sq <= 536805378000000u64,
            ;
            lemma_sqrt_floor_lt(sq as nat, 0x2000000);
            assert(s == pdist_mpx(m, cx as int, cy as int, i as int));
            assert((i as int + 1) * 0x1ffffff == (i as int) * 0x1ffffff + 0x1ffffff);
            assert((i as int + 1) * 0x1ffffff <= 0x4000000 * 0x1ffffff) by (nonlinear_arith)
                requires
                    0 <= i as int + 1 <= 0x4000000,
            ;
        }
        dsum = dsum + s;
        i = i + 1;
    }
    proof {
        assert((n as int) * 0x1ffffff <= 0x4000000 * 0x1ffffff) by (nonlinear_arith)
            requires
                0 <= n <= 0x4000000,
        ;
        assert((dsum as int) / (n as int) <= 0x1ffffff) by (nonlinear_arith)
            requires
                3 <= n as int && 0 <= dsum as int <= (n as int) * 0x1ffffff,
        ;
    }
    let radius = dsum / (n as u64);
    let a2 = contour_area2(c);
    let p = contour_perimeter_mpx(c);
    proof {
        assert(c@.len() * 0x20000000 <= 0x4000000 * 0x20000000) by (nonlinear_arith)
            requires
                0 <= c@.len() <= 0x4000000,
        ;
        assert(c@.len() * 0x2000000 <= 0x4000000 * 0x2000000) by (nonlinear_arith)
            requires
                0 <= c@.len() <= 0x4000000,
        ;
    }
    let circ: u32 = if p == 0 {
        0
    } else {
        proof {
            assert((113 * (p as int)) * (p as int) <= (113 * 0x8000000000000) * 0x8000000000000)
                by (nonlinear_arith)
                requires
                    1 <= p as int <= 0x8000000000000,
            ;
            assert((113 * (p as int)) * (p as int) >= 113) by (nonlinear_arith)
                requires
                    p as int >= 1,
            ;
        }
        let num: u128 = 710 * (a2 as u128) * 1000000000;
        let den: u128 = 113 * (p as u128) * (p as u128);
        let q = num / den;
        if q > 1000 {
            1000
        } else {
            q as u32
        }
    };
    CircleFit { cx_mpx: cx, cy_mpx: cy, radius_mpx: radius, circ_pm: circ }
}

/// Whether a position lies strictly inside the circle of the given center
/// and diameter (all in milli-pixels): the Euclidean distance to the
/// center is strictly less than half the diameter.
pub open spec fn inside_circle(p: (int, int), center: (int, int), diameter: int) -> bool {
    4 * d2(p, center) < diameter * diameter
}

} // verus!
