//! Polygon boundary simplification (Douglas-Peucker).
//!
//! A closed contour is split at two mutually far points; each open chain
//! is then reduced recursively: the point farthest from the chord between
//! the chain's endpoints is kept when its perpendicular distance exceeds
//! `epsilon` (in milli-pixels), and the two sub-chains are reduced in
//! turn; otherwise every interior point of the chain is dropped. The
//! cyclic order of the surviving vertices is preserved, so the output is
//! again a closed polygon.
//!
//! Distances are compared exactly on squared integer quantities: the
//! perpendicular distance of `p` from the chord `a-b` exceeds `eps`
//! milli-pixels iff `cross(a,b,p)^2 * 10^6 > eps^2 * |b-a|^2`.

use vstd::prelude::*;

use crate::geometry::{d2, lemma_d2_sym, pts, valid_contour};

verus! {

/// A point of the contour addressed by a cyclic index in `[0, 2*len)`.
pub open spec fn cyc(c: Seq<(int, int)>, k: int) -> (int, int) {
    if k < c.len() {
        c[k]
    } else {
        c[k - c.len()]
    }
}

/// Cross product of the chord vector `b - a` with `p - a`: twice the
/// signed area of the triangle `a, b, p`.
pub open spec fn cross_chord(a: (int, int), b: (int, int), p: (int, int)) -> int {
    (b.0 - a.0) * (p.1 - a.1) - (b.1 - a.1) * (p.0 - a.0)
}

/// The measure by which interior points of one chain are compared: the
/// squared triangle area for a proper chord, the squared distance to `a`
/// for a degenerate one. The farthest point from the chord maximizes it.
pub open spec fn chord_dev(a: (int, int), b: (int, int), p: (int, int)) -> int {
    if d2(a, b) == 0 {
        d2(a, p)
    } else {
        cross_chord(a, b, p) * cross_chord(a, b, p)
    }
}

/// Whether the perpendicular distance of `p` from the chord `a-b`
/// (in pixels) strictly exceeds `eps` milli-pixels.
pub open spec fn exceeds_eps(a: (int, int), b: (int, int), p: (int, int), eps: int) -> bool {
    if d2(a, b) == 0 {
        d2(a, p) * 1000000 > eps * eps
    } else {
        chord_dev(a, b, p) * 1000000 > eps * eps * d2(a, b)
    }
}

/// First index in `(lo, k)` maximizing the deviation from the chord
/// `cyc(c, lo) - cyc(c, hi)`.
pub open spec fn dev_argmax(c: Seq<(int, int)>, lo: int, hi: int, k: int) -> int
    decreases k - lo,
{
    if k <= lo + 2 {
        lo + 1
    } else {
        let b = dev_argmax(c, lo, hi, k - 1);
        if chord_dev(cyc(c, lo), cyc(c, hi), cyc(c, k - 1)) > chord_dev(
            cyc(c, lo),
            cyc(c, hi),
            cyc(c, b),
        ) {
            k - 1
        } else {
            b
        }
    }
}

/// The cyclic indices strictly between `lo` and `hi` kept by the
/// recursive reduction of that chain.
pub open spec fn dp_keep(c: Seq<(int, int)>, lo: int, hi: int, eps: int) -> Seq<int>
    decreases hi - lo,
{
    if hi - lo < 2 {
        Seq::<int>::empty()
    } else {
        let k = dev_argmax(c, lo, hi, hi);
        if lo < k < hi && exceeds_eps(cyc(c, lo), cyc(c, hi), cyc(c, k), eps) {
            dp_keep(c, lo, k, eps) + seq![k] + dp_keep(c, k, hi, eps)
        } else {
            Seq::<int>::empty()
        }
    }
}

/// First index in `[0, k)` maximizing the squared distance to `p`.
pub open spec fn argmax_dist(c: Seq<(int, int)>, p: (int, int), k: int) -> int
    decreases k,
{
    if k <= 1 {
        0
    } else {
        let b = argmax_dist(c, p, k - 1);
        if d2(c[k - 1], p) > d2(c[b], p) {
            k - 1
        } else {
            b
        }
    }
}

/// The simplified polygon: the contour is split at the point `i0`
/// farthest from its first point and at the point `i1` farthest from
/// `i0`, and the two chains between them are reduced. A contour whose
/// points all coincide collapses to its first point.
pub open spec fn simplify_spec(c: Seq<(int, int)>, eps: int) -> Seq<(int, int)> {
    let n = c.len() as int;
    let i0 = argmax_dist(c, c[0], n);
    let i1 = argmax_dist(c, c[i0], n);
    if d2(c[i0], c[i1]) == 0 {
        seq![c[0]]
    } else {
        let s = if i0 < i1 {
            i0
        } else {
            i1
        };
        let t = if i0 < i1 {
            i1
        } else {
            i0
        };
        (seq![s] + dp_keep(c, s, t, eps) + seq![t] + dp_keep(c, t, s + n, eps)).map_values(
            |k: int| cyc(c, k),
        )
    }
}

/// A point with both coordinates inside the supported raster.
pub open spec fn in_range(p: (i64, i64)) -> bool {
    0 <= p.0 < 16384 && 0 <= p.1 < 16384
}

/// Every point of the sequence is in range.
pub open spec fn all_in_range(v: Seq<(i64, i64)>) -> bool {
    forall|i: int| 0 <= i < v.len() ==> in_range(#[trigger] v[i])
}

/// Reads a point by cyclic index.
fn cyc_get(c: &Vec<(i64, i64)>, k: usize) -> (r: (i64, i64))
    requires
        valid_contour(pts(c@)),
        (k as int) < 2 * c@.len(),
    ensures
        (r.0 as int, r.1 as int) == cyc(pts(c@), k as int),
        in_range(r),
{
    let n = c.len();
    proof {
        if (k as int) < c@.len() {
            assert(pts(c@)[k as int] == (c@[k as int].0 as int, c@[k as int].1 as int));
        } else {
            assert(pts(c@)[k as int - c@.len()] == (
                c@[k as int - c@.len()].0 as int,
                c@[k as int - c@.len()].1 as int,
            ));
        }
    }
    if k < n {
        c[k]
    } else {
        c[k - n]
    }
}

/// Squared Euclidean distance between two in-range points.
pub fn d2_val(p: (i64, i64), q: (i64, i64)) -> (r: u64)
    requires
        in_range(p),
        in_range(q),
    ensures
        r == d2((p.0 as int, p.1 as int), (q.0 as int, q.1 as int)),
        r < 0x20000000,
{
    let dx = p.0 - q.0;
    let dy = p.1 - q.1;
    proof {
        assert(0 <= dx * dx < 0x10000000) by (nonlinear_arith)
            requires
                -16384 < dx < 16384,
        ;
        assert(0 <= dy * dy < 0x10000000) by (nonlinear_arith)
            requires
                -16384 < dy < 16384,
        ;
    }
    (dx * dx + dy * dy) as u64
}

/// The chord-deviation measure of `p` against the chord `a-b`.
fn chord_dev_val(a: (i64, i64), b: (i64, i64), p: (i64, i64)) -> (dv: u64)
    requires
        in_range(a),
        in_range(b),
        in_range(p),
    ensures
        dv == chord_dev(
            (a.0 as int, a.1 as int),
            (b.0 as int, b.1 as int),
            (p.0 as int, p.1 as int),
        ),
{
    let d2ab = d2_val(a, b);
    if d2ab == 0 {
        d2_val(a, p)
    } else {
        let ex = b.0 - a.0;
        let ey = b.1 - a.1;
        let fx = p.0 - a.0;
        let fy = p.1 - a.1;
        proof {
            assert(-0x10000000 < ex * fy < 0x10000000) by (nonlinear_arith)
                requires
                    -16384 < ex < 16384 && -16384 < fy < 16384,
            ;
            assert(-0x10000000 < ey * fx < 0x10000000) by (nonlinear_arith)
                requires
                    -16384 < ey < 16384 && -16384 < fx < 16384,
            ;
        }
        let cr = ex * fy - ey * fx;
        proof {
            assert(0 <= cr * cr <= 0x20000000 * 0x20000000) by (nonlinear_arith)
                requires
                    -0x20000000 <= cr <= 0x20000000,
            ;
        }
        (cr * cr) as u64
    }
}

/// Whether `p` deviates from the chord `a-b` by strictly more than `eps`
/// milli-pixels.
fn chord_exceeds(a: (i64, i64), b: (i64, i64), p: (i64, i64), eps: u64) -> (r: bool)
    requires
        in_range(a),
        in_range(b),
        in_range(p),
        eps < 0x800000000000,
    ensures
        r == exceeds_eps(
            (a.0 as int, a.1 as int),
            (b.0 as int, b.1 as int),
            (p.0 as int, p.1 as int),
            eps as int,
        ),
{
    let d2ab = d2_val(a, b);
    let dv = chord_dev_val(a, b, p);
    proof {
        assert((eps as int) * (eps as int) <= 0x800000000000 * 0x800000000000)
            by (nonlinear_arith)
            requires
                0 <= eps as int <= 0x800000000000,
        ;
        assert(((eps as int) * (eps as int)) * (d2ab as int) <= (0x800000000000
            * 0x800000000000) * 0x20000000) by (nonlinear_arith)
            requires
                0 <= (eps as int) * (eps as int) <= 0x800000000000 * 0x800000000000 && 0 <= d2ab
                    as int <= 0x20000000,
        ;
    }
    if d2ab == 0 {
        (dv as u128) * 1000000 > (eps as u128) * (eps as u128)
    } else {
        (dv as u128) * 1000000 > (eps as u128) * (eps as u128) * (d2ab as u128)
    }
}

/// Reduces the chain of cyclic indices `(lo, hi)` and appends the kept
/// interior points to `out`, in order.
fn dp_rec(c: &Vec<(i64, i64)>, lo: usize, hi: usize, eps: u64, out: &mut Vec<(i64, i64)>)
    requires
        valid_contour(pts(c@)),
        lo < hi,
        (hi as int) < 2 * c@.len(),
        hi <= lo + c@.len(),
        eps < 0x800000000000,
    ensures
        pts(final(out)@) == pts(old(out)@) + dp_keep(pts(c@), lo as int, hi as int, eps as int)
            .map_values(|k: int| cyc(pts(c@), k)),
        all_in_range(old(out)@) ==> all_in_range(final(out)@),
        final(out)@.len() >= old(out)@.len(),
    decreases hi - lo,
{
    let ghost m = pts(c@);
    let n = c.len();
    if hi - lo < 2 {
        proof {
            assert(dp_keep(m, lo as int, hi as int, eps as int) == Seq::<int>::empty());
            assert(pts(out@) =~= pts(out@) + Seq::<int>::empty().map_values(
                |k: int| cyc(m, k),
            ));
        }
        return ;
    }
    let a = cyc_get(c, lo);
    let b = cyc_get(c, hi);
    let mut best: usize = lo + 1;
    let mut bestdev: u64 = chord_dev_val(a, b, cyc_get(c, lo + 1));
    let mut k: usize = lo + 2;
    while k < hi
        invariant
            m == pts(c@),
            valid_contour(m),
            n == c@.len(),
            lo < hi,
            (hi as int) < 2 * n,
            hi <= lo + n,
            lo + 2 <= k <= hi,
            lo + 1 <= best < k,
            eps < 0x800000000000,
            in_range(a),
            in_range(b),
            (a.0 as int, a.1 as int) == cyc(m, lo as int),
            (b.0 as int, b.1 as int) == cyc(m, hi as int),
            best as int == dev_argmax(m, lo as int, hi as int, k as int),
            bestdev == chord_dev(cyc(m, lo as int), cyc(m, hi as int), cyc(m, best as int)),
        decreases hi - k,
    {
        let q = cyc_get(c, k);
        let dv = chord_dev_val(a, b, q);
        if dv > bestdev {
            best = k;
            bestdev = dv;
        }
        k = k + 1;
    }
    let pbest = cyc_get(c, best);
    let ghost keep = dp_keep(m, lo as int, hi as int, eps as int);
    let ghost f = |kk: int| cyc(m, kk);
    if chord_exceeds(a, b, pbest, eps) {
        let ghost pre = out@;
        let ghost keep1 = dp_keep(m, lo as int, best as int, eps as int);
        let ghost keep2 = dp_keep(m, best as int, hi as int, eps as int);
        proof {
            assert(keep == keep1 + seq![best as int] + keep2);
        }
        dp_rec(c, lo, best, eps, out);
        let ghost mid1 = out@;
        out.push(pbest);
        proof {
            assert(pts(out@) =~= pts(mid1) + seq![cyc(m, best as int)]);
            if all_in_range(pre) {
                assert forall|i: int| 0 <= i < out@.len() implies in_range(#[trigger] out@[i]) by {
                    if i < mid1.len() {
                        assert(out@[i] == mid1[i]);
                    } else {
                        assert(out@[i] == pbest);
                    }
                }
            }
        }
        let ghost mid2 = out@;
        dp_rec(c, best, hi, eps, out);
        proof {
            assert(pts(out@) == pts(mid2) + keep2.map_values(f));
            assert(keep.map_values(f) =~= keep1.map_values(f) + seq![cyc(m, best as int)]
                + keep2.map_values(f));
            assert(pts(out@) =~= pts(pre) + keep.map_values(f));
        }
    } else {
        proof {
            assert(keep == Seq::<int>::empty());
            assert(pts(out@) =~= pts(out@) + keep.map_values(f));
        }
    }
}

/// Douglas-Peucker boundary simplification with tolerance `eps_mpx`
/// milli-pixels. The result is the cyclically ordered list of essential
/// vertices.
pub fn approx_poly_dp(c: &Vec<(i64, i64)>, eps_mpx: u64) -> (r: Vec<(i64, i64)>)
    requires
        valid_contour(pts(c@)),
        eps_mpx < 0x800000000000,
    ensures
        pts(r@) == simplify_spec(pts(c@), eps_mpx as int),
        1 <= r@.len(),
        all_in_range(r@),
{
    let ghost m = pts(c@);
    let n = c.len();
    proof {
        assert(m[0] == (c@[0].0 as int, c@[0].1 as int));
    }
    let p0 = c[0];
    let mut i0: usize = 0;
    let mut d0: u64 = 0;
    let mut k: usize = 1;
    while k < n
        invariant
            m == pts(c@),
            valid_contour(m),
            n == c@.len(),
            1 <= k <= n,
            i0 < k,
            in_range(p0),
            (p0.0 as int, p0.1 as int) == m[0],
            i0 as int == argmax_dist(m, m[0], k as int),
            d0 == d2(m[i0 as int], m[0]),
        decreases n - k,
    {
        proof {
            assert(m[k as int] == (c@[k as int].0 as int, c@[k as int].1 as int));
        }
        let dd = d2_val(c[k], p0);
        if dd > d0 {
            i0 = k;
            d0 = dd;
        }
        k = k + 1;
    }
    proof {
        assert(m[i0 as int] == (c@[i0 as int].0 as int, c@[i0 as int].1 as int));
    }
    let p1 = c[i0];
    let mut i1: usize = 0;
    let mut d1: u64 = d2_val(c[0], p1);
    let mut k2: usize = 1;
    while k2 < n
        invariant
            m == pts(c@),
            valid_contour(m),
            n == c@.len(),
            1 <= k2 <= n,
            i1 < k2,
            i0 < n,
            in_range(p1),
            (p1.0 as int, p1.1 as int) == m[i0 as int],
            i1 as int == argmax_dist(m, m[i0 as int], k2 as int),
            d1 == d2(m[i1 as int], m[i0 as int]),
        decreases n - k2,
    {
        proof {
            assert(m[k2 as int] == (c@[k2 as int].0 as int, c@[k2 as int].1 as int));
        }
        let dd = d2_val(c[k2], p1);
        if dd > d1 {
            i1 = k2;
            d1 = dd;
        }
        k2 = k2 + 1;
    }
    proof {
        lemma_d2_sym(m[i1 as int], m[i0 as int]);
        if i0 == i1 {
            let pp = m[i0 as int];
            assert((pp.0 - pp.0) * (pp.0 - pp.0) + (pp.1 - pp.1) * (pp.1 - pp.1) == 0)
                by (nonlinear_arith);
            assert(d2(pp, pp) == 0);
        }
    }
    if d1 == 0 {
        let mut r: Vec<(i64, i64)> = Vec::new();
        r.push(p0);
        proof {
            assert(pts(r@) =~= seq![m[0]]);
            assert(all_in_range(r@));
        }
        return r;
    }
    let s = if i0 < i1 {
        i0
    } else {
        i1
    };
    let t = if i0 < i1 {
        i1
    } else {
        i0
    };
    let ghost f = |kk: int| cyc(m, kk);
    let ghost keep1 = dp_keep(m, s as int, t as int, eps_mpx as int);
    let ghost keep2 = dp_keep(m, t as int, s as int + n, eps_mpx as int);
    let mut out: Vec<(i64, i64)> = Vec::new();
    let ps = cyc_get(c, s);
    out.push(ps);
    proof {
        assert(pts(out@) =~= seq![cyc(m, s as int)]);
        assert(all_in_range(out@));
    }
    let ghost snap1 = out@;
    dp_rec(c, s, t, eps_mpx, &mut out);
    let ghost snap2 = out@;
    let pt = cyc_get(c, t);
    out.push(pt);
    proof {
        assert(pts(out@) =~= pts(snap2) + seq![cyc(m, t as int)]);
        if all_in_range(snap2) {
            assert forall|i: int| 0 <= i < out@.len() implies in_range(#[trigger] out@[i]) by {
                if i < snap2.len() {
                    assert(out@[i] == snap2[i]);
                } else {
                    assert(out@[i] == pt);
                }
            }
        }
    }
    let ghost snap3 = out@;
    dp_rec(c, t, s + n, eps_mpx, &mut out);
    proof {
        assert(pts(out@) == pts(snap3) + keep2.map_values(f));
        assert(simplify_spec(m, eps_mpx as int) == (seq![s as int] + keep1 + seq![t as int]
            + keep2).map_values(f));
        assert(pts(out@) =~= (seq![s as int] + keep1 + seq![t as int] + keep2).map_values(f));
    }
    out
}

} // verus!
