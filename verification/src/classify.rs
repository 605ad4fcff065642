//! Shape classification: symbol records, the interior-pattern buckets,
//! and the per-contour decision policy.
//!
//! A contour is first tested for circle-likeness (high circularity and
//! no strong corner structure); otherwise the simplified vertex count
//! selects the polygon class, with refinement tests for squares
//! (right angles), stars (alternating centroid distances) and double
//! circles (an inner ring of foreground samples).

use vstd::prelude::*;

use crate::geometry::{
    area2, centroid_mpx, circ_pm, contour_area2, contour_centroid_mpx, contour_perimeter_mpx, d2,
    fit_circle, isqrt, isqrt128, lemma_sqrt_floor_lt, pdist_mpx, perimeter_mpx, pts, radius_mpx,
    radsum, sqrt_floor, valid_contour,
};
use crate::raster::{is_fg, Raster};
use crate::simplify::{all_in_range, approx_poly_dp, in_range, simplify_spec};

verus! {

/// The closed set of symbol shapes.
///
/// The last four variants are operator symbols, documented for a future
/// extension of the diagram language; the detector never emits them.
#[derive(Clone, Copy, Debug, PartialEq, Eq, Structural)]
pub enum SymbolType {
    OuterCircle,
    Circle,
    DoubleCircle,
    Square,
    Triangle,
    Pentagon,
    Hexagon,
    Star,
    Convergence,
    Divergence,
    Amplification,
    Distribution,
}

/// The interior fill pattern of a container-like symbol, bucketed by
/// fill ratio.
#[derive(Clone, Copy, Debug, PartialEq, Eq, Structural)]
pub enum Pattern {
    Empty,
    Dot,
    DoubleDot,
    Lines,
    Cross,
    Filled,
}

/// A detected symbol.
#[derive(Clone, Copy, Debug)]
pub struct Symbol {
    pub symbol_type: SymbolType,
    /// Center position in milli-pixels.
    pub position: (i64, i64),
    /// Size in milli-pixels: the diameter for circle-like symbols
    /// (outer circle included), the square root of the area for
    /// polygonal ones.
    pub size: u64,
    /// Confidence in per-mille: the circularity score for the outer
    /// circle, a fixed 800 for inner symbols.
    pub confidence: u32,
    /// The interior pattern, for container-like symbols whose sampling
    /// region fits the image.
    pub pattern: Option<Pattern>,
}

/// The fill-ratio bucket of `fg` foreground pixels out of `total`:
/// below 1/10 empty, 2/10 dot, 3/10 double dot, 5/10 lines, 7/10 cross,
/// else filled.
pub open spec fn bucket(fg: int, total: int) -> Pattern {
    if 10 * fg < total {
        Pattern::Empty
    } else if 10 * fg < 2 * total {
        Pattern::Dot
    } else if 10 * fg < 3 * total {
        Pattern::DoubleDot
    } else if 10 * fg < 5 * total {
        Pattern::Lines
    } else if 10 * fg < 7 * total {
        Pattern::Cross
    } else {
        Pattern::Filled
    }
}

/// Buckets a fill ratio given as a fraction.
pub fn pattern_for_ratio(fg: u64, total: u64) -> (p: Pattern)
    requires
        1 <= total <= 0x10000000,
        fg <= total,
    ensures
        p == bucket(fg as int, total as int),
{
    if 10 * fg < total {
        Pattern::Empty
    } else if 10 * fg < 2 * total {
        Pattern::Dot
    } else if 10 * fg < 3 * total {
        Pattern::DoubleDot
    } else if 10 * fg < 5 * total {
        Pattern::Lines
    } else if 10 * fg < 7 * total {
        Pattern::Cross
    } else {
        Pattern::Filled
    }
}

/// Magnitude in per-mille of the cosine of `i * 45` degrees.
pub open spec fn cos_mag8(i: int) -> int {
    if i == 0 || i == 4 {
        1000
    } else if i == 2 || i == 6 {
        0
    } else {
        707
    }
}

/// Whether the cosine of `i * 45` degrees is negative.
pub open spec fn cos_neg8(i: int) -> bool {
    i == 3 || i == 4 || i == 5
}

/// Magnitude in per-mille of the sine of `i * 45` degrees.
pub open spec fn sin_mag8(i: int) -> int {
    if i == 2 || i == 6 {
        1000
    } else if i == 0 || i == 4 {
        0
    } else {
        707
    }
}

/// Whether the sine of `i * 45` degrees is negative.
pub open spec fn sin_neg8(i: int) -> bool {
    i == 5 || i == 6 || i == 7
}

/// Whether ring sample `i` around the center `(cx, cy)` (milli-pixels)
/// at ring radius `r7` (milli-pixels) lands on a foreground pixel.
/// Coordinates are truncated to pixels, saturating below at zero;
/// samples beyond the right or bottom edge miss.
pub open spec fn ring_hit(
    pix: Seq<u8>,
    w: int,
    h: int,
    cx: int,
    cy: int,
    r7: int,
    i: int,
) -> bool {
    let ox = r7 * cos_mag8(i) / 1000;
    let oy = r7 * sin_mag8(i) / 1000;
    let sx = if cos_neg8(i) {
        cx - ox
    } else {
        cx + ox
    };
    let sy = if sin_neg8(i) {
        cy - oy
    } else {
        cy + oy
    };
    let px = if sx < 0 {
        0
    } else {
        sx / 1000
    };
    let py = if sy < 0 {
        0
    } else {
        sy / 1000
    };
    px < w && py < h && is_fg(pix, w, px, py)
}

/// How many of the first `k` ring samples land on foreground.
pub open spec fn ring_hits(
    pix: Seq<u8>,
    w: int,
    h: int,
    cx: int,
    cy: int,
    r7: int,
    k: int,
) -> int
    decreases k,
{
    if k <= 0 {
        0
    } else {
        ring_hits(pix, w, h, cx, cy, r7, k - 1) + if ring_hit(pix, w, h, cx, cy, r7, k - 1) {
            1int
        } else {
            0int
        }
    }
}

/// Double-circle test: at least half of 8 samples on the ring at 0.7
/// times the fitted radius land on foreground.
pub open spec fn is_double_spec(pix: Seq<u8>, w: int, h: int, cx: int, cy: int, r: int) -> bool {
    ring_hits(pix, w, h, cx, cy, r * 7 / 10, 8) >= 4
}

/// Samples 8 points of the inner ring and reports whether enough hit
/// foreground to call the contour a double circle.
pub fn is_double_circle(mask: &Raster, cx: i64, cy: i64, r: u64) -> (res: bool)
    requires
        mask.wf(),
        0 <= cx <= 16383000,
        0 <= cy <= 16383000,
        r < 0x2000000,
    ensures
        res == is_double_spec(mask.pix(), mask.w(), mask.h(), cx as int, cy as int, r as int),
{
    let r7: u64 = r * 7 / 10;
    let mut hits: u64 = 0;
    let mut i: u64 = 0;
    while i < 8
        invariant
            mask.wf(),
            0 <= cx <= 16383000,
            0 <= cy <= 16383000,
            r7 == (r as int) * 7 / 10,
            r7 < 0x2000000,
            i <= 8,
            hits == ring_hits(
                mask.pix(),
                mask.w(),
                mask.h(),
                cx as int,
                cy as int,
                r7 as int,
                i as int,
            ),
            hits <= i,
        decreases 8 - i,
    {
        let cmag: u64 = if i == 0 || i == 4 {
            1000
        } else if i == 2 || i == 6 {
            0
        } else {
            707
        };
        let cneg: bool = i == 3 || i == 4 || i == 5;
        let smag: u64 = if i == 2 || i == 6 {
            1000
        } else if i == 0 || i == 4 {
            0
        } else {
            707
        };
        let sneg: bool = i == 5 || i == 6 || i == 7;
        let ox = (r7 * cmag / 1000) as i64;
        let oy = (r7 * smag / 1000) as i64;
        let sx = if cneg {
            cx - ox
        } else {
            cx + ox
        };
        let sy = if sneg {
            cy - oy
        } else {
            cy + oy
        };
        let px: u64 = if sx < 0 {
            0
        } else {
            (sx as u64) / 1000
        };
        let py: u64 = if sy < 0 {
            0
        } else {
            (sy as u64) / 1000
        };
        let hit = px < mask.width() as u64 && py < mask.height() as u64 && mask.fg(
            px as usize,
            py as usize,
        );
        proof {
            assert(hit == ring_hit(
                mask.pix(),
                mask.w(),
                mask.h(),
                cx as int,
                cy as int,
                r7 as int,
                i as int,
            ));
        }
        if hit {
            hits = hits + 1;
        }
        i = i + 1;
    }
    hits >= 4
}

/// The right-angle test at corner `i` of a quadrilateral: the cosine of
/// the angle between the two edge vectors meeting at the next vertex
/// stays within sin(0.3 rad), written as 29552/100000, of zero - that
/// is, the angle stays within 0.3 rad of a right angle. A zero-length
/// edge fails the test.
pub open spec fn corner_ok(c: Seq<(int, int)>, i: int) -> bool {
    let p1 = c[i];
    let p2 = c[if i + 1 < 4 {
        i + 1
    } else {
        i + 1 - 4
    }];
    let p3 = c[if i + 2 < 4 {
        i + 2
    } else {
        i + 2 - 4
    }];
    let v1 = (p1.0 - p2.0, p1.1 - p2.1);
    let v2 = (p3.0 - p2.0, p3.1 - p2.1);
    let dot = v1.0 * v2.0 + v1.1 * v2.1;
    let n1 = v1.0 * v1.0 + v1.1 * v1.1;
    let n2 = v2.0 * v2.0 + v2.1 * v2.1;
    n1 > 0 && n2 > 0 && (dot * dot) * 10000000000 <= (29552 * 29552) * n1 * n2
}

/// A simplified contour passes as a square when it has exactly 4
/// vertices and every corner passes the right-angle test.
pub open spec fn is_square_spec(c: Seq<(int, int)>) -> bool {
    c.len() == 4 && corner_ok(c, 0) && corner_ok(c, 1) && corner_ok(c, 2) && corner_ok(c, 3)
}

/// Checks one corner of a 4-vertex polygon.
fn corner_check(q: &Vec<(i64, i64)>, i: usize) -> (r: bool)
    requires
        q@.len() == 4,
        i < 4,
        all_in_range(q@),
    ensures
        r == corner_ok(pts(q@), i as int),
{
    let ghost m = pts(q@);
    let j = if i + 1 < 4 {
        i + 1
    } else {
        i + 1 - 4
    };
    let k = if i + 2 < 4 {
        i + 2
    } else {
        i + 2 - 4
    };
    proof {
        assert(in_range(q@[i as int]));
        assert(in_range(q@[j as int]));
        assert(in_range(q@[k as int]));
        assert(m[i as int] == (q@[i as int].0 as int, q@[i as int].1 as int));
        assert(m[j as int] == (q@[j as int].0 as int, q@[j as int].1 as int));
        assert(m[k as int] == (q@[k as int].0 as int, q@[k as int].1 as int));
    }
    let p1 = q[i];
    let p2 = q[j];
    let p3 = q[k];
    let v1x = p1.0 - p2.0;
    let v1y = p1.1 - p2.1;
    let v2x = p3.0 - p2.0;
    let v2y = p3.1 - p2.1;
    proof {
        assert(-0x10000000 < v1x * v2x < 0x10000000) by (nonlinear_arith)
            requires
                -16384 < v1x < 16384 && -16384 < v2x < 16384,
        ;
        assert(-0x10000000 < v1y * v2y < 0x10000000) by (nonlinear_arith)
            requires
                -16384 < v1y < 16384 && -16384 < v2y < 16384,
        ;
        assert(0 <= v1x * v1x < 0x10000000) by (nonlinear_arith)
            requires
                -16384 < v1x < 16384,
        ;
        assert(0 <= v1y * v1y < 0x10000000) by (nonlinear_arith)
            requires
                -16384 < v1y < 16384,
        ;
        assert(0 <= v2x * v2x < 0x10000000) by (nonlinear_arith)
            requires
                -16384 < v2x < 16384,
        ;
        assert(0 <= v2y * v2y < 0x10000000) by (nonlinear_arith)
            requires
                -16384 < v2y < 16384,
        ;
    }
    let dot = v1x * v2x + v1y * v2y;
    let n1 = v1x * v1x + v1y * v1y;
    let n2 = v2x * v2x + v2y * v2y;
    if n1 == 0 || n2 == 0 {
        return false;
    }
    proof {
        assert(0 <= (dot as int) * (dot as int) <= 0x20000000 * 0x20000000) by (nonlinear_arith)
            requires
                -0x20000000 <= dot as int <= 0x20000000,
        ;
        assert((29552 * (n1 as int)) * (n2 as int) <= (29552 * 0x20000000) * 0x20000000)
            by (nonlinear_arith)
            requires
                0 <= n1 as int <= 0x20000000 && 0 <= n2 as int <= 0x20000000,
        ;
        assert((29552 * 29552) * (n1 as int) * (n2 as int) == 29552 * ((29552 * (n1 as int))
            * (n2 as int))) by (nonlinear_arith);
    }
    let lhs: u128 = ((dot as i128 * dot as i128) as u128) * 10000000000;
    let rhs: u128 = 29552 * (29552 * (n1 as u128) * (n2 as u128));
    proof {
        assert(rhs == (29552 * 29552) * (n1 as int) * (n2 as int));
    }
    lhs <= rhs
}

/// Right-angle test for a simplified 4-vertex contour.
pub fn is_square(q: &Vec<(i64, i64)>) -> (r: bool)
    requires
        all_in_range(q@),
    ensures
        r == is_square_spec(pts(q@)),
{
    if q.len() != 4 {
        return false;
    }
    let c0 = corner_check(q, 0);
    let c1 = corner_check(q, 1);
    let c2 = corner_check(q, 2);
    let c3 = corner_check(q, 3);
    c0 && c1 && c2 && c3
}

/// Sum over the first `k` points of the squared deviation of their
/// centroid distance from `mean` (all in milli-pixels).
pub open spec fn star_varsum(c: Seq<(int, int)>, cx: int, cy: int, mean: int, k: int) -> int
    decreases k,
{
    if k <= 0 {
        0
    } else {
        star_varsum(c, cx, cy, mean, k - 1) + (pdist_mpx(c, cx, cy, k - 1) - mean) * (pdist_mpx(
            c,
            cx,
            cy,
            k - 1,
        ) - mean)
    }
}

/// Star test: the variance of the centroid distances of the boundary
/// points exceeds 0.2 times their mean (variance in squared
/// milli-pixels against mean in milli-pixels, as the heuristic is
/// defined).
pub open spec fn is_star_spec(c: Seq<(int, int)>) -> bool {
    let n = c.len() as int;
    let cen = centroid_mpx(c);
    let mean = radsum(c, cen.0, cen.1, n) / n;
    let v = star_varsum(c, cen.0, cen.1, mean, n) / n;
    5 * v > 1000 * mean
}

/// Measures the spread of centroid distances over the original boundary
/// points of a contour.
pub fn is_star_shape(c: &Vec<(i64, i64)>) -> (r: bool)
    requires
        valid_contour(pts(c@)),
    ensures
        r == is_star_spec(pts(c@)),
{
    let ghost m = pts(c@);
    let n = c.len();
    let (cx, cy) = contour_centroid_mpx(c);
    let mut dsum: u64 = 0;
    let mut i: usize = 0;
    while i < n
        invariant
            i <= n,
            n == c@.len(),
            m == pts(c@),
            valid_contour(m),
            0 <= cx <= 16383000,
            0 <= cy <= 16383000,
            cx == centroid_mpx(m).0,
            cy == centroid_mpx(m).1,
            dsum == radsum(m, cx as int, cy as int, i as int),
            dsum <= (i as int) * 0x1ffffff,
        decreases n - i,
    {
        proof {
            assert(m[i as int] == (c@[i as int].0 as int, c@[i as int].1 as int));
        }
        let px = 1000 * c[i].0;
        let py = 1000 * c[i].1;
        let dx = px - cx;
        let dy = py - cy;
        proof {
            assert(0 <= dx * dx <= 268402689000000) by (nonlinear_arith)
                requires
                    -16383000 <= dx <= 16383000,
            ;
            assert(0 <= dy * dy <= 268402689000000) by (nonlinear_arith)
                requires
                    -16383000 <= dy <= 16383000,
            ;
        }
        let sq: u64 = (dx * dx + dy * dy) as u64;
        let s = isqrt(sq);
        proof {
            assert(sq == d2((1000 * m[i as int].0, 1000 * m[i as int].1), (cx as int, cy as int)));
            assert(sq < 0x2000000 * 0x2000000) by (nonlinear_arith)
                requires
                    sq <= 536805378000000u64,
            ;
            lemma_sqrt_floor_lt(sq as nat, 0x2000000);
            assert(s == pdist_mpx(m, cx as int, cy as int, i as int));
            assert((i as int + 1) * 0x1ffffff == (i as int) * 0x1ffffff + 0x1ffffff);
            assert((i as int + 1) * 0x1ffffff <= 0x4000000 * 0x1ffffff) by (nonlinear_arith)
                requires
                    0 <= i as int + 1 <= 0x4000000,
            ;
        }
        dsum = dsum + s;
        i = i + 1;
    }
    proof {
        assert((n as int) * 0x1ffffff <= 0x4000000 * 0x1ffffff) by (nonlinear_arith)
            requires
                0 <= n <= 0x4000000,
        ;
        assert((dsum as int) / (n as int) <= 0x1ffffff) by (nonlinear_arith)
            requires
                3 <= n as int && 0 <= dsum as int <= (n as int) * 0x1ffffff,
        ;
    }
    let mean: u64 = dsum / (n as u64);
    let mut vs: u128 = 0;
    let mut j: usize = 0;
    while j < n
        invariant
            j <= n,
            n == c@.len(),
            m == pts(c@),
            valid_contour(m),
            0 <= cx <= 16383000,
            0 <= cy <= 16383000,
            cx == centroid_mpx(m).0,
            cy == centroid_mpx(m).1,
            mean <= 0x1ffffff,
            mean == radsum(m, cx as int, cy as int, n as int) / (n as int),
            vs == star_varsum(m, cx as int, cy as int, mean as int, j as int),
            vs <= (j as int) * 0x10000000000000,
        decreases n - j,
    {
        proof {
            assert(m[j as int] == (c@[j as int].0 as int, c@[j as int].1 as int));
        }
        let px = 1000 * c[j].0;
        let py = 1000 * c[j].1;
        let dx = px - cx;
        let dy = py - cy;
        proof {
            assert(0 <= dx * dx <= 268402689000000) by (nonlinear_arith)
                requires
                    -16383000 <= dx <= 16383000,
            ;
            assert(0 <= dy * dy <= 268402689000000) by (nonlinear_arith)
                requires
                    -16383000 <= dy <= 16383000,
            ;
        }
        let sq: u64 = (dx * dx + dy * dy) as u64;
        let s = isqrt(sq);
        proof {
            assert(sq == d2((1000 * m[j as int].0, 1000 * m[j as int].1), (cx as int, cy as int)));
            assert(sq < 0x2000000 * 0x2000000) by (nonlinear_arith)
                requires
                    sq <= 536805378000000u64,
            ;
            lemma_sqrt_floor_lt(sq as nat, 0x2000000);
            assert(s == pdist_mpx(m, cx as int, cy as int, j as int));
        }
        let diff: u64 = if s >= mean {
            s - mean
        } else {
            mean - s
        };
        proof {
            assert((diff as int) * (diff as int) == ((s as int) - (mean as int)) * ((s as int)
                - (mean as int))) by (nonlinear_arith)
                requires
                    diff as int == (s as int) - (mean as int) || diff as int == (mean as int) - (
                    s as int),
            ;
            assert((diff as int) * (diff as int) <= 0x10000000000000) by (nonlinear_arith)
                requires
                    0 <= diff as int <= 0x2000000,
            ;
        }
        let t: u128 = (diff as u128) * (diff as u128);
        proof {
            assert((j as int + 1) * 0x10000000000000 == (j as int) * 0x10000000000000
                + 0x10000000000000);
            assert((j as int + 1) * 0x10000000000000 <= 0x4000000 * 0x10000000000000)
                by (nonlinear_arith)
                requires
                    0 <= j as int + 1 <= 0x4000000,
            ;
        }
        vs = vs + t;
        j = j + 1;
    }
    proof {
        assert((n as int) * 0x10000000000000 <= 0x4000000 * 0x10000000000000) by (nonlinear_arith)
            requires
                0 <= n <= 0x4000000,
        ;
    }
    let v: u128 = vs / (n as u128);
    proof {
        assert((vs as int) / (n as int) <= vs as int) by (nonlinear_arith)
            requires
                3 <= n as int && 0 <= vs as int,
        ;
    }
    5 * v > 1000 * (mean as u128)
}

/// The classification of one contour, given the detector's minimum
/// area (in pixels squared) and the binary mask. `None` means the
/// contour is skipped: too few points, too small, a failed square
/// refinement, or an unsupported vertex count.
pub open spec fn classify_spec(
    min_area: int,
    c: Seq<(int, int)>,
    pix: Seq<u8>,
    w: int,
    h: int,
) -> Option<Symbol> {
    if c.len() < 5 {
        None
    } else if area2(c) < 2 * min_area {
        None
    } else {
        let cen = centroid_mpx(c);
        let eps = perimeter_mpx(c) * 4 / 100;
        let v = simplify_spec(c, eps).len() as int;
        let r = radius_mpx(c);
        let circ = circ_pm(c);
        let sqrt_size = sqrt_floor((area2(c) * 500000) as nat) as int;
        let pos = (cen.0 as i64, cen.1 as i64);
        if circ > 850 && v > 6 {
            let ty = if is_double_spec(pix, w, h, cen.0, cen.1, r) {
                SymbolType::DoubleCircle
            } else {
                SymbolType::Circle
            };
            Some(
                Symbol {
                    symbol_type: ty,
                    position: pos,
                    size: (2 * r) as u64,
                    confidence: 800,
                    pattern: None,
                },
            )
        } else if v == 3 {
            Some(
                Symbol {
                    symbol_type: SymbolType::Triangle,
                    position: pos,
                    size: sqrt_size as u64,
                    confidence: 800,
                    pattern: None,
                },
            )
        } else if v == 4 {
            if is_square_spec(simplify_spec(c, eps)) {
                Some(
                    Symbol {
                        symbol_type: SymbolType::Square,
                        position: pos,
                        size: sqrt_size as u64,
                        confidence: 800,
                        pattern: None,
                    },
                )
            } else {
                None
            }
        } else if v == 5 {
            Some(
                Symbol {
                    symbol_type: SymbolType::Pentagon,
                    position: pos,
                    size: sqrt_size as u64,
                    confidence: 800,
                    pattern: None,
                },
            )
        } else if v == 6 {
            Some(
                Symbol {
                    symbol_type: SymbolType::Hexagon,
                    position: pos,
                    size: sqrt_size as u64,
                    confidence: 800,
                    pattern: None,
                },
            )
        } else if 8 <= v <= 12 {
            if is_star_spec(c) {
                Some(
                    Symbol {
                        symbol_type: SymbolType::Star,
                        position: pos,
                        size: sqrt_size as u64,
                        confidence: 800,
                        pattern: None,
                    },
                )
            } else {
                Some(
                    Symbol {
                        symbol_type: SymbolType::Circle,
                        position: pos,
                        size: (2 * r) as u64,
                        confidence: 800,
                        pattern: None,
                    },
                )
            }
        } else {
            None
        }
    }
}

/// Classifies one contour against the binary mask.
pub fn classify_contour(min_area: u64, c: &Vec<(i64, i64)>, mask: &Raster) -> (r: Option<Symbol>)
    requires
        valid_contour(pts(c@)),
        mask.wf(),
        min_area <= 0x10000000,
    ensures
        r == classify_spec(min_area as int, pts(c@), mask.pix(), mask.w(), mask.h()),
        r is Some ==> {
            &&& 0 <= r.unwrap().position.0 <= 16383000
            &&& 0 <= r.unwrap().position.1 <= 16383000
            &&& r.unwrap().size <= 0x2000000000
        },
{
    let ghost m = pts(c@);
    if c.len() < 5 {
        return None;
    }
    let a2 = contour_area2(c);
    if a2 < 2 * min_area {
        return None;
    }
    let p = contour_perimeter_mpx(c);
    proof {
        assert(c@.len() * 0x2000000 <= 0x4000000 * 0x2000000) by (nonlinear_arith)
            requires
                0 <= c@.len() <= 0x4000000,
        ;
        assert(c@.len() * 0x20000000 <= 0x4000000 * 0x20000000) by (nonlinear_arith)
            requires
                0 <= c@.len() <= 0x4000000,
        ;
        assert((p as int) * 4 / 100 < 0x800000000000) by (nonlinear_arith)
            requires
                0 <= p as int <= 0x8000000000000,
        ;
    }
    let eps = p * 4 / 100;
    let simp = approx_poly_dp(c, eps);
    let v = simp.len();
    let fit = fit_circle(c);
    let sz2: u128 = (a2 as u128) * 500000;
    let sqrt_size = isqrt128(sz2);
    proof {
        assert((a2 as int) * 500000 < 0x4000000000000000000000000000000) by (nonlinear_arith)
            requires
                0 <= a2 as int <= 0x80000000000000,
        ;
        assert(sqrt_size < 0x2000000000) by {
            assert((sqrt_size as int) * (sqrt_size as int) <= sz2 < 0x2000000000 * 0x2000000000)
                by (nonlinear_arith)
                requires
                    (sqrt_size as int) * (sqrt_size as int) <= sz2 as int && sz2 as int
                        <= 0x80000000000000 * 500000,
            ;
            assert(sqrt_size < 0x2000000000) by (nonlinear_arith)
                requires
                    (sqrt_size as int) * (sqrt_size as int) < 0x2000000000 * 0x2000000000
                        && sqrt_size >= 0,
            ;
        }
        assert(pts(simp@).len() == simp@.len());
    }
    if fit.circ_pm > 850 && v > 6 {
        let dc = is_double_circle(mask, fit.cx_mpx, fit.cy_mpx, fit.radius_mpx);
        let ty = if dc {
            SymbolType::DoubleCircle
        } else {
            SymbolType::Circle
        };
        Some(
            Symbol {
                symbol_type: ty,
                position: (fit.cx_mpx, fit.cy_mpx),
                size: 2 * fit.radius_mpx,
                confidence: 800,
                pattern: None,
            },
        )
    } else if v == 3 {
        Some(
            Symbol {
                symbol_type: SymbolType::Triangle,
                position: (fit.cx_mpx, fit.cy_mpx),
                size: sqrt_size,
                confidence: 800,
                pattern: None,
            },
        )
    } else if v == 4 {
        if is_square(&simp) {
            Some(
                Symbol {
                    symbol_type: SymbolType::Square,
                    position: (fit.cx_mpx, fit.cy_mpx),
                    size: sqrt_size,
                    confidence: 800,
                    pattern: None,
                },
            )
        } else {
            None
        }
    } else if v == 5 {
        Some(
            Symbol {
                symbol_type: SymbolType::Pentagon,
                position: (fit.cx_mpx, fit.cy_mpx),
                size: sqrt_size,
                confidence: 800,
                pattern: None,
            },
        )
    } else if v == 6 {
        Some(
            Symbol {
                symbol_type: SymbolType::Hexagon,
                position: (fit.cx_mpx, fit.cy_mpx),
                size: sqrt_size,
                confidence: 800,
                pattern: None,
            },
        )
    } else if 8 <= v && v <= 12 {
        if is_star_shape(c) {
            Some(
                Symbol {
                    symbol_type: SymbolType::Star,
                    position: (fit.cx_mpx, fit.cy_mpx),
                    size: sqrt_size,
                    confidence: 800,
                    pattern: None,
                },
            )
        } else {
            Some(
                Symbol {
                    symbol_type: SymbolType::Circle,
                    position: (fit.cx_mpx, fit.cy_mpx),
                    size: 2 * fit.radius_mpx,
                    confidence: 800,
                    pattern: None,
                },
            )
        }
    } else {
        None
    }
}

/// Number of foreground pixels among `k` cells of the row at `y`
/// starting at column `x0`.
pub open spec fn row_fg_count(pix: Seq<u8>, w: int, x0: int, y: int, k: int) -> int
    decreases k,
{
    if k <= 0 {
        0
    } else {
        row_fg_count(pix, w, x0, y, k - 1) + if is_fg(pix, w, x0 + (k - 1), y) {
            1int
        } else {
            0int
        }
    }
}

/// Number of foreground pixels in the first `k` rows of the square
/// region of side `rw` at `(x0, y0)`.
pub open spec fn rect_fg_count(pix: Seq<u8>, w: int, x0: int, y0: int, rw: int, k: int) -> int
    decreases k,
{
    if k <= 0 {
        0
    } else {
        rect_fg_count(pix, w, x0, y0, rw, k - 1) + row_fg_count(pix, w, x0, y0 + (k - 1), rw)
    }
}

/// The interior pattern of a symbol at `pos` (milli-pixels) of the
/// given size: the fill ratio of the square region of side 0.8 times
/// the size centered on the position, bucketed; `None` when the region
/// is empty or would exceed the image bounds.
pub open spec fn pattern_spec(pix: Seq<u8>, w: int, h: int, pos: (int, int), size: int) -> Option<
    Pattern,
> {
    let roi = size * 8 / 10 / 1000;
    if roi < 1 {
        None
    } else {
        let x0m = pos.0 - roi * 500;
        let y0m = pos.1 - roi * 500;
        if x0m < 0 || y0m < 0 {
            None
        } else {
            let x0 = x0m / 1000;
            let y0 = y0m / 1000;
            if x0 + roi >= w || y0 + roi >= h {
                None
            } else {
                Some(bucket(rect_fg_count(pix, w, x0, y0, roi, roi), roi * roi))
            }
        }
    }
}

/// Samples the interior of a container-like symbol and buckets its fill
/// ratio.
pub fn detect_internal_pattern(mask: &Raster, sym: &Symbol) -> (r: Option<Pattern>)
    requires
        mask.wf(),
        0 <= sym.position.0 <= 16383000,
        0 <= sym.position.1 <= 16383000,
        sym.size <= 0x2000000000,
    ensures
        r == pattern_spec(
            mask.pix(),
            mask.w(),
            mask.h(),
            (sym.position.0 as int, sym.position.1 as int),
            sym.size as int,
        ),
{
    let roi64: u64 = sym.size * 8 / 10 / 1000;
    if roi64 < 1 {
        return None;
    }
    let roi = roi64 as i64;
    let x0m = sym.position.0 - roi * 500;
    let y0m = sym.position.1 - roi * 500;
    if x0m < 0 || y0m < 0 {
        return None;
    }
    let x0 = ((x0m as u64) / 1000) as usize;
    let y0 = ((y0m as u64) / 1000) as usize;
    let roi_us = roi64 as usize;
    if x0 + roi_us >= mask.width() || y0 + roi_us >= mask.height() {
        return None;
    }
    let ghost pix = mask.pix();
    let ghost w = mask.w();
    let mut count: u64 = 0;
    let mut dy: usize = 0;
    while dy < roi_us
        invariant
            mask.wf(),
            pix == mask.pix(),
            w == mask.w(),
            dy <= roi_us,
            1 <= roi_us < 16384,
            x0 + roi_us < mask.w(),
            y0 + roi_us < mask.h(),
            count == rect_fg_count(pix, w, x0 as int, y0 as int, roi_us as int, dy as int),
            count <= (dy as int) * (roi_us as int),
        decreases roi_us - dy,
    {
        let mut dx: usize = 0;
        while dx < roi_us
            invariant
                mask.wf(),
                pix == mask.pix(),
                w == mask.w(),
                dy < roi_us,
                dx <= roi_us,
                1 <= roi_us < 16384,
                x0 + roi_us < mask.w(),
                y0 + roi_us < mask.h(),
                count == rect_fg_count(pix, w, x0 as int, y0 as int, roi_us as int, dy as int)
                    + row_fg_count(pix, w, x0 as int, (y0 + dy) as int, dx as int),
                count <= (dy as int) * (roi_us as int) + dx as int,
            decreases roi_us - dx,
        {
            proof {
                assert((dy as int) * (roi_us as int) <= 16383 * 16383) by (nonlinear_arith)
                    requires
                        0 <= dy as int && dy as int <= 16383 && 0 <= roi_us as int && roi_us
                            as int <= 16383,
                ;
            }
            if mask.fg(x0 + dx, y0 + dy) {
                count = count + 1;
            }
            dx = dx + 1;
        }
        proof {
            assert((dy as int + 1) * (roi_us as int) == (dy as int) * (roi_us as int) + (roi_us
                as int)) by (nonlinear_arith);
        }
        dy = dy + 1;
    }
    proof {
        assert(1 <= (roi_us as int) * (roi_us as int) <= 0x10000000) by (nonlinear_arith)
            requires
                1 <= roi_us as int && roi_us as int <= 16383,
        ;
        assert((roi_us as int) * (roi_us as int) == (roi as int) * (roi as int));
        assert((roi_us as int) * (roi_us as int) >= (roi_us as int) * 1) by (nonlinear_arith)
            requires
                1 <= roi_us as int,
        ;
    }
    let total = (roi_us as u64) * (roi_us as u64);
    Some(pattern_for_ratio(count, total))
}

/// Law: an exact axis-aligned square always passes the right-angle
/// test - at every corner the adjacent edges are perpendicular, so the
/// cosine bound holds with the dot product equal to zero.
pub proof fn lemma_axis_aligned_square_is_square(x: int, y: int, a: int)
    requires
        a > 0,
    ensures
        is_square_spec(seq![(x, y), (x + a, y), (x + a, y + a), (x, y + a)]),
{
    let c = seq![(x, y), (x + a, y), (x + a, y + a), (x, y + a)];
    lemma_axis_corner(c[0].0 - c[1].0, c[0].1 - c[1].1, c[2].0 - c[1].0, c[2].1 - c[1].1, -a, 0, 0,
        a, a);
    assert(corner_ok(c, 0));
    lemma_axis_corner(c[1].0 - c[2].0, c[1].1 - c[2].1, c[3].0 - c[2].0, c[3].1 - c[2].1, 0, -a,
        -a, 0, a);
    assert(corner_ok(c, 1));
    lemma_axis_corner(c[2].0 - c[3].0, c[2].1 - c[3].1, c[0].0 - c[3].0, c[0].1 - c[3].1, a, 0, 0,
        -a, a);
    assert(corner_ok(c, 2));
    lemma_axis_corner(c[3].0 - c[0].0, c[3].1 - c[0].1, c[1].0 - c[0].0, c[1].1 - c[0].1, 0, a, a,
        0, a);
    assert(corner_ok(c, 3));
}

/// The corner condition for two perpendicular axis-aligned edge vectors
/// of length `a`.
proof fn lemma_axis_corner(
    v10: int,
    v11: int,
    v20: int,
    v21: int,
    w10: int,
    w11: int,
    w20: int,
    w21: int,
    a: int,
)
    requires
        a > 0,
        v10 == w10 && v11 == w11 && v20 == w20 && v21 == w21,
        (w10 == a || w10 == -a || w10 == 0) && (w11 == a || w11 == -a || w11 == 0),
        (w20 == a || w20 == -a || w20 == 0) && (w21 == a || w21 == -a || w21 == 0),
        w10 == 0 <==> w11 != 0,
        w20 == 0 <==> w21 != 0,
        w10 == 0 <==> w20 != 0,
    ensures
        v10 * v10 + v11 * v11 > 0,
        v20 * v20 + v21 * v21 > 0,
        ((v10 * v20 + v11 * v21) * (v10 * v20 + v11 * v21)) * 10000000000 <= (29552 * 29552) * (
        v10 * v10 + v11 * v11) * (v20 * v20 + v21 * v21),
{
    assert((v10 * v20 + v11 * v21) == 0 && v10 * v10 + v11 * v11 == a * a && v20 * v20 + v21 * v21
        == a * a) by (nonlinear_arith)
        requires
            a > 0 && (v10 == a || v10 == -a || v10 == 0) && (v11 == a || v11 == -a || v11 == 0)
                && (v20 == a || v20 == -a || v20 == 0) && (v21 == a || v21 == -a || v21 == 0) && (
            v10 == 0 <==> v11 != 0) && (v20 == 0 <==> v21 != 0) && (v10 == 0 <==> v20 != 0),
    ;
    assert(a * a > 0) by (nonlinear_arith)
        requires
            a > 0,
    ;
    assert(0 * 10000000000 <= (29552 * 29552) * (a * a) * (a * a)) by (nonlinear_arith)
        requires
            a * a > 0,
    ;
}

/// Law: the per-contour classifier never emits the outer-circle type;
/// an outer circle can only come from the dedicated detection step, so
/// a successful run holds exactly one.
pub proof fn lemma_classify_never_outer(
    min_area: int,
    c: Seq<(int, int)>,
    pix: Seq<u8>,
    w: int,
    h: int,
)
    ensures
        classify_spec(min_area, c, pix, w, h) is Some ==> classify_spec(
            min_area,
            c,
            pix,
            w,
            h,
        ).unwrap().symbol_type != SymbolType::OuterCircle,
{
}

} // verus!
