//! The detection pipeline: binarize, extract contours, find the outer
//! circle, classify the remaining contours, filter by containment, and
//! annotate container-like symbols with their interior pattern.
//!
//! The contract of [`MagicCircleDetector::detect_symbols_from_contours`]
//! pins the whole result down, and states the two structural guarantees
//! of every successful run: exactly one symbol has type `OuterCircle`
//! and it comes first, and every other symbol's position lies strictly
//! inside the outer circle's radius.

use vstd::prelude::*;

use crate::classify::{
    classify_contour, classify_spec, detect_internal_pattern, pattern_spec, Symbol,
    SymbolType,
};
use crate::geometry::{
    area2, centroid_mpx, circ_pm, contour_area2, fit_circle, inside_circle, pts, radius_mpx,
    valid_contour,
};
use crate::raster::{
    binarize, binarized_spec, contour_views, contours_of, find_contours_raster, Raster,
};

verus! {

/// The fatal failures of a detection run. Everything else degrades by
/// omitting the contour or the pattern.
#[derive(Clone, Copy, Debug, PartialEq, Eq, Structural)]
pub enum DetectError {
    /// The binarized image yields no boundary polygon at all.
    NoContoursFound,
    /// No contour both exceeds ten times the minimum-area floor and can
    /// be fitted at all.
    NoOuterCircleDetected,
    /// The best outer-circle candidate fails the circularity threshold.
    LowCircularity,
}

/// The detector's immutable configuration: the minimum contour area in
/// pixels squared and the outer-circle circularity threshold in
/// per-mille.
pub struct MagicCircleDetector {
    pub min_area: u64,
    pub circularity_threshold: u32,
}

/// Whether contour `i` is an outer-circle candidate: a usable contour
/// whose doubled area exceeds 20 times the minimum area (that is, whose
/// area exceeds ten times the floor).
pub open spec fn outer_cand(cs: Seq<Seq<(int, int)>>, min_area: int, i: int) -> bool {
    valid_contour(cs[i]) && area2(cs[i]) > 20 * min_area
}

/// Index of the candidate with maximal area among the first `k`
/// contours, the first such index on ties, or -1 when there is none.
pub open spec fn best_outer(cs: Seq<Seq<(int, int)>>, min_area: int, k: int) -> int
    decreases k,
{
    if k <= 0 {
        -1
    } else {
        let b = best_outer(cs, min_area, k - 1);
        if outer_cand(cs, min_area, k - 1) && (b == -1 || area2(cs[k - 1]) > area2(cs[b])) {
            k - 1
        } else {
            b
        }
    }
}

pub proof fn lemma_best_outer_props(cs: Seq<Seq<(int, int)>>, min_area: int, k: int)
    requires
        k <= cs.len(),
    ensures
        best_outer(cs, min_area, k) == -1 || (0 <= best_outer(cs, min_area, k) < k && outer_cand(
            cs,
            min_area,
            best_outer(cs, min_area, k),
        )),
    decreases k,
{
    if k > 0 {
        lemma_best_outer_props(cs, min_area, k - 1);
    }
}

/// The outer-circle symbol fitted to contour `i`: position and radius
/// of the fitted circle, the diameter as size, the circularity as
/// confidence.
pub open spec fn outer_sym(cs: Seq<Seq<(int, int)>>, i: int) -> Symbol {
    let c = cs[i];
    let cen = centroid_mpx(c);
    Symbol {
        symbol_type: SymbolType::OuterCircle,
        position: (cen.0 as i64, cen.1 as i64),
        size: (2 * radius_mpx(c)) as u64,
        confidence: circ_pm(c) as u32,
        pattern: None,
    }
}

/// The outer-circle decision over all contours.
pub open spec fn outer_spec(cs: Seq<Seq<(int, int)>>, min_area: int, thr: int) -> Result<
    Symbol,
    DetectError,
> {
    if cs.len() == 0 {
        Result::Err(DetectError::NoContoursFound)
    } else {
        let b = best_outer(cs, min_area, cs.len() as int);
        if b == -1 {
            Result::Err(DetectError::NoOuterCircleDetected)
        } else if circ_pm(cs[b]) < thr {
            Result::Err(DetectError::LowCircularity)
        } else {
            Result::Ok(outer_sym(cs, b))
        }
    }
}

/// The classified, containment-filtered symbols of the first `k`
/// contours, in contour-scan order; the outer contour itself is
/// skipped.
pub open spec fn inner_syms(
    cs: Seq<Seq<(int, int)>>,
    min_area: int,
    skip: int,
    outer: Symbol,
    pix: Seq<u8>,
    w: int,
    h: int,
    k: int,
) -> Seq<Symbol>
    decreases k,
{
    if k <= 0 {
        Seq::<Symbol>::empty()
    } else {
        let rest = inner_syms(cs, min_area, skip, outer, pix, w, h, k - 1);
        if k - 1 != skip && valid_contour(cs[k - 1]) && classify_spec(
            min_area,
            cs[k - 1],
            pix,
            w,
            h,
        ) is Some {
            let s = classify_spec(min_area, cs[k - 1], pix, w, h).unwrap();
            if inside_circle(
                (s.position.0 as int, s.position.1 as int),
                (outer.position.0 as int, outer.position.1 as int),
                outer.size as int,
            ) {
                rest + seq![s]
            } else {
                rest
            }
        } else {
            rest
        }
    }
}

/// Whether a symbol type carries an interior pattern.
pub open spec fn container_like(t: SymbolType) -> bool {
    t == SymbolType::Square || t == SymbolType::Circle
}

/// The symbol list after the pattern pass: container-like symbols get
/// their sampled pattern, all others stay as they are.
pub open spec fn with_patterns(syms: Seq<Symbol>, pix: Seq<u8>, w: int, h: int) -> Seq<Symbol> {
    Seq::new(
        syms.len(),
        |i: int|
            if container_like(syms[i].symbol_type) {
                Symbol {
                    pattern: pattern_spec(
                        pix,
                        w,
                        h,
                        (syms[i].position.0 as int, syms[i].position.1 as int),
                        syms[i].size as int,
                    ),
                    ..syms[i]
                }
            } else {
                syms[i]
            },
    )
}

/// The full detection result over a list of contours and the binary
/// mask they came from.
pub open spec fn detect_spec(
    min_area: int,
    thr: int,
    cs: Seq<Seq<(int, int)>>,
    pix: Seq<u8>,
    w: int,
    h: int,
) -> Result<Seq<Symbol>, DetectError> {
    match outer_spec(cs, min_area, thr) {
        Result::Err(e) => Result::Err(e),
        Result::Ok(outer) => {
            let b = best_outer(cs, min_area, cs.len() as int);
            let all = seq![outer] + inner_syms(cs, min_area, b, outer, pix, w, h, cs.len() as int);
            Result::Ok(with_patterns(all, pix, w, h))
        },
    }
}

/// Every inner symbol is a non-outer type and lies strictly inside the
/// outer circle.
pub proof fn lemma_inner_syms_props(
    cs: Seq<Seq<(int, int)>>,
    min_area: int,
    skip: int,
    outer: Symbol,
    pix: Seq<u8>,
    w: int,
    h: int,
    k: int,
)
    ensures
        forall|i: int|
            0 <= i < inner_syms(cs, min_area, skip, outer, pix, w, h, k).len() ==> {
                let s = #[trigger] inner_syms(cs, min_area, skip, outer, pix, w, h, k)[i];
                &&& s.symbol_type != SymbolType::OuterCircle
                &&& inside_circle(
                    (s.position.0 as int, s.position.1 as int),
                    (outer.position.0 as int, outer.position.1 as int),
                    outer.size as int,
                )
            },
    decreases k,
{
    if k > 0 {
        lemma_inner_syms_props(cs, min_area, skip, outer, pix, w, h, k - 1);
    }
}

/// Checks that a contour is usable: at least 3 points, at most 2^26,
/// every coordinate inside the raster limit.
pub fn is_valid_contour(c: &Vec<(i64, i64)>) -> (r: bool)
    ensures
        r == valid_contour(pts(c@)),
{
    let n = c.len();
    if n < 3 || n > 0x4000000 {
        return false;
    }
    let mut i: usize = 0;
    while i < n
        invariant
            i <= n,
            n == c@.len(),
            3 <= n <= 0x4000000,
            forall|j: int|
                0 <= j < i ==> {
                    &&& 0 <= (#[trigger] pts(c@)[j]).0 < 16384
                    &&& 0 <= pts(c@)[j].1 < 16384
                },
        decreases n - i,
    {
        proof {
            assert(pts(c@)[i as int] == (c@[i as int].0 as int, c@[i as int].1 as int));
        }
        let p = c[i];
        if p.0 < 0 || p.0 >= 16384 || p.1 < 0 || p.1 >= 16384 {
            return false;
        }
        i = i + 1;
    }
    true
}

impl MagicCircleDetector {
    /// The default configuration: a 100-pixel minimum area and a 0.7
    /// circularity threshold.
    pub fn new() -> (r: Self)
        ensures
            r.min_area == 100,
            r.circularity_threshold == 700,
    {
        MagicCircleDetector { min_area: 100, circularity_threshold: 700 }
    }

    /// Finds the index of the outer-circle candidate, if any.
    fn outer_index(&self, contours: &Vec<Vec<(i64, i64)>>) -> (r: Option<usize>)
        requires
            self.min_area <= 0x10000000,
        ensures
            match r {
                Some(i) => i < contours@.len() && best_outer(
                    contour_views(contours@),
                    self.min_area as int,
                    contours@.len() as int,
                ) == i,
                None => best_outer(
                    contour_views(contours@),
                    self.min_area as int,
                    contours@.len() as int,
                ) == -1,
            },
    {
        let ghost cs = contour_views(contours@);
        let n = contours.len();
        let mut best: Option<usize> = None;
        let mut best_a2: u64 = 0;
        let mut i: usize = 0;
        while i < n
            invariant
                i <= n,
                n == contours@.len(),
                cs == contour_views(contours@),
                self.min_area <= 0x10000000,
                match best {
                    Some(b) => b < i && best_outer(cs, self.min_area as int, i as int) == b
                        && best_a2 == area2(cs[b as int]),
                    None => best_outer(cs, self.min_area as int, i as int) == -1,
                },
            decreases n - i,
        {
            proof {
                assert(cs[i as int] == pts(contours@[i as int]@));
            }
            let valid = is_valid_contour(&contours[i]);
            if valid {
                let a2 = contour_area2(&contours[i]);
                if a2 > 20 * self.min_area {
                    match best {
                        None => {
                            best = Some(i);
                            best_a2 = a2;
                        },
                        Some(_) => {
                            if a2 > best_a2 {
                                best = Some(i);
                                best_a2 = a2;
                            }
                        },
                    }
                }
            }
            i = i + 1;
        }
        best
    }

    /// Selects the largest sufficiently large contour and accepts it as
    /// the outer circle when its circularity reaches the threshold.
    pub fn find_outer_circle(&self, contours: &Vec<Vec<(i64, i64)>>) -> (r: Result<
        Symbol,
        DetectError,
    >)
        requires
            self.min_area <= 0x10000000,
        ensures
            r == outer_spec(
                contour_views(contours@),
                self.min_area as int,
                self.circularity_threshold as int,
            ),
            r is Ok ==> r->Ok_0.symbol_type == SymbolType::OuterCircle,
    {
        let ghost cs = contour_views(contours@);
        if contours.len() == 0 {
            return Result::Err(DetectError::NoContoursFound);
        }
        let oi = match self.outer_index(contours) {
            None => {
                return Result::Err(DetectError::NoOuterCircleDetected);
            },
            Some(i) => i,
        };
        proof {
            lemma_best_outer_props(cs, self.min_area as int, cs.len() as int);
            assert(cs[oi as int] == pts(contours@[oi as int]@));
        }
        let fit = fit_circle(&contours[oi]);
        if fit.circ_pm < self.circularity_threshold {
            return Result::Err(DetectError::LowCircularity);
        }
        Result::Ok(
            Symbol {
                symbol_type: SymbolType::OuterCircle,
                position: (fit.cx_mpx, fit.cy_mpx),
                size: 2 * fit.radius_mpx,
                confidence: fit.circ_pm,
                pattern: None,
            },
        )
    }

    /// Whether a symbol's position lies strictly inside the given
    /// circle: its Euclidean distance to the center is strictly less
    /// than half the circle's size.
    pub fn is_inside_circle(&self, p: (i64, i64), circle: &Symbol) -> (r: bool)
        requires
            -0x2000000000 <= p.0 <= 0x2000000000,
            -0x2000000000 <= p.1 <= 0x2000000000,
            -0x2000000000 <= circle.position.0 <= 0x2000000000,
            -0x2000000000 <= circle.position.1 <= 0x2000000000,
            circle.size <= 0x4000000000,
        ensures
            r == inside_circle(
                (p.0 as int, p.1 as int),
                (circle.position.0 as int, circle.position.1 as int),
                circle.size as int,
            ),
    {
        let dx: i128 = (p.0 as i128) - (circle.position.0 as i128);
        let dy: i128 = (p.1 as i128) - (circle.position.1 as i128);
        proof {
            assert(0 <= dx * dx <= 0x4000000000 * 0x4000000000) by (nonlinear_arith)
                requires
                    -0x4000000000 <= dx <= 0x4000000000,
            ;
            assert(0 <= dy * dy <= 0x4000000000 * 0x4000000000) by (nonlinear_arith)
                requires
                    -0x4000000000 <= dy <= 0x4000000000,
            ;
            assert((circle.size as int) * (circle.size as int) <= 0x4000000000 * 0x4000000000)
                by (nonlinear_arith)
                requires
                    0 <= circle.size as int <= 0x4000000000,
            ;
        }
        let d2v: i128 = dx * dx + dy * dy;
        let sz: i128 = circle.size as i128;
        4 * d2v < sz * sz
    }

    /// Runs the classification pass over extracted contours: the outer
    /// circle first, then the accepted contained symbols in scan order,
    /// then the pattern pass. The result equals `detect_spec` on the
    /// contours' views; on success exactly the first symbol is the
    /// outer circle and every other symbol lies strictly inside it.
    pub fn detect_symbols_from_contours(
        &self,
        contours: &Vec<Vec<(i64, i64)>>,
        mask: &Raster,
    ) -> (r: Result<Vec<Symbol>, DetectError>)
        requires
            mask.wf(),
            self.min_area <= 0x10000000,
        ensures
            r is Err ==> detect_spec(
                self.min_area as int,
                self.circularity_threshold as int,
                contour_views(contours@),
                mask.pix(),
                mask.w(),
                mask.h(),
            ) == Result::<Seq<Symbol>, DetectError>::Err(r->Err_0),
            r is Ok ==> detect_spec(
                self.min_area as int,
                self.circularity_threshold as int,
                contour_views(contours@),
                mask.pix(),
                mask.w(),
                mask.h(),
            ) == Result::<Seq<Symbol>, DetectError>::Ok(r->Ok_0@),
            contours@.len() == 0 <==> r == Result::<Vec<Symbol>, DetectError>::Err(
                DetectError::NoContoursFound,
            ),
            r is Ok ==> {
                let syms = r->Ok_0@;
                &&& syms.len() >= 1
                &&& syms[0].symbol_type == SymbolType::OuterCircle
                &&& forall|i: int|
                    1 <= i < syms.len() ==> (#[trigger] syms[i]).symbol_type
                        != SymbolType::OuterCircle
                &&& forall|i: int|
                    1 <= i < syms.len() ==> inside_circle(
                        ((#[trigger] syms[i]).position.0 as int, syms[i].position.1 as int),
                        (syms[0].position.0 as int, syms[0].position.1 as int),
                        syms[0].size as int,
                    )
            },
    {
        let ghost cs = contour_views(contours@);
        let ghost pix = mask.pix();
        let ghost w = mask.w();
        let ghost h = mask.h();
        let ghost ma = self.min_area as int;
        let n = contours.len();
        if n == 0 {
            return Result::Err(DetectError::NoContoursFound);
        }
        let oi = match self.outer_index(contours) {
            None => {
                return Result::Err(DetectError::NoOuterCircleDetected);
            },
            Some(i) => i,
        };
        proof {
            lemma_best_outer_props(cs, ma, cs.len() as int);
            assert(cs[oi as int] == pts(contours@[oi as int]@));
        }
        let fit = fit_circle(&contours[oi]);
        if fit.circ_pm < self.circularity_threshold {
            return Result::Err(DetectError::LowCircularity);
        }
        let outer = Symbol {
            symbol_type: SymbolType::OuterCircle,
            position: (fit.cx_mpx, fit.cy_mpx),
            size: 2 * fit.radius_mpx,
            confidence: fit.circ_pm,
            pattern: None,
        };
        proof {
            assert(outer_spec(cs, ma, self.circularity_threshold as int) == Result::<
                Symbol,
                DetectError,
            >::Ok(outer));
        }
        let mut syms: Vec<Symbol> = Vec::new();
        syms.push(outer);
        let mut i: usize = 0;
        while i < n
            invariant
                i <= n,
                n == contours@.len(),
                cs == contour_views(contours@),
                pix == mask.pix(),
                w == mask.w(),
                h == mask.h(),
                ma == self.min_area as int,
                mask.wf(),
                self.min_area <= 0x10000000,
                oi < n,
                0 <= outer.position.0 <= 16383000,
                0 <= outer.position.1 <= 16383000,
                outer.size < 0x4000000,
                syms@ == seq![outer] + inner_syms(cs, ma, oi as int, outer, pix, w, h, i as int),
                forall|j: int|
                    0 <= j < syms@.len() ==> {
                        &&& 0 <= (#[trigger] syms@[j]).position.0 <= 16383000
                        &&& 0 <= syms@[j].position.1 <= 16383000
                        &&& syms@[j].size <= 0x2000000000
                    },
            decreases n - i,
        {
            proof {
                assert(cs[i as int] == pts(contours@[i as int]@));
            }
            if i != oi {
                let valid = is_valid_contour(&contours[i]);
                if valid {
                    let cls = classify_contour(self.min_area, &contours[i], mask);
                    match cls {
                        Some(s) => {
                            if self.is_inside_circle(s.position, &outer) {
                                let ghost pre = syms@;
                                syms.push(s);
                                proof {
                                    assert(syms@ =~= pre + seq![s]);
                                    assert(inner_syms(cs, ma, oi as int, outer, pix, w, h, i as int
                                        + 1) =~= inner_syms(cs, ma, oi as int, outer, pix, w, h, i
                                        as int) + seq![s]);
                                }
                            }
                        },
                        None => {
                        },
                    }
                }
            }
            i = i + 1;
        }
        let ghost full = seq![outer] + inner_syms(cs, ma, oi as int, outer, pix, w, h, n as int);
        let ghost goal = with_patterns(full, pix, w, h);
        let m = syms.len();
        let mut j: usize = 0;
        while j < m
            invariant
                j <= m,
                m == syms@.len(),
                m == full.len(),
                pix == mask.pix(),
                w == mask.w(),
                h == mask.h(),
                mask.wf(),
                goal == with_patterns(full, pix, w, h),
                forall|idx: int| j <= idx < m ==> syms@[idx] == full[idx],
                forall|idx: int| 0 <= idx < j ==> syms@[idx] == goal[idx],
                forall|idx: int|
                    0 <= idx < m ==> {
                        &&& 0 <= (#[trigger] full[idx]).position.0 <= 16383000
                        &&& 0 <= full[idx].position.1 <= 16383000
                        &&& full[idx].size <= 0x2000000000
                    },
            decreases m - j,
        {
            let s = syms[j];
            match s.symbol_type {
                SymbolType::Square | SymbolType::Circle => {
                    let pat = detect_internal_pattern(mask, &s);
                    let s2 = Symbol {
                        symbol_type: s.symbol_type,
                        position: s.position,
                        size: s.size,
                        confidence: s.confidence,
                        pattern: pat,
                    };
                    syms.set(j, s2);
                    proof {
                        assert(syms@[j as int] == goal[j as int]);
                    }
                },
                _ => {
                    proof {
                        assert(!container_like(s.symbol_type));
                        assert(syms@[j as int] == goal[j as int]);
                    }
                },
            }
            j = j + 1;
        }
        proof {
            assert(syms@ =~= goal);
            lemma_inner_syms_props(cs, ma, oi as int, outer, pix, w, h, n as int);
            assert forall|i2: int| 1 <= i2 < goal.len() implies (#[trigger] goal[i2]).symbol_type
                != SymbolType::OuterCircle && inside_circle(
                (goal[i2].position.0 as int, goal[i2].position.1 as int),
                (goal[0].position.0 as int, goal[0].position.1 as int),
                goal[0].size as int,
            ) by {
                assert(full[i2] == inner_syms(cs, ma, oi as int, outer, pix, w, h, n as int)[i2
                    - 1]);
                assert(goal[0] == full[0] || goal[0].position == full[0].position && goal[0].size
                    == full[0].size);
            }
        }
        Result::Ok(syms)
    }

    /// Detects the symbols of a grayscale image: binarizes it, extracts
    /// the boundary polygons of the foreground regions, and runs the
    /// classification pass.
    pub fn detect_symbols(&self, image: &Raster) -> (r: Result<Vec<Symbol>, DetectError>)
        requires
            image.wf(),
            self.min_area <= 0x10000000,
        ensures
            r is Err ==> detect_spec(
                self.min_area as int,
                self.circularity_threshold as int,
                contours_of(
                    binarized_spec(image.pix(), image.w(), image.h()),
                    image.w(),
                    image.h(),
                ),
                binarized_spec(image.pix(), image.w(), image.h()),
                image.w(),
                image.h(),
            ) == Result::<Seq<Symbol>, DetectError>::Err(r->Err_0),
            r is Ok ==> detect_spec(
                self.min_area as int,
                self.circularity_threshold as int,
                contours_of(
                    binarized_spec(image.pix(), image.w(), image.h()),
                    image.w(),
                    image.h(),
                ),
                binarized_spec(image.pix(), image.w(), image.h()),
                image.w(),
                image.h(),
            ) == Result::<Seq<Symbol>, DetectError>::Ok(r->Ok_0@),
            r is Ok ==> {
                let syms = r->Ok_0@;
                &&& syms.len() >= 1
                &&& syms[0].symbol_type == SymbolType::OuterCircle
                &&& forall|i: int|
                    1 <= i < syms.len() ==> (#[trigger] syms[i]).symbol_type
                        != SymbolType::OuterCircle
                &&& forall|i: int|
                    1 <= i < syms.len() ==> inside_circle(
                        ((#[trigger] syms[i]).position.0 as int, syms[i].position.1 as int),
                        (syms[0].position.0 as int, syms[0].position.1 as int),
                        syms[0].size as int,
                    )
            },
    {
        let mask = binarize(image);
        let contours = find_contours_raster(&mask.data, mask.width, mask.height);
        self.detect_symbols_from_contours(&contours, &mask)
    }
}

} // verus!
