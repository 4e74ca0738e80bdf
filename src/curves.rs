//! Conversion of mixed-type slider curves to the legacy form, where each
//! segment is drawn as bezier anchors.
use vstd::prelude::*;
use crate::model::{SliderCurveType, SliderPoint};

verus! {

/// Why a slider's points could not be converted.
#[derive(Clone, Copy, Debug, PartialEq, Eq, Structural)]
pub enum BezierConversionError {
    /// There are no control points to convert
    NoControlPoints,
    /// A perfect curve segment has more than 3 points
    PerfectCurveWithMoreThan3Points,
}

/// A point whose coordinates are held as six times their value, which keeps
/// every anchor of this conversion exact.
#[derive(Clone, Copy, Debug, PartialEq, Eq, Structural)]
pub struct SixthPoint {
    pub x6: i64,
    pub y6: i64,
}

/// The converted form of one segment.
#[derive(Clone, Debug, PartialEq, Eq)]
pub enum LegacySegment {
    /// Bezier anchors, known exactly.
    Anchors(Vec<SixthPoint>),
    /// A circular arc through three points that are not on one line; its
    /// anchors need trigonometry.
    Arc(SliderPoint, SliderPoint, SliderPoint),
}

/// What a converted segment holds.
pub enum LegacyShape {
    Anchors(Seq<SixthPoint>),
    Arc(SliderPoint, SliderPoint, SliderPoint),
}

impl View for LegacySegment {
    type V = LegacyShape;

    open spec fn view(&self) -> LegacyShape {
        match self {
            LegacySegment::Anchors(v) => LegacyShape::Anchors(v@),
            LegacySegment::Arc(a, b, c) => LegacyShape::Arc(*a, *b, *c),
        }
    }
}

pub open spec fn sixths(p: SliderPoint) -> SixthPoint {
    SixthPoint { x6: (6 * p.x) as i64, y6: (6 * p.y) as i64 }
}

/// End of the segment that starts before `j`: the next point with a type of its own.
pub open spec fn segment_end(c: Seq<SliderPoint>, j: int) -> int
    decreases c.len() - j,
{
    if j < 1 || j >= c.len() || c[j].curve_type != SliderCurveType::Inherit {
        j
    } else {
        segment_end(c, j + 1)
    }
}

/// The chain cut before each point whose type is not `Inherit`.
pub open spec fn segments(c: Seq<SliderPoint>) -> Seq<Seq<SliderPoint>>
    decreases c.len(),
{
    if c.len() == 0 {
        Seq::empty()
    } else {
        let e = segment_end(c, 1);
        if e < 1 || e > c.len() {
            Seq::empty()
        } else {
            seq![c.take(e)] + segments(c.skip(e))
        }
    }
}

pub open spec fn passthrough(seg: Seq<SliderPoint>) -> Seq<SixthPoint> {
    seg.map_values(|p: SliderPoint| sixths(p))
}

/// `[p0, p1, p1, ..., p(n-2), p(n-2), p(n-1)]`: each inner point twice.
pub open spec fn linear_anchors(seg: Seq<SliderPoint>) -> Seq<SixthPoint> {
    if seg.len() <= 1 {
        passthrough(seg)
    } else {
        Seq::new((2 * seg.len() - 2) as nat, |k: int| sixths(seg[(k + 1) / 2]))
    }
}

pub open spec fn lin(a: SliderPoint, ka: int, b: SliderPoint, kb: int, c: SliderPoint, kc: int) -> SixthPoint {
    SixthPoint {
        x6: (ka * a.x + kb * b.x + kc * c.x) as i64,
        y6: (ka * a.y + kb * b.y + kc * c.y) as i64,
    }
}

/// First control point of the cubic from knot `i` to knot `i + 1`:
/// `(-v1 + 6 v2 + v3) / 6`, with `v1` the knot before `i` (or `i` itself at the start).
pub open spec fn catmull_c1(seg: Seq<SliderPoint>, i: int) -> SixthPoint {
    let v1 = if i > 0 { seg[i - 1] } else { seg[i] };
    lin(v1, -1, seg[i], 6, seg[i + 1], 1)
}

/// Second control point of the cubic from knot `i` to knot `i + 1`:
/// `(-v4 + 6 v3 + v2) / 6`, with `v4` the knot after `i + 1`, or
/// `2 v3 - v2` past the end.
pub open spec fn catmull_c2(seg: Seq<SliderPoint>, i: int) -> SixthPoint {
    if i + 2 < seg.len() {
        lin(seg[i + 2], -1, seg[i + 1], 6, seg[i], 1)
    } else {
        lin(seg[i + 1], 4, seg[i], 1, seg[i], 1)
    }
}

/// `[p0]`, then for each knot pair its two control points and the far knot
/// twice, the very last duplicate dropped.
pub open spec fn catmull_anchors(seg: Seq<SliderPoint>) -> Seq<SixthPoint> {
    if seg.len() <= 1 {
        passthrough(seg)
    } else {
        Seq::new(
            (4 * seg.len() - 4) as nat,
            |k: int|
                if k == 0 {
                    sixths(seg[0])
                } else {
                    let i = (k - 1) / 4;
                    let r = (k - 1) % 4;
                    if r == 0 {
                        catmull_c1(seg, i)
                    } else if r == 1 {
                        catmull_c2(seg, i)
                    } else {
                        sixths(seg[i + 1])
                    }
                },
        )
    }
}

/// Twice the signed area of the triangle `a b c`.
pub open spec fn cross(a: SliderPoint, b: SliderPoint, c: SliderPoint) -> int {
    (b.y - a.y) * (c.x - a.x) - (b.x - a.x) * (c.y - a.y)
}

/// The legacy form of one segment, by the type of its first point.
pub open spec fn segment_shape(seg: Seq<SliderPoint>) -> Result<LegacyShape, BezierConversionError> {
    if seg.len() == 0 {
        Err(BezierConversionError::NoControlPoints)
    } else {
        match seg[0].curve_type {
            SliderCurveType::Linear => Ok(LegacyShape::Anchors(linear_anchors(seg))),
            SliderCurveType::PerfectCurve => {
                if seg.len() == 2 {
                    Ok(LegacyShape::Anchors(linear_anchors(seg)))
                } else if seg.len() == 3 {
                    if cross(seg[0], seg[1], seg[2]) == 0 {
                        Ok(LegacyShape::Anchors(passthrough(seg)))
                    } else {
                        Ok(LegacyShape::Arc(seg[0], seg[1], seg[2]))
                    }
                } else if seg.len() > 3 {
                    Err(BezierConversionError::PerfectCurveWithMoreThan3Points)
                } else {
                    Ok(LegacyShape::Anchors(passthrough(seg)))
                }
            },
            SliderCurveType::Catmull => Ok(LegacyShape::Anchors(catmull_anchors(seg))),
            _ => Ok(LegacyShape::Anchors(passthrough(seg))),
        }
    }
}

pub open spec fn shapes(segs: Seq<Seq<SliderPoint>>) -> Result<Seq<LegacyShape>, BezierConversionError>
    decreases segs.len(),
{
    if segs.len() == 0 {
        Ok(Seq::empty())
    } else {
        match segment_shape(segs[0]) {
            Err(e) => Err(e),
            Ok(s) => match shapes(segs.drop_first()) {
                Err(e) => Err(e),
                Ok(rest) => Ok(seq![s] + rest),
            },
        }
    }
}

/// The legacy form of a whole chain: its segments converted one by one.
pub open spec fn legacy_shapes(c: Seq<SliderPoint>) -> Result<Seq<LegacyShape>, BezierConversionError> {
    if c.len() == 0 {
        Err(BezierConversionError::NoControlPoints)
    } else {
        shapes(segments(c))
    }
}

pub open spec fn coords_fit(c: Seq<SliderPoint>) -> bool {
    forall|i: int|
        0 <= i < c.len() ==> -0x4000_0000 <= (#[trigger] c[i]).x < 0x4000_0000 && -0x4000_0000 <= c[i].y
            < 0x4000_0000
}

fn to_sixths(p: &SliderPoint) -> (r: SixthPoint)
    ensures
        r == sixths(*p),
{
    SixthPoint { x6: 6 * (p.x as i64), y6: 6 * (p.y as i64) }
}

fn passthrough_exec(seg: &[SliderPoint]) -> (r: Vec<SixthPoint>)
    ensures
        r@ == passthrough(seg@),
{
    let mut out: Vec<SixthPoint> = Vec::new();
    let mut i: usize = 0;
    while i < seg.len()
        invariant
            i <= seg@.len(),
            out@ == passthrough(seg@.take(i as int)),
        decreases seg@.len() - i,
    {
        out.push(to_sixths(&seg[i]));
        i = i + 1;
        assert(out@ =~= passthrough(seg@.take(i as int)));
    }
    assert(seg@.take(i as int) =~= seg@);
    out
}

fn linear_exec(seg: &[SliderPoint]) -> (r: Vec<SixthPoint>)
    ensures
        r@ == linear_anchors(seg@),
{
    if seg.len() <= 1 {
        return passthrough_exec(seg);
    }
    let mut out: Vec<SixthPoint> = Vec::new();
    out.push(to_sixths(&seg[0]));
    let mut i: usize = 1;
    while i < seg.len() - 1
        invariant
            1 <= i < seg@.len(),
            out@.len() == 2 * i - 1,
            forall|k: int| 0 <= k < out@.len() ==> out@[k] == #[trigger] sixths(seg@[(k + 1) / 2]),
        decreases seg@.len() - i,
    {
        let p = to_sixths(&seg[i]);
        out.push(p);
        out.push(p);
        i = i + 1;
    }
    out.push(to_sixths(&seg[i]));
    assert(out@ =~= linear_anchors(seg@));
    out
}

fn lin_exec(a: &SliderPoint, ka: i64, b: &SliderPoint, kb: i64, c: &SliderPoint, kc: i64) -> (r: SixthPoint)
    requires
        -0x4000_0000 <= a.x < 0x4000_0000,
        -0x4000_0000 <= a.y < 0x4000_0000,
        -0x4000_0000 <= b.x < 0x4000_0000,
        -0x4000_0000 <= b.y < 0x4000_0000,
        -0x4000_0000 <= c.x < 0x4000_0000,
        -0x4000_0000 <= c.y < 0x4000_0000,
        -6 <= ka <= 6,
        -6 <= kb <= 6,
        -6 <= kc <= 6,
    ensures
        r == lin(*a, ka as int, *b, kb as int, *c, kc as int),
{
    assert(-0x2_0000_0000 <= ka * a.x <= 0x2_0000_0000) by (nonlinear_arith)
        requires -0x4000_0000 <= a.x < 0x4000_0000, -6 <= ka <= 6;
    assert(-0x2_0000_0000 <= kb * b.x <= 0x2_0000_0000) by (nonlinear_arith)
        requires -0x4000_0000 <= b.x < 0x4000_0000, -6 <= kb <= 6;
    assert(-0x2_0000_0000 <= kc * c.x <= 0x2_0000_0000) by (nonlinear_arith)
        requires -0x4000_0000 <= c.x < 0x4000_0000, -6 <= kc <= 6;
    assert(-0x2_0000_0000 <= ka * a.y <= 0x2_0000_0000) by (nonlinear_arith)
        requires -0x4000_0000 <= a.y < 0x4000_0000, -6 <= ka <= 6;
    assert(-0x2_0000_0000 <= kb * b.y <= 0x2_0000_0000) by (nonlinear_arith)
        requires -0x4000_0000 <= b.y < 0x4000_0000, -6 <= kb <= 6;
    assert(-0x2_0000_0000 <= kc * c.y <= 0x2_0000_0000) by (nonlinear_arith)
        requires -0x4000_0000 <= c.y < 0x4000_0000, -6 <= kc <= 6;
    SixthPoint {
        x6: ka * (a.x as i64) + kb * (b.x as i64) + kc * (c.x as i64),
        y6: ka * (a.y as i64) + kb * (b.y as i64) + kc * (c.y as i64),
    }
}

fn catmull_exec(seg: &[SliderPoint]) -> (r: Vec<SixthPoint>)
    requires
        coords_fit(seg@),
    ensures
        r@ == catmull_anchors(seg@),
{
    let n = seg.len();
    if n <= 1 {
        return passthrough_exec(seg);
    }
    let mut out: Vec<SixthPoint> = Vec::new();
    out.push(to_sixths(&seg[0]));
    let mut i: usize = 0;
    while i + 1 < n
        invariant
            n == seg@.len(),
            n >= 2,
            i + 1 <= n,
            coords_fit(seg@),
            out@.len() == if i + 1 < n { 4 * i + 1 } else { 4 * i },
            forall|k: int| 0 <= k < out@.len() ==> out@[k] == #[trigger] catmull_anchors(seg@)[k],
        decreases n - i,
    {
        let v1 = if i > 0 { &seg[i - 1] } else { &seg[i] };
        let v2 = &seg[i];
        let v3 = &seg[i + 1];
        let c1 = lin_exec(v1, -1, v2, 6, v3, 1);
        let c2 = if i + 2 < n {
            lin_exec(&seg[i + 2], -1, v3, 6, v2, 1)
        } else {
            lin_exec(v3, 4, v2, 1, v2, 1)
        };
        let p3 = to_sixths(v3);
        let ghost base = 4 * i + 1;
        out.push(c1);
        assert(out@[base] == catmull_anchors(seg@)[base]);
        out.push(c2);
        assert(out@[base + 1] == catmull_anchors(seg@)[base + 1]);
        out.push(p3);
        assert(out@[base + 2] == catmull_anchors(seg@)[base + 2]);
        if i + 2 < n {
            out.push(p3);
            assert(out@[base + 3] == catmull_anchors(seg@)[base + 3]);
        }
        i = i + 1;
    }
    assert(out@ =~= catmull_anchors(seg@));
    out
}

fn cross_is_zero(a: &SliderPoint, b: &SliderPoint, c: &SliderPoint) -> (r: bool)
    ensures
        r == (cross(*a, *b, *c) == 0),
{
    let bay = (b.y as i128) - (a.y as i128);
    let cax = (c.x as i128) - (a.x as i128);
    let bax = (b.x as i128) - (a.x as i128);
    let cay = (c.y as i128) - (a.y as i128);
    assert(-0x1_0000_0000_0000_0000 <= bay * cax <= 0x1_0000_0000_0000_0000) by (nonlinear_arith)
        requires -0x1_0000_0000 <= bay <= 0x1_0000_0000, -0x1_0000_0000 <= cax <= 0x1_0000_0000;
    assert(-0x1_0000_0000_0000_0000 <= bax * cay <= 0x1_0000_0000_0000_0000) by (nonlinear_arith)
        requires -0x1_0000_0000 <= bax <= 0x1_0000_0000, -0x1_0000_0000 <= cay <= 0x1_0000_0000;
    bay * cax - bax * cay == 0
}

/// The legacy form of one segment.
pub fn convert_to_bezier_anchors(seg: &[SliderPoint]) -> (r: Result<LegacySegment, BezierConversionError>)
    requires
        coords_fit(seg@),
    ensures
        match r {
            Ok(s) => segment_shape(seg@) == Ok::<LegacyShape, BezierConversionError>(s@),
            Err(e) => segment_shape(seg@) == Err::<LegacyShape, BezierConversionError>(e),
        },
{
    if seg.len() == 0 {
        return Err(BezierConversionError::NoControlPoints);
    }
    match seg[0].curve_type {
        SliderCurveType::Linear => Ok(LegacySegment::Anchors(linear_exec(seg))),
        SliderCurveType::PerfectCurve => {
            if seg.len() == 2 {
                Ok(LegacySegment::Anchors(linear_exec(seg)))
            } else if seg.len() == 3 {
                if cross_is_zero(&seg[0], &seg[1], &seg[2]) {
                    Ok(LegacySegment::Anchors(passthrough_exec(seg)))
                } else {
                    Ok(LegacySegment::Arc(seg[0], seg[1], seg[2]))
                }
            } else if seg.len() > 3 {
                Err(BezierConversionError::PerfectCurveWithMoreThan3Points)
            } else {
                Ok(LegacySegment::Anchors(passthrough_exec(seg)))
            }
        },
        SliderCurveType::Catmull => Ok(LegacySegment::Anchors(catmull_exec(seg))),
        _ => Ok(LegacySegment::Anchors(passthrough_exec(seg))),
    }
}

pub open spec fn shape_views(v: Seq<LegacySegment>) -> Seq<LegacyShape> {
    v.map_values(|s: LegacySegment| s@)
}

pub open spec fn after(done: Seq<LegacyShape>, r: Result<Seq<LegacyShape>, BezierConversionError>) -> Result<
    Seq<LegacyShape>,
    BezierConversionError,
> {
    match r {
        Ok(rest) => Ok(done + rest),
        Err(e) => Err(e),
    }
}

/// Converts a whole chain segment by segment. The caller draws the result
/// as one bezier curve.
pub fn legacy_segments(chain: &[SliderPoint]) -> (r: Result<Vec<LegacySegment>, BezierConversionError>)
    requires
        coords_fit(chain@),
    ensures
        match r {
            Ok(v) => legacy_shapes(chain@) == Ok::<Seq<LegacyShape>, BezierConversionError>(shape_views(v@)),
            Err(e) => legacy_shapes(chain@) == Err::<Seq<LegacyShape>, BezierConversionError>(e),
        },
{
    let n = chain.len();
    if n == 0 {
        return Err(BezierConversionError::NoControlPoints);
    }
    let mut out: Vec<LegacySegment> = Vec::new();
    let mut start: usize = 0;
    assert(chain@.skip(0) =~= chain@);
    while start < n
        invariant
            start <= n,
            n == chain@.len(),
            n > 0,
            coords_fit(chain@),
            legacy_shapes(chain@) == after(shape_views(out@), shapes(segments(chain@.skip(start as int)))),
        decreases n - start,
    {
        let ghost rest = chain@.skip(start as int);
        let mut e: usize = start + 1;
        while e < n && chain[e].curve_type == SliderCurveType::Inherit
            invariant
                start < e <= n,
                n == chain@.len(),
                rest == chain@.skip(start as int),
                segment_end(rest, e - start) == segment_end(rest, 1),
            decreases n - e,
        {
            e = e + 1;
        }
        assert(segment_end(rest, e - start) == e - start);
        let seg = vstd::slice::slice_subrange(chain, start, e);
        assert(seg@ =~= rest.take(e - start));
        assert(coords_fit(seg@)) by {
            assert forall|i: int| 0 <= i < seg@.len() implies -0x4000_0000 <= (#[trigger] seg@[i]).x < 0x4000_0000 && -0x4000_0000 <= seg@[i].y < 0x4000_0000 by {
                assert(seg@[i] == chain@[start + i]);
            }
        }
        assert(rest.skip(e - start) =~= chain@.skip(e as int));
        assert(segments(rest) == seq![rest.take(e - start)] + segments(rest.skip(e - start)));
        let ghost segs = segments(rest);
        assert(segs[0] == seg@);
        assert(segs.drop_first() =~= segments(chain@.skip(e as int)));
        match convert_to_bezier_anchors(seg) {
            Ok(shape) => {
                let ghost before = out@;
                out.push(shape);
                assert(shape_views(out@) =~= shape_views(before) + seq![shape@]);
                proof {
                    match shapes(segments(chain@.skip(e as int))) {
                        Ok(tail) => {
                            assert(shape_views(before) + (seq![shape@] + tail) =~= shape_views(out@) + tail);
                        },
                        Err(_) => {},
                    }
                }
            },
            Err(err) => {
                return Err(err);
            },
        }
        start = e;
    }
    assert(chain@.skip(start as int) =~= Seq::<SliderPoint>::empty());
    assert(shape_views(out@) + Seq::<LegacyShape>::empty() =~= shape_views(out@));
    Ok(out)
}

/// A chain already in legacy form, one `Bezier` point followed by
/// `Inherit` ones, converts to its own points.
pub proof fn lemma_legacy_chain_unchanged(c: Seq<SliderPoint>)
    requires
        c.len() > 0,
        c[0].curve_type == SliderCurveType::Bezier,
        forall|i: int| 1 <= i < c.len() ==> (#[trigger] c[i]).curve_type == SliderCurveType::Inherit,
    ensures
        legacy_shapes(c) == Ok::<Seq<LegacyShape>, BezierConversionError>(
            seq![LegacyShape::Anchors(passthrough(c))],
        ),
{
    lemma_segment_end_inherit(c, 1);
    assert(c.take(c.len() as int) =~= c);
    assert(c.skip(c.len() as int) =~= Seq::<SliderPoint>::empty());
    assert(segments(Seq::<SliderPoint>::empty()) == Seq::<Seq<SliderPoint>>::empty());
    assert(segments(c) == seq![c.take(c.len() as int)] + segments(c.skip(c.len() as int)));
    assert(segments(c) =~= seq![c]);
    assert(seq![c].drop_first() =~= Seq::<Seq<SliderPoint>>::empty());
    assert(shapes(Seq::<Seq<SliderPoint>>::empty()) == Ok::<Seq<LegacyShape>, BezierConversionError>(Seq::empty()));
    assert(segment_shape(c) == Ok::<LegacyShape, BezierConversionError>(LegacyShape::Anchors(passthrough(c))));
    assert(seq![LegacyShape::Anchors(passthrough(c))] + Seq::<LegacyShape>::empty() =~= seq![LegacyShape::Anchors(passthrough(c))]);
}

proof fn lemma_segment_end_inherit(c: Seq<SliderPoint>, j: int)
    requires
        1 <= j <= c.len(),
        forall|i: int| 1 <= i < c.len() ==> (#[trigger] c[i]).curve_type == SliderCurveType::Inherit,
    ensures
        segment_end(c, j) == c.len(),
    decreases c.len() - j,
{
    if j < c.len() {
        lemma_segment_end_inherit(c, j + 1);
    }
}

} // verus!
