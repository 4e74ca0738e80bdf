use osus::algos::{mix_volume, remove_duplicates, remove_useless_speed_changes, reset_hitsounds};
use osus::hit_objects::parse_hit_object;
use osus::curves::{legacy_segments, BezierConversionError, LegacySegment, SixthPoint};
use osus::decimal::Decimal;
use osus::model::{SampleBank, SliderCurveType, SliderPoint, TimingPoint};
use osus::timestamp::{at_timestamp, between, check_sorted, group_timestamped, interleave_timestamped, TimeBound};

fn ms(v: i64) -> Decimal {
    Decimal { mantissa: v, scale: 0 }
}

fn tp(time: i64, volume: u32, uninherited: bool) -> TimingPoint {
    TimingPoint {
        time: ms(time),
        beat_length: ms(-100),
        meter: 4,
        sample_set: SampleBank::Normal,
        sample_index: 0,
        volume,
        uninherited,
        effects: 0,
    }
}

fn pt(curve_type: SliderCurveType, x: i32, y: i32) -> SliderPoint {
    SliderPoint { curve_type, x, y }
}

fn sixths(points: &[(i64, i64)]) -> Vec<SixthPoint> {
    points.iter().map(|&(x, y)| SixthPoint { x6: 6 * x, y6: 6 * y }).collect()
}

#[test]
fn range_query_matches_linear_scan() {
    let times = [0, 50, 100, 100, 150, 199, 200, 250];
    let points: Vec<TimingPoint> = times.iter().map(|&t| tp(t, 50, false)).collect();
    let r = between(&points, TimeBound::Included(ms(100)), TimeBound::Excluded(ms(200)));
    let expected: Vec<TimingPoint> =
        points.iter().copied().filter(|p| p.time.mantissa >= 100 && p.time.mantissa < 200).collect();
    assert_eq!(r, expected.as_slice());
    assert_eq!(r.len(), 4);
    let all = between(&points, TimeBound::Unbounded, TimeBound::Included(ms(200)));
    assert_eq!(all.len(), 7);
    let none = between(&points, TimeBound::Excluded(ms(250)), TimeBound::Unbounded);
    assert!(none.is_empty());
}

#[test]
fn near_match_query() {
    let points: Vec<TimingPoint> = [0, 100, 200].iter().map(|&t| tp(t, 50, false)).collect();
    let found = at_timestamp(&points, ms(101), ms(2)).unwrap();
    assert_eq!(found.time, ms(100));
    assert!(at_timestamp(&points, ms(150), ms(2)).is_none());
    let edge = at_timestamp(&points, Decimal { mantissa: 1980, scale: 1 }, ms(2)).unwrap();
    assert_eq!(edge.time, ms(200));
}

#[test]
fn interleave_is_sorted_and_left_biased() {
    let a: Vec<TimingPoint> = [0, 10, 20].iter().map(|&t| tp(t, 50, false)).collect();
    let b: Vec<TimingPoint> = [5, 10, 30].iter().map(|&t| tp(t, 50, false)).collect();
    let order = interleave_timestamped(&a, &b);
    assert_eq!(order, vec![Ok(0), Err(0), Ok(1), Err(1), Ok(2), Err(2)]);
}

#[test]
fn grouping_by_closeness() {
    let points: Vec<TimingPoint> = [0, 1, 2, 10, 11, 30].iter().map(|&t| tp(t, 50, false)).collect();
    let groups = group_timestamped(&points, ms(1));
    assert_eq!(groups, vec![(0, 2), (2, 3), (3, 5), (5, 6)]);
}

#[test]
fn duplicates_collapse() {
    let a = tp(0, 50, false);
    let a2 = tp(10, 50, false);
    let b = tp(20, 80, false);
    assert_eq!(remove_duplicates(&[a, a2, b]), vec![a, b]);
    let a3 = tp(10, 50, true);
    assert_eq!(remove_duplicates(&[a, a3, b]), vec![a, a3, b]);
    assert!(remove_duplicates(&[]).is_empty());
}

#[test]
fn hitsound_edits() {
    let mut points = vec![tp(0, 250, false), tp(10, 3, false)];
    mix_volume(&mut points, -5);
    assert_eq!(points[0].volume, 245);
    assert_eq!(points[1].volume, 0);
    reset_hitsounds(&mut points, SampleBank::Drum);
    assert!(points.iter().all(|p| p.volume == 100 && p.sample_set == SampleBank::Drum && p.sample_index == 0));
}

#[test]
fn linear_expansion() {
    let chain = [pt(SliderCurveType::Linear, 0, 0), pt(SliderCurveType::Inherit, 10, 0)];
    let r = legacy_segments(&chain).unwrap();
    assert_eq!(r, vec![LegacySegment::Anchors(sixths(&[(0, 0), (10, 0)]))]);
    let chain3 = [
        pt(SliderCurveType::Linear, 0, 0),
        pt(SliderCurveType::Inherit, 10, 0),
        pt(SliderCurveType::Inherit, 10, 10),
    ];
    let r3 = legacy_segments(&chain3).unwrap();
    assert_eq!(r3, vec![LegacySegment::Anchors(sixths(&[(0, 0), (10, 0), (10, 0), (10, 10)]))]);
}

#[test]
fn degenerate_arc() {
    let chain = [
        pt(SliderCurveType::PerfectCurve, 0, 0),
        pt(SliderCurveType::Inherit, 5, 0),
        pt(SliderCurveType::Inherit, 10, 0),
    ];
    let r = legacy_segments(&chain).unwrap();
    assert_eq!(r, vec![LegacySegment::Anchors(sixths(&[(0, 0), (5, 0), (10, 0)]))]);
    let bent = [
        pt(SliderCurveType::PerfectCurve, 0, 0),
        pt(SliderCurveType::Inherit, 5, 5),
        pt(SliderCurveType::Inherit, 10, 0),
    ];
    assert_eq!(legacy_segments(&bent).unwrap(), vec![LegacySegment::Arc(bent[0], bent[1], bent[2])]);
}

#[test]
fn legacy_chain_is_unchanged() {
    let chain = [
        pt(SliderCurveType::Bezier, 1, 2),
        pt(SliderCurveType::Inherit, 3, 4),
        pt(SliderCurveType::Inherit, 5, 6),
    ];
    let r = legacy_segments(&chain).unwrap();
    assert_eq!(r, vec![LegacySegment::Anchors(sixths(&[(1, 2), (3, 4), (5, 6)]))]);
}

#[test]
fn mixed_chain_is_cut_into_segments() {
    let chain = [
        pt(SliderCurveType::Bezier, 0, 0),
        pt(SliderCurveType::Inherit, 6, 0),
        pt(SliderCurveType::Catmull, 12, 0),
        pt(SliderCurveType::Inherit, 18, 6),
    ];
    let r = legacy_segments(&chain).unwrap();
    assert_eq!(r.len(), 2);
    assert_eq!(r[0], LegacySegment::Anchors(sixths(&[(0, 0), (6, 0)])));
    assert_eq!(
        r[1],
        LegacySegment::Anchors(vec![
            SixthPoint { x6: 72, y6: 0 },
            SixthPoint { x6: -12 + 72 + 18, y6: 6 },
            SixthPoint { x6: -(24) + 108 + 12, y6: -12 + 36 },
            SixthPoint { x6: 108, y6: 36 },
        ])
    );
}

#[test]
fn conversion_errors() {
    assert_eq!(legacy_segments(&[]), Err(BezierConversionError::NoControlPoints));
    let long_arc = [
        pt(SliderCurveType::PerfectCurve, 0, 0),
        pt(SliderCurveType::Inherit, 1, 1),
        pt(SliderCurveType::Inherit, 2, 0),
        pt(SliderCurveType::Inherit, 3, 1),
    ];
    assert_eq!(legacy_segments(&long_arc), Err(BezierConversionError::PerfectCurveWithMoreThan3Points));
}

#[test]
fn speed_change_range_is_half_open() {
    let mut t0 = tp(0, 50, true);
    t0.beat_length = ms(500);
    let t100 = tp(100, 50, false);
    let t200 = tp(200, 50, false);
    let circle = parse_hit_object("0,0,150,1,0").unwrap();
    let slider_at_next = parse_hit_object("0,0,200,2,0,B|1:1,1,10").unwrap();
    let objects = vec![circle.clone(), slider_at_next.clone()];
    let kept = remove_useless_speed_changes(&[t0, t100, t200], &objects);
    assert_eq!(kept, vec![t0, t200]);
    let slider_inside = parse_hit_object("0,0,120,2,0,B|1:1,1,10").unwrap();
    let objects = vec![slider_inside, circle, slider_at_next];
    let kept = remove_useless_speed_changes(&[t0, t100, t200], &objects);
    assert_eq!(kept, vec![t0, t100, t200]);
    assert!(remove_useless_speed_changes(&[t0], &[]).is_empty());
}

#[test]
fn sortedness_check() {
    let sorted: Vec<TimingPoint> = [0, 5, 5, 9].iter().map(|&t| tp(t, 50, false)).collect();
    assert!(check_sorted(&sorted));
    let unsorted: Vec<TimingPoint> = [0, 5, 4].iter().map(|&t| tp(t, 50, false)).collect();
    assert!(!check_sorted(&unsorted));
    let mut not_lowest_terms = tp(0, 50, false);
    not_lowest_terms.time = Decimal { mantissa: 10, scale: 1 };
    assert!(!not_lowest_terms.time.is_wf());
    assert!(!check_sorted(&[not_lowest_terms]));
    assert!(check_sorted::<TimingPoint>(&[]));
}
