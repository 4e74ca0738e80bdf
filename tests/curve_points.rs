use osus::model::{SliderCurveType, SliderPoint};
use osus::records::parse_curve_points;
use osus::serializing::serialize_curve_points;

#[test]
fn parsing_curve_points() {
    let curve_points = "B|B|465:225|B|473:217|457:121";
    let (curve_type, control_points) = parse_curve_points(curve_points).unwrap();
    assert_eq!(curve_type, SliderCurveType::Bezier);
    assert_eq!(
        control_points.as_slice(),
        &[
            SliderPoint::new_i16(SliderCurveType::Bezier, 465, 225),
            SliderPoint::new_i16(SliderCurveType::Bezier, 473, 217),
            SliderPoint::new_i16(SliderCurveType::Inherit, 457, 121),
        ]
    );
}

#[test]
fn serializing_curve_points() {
    let first_curve_point = SliderCurveType::Bezier;
    let curve_points = &[
        SliderPoint::new_i16(SliderCurveType::Bezier, 465, 225),
        SliderPoint::new_i16(SliderCurveType::Bezier, 473, 217),
        SliderPoint::new_i16(SliderCurveType::Inherit, 457, 121),
    ];
    let s = serialize_curve_points(first_curve_point, curve_points);
    assert_eq!(b"B|B|465:225|B|473:217|457:121", s.as_bytes());
}

#[test]
fn curve_points_stable() {
    let first_curve_point = SliderCurveType::Bezier;
    let curve_points = &[
        SliderPoint::new_i16(SliderCurveType::Inherit, 465, 225),
        SliderPoint::new_i16(SliderCurveType::Inherit, 465, 225),
        SliderPoint::new_i16(SliderCurveType::Inherit, 473, 217),
        SliderPoint::new_i16(SliderCurveType::Inherit, 473, 217),
        SliderPoint::new_i16(SliderCurveType::Inherit, 457, 121),
    ];
    let s = serialize_curve_points(first_curve_point, curve_points);
    assert_eq!(b"B|465:225|465:225|473:217|473:217|457:121", s.as_bytes());
}
