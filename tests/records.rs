use osus::decimal::{parse_decimal, Decimal};
use osus::model::{Color, HitSample, HitSampleSet, HitSound, SampleBank, SliderCurveType, SliderPoint, TimingPoint};
use osus::records::{parse_color, parse_curve_points, parse_hit_sample, parse_timing_point, ColorParseError, TimingPointParseError};
use osus::serializing::serialize_curve_points;
use osus::sections::to_standardized_path;

fn chars(s: &str) -> Vec<char> {
    s.chars().collect()
}

#[test]
fn decimals_read_and_write() {
    assert_eq!(parse_decimal(&chars("1.40")), Some(Decimal { mantissa: 14, scale: 1 }));
    assert_eq!(parse_decimal(&chars("-0.5")), Some(Decimal { mantissa: -5, scale: 1 }));
    assert_eq!(parse_decimal(&chars("500")), Some(Decimal { mantissa: 500, scale: 0 }));
    assert_eq!(parse_decimal(&chars("1.")), None);
    assert_eq!(parse_decimal(&chars("abc")), None);
    assert_eq!(parse_decimal(&chars("")), None);
}

#[test]
fn timing_point_arity() {
    assert_eq!(parse_timing_point(&chars("1")), Err(TimingPointParseError::LessThan2Values(1)));
    assert_eq!(
        parse_timing_point(&chars("1,2,3,4,5,6,7,8,9")),
        Err(TimingPointParseError::MoreThan8Values(9))
    );
    let tp = parse_timing_point(&chars("10,-50")).unwrap();
    assert_eq!(tp.beat_length, Decimal { mantissa: -50, scale: 0 });
    assert_eq!(tp.sample_set, SampleBank::Auto);
    assert!(!tp.uninherited);
}

#[test]
fn timing_point_bad_sample_bank() {
    match parse_timing_point(&chars("0,500,4,7")) {
        Err(TimingPointParseError::InvalidSampleBank(e)) => assert_eq!(e.raw, "7"),
        other => panic!("unexpected: {:?}", other),
    }
}

#[test]
fn colors() {
    assert_eq!(parse_color(&chars("1,2,3")), Ok(Color { r: 1, g: 2, b: 3, a: None }));
    assert_eq!(parse_color(&chars("1,2,3,4")), Ok(Color { r: 1, g: 2, b: 3, a: Some(4) }));
    assert_eq!(parse_color(&chars("1,2")), Err(ColorParseError::WrongNumberCount));
    assert!(matches!(parse_color(&chars("1,2,300")), Err(ColorParseError::InvalidList(_))));
    assert_eq!(Color { r: 1, g: 2, b: 3, a: Some(4) }.to_osu_string(), "1,2,3,4");
    assert_eq!(Color { r: 255, g: 0, b: 10, a: None }.to_osu_string(), "255,0,10");
}

#[test]
fn hit_samples() {
    let h = parse_hit_sample(&chars("1:2:3:40:clap.wav")).unwrap();
    assert_eq!(h.normal_set, SampleBank::Normal);
    assert_eq!(h.addition_set, SampleBank::Soft);
    assert_eq!(h.filename.as_deref(), Some("clap.wav"));
    assert_eq!(h.to_osu_string(), "1:2:3:40:clap.wav");
    let short = parse_hit_sample(&chars("3:0")).unwrap();
    assert_eq!(short.index, 0);
    assert_eq!(HitSample::new().to_osu_string(), "0:0:0:0:");
    assert_eq!(h.to_hit_sample_set(), HitSampleSet { normal_set: SampleBank::Normal, addition_set: SampleBank::Soft });
    assert_eq!(HitSampleSet { normal_set: SampleBank::Drum, addition_set: SampleBank::Auto }.to_osu_string(), "3:0");
}

#[test]
fn hitsound_flags() {
    let hs = HitSound(0b1010);
    assert!(hs.has_whistle() && hs.has_clap() && !hs.has_normal() && !hs.has_finish());
    assert_eq!(hs.flags_string(), "(WC)");
    assert_eq!(hs.fixed_flags_string(), "(.W.C)");
    assert_eq!(hs.flags_string_verbose(), "(hs) whistle clap");
    assert_eq!(HitSound(0).flags_string(), "()");
}

#[test]
fn standardized_paths() {
    assert_eq!(to_standardized_path("a\\b\\c.mp3"), "a/b/c.mp3");
}

#[test]
fn duplicate_check_ignores_time() {
    let a = TimingPoint {
        time: Decimal { mantissa: 0, scale: 0 },
        beat_length: Decimal { mantissa: -100, scale: 0 },
        meter: 4,
        sample_set: SampleBank::Soft,
        sample_index: 0,
        volume: 50,
        uninherited: false,
        effects: 0,
    };
    let mut b = a;
    b.time = Decimal { mantissa: 10, scale: 0 };
    assert!(a.is_duplicate(&b));
    b.volume = 60;
    assert!(!a.is_duplicate(&b));
}

#[test]
fn curve_text_reads_back() {
    let pts = vec![
        SliderPoint { curve_type: SliderCurveType::PerfectCurve, x: -5, y: 7 },
        SliderPoint { curve_type: SliderCurveType::Inherit, x: 100, y: 0 },
        SliderPoint { curve_type: SliderCurveType::Linear, x: 3, y: -300 },
    ];
    let text = serialize_curve_points(SliderCurveType::Catmull, &pts);
    assert_eq!(text, "C|P|-5:7|100:0|L|3:-300");
    assert_eq!(parse_curve_points(&text), Ok((SliderCurveType::Catmull, pts)));
}

#[test]
fn decimal_text_reads_back() {
    let values = [
        Decimal { mantissa: 5, scale: 3 },
        Decimal { mantissa: -123456, scale: 2 },
        Decimal { mantissa: 0, scale: 0 },
        Decimal { mantissa: -666666666666667, scale: 13 },
    ];
    let doc_text = |d: Decimal| {
        let tp = TimingPoint {
            time: d,
            beat_length: d,
            meter: -1,
            sample_set: SampleBank::Drum,
            sample_index: 7,
            volume: 1000,
            uninherited: true,
            effects: 9,
        };
        let mut doc = osus::model::BeatmapFile {
            osu_file_format: 14,
            general: None,
            editor: None,
            metadata: None,
            difficulty: None,
            events: Vec::new(),
            timing_points: vec![tp],
            colors: None,
            hit_objects: Vec::new(),
        };
        let text = osus::serializing::serialize(&doc);
        let again = osus::parsing::parse(&text).unwrap();
        doc.timing_points[0].time = d;
        assert_eq!(again, doc);
        text
    };
    assert!(doc_text(values[0]).contains("0.005,0.005,-1,3,7,1000,1,9"));
    assert!(doc_text(values[1]).contains("-1234.56,"));
    doc_text(values[2]);
    assert!(doc_text(values[3]).contains("-66.6666666666667,"));
}
