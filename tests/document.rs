use osus::decimal::Decimal;
use osus::hit_objects::{parse_hit_object, HitObjectParseError};
use osus::model::{
    HitObjectParams, HitObjectType, HitSound, SampleBank, SliderCurveType,
};
use osus::parsing::{parse, BeatmapFileParseError};
use osus::serializing::serialize;

const SAMPLE: &str = "osu file format v14\n\n[Difficulty]\nSliderMultiplier: 1.4\n\n[TimingPoints]\n0,500,4,2,0,50,1,0\n\n[HitObjects]\n256,192,0,1,0,0:0:0:0:\n";

fn dec(mantissa: i64, scale: u32) -> Decimal {
    Decimal { mantissa, scale }
}

#[test]
fn end_to_end_sample() {
    let doc = parse(SAMPLE).unwrap();
    assert_eq!(doc.osu_file_format, 14);
    assert_eq!(doc.difficulty.unwrap().slider_multiplier, dec(14, 1));
    assert_eq!(doc.timing_points.len(), 1);
    let tp = doc.timing_points[0];
    assert_eq!(tp.time, dec(0, 0));
    assert_eq!(tp.beat_length, dec(500, 0));
    assert!(tp.uninherited);
    assert_eq!(tp.sample_set, SampleBank::Soft);
    assert_eq!(tp.volume, 50);
    assert_eq!(tp.meter, 4);
    assert_eq!(doc.hit_objects.len(), 1);
    let h = &doc.hit_objects[0];
    assert_eq!((h.x, h.y), (256, 192));
    assert_eq!(h.time, dec(0, 0));
    assert_eq!(h.object_type, HitObjectType::HitCircle);
    assert_eq!(h.object_params, HitObjectParams::HitCircle);
    assert_eq!(h.hit_sample.filename, None);
    assert!(h.is_hit_circle() && !h.is_slider() && !h.is_spinner() && !h.is_osu_mania_hold());
    assert!(!h.is_new_combo());
    assert_eq!(doc.iter_hit_objects_and_timing_points(), vec![Ok(0), Err(0)]);
    assert_eq!(Decimal::from_int(-7), dec(-7, 0));
}

#[test]
fn end_to_end_reserialized_is_equivalent() {
    let doc = parse(SAMPLE).unwrap();
    let text = serialize(&doc);
    let again = parse(&text).unwrap();
    assert_eq!(again, doc);
    assert!(text.starts_with("osu file format v14\r\n\r\n[Difficulty]\r\n"));
    assert!(text.contains("SliderMultiplier: 1.4\r\n"));
    assert!(text.contains("[TimingPoints]\r\n0,500,4,2,0,50,1,0\r\n"));
    assert!(text.ends_with("[HitObjects]\r\n256,192,0,1,0,0:0:0:0:\r\n"));
}

#[test]
fn round_trip_of_a_fuller_document() {
    let text = "\u{feff}osu file format v128\r\n\r\n// a comment\r\n[General]\r\nAudioFilename: sub\\audio.mp3\r\nAudioLeadIn: 0\r\nPreviewTime: 1234\r\nCountdown: 0\r\nSampleSet: Soft\r\nStackLeniency: 0.7\r\nMode: 3\r\nLetterboxInBreaks: 0\r\nOverlayPosition: Below\r\nWidescreenStoryboard: 1\r\nSamplesMatchPlaybackRate: 0\r\nFutureKey: whatever\r\n\r\n[Editor]\r\nBookmarks: 100,200.5\r\nDistanceSpacing: 1.1\r\nBeatDivisor: 4\r\nGridSize: 32\r\nTimelineZoom: 2.25\r\n\r\n[Metadata]\r\nTitle: Song\r\nTitleUnicode: Sông\r\nArtist: A\r\nArtistUnicode: A\r\nCreator: me\r\nVersion: Hard\r\nSource: \r\nTags: one two\r\nBeatmapID: 42\r\nBeatmapSetID: -1\r\n\r\n[Difficulty]\r\nHPDrainRate: 5\r\nCircleSize: 4\r\nOverallDifficulty: 8\r\nApproachRate: 9.3\r\nSliderMultiplier: 1.4\r\nSliderTickRate: 1\r\n\r\n[Events]\r\n0,0,\"bg.jpg\",0,0\r\nSprite,Foreground,Centre,\"x.png\",320,240\r\n2,1000,2000\r\n\r\n[TimingPoints]\r\n0,500,4,2,0,50,1,0\r\n1000,-66.6666666666667,4,2,1,60,0,1\r\n\r\n[Colours]\r\nCombo1: 255,128,0\r\nCombo2: 0,0,255,128\r\nSliderBorder: 1,2,3\r\n\r\n[HitObjects]\r\n256,192,0,5,2,0:0:0:0:\r\n100,100,500,2,0,B|200:200|300:100,2,180.5,2|0|8,1:2|0:0|3:3,1:0:0:0:hit.wav\r\n256,192,1000,12,0,2000,0:0:0:0:\r\n64,192,3000,128,0,3500:0:0:0:0:\r\n";
    let doc = parse(text).unwrap();
    assert_eq!(doc.osu_file_format, 128);
    let general = doc.general.clone().unwrap();
    assert_eq!(general.audio_filename, "sub/audio.mp3");
    assert_eq!(general.stack_leniency, dec(7, 1));
    assert_eq!(general.mode, 3);
    assert_eq!(general.sample_set, "Soft");
    let editor = doc.editor.clone().unwrap();
    assert_eq!(editor.bookmarks, vec![dec(100, 0), dec(2005, 1)]);
    assert_eq!(editor.timeline_zoom, Some(dec(225, 2)));
    let metadata = doc.metadata.clone().unwrap();
    assert_eq!(metadata.title_unicode, "Sông");
    assert_eq!(metadata.tags, vec!["one".to_string(), "two".to_string()]);
    assert_eq!(metadata.beatmap_set_id, Some(-1));
    assert_eq!(doc.events.len(), 2);
    assert_eq!(doc.timing_points[1].beat_length, dec(-666666666666667, 13));
    let colors = doc.colors.clone().unwrap();
    assert_eq!(colors.combo_colors.len(), 2);
    assert_eq!(colors.combo_colors[1].a, Some(128));
    assert_eq!(doc.hit_objects.len(), 4);
    assert_eq!(doc.hit_objects[0].combo_color_skip, Some(0));
    assert_eq!(doc.hit_objects[2].object_type, HitObjectType::Spinner);
    assert_eq!(doc.hit_objects[2].combo_color_skip, Some(0));
    assert_eq!(doc.hit_objects[3].object_params, HitObjectParams::Hold { end_time: dec(3500, 0) });
    match &doc.hit_objects[1].object_params {
        HitObjectParams::Slider { first_curve_type, curve_points, slides, length, edge_hitsounds, .. } => {
            assert_eq!(*first_curve_type, SliderCurveType::Bezier);
            assert_eq!(curve_points.len(), 2);
            assert_eq!(*slides, 2);
            assert_eq!(*length, dec(1805, 1));
            assert_eq!(edge_hitsounds, &vec![HitSound(2), HitSound(0), HitSound(8)]);
        }
        other => panic!("not a slider: {:?}", other),
    }
    assert_eq!(doc.hit_objects[1].hit_sample.filename.as_deref(), Some("hit.wav"));
    let again = parse(&serialize(&doc)).unwrap();
    assert_eq!(again, doc);
}

#[test]
fn field_order_does_not_matter() {
    let a = parse("osu file format v14\n[Difficulty]\nHPDrainRate: 5\nCircleSize: 4\nApproachRate: 9\n").unwrap();
    let b = parse("osu file format v14\n[Difficulty]\nApproachRate: 9\nHPDrainRate: 5\nCircleSize: 4\n").unwrap();
    assert_eq!(a, b);
    let c = parse("osu file format v14\n[General]\nMode: 1\nAudioLeadIn: 10\n").unwrap();
    let d = parse("osu file format v14\n[General]\nAudioLeadIn: 10\nMode: 1\n").unwrap();
    assert_eq!(c, d);
}

#[test]
fn empty_text_is_refused() {
    assert_eq!(parse("\n  \n// only a comment\n"), Err(BeatmapFileParseError::FileIsEmpty));
}

#[test]
fn bad_version_line_is_refused() {
    assert_eq!(parse("osu file format 14\n"), Err(BeatmapFileParseError::InvalidOsuFileFormat));
    assert_eq!(parse("osu file format vX\n"), Err(BeatmapFileParseError::InvalidOsuFileFormat));
}

#[test]
fn unknown_section_is_refused() {
    match parse("osu file format v14\n[Nope]\nA: b\n") {
        Err(BeatmapFileParseError::UnknownSection(name)) => assert_eq!(name, "[Nope]"),
        other => panic!("unexpected: {:?}", other),
    }
}

#[test]
fn bad_record_fails_the_whole_document() {
    match parse("osu file format v14\n[TimingPoints]\n0\n") {
        Err(BeatmapFileParseError::SectionParse(e)) => {
            assert_eq!(e.section, "TimingPoints");
            assert_eq!(e.line, "0");
        }
        other => panic!("unexpected: {:?}", other),
    }
    match parse("osu file format v14\n[General]\nno colon here\n") {
        Err(BeatmapFileParseError::SectionParse(e)) => assert_eq!(e.section, "General"),
        other => panic!("unexpected: {:?}", other),
    }
    match parse("osu file format v14\n[Editor]\nGridSize: 4\n") {
        Err(BeatmapFileParseError::SectionParse(e)) => assert_eq!(e.section, "Editor"),
        other => panic!("unexpected: {:?}", other),
    }
}

#[test]
fn hit_object_with_too_few_fields() {
    assert_eq!(parse_hit_object("1,2,3"), Err(HitObjectParseError::NotEnoughArguments(3)));
}

#[test]
fn hit_object_with_unknown_type() {
    assert_eq!(
        parse_hit_object("1,2,3,4,0"),
        Err(HitObjectParseError::UnknownHitObjectType("4".to_string()))
    );
}

#[test]
fn slider_without_edges_gets_defaults() {
    let h = parse_hit_object("10,20,30,2,0,L|40:50,3,100").unwrap();
    match h.object_params {
        HitObjectParams::Slider { edge_hitsounds, edge_samplesets, first_curve_type, .. } => {
            assert_eq!(first_curve_type, SliderCurveType::Linear);
            assert_eq!(edge_hitsounds.len(), 4);
            assert_eq!(edge_samplesets.len(), 4);
        }
        other => panic!("not a slider: {:?}", other),
    }
}

#[test]
fn hold_splits_at_first_colon() {
    let h = parse_hit_object("64,192,3000,128,0,3500:1:2:3:4:x.wav").unwrap();
    assert_eq!(h.object_params, HitObjectParams::Hold { end_time: dec(3500, 0) });
    assert_eq!(h.hit_sample.index, 3);
    assert_eq!(h.hit_sample.volume, 4);
    assert_eq!(h.raw_object_type(), 128);
}
