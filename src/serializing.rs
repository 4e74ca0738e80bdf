//! Writing a document back as canonical text.
use vstd::prelude::*;
use crate::decimal::{Decimal, decimal_text, push_all, push_decimal};
use crate::model::{
    BeatmapFile, Color, ColorsSection, DifficultySection, EditorSection, Event, EventParams,
    GeneralSection, HitObject, HitObjectParams, HitSampleSet, HitSound, MetadataSection,
    OverlayPosition, SliderCurveType, SliderPoint, TimingPoint, color_text, hit_sample_set_text,
    hit_sample_text, push_color, push_hit_sample, push_hit_sample_set, push_str,
};
use crate::hit_objects::encoded_type;
use crate::text::{int_text, push_int, string_of};

verus! {

/// The letter token written before a point of this type, with its bar.
pub open spec fn type_prefix(t: SliderCurveType) -> Seq<char> {
    match t {
        SliderCurveType::Inherit => Seq::empty(),
        SliderCurveType::Bezier => seq!['B', '|'],
        SliderCurveType::Catmull => seq!['C', '|'],
        SliderCurveType::Linear => seq!['L', '|'],
        SliderCurveType::PerfectCurve => seq!['P', '|'],
    }
}

pub open spec fn point_text(p: SliderPoint) -> Seq<char> {
    type_prefix(p.curve_type) + int_text(p.x as int) + seq![':'] + int_text(p.y as int)
}

/// The points, `|`-separated.
pub open spec fn points_text(pts: Seq<SliderPoint>) -> Seq<char>
    decreases pts.len(),
{
    if pts.len() == 0 {
        Seq::empty()
    } else if pts.len() == 1 {
        point_text(pts[0])
    } else {
        points_text(pts.drop_last()) + seq!['|'] + point_text(pts.last())
    }
}

/// The curve of a slider: the letter of its first type, then each point
/// with the letter of its own type where it has one.
pub open spec fn curve_text(first: SliderCurveType, pts: Seq<SliderPoint>) -> Seq<char> {
    type_prefix(first) + points_text(pts)
}

pub fn push_type_prefix(out: &mut Vec<char>, t: SliderCurveType)
    ensures
        final(out)@ == old(out)@ + type_prefix(t),
{
    let letter = match t {
        SliderCurveType::Inherit => {
            assert(old(out)@ + type_prefix(t) =~= old(out)@);
            return;
        },
        SliderCurveType::Bezier => 'B',
        SliderCurveType::Catmull => 'C',
        SliderCurveType::Linear => 'L',
        SliderCurveType::PerfectCurve => 'P',
    };
    out.push(letter);
    out.push('|');
    assert(final(out)@ =~= old(out)@ + type_prefix(t));
}

pub fn push_curve_points(out: &mut Vec<char>, first: SliderCurveType, pts: &[SliderPoint])
    ensures
        final(out)@ == old(out)@ + curve_text(first, pts@),
{
    push_type_prefix(out, first);
    let ghost base = out@;
    let mut i: usize = 0;
    while i < pts.len()
        invariant
            i <= pts@.len(),
            out@ == base + points_text(pts@.take(i as int)),
        decreases pts@.len() - i,
    {
        let ghost before = out@;
        if i > 0 {
            out.push('|');
        }
        let p = pts[i];
        push_type_prefix(out, p.curve_type);
        push_int(out, p.x as i64);
        out.push(':');
        push_int(out, p.y as i64);
        let ghost t = pts@.take(i + 1);
        assert(t.drop_last() =~= pts@.take(i as int));
        if i == 0 {
            assert(points_text(pts@.take(0)) =~= Seq::<char>::empty());
            assert(out@ =~= base + points_text(t));
        } else {
            assert(out@ =~= base + points_text(t));
        }
        i = i + 1;
    }
    assert(pts@.take(i as int) =~= pts@);
    assert(final(out)@ =~= old(out)@ + curve_text(first, pts@));
}

/// The curve of a slider as the file format writes it.
pub fn serialize_curve_points(first: SliderCurveType, pts: &[SliderPoint]) -> (r: String)
    ensures
        r@ == curve_text(first, pts@),
{
    let mut out: Vec<char> = Vec::new();
    push_curve_points(&mut out, first, pts);
    assert(out@ =~= curve_text(first, pts@));
    string_of(out.as_slice())
}

pub open spec fn crlf() -> Seq<char> {
    seq!['\r', '\n']
}

/// A `Key: value` line.
pub open spec fn kv(k: Seq<char>, v: Seq<char>) -> Seq<char> {
    k + seq![':', ' '] + v + crlf()
}

pub open spec fn bool_text(b: bool) -> Seq<char> {
    if b { seq!['1'] } else { seq!['0'] }
}

pub open spec fn when(c: bool, t: Seq<char>) -> Seq<char> {
    if c { t } else { Seq::empty() }
}

pub open spec fn overlay_text(o: OverlayPosition) -> Seq<char> {
    match o {
        OverlayPosition::NoChange => "NoChange"@,
        OverlayPosition::Below => "Below"@,
        OverlayPosition::Above => "Above"@,
    }
}

fn push_crlf(out: &mut Vec<char>)
    ensures
        final(out)@ == old(out)@ + crlf(),
{
    out.push('\r');
    out.push('\n');
    assert(final(out)@ =~= old(out)@ + crlf());
}

fn push_kv(out: &mut Vec<char>, k: &str, v: &[char])
    ensures
        final(out)@ == old(out)@ + kv(k@, v@),
{
    push_str(out, k);
    out.push(':');
    out.push(' ');
    push_all(out, v);
    push_crlf(out);
    assert(final(out)@ =~= old(out)@ + kv(k@, v@));
}

fn int_chars(v: i64) -> (r: Vec<char>)
    ensures
        r@ == int_text(v as int),
{
    let mut t: Vec<char> = Vec::new();
    push_int(&mut t, v);
    assert(t@ =~= int_text(v as int));
    t
}

fn decimal_chars(d: Decimal) -> (r: Vec<char>)
    ensures
        r@ == decimal_text(d),
{
    let mut t: Vec<char> = Vec::new();
    push_decimal(&mut t, d);
    assert(t@ =~= decimal_text(d));
    t
}

fn bool_chars(b: bool) -> (r: Vec<char>)
    ensures
        r@ == bool_text(b),
{
    let r = if b { vec!['1'] } else { vec!['0'] };
    assert(r@ =~= bool_text(b));
    r
}

/// The lines of the `[General]` section that are always written.
pub open spec fn general_head(g: GeneralSection) -> Seq<char> {
    "[General]"@ + crlf() + kv("AudioFilename"@, g.audio_filename@) + kv(
        "AudioLeadIn"@,
        int_text(g.audio_lead_in as int),
    ) + kv("PreviewTime"@, decimal_text(g.preview_time)) + kv("Countdown"@, int_text(g.countdown as int))
        + kv("SampleSet"@, g.sample_set@) + kv("StackLeniency"@, decimal_text(g.stack_leniency)) + kv(
        "Mode"@,
        int_text(g.mode as int),
    ) + kv("LetterboxInBreaks"@, bool_text(g.letterbox_in_breaks))
}

pub open spec fn skin_text(p: Option<String>) -> Seq<char> {
    match p {
        Some(s) => kv("SkinPreference"@, s@),
        None => Seq::empty(),
    }
}

/// The lines of the `[General]` section written only away from their defaults.
pub open spec fn general_optional(g: GeneralSection) -> Seq<char> {
    when(g.use_skin_sprites, kv("UseSkinSprites"@, seq!['1'])) + when(
        g.overlay_position != OverlayPosition::NoChange,
        kv("OverlayPosition"@, overlay_text(g.overlay_position)),
    ) + skin_text(g.skin_preference) + when(g.epilepsy_warning, kv("EpilepsyWarning"@, seq!['1'])) + when(
        g.countdown_offset != 0,
        kv("CountdownOffset"@, int_text(g.countdown_offset as int)),
    ) + when(g.special_style, kv("SpecialStyle"@, seq!['1']))
}

/// The `[General]` section; fields at their usual defaults are left out, and
/// the deprecated `AudioHash`, `StoryFireInFront` and `AlwaysShowPlayfield` too.
pub open spec fn general_text(g: GeneralSection) -> Seq<char> {
    general_head(g) + general_optional(g) + kv("WidescreenStoryboard"@, bool_text(g.widescreen_storyboard)) + kv(
        "SamplesMatchPlaybackRate"@,
        bool_text(g.samples_match_playback_rate),
    ) + crlf()
}

fn push_general_head(out: &mut Vec<char>, g: &GeneralSection)
    ensures
        final(out)@ == old(out)@ + general_head(*g),
{
    push_str(out, "[General]");
    push_crlf(out);
    let ghost s1 = out@;
    push_kv(out, "AudioFilename", chars_of_string(&g.audio_filename).as_slice());
    push_kv(out, "AudioLeadIn", int_chars(g.audio_lead_in as i64).as_slice());
    push_kv(out, "PreviewTime", decimal_chars(g.preview_time).as_slice());
    push_kv(out, "Countdown", int_chars(g.countdown as i64).as_slice());
    let ghost s2 = out@;
    push_kv(out, "SampleSet", chars_of_string(&g.sample_set).as_slice());
    push_kv(out, "StackLeniency", decimal_chars(g.stack_leniency).as_slice());
    push_kv(out, "Mode", int_chars(g.mode as i64).as_slice());
    push_kv(out, "LetterboxInBreaks", bool_chars(g.letterbox_in_breaks).as_slice());
    assert(final(out)@ =~= old(out)@ + general_head(*g));
}

fn push_flag_when_set(out: &mut Vec<char>, on: bool, k: &str)
    ensures
        final(out)@ == old(out)@ + when(on, kv(k@, seq!['1'])),
{
    if on {
        push_kv(out, k, vec!['1'].as_slice());
    } else {
        assert(old(out)@ + when(on, kv(k@, seq!['1'])) =~= old(out)@);
    }
}

fn push_overlay(out: &mut Vec<char>, o: OverlayPosition)
    ensures
        final(out)@ == old(out)@ + when(o != OverlayPosition::NoChange, kv("OverlayPosition"@, overlay_text(o))),
{
    match o {
        OverlayPosition::NoChange => {
            assert(old(out)@ + Seq::<char>::empty() =~= old(out)@);
        },
        OverlayPosition::Below => push_kv(out, "OverlayPosition", crate::text::chars_of("Below").as_slice()),
        OverlayPosition::Above => push_kv(out, "OverlayPosition", crate::text::chars_of("Above").as_slice()),
    }
}

fn push_skin(out: &mut Vec<char>, p: &Option<String>)
    ensures
        final(out)@ == old(out)@ + skin_text(*p),
{
    match p {
        Some(s) => push_kv(out, "SkinPreference", chars_of_string(s).as_slice()),
        None => {
            assert(old(out)@ + Seq::<char>::empty() =~= old(out)@);
        },
    }
}

fn push_countdown_offset(out: &mut Vec<char>, v: i32)
    ensures
        final(out)@ == old(out)@ + when(v != 0, kv("CountdownOffset"@, int_text(v as int))),
{
    if v != 0 {
        push_kv(out, "CountdownOffset", int_chars(v as i64).as_slice());
    } else {
        assert(old(out)@ + Seq::<char>::empty() =~= old(out)@);
    }
}

fn push_general_optional(out: &mut Vec<char>, g: &GeneralSection)
    ensures
        final(out)@ == old(out)@ + general_optional(*g),
{
    let ghost a0 = out@;
    let ghost w1 = when(g.use_skin_sprites, kv("UseSkinSprites"@, seq!['1']));
    let ghost w2 = when(g.overlay_position != OverlayPosition::NoChange, kv("OverlayPosition"@, overlay_text(g.overlay_position)));
    let ghost w3 = skin_text(g.skin_preference);
    let ghost w4 = when(g.epilepsy_warning, kv("EpilepsyWarning"@, seq!['1']));
    let ghost w5 = when(g.countdown_offset != 0, kv("CountdownOffset"@, int_text(g.countdown_offset as int)));
    let ghost w6 = when(g.special_style, kv("SpecialStyle"@, seq!['1']));
    push_flag_when_set(out, g.use_skin_sprites, "UseSkinSprites");
    push_overlay(out, g.overlay_position);
    proof {
        vstd::seq_lib::lemma_concat_associative(a0, w1, w2);
    }
    push_skin(out, &g.skin_preference);
    proof {
        vstd::seq_lib::lemma_concat_associative(a0, w1 + w2, w3);
    }
    push_flag_when_set(out, g.epilepsy_warning, "EpilepsyWarning");
    proof {
        vstd::seq_lib::lemma_concat_associative(a0, w1 + w2 + w3, w4);
    }
    push_countdown_offset(out, g.countdown_offset);
    proof {
        vstd::seq_lib::lemma_concat_associative(a0, w1 + w2 + w3 + w4, w5);
    }
    push_flag_when_set(out, g.special_style, "SpecialStyle");
    proof {
        vstd::seq_lib::lemma_concat_associative(a0, w1 + w2 + w3 + w4 + w5, w6);
    }
}

fn push_general(out: &mut Vec<char>, g: &GeneralSection)
    ensures
        final(out)@ == old(out)@ + general_text(*g),
{
    push_general_head(out, g);
    push_general_optional(out, g);
    push_kv(out, "WidescreenStoryboard", bool_chars(g.widescreen_storyboard).as_slice());
    push_kv(out, "SamplesMatchPlaybackRate", bool_chars(g.samples_match_playback_rate).as_slice());
    push_crlf(out);
    assert(final(out)@ =~= old(out)@ + general_text(*g));
}

fn chars_of_string(s: &String) -> (r: Vec<char>)
    ensures
        r@ == s@,
{
    crate::text::chars_of(s.as_str())
}

pub open spec fn as_is() -> spec_fn(Seq<char>) -> Seq<char> {
    |f: Seq<char>| f
}

/// Splitting fields joined by a separator that none of them holds gives the fields back.
pub proof fn lemma_split_joined(fs: Seq<Seq<char>>, c: char)
    requires
        fs.len() > 0,
        forall|i: int| 0 <= i < fs.len() ==> crate::text::lacks(#[trigger] fs[i], c),
    ensures
        crate::text::split(joined(fs, as_is(), c), c) == fs,
    decreases fs.len(),
{
    if fs.len() == 1 {
        crate::text::lemma_split_lacking(fs[0], c);
        assert(seq![fs[0]] =~= fs);
    } else {
        let init = fs.drop_last();
        assert forall|i: int| 0 <= i < init.len() implies crate::text::lacks(#[trigger] init[i], c) by {
            assert(init[i] == fs[i]);
        }
        lemma_split_joined(init, c);
        assert(crate::text::lacks(fs[fs.len() - 1], c));
        crate::text::lemma_split_snoc(joined(init, as_is(), c), fs.last(), c);
        assert(init.push(fs.last()) =~= fs);
    }
}

/// The fields of a timing point as written: `time`, `beatLength`, `meter`,
/// `sampleSet`, `sampleIndex`, `volume`, `uninherited`, `effects`.
pub open spec fn timing_point_fields(tp: TimingPoint) -> Seq<Seq<char>> {
    seq![
        decimal_text(tp.time),
        decimal_text(tp.beat_length),
        int_text(tp.meter as int),
        int_text(tp.sample_set.spec_code()),
        int_text(tp.sample_index as int),
        int_text(tp.volume as int),
        bool_text(tp.uninherited),
        int_text(tp.effects as int),
    ]
}

/// A timing point line: its fields joined by `,`.
pub open spec fn timing_point_text(tp: TimingPoint) -> Seq<char> {
    joined(timing_point_fields(tp), as_is(), ',') + crlf()
}

fn push_timing_point(out: &mut Vec<char>, tp: &TimingPoint)
    ensures
        final(out)@ == old(out)@ + timing_point_text(*tp),
{
    let mut l: Vec<char> = Vec::new();
    push_decimal(&mut l, tp.time);
    l.push(',');
    push_decimal(&mut l, tp.beat_length);
    l.push(',');
    push_int(&mut l, tp.meter as i64);
    l.push(',');
    push_int(&mut l, tp.sample_set.code() as i64);
    l.push(',');
    push_int(&mut l, tp.sample_index as i64);
    l.push(',');
    push_int(&mut l, tp.volume as i64);
    l.push(',');
    let b = bool_chars(tp.uninherited);
    push_all(&mut l, b.as_slice());
    l.push(',');
    push_int(&mut l, tp.effects as i64);
    proof {
        reveal_with_fuel(joined, 9);
    }
    assert(l@ =~= joined(timing_point_fields(*tp), as_is(), ','));
    push_crlf(&mut l);
    push_all(out, l.as_slice());
}

pub open spec fn timing_points_text(tps: Seq<TimingPoint>) -> Seq<char>
    decreases tps.len(),
{
    if tps.len() == 0 {
        Seq::empty()
    } else {
        timing_points_text(tps.drop_last()) + timing_point_text(tps.last())
    }
}

fn push_timing_points(out: &mut Vec<char>, tps: &[TimingPoint])
    ensures
        final(out)@ == old(out)@ + timing_points_text(tps@),
{
    let mut i: usize = 0;
    assert(old(out)@ + timing_points_text(tps@.take(0)) =~= old(out)@);
    while i < tps.len()
        invariant
            i <= tps@.len(),
            out@ == old(out)@ + timing_points_text(tps@.take(i as int)),
        decreases tps@.len() - i,
    {
        push_timing_point(out, &tps[i]);
        assert(tps@.take(i + 1).drop_last() =~= tps@.take(i as int));
        proof {
            vstd::seq_lib::lemma_concat_associative(old(out)@, timing_points_text(tps@.take(i as int)), timing_point_text(tps@[i as int]));
        }
        i = i + 1;
    }
    assert(tps@.take(i as int) =~= tps@);
}

/// An event line: kind, start time, then a filename and offsets or a break's end time.
pub open spec fn event_text(e: Event) -> Seq<char> {
    e.event_type@ + seq![','] + decimal_text(e.start_time) + seq![','] + match e.params {
        EventParams::Background { filename, x_offset, y_offset } => filename@ + seq![','] + int_text(
            x_offset as int,
        ) + seq![','] + int_text(y_offset as int),
        EventParams::Video { filename, x_offset, y_offset } => filename@ + seq![','] + int_text(
            x_offset as int,
        ) + seq![','] + int_text(y_offset as int),
        EventParams::Break { end_time } => decimal_text(end_time),
    } + crlf()
}

fn push_event(out: &mut Vec<char>, e: &Event)
    ensures
        final(out)@ == old(out)@ + event_text(*e),
{
    let mut t: Vec<char> = Vec::new();
    match &e.params {
        EventParams::Background { filename, x_offset, y_offset } | EventParams::Video {
            filename,
            x_offset,
            y_offset,
        } => {
            push_str(&mut t, filename.as_str());
            assert(t@ =~= filename@);
            t.push(',');
            push_int(&mut t, *x_offset as i64);
            t.push(',');
            push_int(&mut t, *y_offset as i64);
        },
        EventParams::Break { end_time } => {
            push_decimal(&mut t, *end_time);
            assert(t@ =~= decimal_text(*end_time));
        },
    }
    let mut l: Vec<char> = Vec::new();
    push_str(&mut l, e.event_type.as_str());
    assert(l@ =~= e.event_type@);
    l.push(',');
    push_decimal(&mut l, e.start_time);
    l.push(',');
    push_all(&mut l, t.as_slice());
    push_crlf(&mut l);
    push_all(out, l.as_slice());
}

pub open spec fn events_text(es: Seq<Event>) -> Seq<char>
    decreases es.len(),
{
    if es.len() == 0 {
        Seq::empty()
    } else {
        events_text(es.drop_last()) + event_text(es.last())
    }
}

fn push_events(out: &mut Vec<char>, es: &[Event])
    ensures
        final(out)@ == old(out)@ + events_text(es@),
{
    let mut i: usize = 0;
    assert(old(out)@ + events_text(es@.take(0)) =~= old(out)@);
    while i < es.len()
        invariant
            i <= es@.len(),
            out@ == old(out)@ + events_text(es@.take(i as int)),
        decreases es@.len() - i,
    {
        push_event(out, &es[i]);
        assert(es@.take(i + 1).drop_last() =~= es@.take(i as int));
        proof {
            vstd::seq_lib::lemma_concat_associative(old(out)@, events_text(es@.take(i as int)), event_text(es@[i as int]));
        }
        i = i + 1;
    }
    assert(es@.take(i as int) =~= es@);
}

/// The edge hitsounds, `|`-separated.
pub open spec fn sounds_text(hs: Seq<HitSound>) -> Seq<char>
    decreases hs.len(),
{
    if hs.len() == 0 {
        Seq::empty()
    } else if hs.len() == 1 {
        int_text(hs[0].0 as int)
    } else {
        sounds_text(hs.drop_last()) + seq!['|'] + int_text(hs.last().0 as int)
    }
}

/// The edge sample sets, `|`-separated.
pub open spec fn sets_text(ss: Seq<HitSampleSet>) -> Seq<char>
    decreases ss.len(),
{
    if ss.len() == 0 {
        Seq::empty()
    } else if ss.len() == 1 {
        hit_sample_set_text(ss[0])
    } else {
        sets_text(ss.drop_last()) + seq!['|'] + hit_sample_set_text(ss.last())
    }
}

fn push_sounds(out: &mut Vec<char>, hs: &[HitSound])
    ensures
        final(out)@ == old(out)@ + sounds_text(hs@),
{
    let mut i: usize = 0;
    assert(old(out)@ + sounds_text(hs@.take(0)) =~= old(out)@);
    while i < hs.len()
        invariant
            i <= hs@.len(),
            out@ == old(out)@ + sounds_text(hs@.take(i as int)),
        decreases hs@.len() - i,
    {
        let ghost before = out@;
        if i > 0 {
            out.push('|');
        }
        push_int(out, hs[i].0 as i64);
        assert(hs@.take(i + 1).drop_last() =~= hs@.take(i as int));
        if i == 0 {
            assert(out@ =~= old(out)@ + sounds_text(hs@.take(i + 1)));
        } else {
            assert(out@ =~= old(out)@ + sounds_text(hs@.take(i + 1)));
        }
        i = i + 1;
    }
    assert(hs@.take(i as int) =~= hs@);
}

fn push_sets(out: &mut Vec<char>, ss: &[HitSampleSet])
    ensures
        final(out)@ == old(out)@ + sets_text(ss@),
{
    let mut i: usize = 0;
    assert(old(out)@ + sets_text(ss@.take(0)) =~= old(out)@);
    while i < ss.len()
        invariant
            i <= ss@.len(),
            out@ == old(out)@ + sets_text(ss@.take(i as int)),
        decreases ss@.len() - i,
    {
        if i > 0 {
            out.push('|');
        }
        push_hit_sample_set(out, &ss[i]);
        assert(ss@.take(i + 1).drop_last() =~= ss@.take(i as int));
        assert(out@ =~= old(out)@ + sets_text(ss@.take(i + 1)));
        i = i + 1;
    }
    assert(ss@.take(i as int) =~= ss@);
}

/// The tail of a hit object line after its hitsound, by its kind.
pub open spec fn params_text(h: HitObject) -> Seq<char> {
    match h.object_params {
        HitObjectParams::HitCircle => seq![','] + hit_sample_text(h.hit_sample),
        HitObjectParams::Slider {
            first_curve_type,
            curve_points,
            slides,
            length,
            edge_hitsounds,
            edge_samplesets,
        } => seq![','] + curve_text(first_curve_type, curve_points@) + seq![','] + int_text(slides as int)
            + seq![','] + decimal_text(length) + when(
            edge_hitsounds@.len() > 0 && edge_samplesets@.len() > 0,
            seq![','] + sounds_text(edge_hitsounds@) + seq![','] + sets_text(edge_samplesets@),
        ) + seq![','] + hit_sample_text(h.hit_sample),
        HitObjectParams::Spinner { end_time } => seq![','] + decimal_text(end_time) + seq![','] + hit_sample_text(
            h.hit_sample,
        ),
        HitObjectParams::Hold { end_time } => seq![','] + decimal_text(end_time) + seq![':'] + hit_sample_text(
            h.hit_sample,
        ),
    }
}

/// `x,y,time,type,hitSound` and the tail of the object's kind.
pub open spec fn hit_object_text(h: HitObject) -> Seq<char> {
    int_text(h.x as int) + seq![','] + int_text(h.y as int) + seq![','] + decimal_text(h.time) + seq![',']
        + int_text(encoded_type(h.object_type, h.combo_color_skip) as int) + seq![','] + int_text(
        h.hit_sound.0 as int,
    ) + params_text(h) + crlf()
}

fn push_params(out: &mut Vec<char>, h: &HitObject)
    ensures
        final(out)@ == old(out)@ + params_text(*h),
{
    let mut t: Vec<char> = Vec::new();
    t.push(',');
    match &h.object_params {
        HitObjectParams::HitCircle => {},
        HitObjectParams::Slider {
            first_curve_type,
            curve_points,
            slides,
            length,
            edge_hitsounds,
            edge_samplesets,
        } => {
            push_curve_points(&mut t, *first_curve_type, curve_points.as_slice());
            t.push(',');
            push_int(&mut t, *slides as i64);
            t.push(',');
            push_decimal(&mut t, *length);
            let mut edges: Vec<char> = Vec::new();
            if edge_hitsounds.len() > 0 && edge_samplesets.len() > 0 {
                edges.push(',');
                push_sounds(&mut edges, edge_hitsounds.as_slice());
                edges.push(',');
                push_sets(&mut edges, edge_samplesets.as_slice());
            }
            assert(edges@ =~= when(
                edge_hitsounds@.len() > 0 && edge_samplesets@.len() > 0,
                seq![','] + sounds_text(edge_hitsounds@) + seq![','] + sets_text(edge_samplesets@),
            ));
            push_all(&mut t, edges.as_slice());
            t.push(',');
        },
        HitObjectParams::Spinner { end_time } => {
            push_decimal(&mut t, *end_time);
            t.push(',');
        },
        HitObjectParams::Hold { end_time } => {
            push_decimal(&mut t, *end_time);
            t.push(':');
        },
    }
    push_hit_sample(&mut t, &h.hit_sample);
    assert(t@ =~= params_text(*h));
    push_all(out, t.as_slice());
}

fn push_hit_object(out: &mut Vec<char>, h: &HitObject)
    ensures
        final(out)@ == old(out)@ + hit_object_text(*h),
{
    let mut l: Vec<char> = Vec::new();
    push_int(&mut l, h.x as i64);
    assert(l@ =~= int_text(h.x as int));
    l.push(',');
    push_int(&mut l, h.y as i64);
    l.push(',');
    push_decimal(&mut l, h.time);
    l.push(',');
    push_int(&mut l, h.raw_object_type() as i64);
    l.push(',');
    push_int(&mut l, h.hit_sound.0 as i64);
    push_params(&mut l, h);
    push_crlf(&mut l);
    push_all(out, l.as_slice());
}

pub open spec fn hit_objects_text(hs: Seq<HitObject>) -> Seq<char>
    decreases hs.len(),
{
    if hs.len() == 0 {
        Seq::empty()
    } else {
        hit_objects_text(hs.drop_last()) + hit_object_text(hs.last())
    }
}

fn push_hit_objects(out: &mut Vec<char>, hs: &[HitObject])
    ensures
        final(out)@ == old(out)@ + hit_objects_text(hs@),
{
    let mut i: usize = 0;
    assert(old(out)@ + hit_objects_text(hs@.take(0)) =~= old(out)@);
    while i < hs.len()
        invariant
            i <= hs@.len(),
            out@ == old(out)@ + hit_objects_text(hs@.take(i as int)),
        decreases hs@.len() - i,
    {
        push_hit_object(out, &hs[i]);
        assert(hs@.take(i + 1).drop_last() =~= hs@.take(i as int));
        proof {
            vstd::seq_lib::lemma_concat_associative(old(out)@, hit_objects_text(hs@.take(i as int)), hit_object_text(hs@[i as int]));
        }
        i = i + 1;
    }
    assert(hs@.take(i as int) =~= hs@);
}

/// Items, each written by `f`, separated by `sep`.
pub open spec fn joined<A>(v: Seq<A>, f: spec_fn(A) -> Seq<char>, sep: char) -> Seq<char>
    decreases v.len(),
{
    if v.len() == 0 {
        Seq::empty()
    } else if v.len() == 1 {
        f(v[0])
    } else {
        joined(v.drop_last(), f, sep) + seq![sep] + f(v.last())
    }
}

fn decimals_chars(v: &[Decimal]) -> (r: Vec<char>)
    ensures
        r@ == joined(v@, |d: Decimal| decimal_text(d), ','),
{
    let mut out: Vec<char> = Vec::new();
    let mut i: usize = 0;
    assert(joined(v@.take(0), |d: Decimal| decimal_text(d), ',') =~= Seq::<char>::empty());
    while i < v.len()
        invariant
            i <= v@.len(),
            out@ == joined(v@.take(i as int), |d: Decimal| decimal_text(d), ','),
        decreases v@.len() - i,
    {
        let ghost before = out@;
        if i > 0 {
            out.push(',');
        }
        push_decimal(&mut out, v[i]);
        assert(v@.take(i + 1).drop_last() =~= v@.take(i as int));
        assert(out@ =~= joined(v@.take(i + 1), |d: Decimal| decimal_text(d), ','));
        i = i + 1;
    }
    assert(v@.take(i as int) =~= v@);
    out
}

pub open spec fn opt_kv_decimal(k: Seq<char>, d: Option<Decimal>) -> Seq<char> {
    match d {
        Some(x) => kv(k, decimal_text(x)),
        None => Seq::empty(),
    }
}

pub open spec fn opt_kv_int(k: Seq<char>, d: Option<i32>) -> Seq<char> {
    match d {
        Some(x) => kv(k, int_text(x as int)),
        None => Seq::empty(),
    }
}

/// The `[Editor]` section; bookmarks and timeline zoom only where present.
pub open spec fn editor_text(e: EditorSection) -> Seq<char> {
    "[Editor]"@ + crlf() + when(e.bookmarks@.len() > 0, kv("Bookmarks"@, joined(e.bookmarks@, |d: Decimal| decimal_text(d), ',')))
        + kv("DistanceSpacing"@, decimal_text(e.distance_spacing)) + kv("BeatDivisor"@, decimal_text(e.beat_divisor))
        + kv("GridSize"@, int_text(e.grid_size as int)) + opt_kv_decimal("TimelineZoom"@, e.timeline_zoom) + crlf()
}

fn push_editor(out: &mut Vec<char>, e: &EditorSection)
    ensures
        final(out)@ == old(out)@ + editor_text(*e),
{
    let mut l: Vec<char> = Vec::new();
    push_str(&mut l, "[Editor]");
    assert(l@ =~= "[Editor]"@);
    push_crlf(&mut l);
    if e.bookmarks.len() > 0 {
        push_kv(&mut l, "Bookmarks", decimals_chars(e.bookmarks.as_slice()).as_slice());
    }
    push_kv(&mut l, "DistanceSpacing", decimal_chars(e.distance_spacing).as_slice());
    push_kv(&mut l, "BeatDivisor", decimal_chars(e.beat_divisor).as_slice());
    push_kv(&mut l, "GridSize", int_chars(e.grid_size as i64).as_slice());
    if let Some(z) = e.timeline_zoom {
        push_kv(&mut l, "TimelineZoom", decimal_chars(z).as_slice());
    }
    push_crlf(&mut l);
    assert(l@ =~= editor_text(*e));
    push_all(out, l.as_slice());
}

pub open spec fn tags_text(tags: Seq<String>) -> Seq<char> {
    joined(tags, |t: String| t@, ' ')
}

fn tags_chars(tags: &[String]) -> (r: Vec<char>)
    ensures
        r@ == tags_text(tags@),
{
    let mut out: Vec<char> = Vec::new();
    let mut i: usize = 0;
    assert(joined(tags@.take(0), |t: String| t@, ' ') =~= Seq::<char>::empty());
    while i < tags.len()
        invariant
            i <= tags@.len(),
            out@ == joined(tags@.take(i as int), |t: String| t@, ' '),
        decreases tags@.len() - i,
    {
        if i > 0 {
            out.push(' ');
        }
        push_str(&mut out, tags[i].as_str());
        assert(tags@.take(i + 1).drop_last() =~= tags@.take(i as int));
        assert(out@ =~= joined(tags@.take(i + 1), |t: String| t@, ' '));
        i = i + 1;
    }
    assert(tags@.take(i as int) =~= tags@);
    out
}

/// The `[Metadata]` section; tags and identifiers only where present.
pub open spec fn metadata_text(m: MetadataSection) -> Seq<char> {
    "[Metadata]"@ + crlf() + kv("Title"@, m.title@) + kv("TitleUnicode"@, m.title_unicode@) + kv(
        "Artist"@,
        m.artist@,
    ) + kv("ArtistUnicode"@, m.artist_unicode@) + kv("Creator"@, m.creator@) + kv("Version"@, m.version@)
        + kv("Source"@, m.source@) + when(m.tags@.len() > 0, kv("Tags"@, tags_text(m.tags@))) + opt_kv_int(
        "BeatmapID"@,
        m.beatmap_id,
    ) + opt_kv_int("BeatmapSetID"@, m.beatmap_set_id) + crlf()
}

fn push_metadata(out: &mut Vec<char>, m: &MetadataSection)
    ensures
        final(out)@ == old(out)@ + metadata_text(*m),
{
    let mut l: Vec<char> = Vec::new();
    push_str(&mut l, "[Metadata]");
    assert(l@ =~= "[Metadata]"@);
    push_crlf(&mut l);
    push_kv(&mut l, "Title", chars_of_string(&m.title).as_slice());
    push_kv(&mut l, "TitleUnicode", chars_of_string(&m.title_unicode).as_slice());
    push_kv(&mut l, "Artist", chars_of_string(&m.artist).as_slice());
    push_kv(&mut l, "ArtistUnicode", chars_of_string(&m.artist_unicode).as_slice());
    push_kv(&mut l, "Creator", chars_of_string(&m.creator).as_slice());
    push_kv(&mut l, "Version", chars_of_string(&m.version).as_slice());
    push_kv(&mut l, "Source", chars_of_string(&m.source).as_slice());
    if m.tags.len() > 0 {
        push_kv(&mut l, "Tags", tags_chars(m.tags.as_slice()).as_slice());
    }
    if let Some(x) = m.beatmap_id {
        push_kv(&mut l, "BeatmapID", int_chars(x as i64).as_slice());
    }
    if let Some(x) = m.beatmap_set_id {
        push_kv(&mut l, "BeatmapSetID", int_chars(x as i64).as_slice());
    }
    push_crlf(&mut l);
    assert(l@ =~= metadata_text(*m));
    push_all(out, l.as_slice());
}

/// The `[Difficulty]` section, every setting written.
pub open spec fn difficulty_text(d: DifficultySection) -> Seq<char> {
    "[Difficulty]"@ + crlf() + kv("HPDrainRate"@, decimal_text(d.hp_drain_rate)) + kv(
        "CircleSize"@,
        decimal_text(d.circle_size),
    ) + kv("OverallDifficulty"@, decimal_text(d.overall_difficulty)) + kv(
        "ApproachRate"@,
        decimal_text(d.approach_rate),
    ) + kv("SliderMultiplier"@, decimal_text(d.slider_multiplier)) + kv(
        "SliderTickRate"@,
        decimal_text(d.slider_tick_rate),
    ) + crlf()
}

fn push_difficulty(out: &mut Vec<char>, d: &DifficultySection)
    ensures
        final(out)@ == old(out)@ + difficulty_text(*d),
{
    let mut l: Vec<char> = Vec::new();
    push_str(&mut l, "[Difficulty]");
    assert(l@ =~= "[Difficulty]"@);
    push_crlf(&mut l);
    push_kv(&mut l, "HPDrainRate", decimal_chars(d.hp_drain_rate).as_slice());
    push_kv(&mut l, "CircleSize", decimal_chars(d.circle_size).as_slice());
    push_kv(&mut l, "OverallDifficulty", decimal_chars(d.overall_difficulty).as_slice());
    push_kv(&mut l, "ApproachRate", decimal_chars(d.approach_rate).as_slice());
    push_kv(&mut l, "SliderMultiplier", decimal_chars(d.slider_multiplier).as_slice());
    push_kv(&mut l, "SliderTickRate", decimal_chars(d.slider_tick_rate).as_slice());
    push_crlf(&mut l);
    push_all(out, l.as_slice());
}

/// `ComboN: color` lines for the first `n` combo colors, numbered from 1.
pub open spec fn combos_text(cs: Seq<Color>) -> Seq<char>
    decreases cs.len(),
{
    if cs.len() == 0 {
        Seq::empty()
    } else {
        combos_text(cs.drop_last()) + kv("Combo"@ + int_text(cs.len() as int), color_text(cs.last()))
    }
}

pub open spec fn opt_color_line(k: Seq<char>, c: Option<Color>) -> Seq<char> {
    match c {
        Some(x) => kv(k, color_text(x)),
        None => Seq::empty(),
    }
}

/// The `[Colours]` section.
pub open spec fn colors_text(c: ColorsSection) -> Seq<char> {
    "[Colours]"@ + crlf() + combos_text(c.combo_colors@) + opt_color_line(
        "SliderTrackOverride"@,
        c.slider_track_override,
    ) + opt_color_line("SliderBorder"@, c.slider_border) + crlf()
}

fn color_chars(c: &Color) -> (r: Vec<char>)
    ensures
        r@ == color_text(*c),
{
    let mut t: Vec<char> = Vec::new();
    push_color(&mut t, c);
    assert(t@ =~= color_text(*c));
    t
}

fn push_colors(out: &mut Vec<char>, c: &ColorsSection)
    ensures
        final(out)@ == old(out)@ + colors_text(*c),
{
    let mut l: Vec<char> = Vec::new();
    push_str(&mut l, "[Colours]");
    assert(l@ =~= "[Colours]"@);
    push_crlf(&mut l);
    let ghost head = l@;
    let mut i: usize = 0;
    assert(head + combos_text(c.combo_colors@.take(0)) =~= head);
    while i < c.combo_colors.len()
        invariant
            i <= c.combo_colors@.len(),
            l@ == head + combos_text(c.combo_colors@.take(i as int)),
        decreases c.combo_colors@.len() - i,
    {
        let ghost before = l@;
        push_str(&mut l, "Combo");
        crate::text::push_nat(&mut l, (i as u64) + 1);
        l.push(':');
        l.push(' ');
        push_color(&mut l, &c.combo_colors[i]);
        push_crlf(&mut l);
        let ghost t = c.combo_colors@.take(i + 1);
        assert(l@ =~= before + kv("Combo"@ + int_text(t.len() as int), color_text(t.last())));
        assert(t.drop_last() =~= c.combo_colors@.take(i as int));
        assert(t.len() == i + 1);
        proof {
            vstd::seq_lib::lemma_concat_associative(head, combos_text(c.combo_colors@.take(i as int)), kv("Combo"@ + int_text(t.len() as int), color_text(t.last())));
        }
        i = i + 1;
    }
    assert(c.combo_colors@.take(i as int) =~= c.combo_colors@);
    if let Some(x) = &c.slider_track_override {
        push_kv(&mut l, "SliderTrackOverride", color_chars(x).as_slice());
    }
    if let Some(x) = &c.slider_border {
        push_kv(&mut l, "SliderBorder", color_chars(x).as_slice());
    }
    push_crlf(&mut l);
    assert(l@ =~= colors_text(*c));
    push_all(out, l.as_slice());
}

pub open spec fn opt_text<A>(o: Option<A>, f: spec_fn(A) -> Seq<char>) -> Seq<char> {
    match o {
        Some(x) => f(x),
        None => Seq::empty(),
    }
}

/// The version line and a blank line.
pub open spec fn header_text(version: u32) -> Seq<char> {
    "osu file format v"@ + int_text(version as int) + crlf() + crlf()
}

/// The sections up to and including `[Difficulty]`, each where present.
pub open spec fn keyed_text(doc: BeatmapFile) -> Seq<char> {
    opt_text(doc.general, |g: GeneralSection| general_text(g)) + opt_text(
        doc.editor,
        |e: EditorSection| editor_text(e),
    ) + opt_text(doc.metadata, |m: MetadataSection| metadata_text(m)) + opt_text(
        doc.difficulty,
        |d: DifficultySection| difficulty_text(d),
    )
}

/// `[Events]`, `[TimingPoints]`, `[Colours]` and `[HitObjects]`, each where
/// it has content; the last section written has no blank line after it.
pub open spec fn listed_text(doc: BeatmapFile) -> Seq<char> {
    when(doc.events@.len() > 0, "[Events]"@ + crlf() + events_text(doc.events@) + crlf()) + when(
        doc.timing_points@.len() > 0,
        "[TimingPoints]"@ + crlf() + timing_points_text(doc.timing_points@) + crlf(),
    ) + opt_text(doc.colors, |c: ColorsSection| colors_text(c)) + when(
        doc.hit_objects@.len() > 0,
        "[HitObjects]"@ + crlf() + hit_objects_text(doc.hit_objects@),
    )
}

/// The canonical text of a document.
pub open spec fn document_text(doc: BeatmapFile) -> Seq<char> {
    header_text(doc.osu_file_format) + keyed_text(doc) + listed_text(doc)
}

fn push_keyed(out: &mut Vec<char>, doc: &BeatmapFile)
    ensures
        final(out)@ == old(out)@ + keyed_text(*doc),
{
    let mut l: Vec<char> = Vec::new();
    if let Some(g) = &doc.general {
        push_general(&mut l, g);
    }
    assert(l@ =~= opt_text(doc.general, |g: GeneralSection| general_text(g)));
    if let Some(e) = &doc.editor {
        push_editor(&mut l, e);
    }
    if let Some(m) = &doc.metadata {
        push_metadata(&mut l, m);
    }
    if let Some(d) = &doc.difficulty {
        push_difficulty(&mut l, d);
    }
    assert(l@ =~= keyed_text(*doc));
    push_all(out, l.as_slice());
}

fn push_listed(out: &mut Vec<char>, doc: &BeatmapFile)
    ensures
        final(out)@ == old(out)@ + listed_text(*doc),
{
    let mut a: Vec<char> = Vec::new();
    if doc.events.len() > 0 {
        push_str(&mut a, "[Events]");
        assert(a@ =~= "[Events]"@);
        push_crlf(&mut a);
        push_events(&mut a, doc.events.as_slice());
        push_crlf(&mut a);
    }
    assert(a@ =~= when(doc.events@.len() > 0, "[Events]"@ + crlf() + events_text(doc.events@) + crlf()));
    let mut b: Vec<char> = Vec::new();
    if doc.timing_points.len() > 0 {
        push_str(&mut b, "[TimingPoints]");
        assert(b@ =~= "[TimingPoints]"@);
        push_crlf(&mut b);
        push_timing_points(&mut b, doc.timing_points.as_slice());
        push_crlf(&mut b);
    }
    assert(b@ =~= when(
        doc.timing_points@.len() > 0,
        "[TimingPoints]"@ + crlf() + timing_points_text(doc.timing_points@) + crlf(),
    ));
    let mut c: Vec<char> = Vec::new();
    if let Some(cs) = &doc.colors {
        push_colors(&mut c, cs);
    }
    assert(c@ =~= opt_text(doc.colors, |c: ColorsSection| colors_text(c)));
    let mut d: Vec<char> = Vec::new();
    if doc.hit_objects.len() > 0 {
        push_str(&mut d, "[HitObjects]");
        assert(d@ =~= "[HitObjects]"@);
        push_crlf(&mut d);
        push_hit_objects(&mut d, doc.hit_objects.as_slice());
    }
    assert(d@ =~= when(doc.hit_objects@.len() > 0, "[HitObjects]"@ + crlf() + hit_objects_text(doc.hit_objects@)));
    let ghost o = out@;
    push_all(out, a.as_slice());
    push_all(out, b.as_slice());
    proof {
        vstd::seq_lib::lemma_concat_associative(o, a@, b@);
    }
    push_all(out, c.as_slice());
    proof {
        vstd::seq_lib::lemma_concat_associative(o, a@ + b@, c@);
    }
    push_all(out, d.as_slice());
    proof {
        vstd::seq_lib::lemma_concat_associative(o, a@ + b@ + c@, d@);
    }
}

/// The canonical text of a document: the version line, then each present
/// section in a fixed order, lines ended by `\r\n`.
pub fn serialize(doc: &BeatmapFile) -> (r: String)
    ensures
        r@ == document_text(*doc),
{
    let mut out: Vec<char> = Vec::new();
    push_str(&mut out, "osu file format v");
    assert(out@ =~= "osu file format v"@);
    push_int(&mut out, doc.osu_file_format as i64);
    push_crlf(&mut out);
    push_crlf(&mut out);
    let ghost h = out@;
    assert(h == header_text(doc.osu_file_format));
    push_keyed(&mut out, doc);
    push_listed(&mut out, doc);
    assert(out@ =~= document_text(*doc));
    string_of(out.as_slice())
}

proof fn lemma_int_text_lacks(v: int, c: char)
    requires
        !crate::text::is_digit(c),
        c != '-',
    ensures
        crate::text::lacks(int_text(v), c),
{
    crate::text::lemma_int_text_chars(v);
}

proof fn lemma_decimal_text_lacks(d: Decimal, c: char)
    requires
        !crate::text::is_digit(c),
        c != '-',
        c != '.',
    ensures
        crate::text::lacks(decimal_text(d), c),
{
    let t = crate::text::nat_text(crate::decimal::magnitude(d.mantissa));
    crate::text::lemma_nat_text(crate::decimal::magnitude(d.mantissa));
    let text = decimal_text(d);
    assert forall|i: int| 0 <= i < text.len() implies text[i] != c by {
        let s = d.scale as int;
        let sign = if d.mantissa < 0 { seq!['-'] } else { Seq::<char>::empty() };
        if s == 0 {
            assert(text == sign + t);
            if i >= sign.len() {
                assert(text[i] == t[i - sign.len()]);
                assert(crate::text::is_digit(t[i - sign.len()]));
            }
        } else if t.len() > s {
            let a = t.take(t.len() - s);
            let b = t.skip(t.len() - s);
            assert(text == sign + a + seq!['.'] + b);
            if i >= sign.len() && i < sign.len() + a.len() {
                assert(text[i] == t[i - sign.len()]);
                assert(crate::text::is_digit(t[i - sign.len()]));
            } else if i > sign.len() + a.len() {
                assert(text[i] == b[i - sign.len() - a.len() - 1]);
                assert(b[i - sign.len() - a.len() - 1] == t[i - sign.len() - 1]);
                assert(crate::text::is_digit(t[i - sign.len() - 1]));
            }
        } else {
            let z = crate::decimal::zeros(s - t.len());
            assert(text == sign + seq!['0', '.'] + z + t);
            if i >= sign.len() + 2 + z.len() {
                assert(text[i] == t[i - sign.len() - 2 - z.len()]);
                assert(crate::text::is_digit(t[i - sign.len() - 2 - z.len()]));
            } else if i >= sign.len() + 2 {
                assert(text[i] == z[i - sign.len() - 2]);
            }
        }
    }
}

/// Reading back the written fields of a timing point whose times are
/// well-formed gives the timing point.
pub proof fn lemma_timing_point_round_trip(tp: TimingPoint)
    requires
        tp.time.wf(),
        tp.beat_length.wf(),
    ensures
        crate::records::timing_point_of(joined(timing_point_fields(tp), as_is(), ',')) == Some(tp),
{
    let fs = timing_point_fields(tp);
    lemma_decimal_text_lacks(tp.time, ',');
    lemma_decimal_text_lacks(tp.beat_length, ',');
    lemma_int_text_lacks(tp.meter as int, ',');
    lemma_int_text_lacks(tp.sample_set.spec_code(), ',');
    lemma_int_text_lacks(tp.sample_index as int, ',');
    lemma_int_text_lacks(tp.volume as int, ',');
    lemma_int_text_lacks(tp.effects as int, ',');
    assert(bool_text(true) == int_text(1));
    assert(bool_text(false) == int_text(0));
    lemma_int_text_lacks(if tp.uninherited { 1 } else { 0 }, ',');
    assert forall|i: int| 0 <= i < fs.len() implies crate::text::lacks(#[trigger] fs[i], ',') by {}
    lemma_split_joined(fs, ',');
    crate::decimal::lemma_decimal_round_trip(tp.time);
    crate::decimal::lemma_decimal_round_trip(tp.beat_length);
    crate::text::lemma_int_text_round_trip(tp.meter as int);
    crate::text::lemma_int_text_round_trip(tp.sample_set.spec_code());
    crate::text::lemma_int_text_round_trip(tp.sample_index as int);
    crate::text::lemma_int_text_round_trip(tp.volume as int);
    crate::text::lemma_int_text_round_trip(tp.effects as int);
    crate::text::lemma_int_text_round_trip(if tp.uninherited { 1 } else { 0 });
    assert(int_text(0) == seq!['0']);
    assert(int_text(1) == seq!['1']);
    assert(int_text(2) == seq!['2']);
    assert(int_text(3) == seq!['3']);
}

pub open spec fn letter_token(t: SliderCurveType) -> Seq<char> {
    match t {
        SliderCurveType::Inherit => Seq::empty(),
        SliderCurveType::Bezier => seq!['B'],
        SliderCurveType::Catmull => seq!['C'],
        SliderCurveType::Linear => seq!['L'],
        SliderCurveType::PerfectCurve => seq!['P'],
    }
}

pub open spec fn xy_text(p: SliderPoint) -> Seq<char> {
    int_text(p.x as int) + seq![':'] + int_text(p.y as int)
}

/// The `|`-separated tokens that a point is written as.
pub open spec fn point_tokens(p: SliderPoint) -> Seq<Seq<char>> {
    if p.curve_type == SliderCurveType::Inherit {
        seq![xy_text(p)]
    } else {
        seq![letter_token(p.curve_type), xy_text(p)]
    }
}

pub open spec fn tokens_of(pts: Seq<SliderPoint>) -> Seq<Seq<char>>
    decreases pts.len(),
{
    if pts.len() == 0 {
        Seq::empty()
    } else {
        point_tokens(pts[0]) + tokens_of(pts.drop_first())
    }
}

proof fn lemma_tokens_push(pts: Seq<SliderPoint>, p: SliderPoint)
    ensures
        tokens_of(pts.push(p)) == tokens_of(pts) + point_tokens(p),
    decreases pts.len(),
{
    if pts.len() == 0 {
        assert(pts.push(p).drop_first() =~= Seq::<SliderPoint>::empty());
        assert(tokens_of(pts.push(p).drop_first()) == Seq::<Seq<char>>::empty());
        assert(point_tokens(p) + Seq::<Seq<char>>::empty() =~= point_tokens(p));
        assert(Seq::<Seq<char>>::empty() + point_tokens(p) =~= point_tokens(p));
    } else {
        lemma_tokens_push(pts.drop_first(), p);
        assert(pts.push(p).drop_first() =~= pts.drop_first().push(p));
        assert(point_tokens(pts[0]) + (tokens_of(pts.drop_first()) + point_tokens(p)) =~= (point_tokens(pts[0])
            + tokens_of(pts.drop_first())) + point_tokens(p));
    }
}

proof fn lemma_xy_lacks(p: SliderPoint)
    ensures
        crate::text::lacks(xy_text(p), '|'),
        xy_text(p).len() >= 3,
        crate::text::first_index(xy_text(p), ':') == int_text(p.x as int).len(),
{
    crate::text::lemma_int_text_chars(p.x as int);
    crate::text::lemma_int_text_chars(p.y as int);
    crate::text::lemma_int_text_round_trip(p.x as int);
    crate::text::lemma_int_text_round_trip(p.y as int);
    let a = int_text(p.x as int);
    let t = xy_text(p);
    assert forall|i: int| 0 <= i < t.len() implies t[i] != '|' by {
        if i < a.len() {
            assert(t[i] == a[i]);
        } else if i > a.len() {
            assert(t[i] == int_text(p.y as int)[i - a.len() - 1]);
        }
    }
    assert forall|k: int| 0 <= k < a.len() implies t[k] != ':' by {
        assert(t[k] == a[k]);
    }
    assert(t[a.len() as int] == ':');
    crate::text::lemma_first_index(t, ':', a.len() as int);
}

/// The text of points splits at `|` into their tokens.
proof fn lemma_points_text_split(first: SliderCurveType, pts: Seq<SliderPoint>)
    requires
        first != SliderCurveType::Inherit,
        pts.len() > 0,
    ensures
        crate::text::split(curve_text(first, pts), '|') == seq![letter_token(first)] + tokens_of(pts),
    decreases pts.len(),
{
    let last = pts.last();
    let init = pts.drop_last();
    lemma_xy_lacks(last);
    assert(pts =~= init.push(last));
    lemma_tokens_push(init, last);
    let lt = letter_token(last.curve_type);
    if pts.len() == 1 {
        assert(init =~= Seq::<SliderPoint>::empty());
        assert(tokens_of(init) == Seq::<Seq<char>>::empty());
        assert(points_text(pts) == point_text(pts[0]));
        let lf = letter_token(first);
        assert(crate::text::lacks(lf, '|'));
        crate::text::lemma_split_lacking(lf, '|');
        if last.curve_type == SliderCurveType::Inherit {
            assert(curve_text(first, pts) =~= lf + seq!['|'] + xy_text(last));
            crate::text::lemma_split_snoc(lf, xy_text(last), '|');
            assert(seq![lf].push(xy_text(last)) =~= seq![lf] + tokens_of(pts));
        } else {
            assert(curve_text(first, pts) =~= (lf + seq!['|'] + lt) + seq!['|'] + xy_text(last));
            assert(crate::text::lacks(lt, '|'));
            crate::text::lemma_split_snoc(lf, lt, '|');
            crate::text::lemma_split_snoc(lf + seq!['|'] + lt, xy_text(last), '|');
            assert(seq![lf].push(lt).push(xy_text(last)) =~= seq![lf] + tokens_of(pts));
        }
    } else {
        lemma_points_text_split(first, init);
        let ti = curve_text(first, init);
        assert(points_text(pts) == points_text(init) + seq!['|'] + point_text(last));
        if last.curve_type == SliderCurveType::Inherit {
            assert(curve_text(first, pts) =~= ti + seq!['|'] + xy_text(last));
            crate::text::lemma_split_snoc(ti, xy_text(last), '|');
            assert((seq![letter_token(first)] + tokens_of(init)).push(xy_text(last)) =~= seq![letter_token(first)]
                + tokens_of(pts));
        } else {
            assert(curve_text(first, pts) =~= (ti + seq!['|'] + lt) + seq!['|'] + xy_text(last));
            assert(crate::text::lacks(lt, '|'));
            crate::text::lemma_split_snoc(ti, lt, '|');
            crate::text::lemma_split_snoc(ti + seq!['|'] + lt, xy_text(last), '|');
            assert((seq![letter_token(first)] + tokens_of(init)).push(lt).push(xy_text(last)) =~= seq![
                letter_token(first),
            ] + tokens_of(pts));
        }
    }
}

proof fn lemma_xy_reads_back(p: SliderPoint, cur: SliderCurveType)
    ensures
        crate::records::letter_type(xy_text(p)) is None,
        crate::records::slider_point_of(xy_text(p), cur) == Some(SliderPoint { curve_type: cur, x: p.x, y: p.y }),
{
    lemma_xy_lacks(p);
    let a = int_text(p.x as int);
    let t = xy_text(p);
    assert(t.take(a.len() as int) =~= a);
    assert(t.skip(a.len() as int + 1) =~= int_text(p.y as int));
    crate::text::lemma_int_text_round_trip(p.x as int);
    crate::text::lemma_int_text_round_trip(p.y as int);
}

proof fn lemma_letter_reads_back(t: SliderCurveType)
    requires
        t != SliderCurveType::Inherit,
    ensures
        crate::records::letter_type(letter_token(t)) == Some(t),
{
    let b = seq!['B'];
    let c = seq!['C'];
    let l = seq!['L'];
    let p = seq!['P'];
    assert(b[0] != c[0] && b[0] != l[0] && b[0] != p[0] && c[0] != l[0] && c[0] != p[0] && l[0] != p[0]);
    assert(c != b);
    assert(l != b && l != c);
    assert(p != b && p != c && p != l);
}

proof fn lemma_points_read_back(pre: Seq<Seq<char>>, pts: Seq<SliderPoint>)
    ensures
        crate::records::curve_points_from(pre + tokens_of(pts), pre.len() as int, SliderCurveType::Inherit)
            == Some(pts),
    decreases pts.len(),
{
    let toks = pre + tokens_of(pts);
    let k = pre.len() as int;
    if pts.len() == 0 {
        assert(toks =~= pre);
        assert(pts =~= Seq::<SliderPoint>::empty());
    } else {
        let p = pts[0];
        let rest = pts.drop_first();
        let pt = point_tokens(p);
        let pre2 = pre + pt;
        assert(toks =~= pre2 + tokens_of(rest));
        lemma_points_read_back(pre2, rest);
        lemma_xy_reads_back(p, p.curve_type);
        lemma_xy_reads_back(p, SliderCurveType::Inherit);
        assert(seq![p] + rest =~= pts);
        if p.curve_type == SliderCurveType::Inherit {
            assert(toks[k] == xy_text(p));
            assert(SliderPoint { curve_type: SliderCurveType::Inherit, x: p.x, y: p.y } == p);
        } else {
            assert(toks[k] == letter_token(p.curve_type));
            assert(toks[k + 1] == xy_text(p));
            lemma_letter_reads_back(p.curve_type);
            assert(SliderPoint { curve_type: p.curve_type, x: p.x, y: p.y } == p);
            assert(crate::records::curve_points_from(toks, k, SliderCurveType::Inherit)
                == crate::records::curve_points_from(toks, k + 1, p.curve_type));
        }
    }
}

/// Reading back the written curve of a slider gives its first type and its
/// points, where the first type is a letter and there is at least one point.
pub proof fn lemma_curve_points_round_trip(first: SliderCurveType, pts: Seq<SliderPoint>)
    requires
        first != SliderCurveType::Inherit,
        pts.len() > 0,
    ensures
        crate::records::curve_points_of(curve_text(first, pts)) == Some((first, pts)),
{
    lemma_points_text_split(first, pts);
    let toks = seq![letter_token(first)] + tokens_of(pts);
    assert(toks[0] == letter_token(first));
    lemma_letter_reads_back(first);
    lemma_points_read_back(seq![letter_token(first)], pts);
}

pub open spec fn hit_sample_fields(h: crate::model::HitSample) -> Seq<Seq<char>> {
    seq![
        int_text(h.normal_set.spec_code()),
        int_text(h.addition_set.spec_code()),
        int_text(h.index as int),
        int_text(h.volume as int),
        match h.filename {
            Some(f) => f@,
            None => Seq::empty(),
        },
    ]
}

/// Reading back the written hit sample gives it again, where its filename,
/// if any, is not empty and holds no `:`.
pub proof fn lemma_hit_sample_round_trip(h: crate::model::HitSample)
    requires
        h.filename matches Some(f) ==> f@.len() > 0 && crate::text::lacks(f@, ':'),
    ensures
        crate::records::hit_sample_of(hit_sample_text(h)) == Some(h@),
{
    let fs = hit_sample_fields(h);
    reveal_with_fuel(joined, 6);
    assert(hit_sample_text(h) =~= joined(fs, as_is(), ':'));
    lemma_int_text_lacks(h.normal_set.spec_code(), ':');
    lemma_int_text_lacks(h.addition_set.spec_code(), ':');
    lemma_int_text_lacks(h.index as int, ':');
    lemma_int_text_lacks(h.volume as int, ':');
    assert(crate::text::lacks(fs[4], ':'));
    assert forall|i: int| 0 <= i < fs.len() implies crate::text::lacks(#[trigger] fs[i], ':') by {}
    lemma_split_joined(fs, ':');
    crate::text::lemma_int_text_round_trip(h.index as int);
    crate::text::lemma_int_text_round_trip(h.volume as int);
    lemma_bank_reads_back(h.normal_set);
    lemma_bank_reads_back(h.addition_set);
    let args = crate::text::split(hit_sample_text(h), ':');
    assert(args == fs);
    assert(args.len() == 5);
    assert(crate::records::u32_of(args[2]) == Some(h.index));
    assert(crate::records::u32_of(args[3]) == Some(h.volume));
}

proof fn lemma_bank_reads_back(b: crate::model::SampleBank)
    ensures
        crate::records::sample_bank_of(int_text(b.spec_code())) == Some(b),
{
    let z = seq!['0'];
    let o = seq!['1'];
    let t = seq!['2'];
    let d = seq!['3'];
    assert(z[0] != o[0] && z[0] != t[0] && z[0] != d[0] && o[0] != t[0] && o[0] != d[0] && t[0] != d[0]);
    assert(o != z);
    assert(t != z && t != o);
    assert(d != z && d != o && d != t);
    assert(int_text(0) == z);
    assert(int_text(1) == o);
    assert(int_text(2) == t);
    assert(int_text(3) == d);
}

} // verus!
