//! The `Key: value` sections: General, Editor, Metadata, Difficulty and Colours.
use vstd::prelude::*;
use crate::decimal::{Decimal, decimal_value, parse_decimal};
use crate::model::{
    Color, ColorsSection, DifficultySection, EditorSection, GeneralSection, MetadataSection,
    OverlayPosition,
};
use crate::records::{
    ColorParseError, color_of, i32_of, parse_color, parse_i32, parse_u8, u8_of,
};
use crate::text::{
    chars_eq, chars_of, chars_start_with, find_char, first_index, split, split_chars, string_of,
    trim, trim_chars, views,
};

verus! {

/// A body line with no `:` to split at.
#[derive(Clone, Debug, PartialEq, Eq)]
pub struct InvalidKeyValuePairError {
    pub split_char: char,
}

/// An overlay position other than `NoChange`, `Below`, `Above`; holds it.
#[derive(Clone, Debug, PartialEq, Eq)]
pub struct InvalidOverlayPositionError {
    pub raw: String,
}

/// A required field that the section never set; holds its name.
#[derive(Clone, Debug, PartialEq, Eq)]
pub struct UnspecifiedFieldError(pub String);

/// Why the value of a known field was refused.
#[derive(Clone, Debug, PartialEq, Eq)]
pub enum FieldValueParseErrorKind {
    InvalidInt,
    InvalidFloat,
    InvalidFloatList,
    InvalidOverlayPosition(InvalidOverlayPositionError),
}

/// The value of a known field could not be read.
#[derive(Clone, Debug, PartialEq, Eq)]
pub struct FieldValueParseError {
    /// The field's key.
    pub field: String,
    pub kind: FieldValueParseErrorKind,
}

/// `Key: value`, split at the first colon, both sides trimmed.
pub open spec fn key_value_of(line: Seq<char>) -> Option<(Seq<char>, Seq<char>)> {
    let p = first_index(line, ':');
    if p < 0 {
        None
    } else {
        Some((trim(line.take(p)), trim(line.skip(p + 1))))
    }
}

/// Splits a `Key: value` line (arbitrary spaces allowed).
pub fn parse_field_value_pair(line: &[char]) -> (r: Result<(Vec<char>, Vec<char>), InvalidKeyValuePairError>)
    ensures
        match r {
            Ok((k, v)) => key_value_of(line@) == Some((k@, v@)),
            Err(e) => key_value_of(line@) is None && e.split_char == ':',
        },
{
    match find_char(line, ':') {
        None => Err(InvalidKeyValuePairError { split_char: ':' }),
        Some(p) => {
            proof {
                crate::text::lemma_first_index_bounds(line@, ':');
            }
            assert(p < line@.len());
            assert(line@.len() == line.len());
            let k = trim_chars(vstd::slice::slice_subrange(line, 0, p));
            let v = trim_chars(vstd::slice::slice_subrange(line, p + 1, line.len()));
            assert(line@.subrange(0, p as int) =~= line@.take(p as int));
            assert(line@.subrange(p + 1, line@.len() as int) =~= line@.skip(p + 1));
            Ok((k, v))
        },
    }
}

/// A path with each `\` turned into `/`.
pub open spec fn standardized(s: Seq<char>) -> Seq<char> {
    s.map_values(|c: char| if c == '\\' { '/' } else { c })
}

fn standardized_chars(s: &[char]) -> (r: Vec<char>)
    ensures
        r@ == standardized(s@),
{
    let mut out: Vec<char> = Vec::new();
    let mut i: usize = 0;
    while i < s.len()
        invariant
            i <= s@.len(),
            out@ == standardized(s@.take(i as int)),
        decreases s@.len() - i,
    {
        let c = s[i];
        out.push(if c == '\\' { '/' } else { c });
        i = i + 1;
        assert(out@ =~= standardized(s@.take(i as int)));
    }
    assert(s@.take(i as int) =~= s@);
    out
}

/// The path with `/` in place of each `\`.
pub fn to_standardized_path(path: &str) -> (r: String)
    ensures
        r@ == standardized(path@),
{
    let cs = chars_of(path);
    let out = standardized_chars(cs.as_slice());
    string_of(out.as_slice())
}

pub open spec fn overlay_of(t: Seq<char>) -> Option<OverlayPosition> {
    if t == "NoChange"@ {
        Some(OverlayPosition::NoChange)
    } else if t == "Below"@ {
        Some(OverlayPosition::Below)
    } else if t == "Above"@ {
        Some(OverlayPosition::Above)
    } else {
        None
    }
}

fn parse_overlay(t: &[char]) -> (r: Result<OverlayPosition, InvalidOverlayPositionError>)
    ensures
        match r {
            Ok(o) => overlay_of(t@) == Some(o),
            Err(e) => overlay_of(t@) is None && e.raw@ == t@,
        },
{
    if chars_eq(t, "NoChange") {
        Ok(OverlayPosition::NoChange)
    } else if chars_eq(t, "Below") {
        Ok(OverlayPosition::Below)
    } else if chars_eq(t, "Above") {
        Ok(OverlayPosition::Above)
    } else {
        Err(InvalidOverlayPositionError { raw: string_of(t) })
    }
}

/// What a `[General]` section holds.
pub struct GeneralView {
    pub audio_filename: Seq<char>,
    pub audio_lead_in: i32,
    pub audio_hash: Option<Seq<char>>,
    pub preview_time: Decimal,
    pub countdown: i32,
    pub sample_set: Seq<char>,
    pub stack_leniency: Decimal,
    pub mode: u8,
    pub letterbox_in_breaks: bool,
    pub story_fire_in_front: bool,
    pub use_skin_sprites: bool,
    pub always_show_playfield: bool,
    pub overlay_position: OverlayPosition,
    pub skin_preference: Option<Seq<char>>,
    pub epilepsy_warning: bool,
    pub countdown_offset: i32,
    pub special_style: bool,
    pub widescreen_storyboard: bool,
    pub samples_match_playback_rate: bool,
}

pub open spec fn opt_string_view(o: Option<String>) -> Option<Seq<char>> {
    match o {
        Some(s) => Some(s@),
        None => None,
    }
}

impl View for GeneralSection {
    type V = GeneralView;

    open spec fn view(&self) -> GeneralView {
        GeneralView {
            audio_filename: self.audio_filename@,
            audio_lead_in: self.audio_lead_in,
            audio_hash: opt_string_view(self.audio_hash),
            preview_time: self.preview_time,
            countdown: self.countdown,
            sample_set: self.sample_set@,
            stack_leniency: self.stack_leniency,
            mode: self.mode,
            letterbox_in_breaks: self.letterbox_in_breaks,
            story_fire_in_front: self.story_fire_in_front,
            use_skin_sprites: self.use_skin_sprites,
            always_show_playfield: self.always_show_playfield,
            overlay_position: self.overlay_position,
            skin_preference: opt_string_view(self.skin_preference),
            epilepsy_warning: self.epilepsy_warning,
            countdown_offset: self.countdown_offset,
            special_style: self.special_style,
            widescreen_storyboard: self.widescreen_storyboard,
            samples_match_playback_rate: self.samples_match_playback_rate,
        }
    }
}

/// A flag field: a number, set where it is not 0.
pub open spec fn flag_of(v: Seq<char>) -> Option<bool> {
    match u8_of(v) {
        Some(x) => Some(x != 0),
        None => None,
    }
}

/// The `[General]` section after the line `k: v`; unknown keys change nothing.
pub open spec fn apply_general(g: GeneralView, k: Seq<char>, v: Seq<char>) -> Option<GeneralView> {
    if k == "AudioFilename"@ {
        Some(GeneralView { audio_filename: standardized(v), ..g })
    } else if k == "AudioLeadIn"@ {
        match i32_of(v) {
            Some(x) => Some(GeneralView { audio_lead_in: x, ..g }),
            None => None,
        }
    } else if k == "AudioHash"@ {
        Some(GeneralView { audio_hash: Some(v), ..g })
    } else if k == "PreviewTime"@ {
        match decimal_value(v) {
            Some(x) => Some(GeneralView { preview_time: x, ..g }),
            None => None,
        }
    } else if k == "Countdown"@ {
        match i32_of(v) {
            Some(x) => Some(GeneralView { countdown: x, ..g }),
            None => None,
        }
    } else if k == "SampleSet"@ {
        Some(GeneralView { sample_set: v, ..g })
    } else if k == "StackLeniency"@ {
        match decimal_value(v) {
            Some(x) => Some(GeneralView { stack_leniency: x, ..g }),
            None => None,
        }
    } else if k == "Mode"@ {
        match u8_of(v) {
            Some(x) => Some(GeneralView { mode: x, ..g }),
            None => None,
        }
    } else if k == "LetterboxInBreaks"@ {
        match flag_of(v) {
            Some(x) => Some(GeneralView { letterbox_in_breaks: x, ..g }),
            None => None,
        }
    } else if k == "StoryFireInFront"@ {
        match flag_of(v) {
            Some(x) => Some(GeneralView { story_fire_in_front: x, ..g }),
            None => None,
        }
    } else if k == "UseSkinSprites"@ {
        match flag_of(v) {
            Some(x) => Some(GeneralView { use_skin_sprites: x, ..g }),
            None => None,
        }
    } else if k == "AlwaysShowPlayfield"@ {
        match flag_of(v) {
            Some(x) => Some(GeneralView { always_show_playfield: x, ..g }),
            None => None,
        }
    } else if k == "OverlayPosition"@ {
        match overlay_of(v) {
            Some(x) => Some(GeneralView { overlay_position: x, ..g }),
            None => None,
        }
    } else if k == "SkinPreference"@ {
        Some(GeneralView { skin_preference: Some(v), ..g })
    } else if k == "EpilepsyWarning"@ {
        match flag_of(v) {
            Some(x) => Some(GeneralView { epilepsy_warning: x, ..g }),
            None => None,
        }
    } else if k == "CountdownOffset"@ {
        match i32_of(v) {
            Some(x) => Some(GeneralView { countdown_offset: x, ..g }),
            None => None,
        }
    } else if k == "SpecialStyle"@ {
        match flag_of(v) {
            Some(x) => Some(GeneralView { special_style: x, ..g }),
            None => None,
        }
    } else if k == "WidescreenStoryboard"@ {
        match flag_of(v) {
            Some(x) => Some(GeneralView { widescreen_storyboard: x, ..g }),
            None => None,
        }
    } else if k == "SamplesMatchPlaybackRate"@ {
        match flag_of(v) {
            Some(x) => Some(GeneralView { samples_match_playback_rate: x, ..g }),
            None => None,
        }
    } else {
        Some(g)
    }
}

fn parse_flag(v: &[char]) -> (r: Option<bool>)
    ensures
        r == flag_of(v@),
{
    match parse_u8(v) {
        Some(x) => Some(x != 0),
        None => None,
    }
}

fn field_error(field: &str, kind: FieldValueParseErrorKind) -> (r: FieldValueParseError)
    ensures
        r.field@ == field@,
        r.kind == kind,
{
    FieldValueParseError { field: String::from_str(field), kind }
}

/// Applies the line `k: v` of a `[General]` section.
#[verifier::rlimit(60)]
pub fn apply_general_field(g: &mut GeneralSection, k: &[char], v: &[char]) -> (r: Result<(), FieldValueParseError>)
    ensures
        match r {
            Ok(()) => apply_general(old(g)@, k@, v@) == Some(final(g)@),
            Err(_) => apply_general(old(g)@, k@, v@) is None,
        },
{
    if chars_eq(k, "AudioFilename") {
        g.audio_filename = string_of(standardized_chars(v).as_slice());
    } else if chars_eq(k, "AudioLeadIn") {
        match parse_i32(v) {
            Some(x) => g.audio_lead_in = x,
            None => return Err(field_error("AudioLeadIn", FieldValueParseErrorKind::InvalidInt)),
        }
    } else if chars_eq(k, "AudioHash") {
        g.audio_hash = Some(string_of(v));
    } else if chars_eq(k, "PreviewTime") {
        match parse_decimal(v) {
            Some(x) => g.preview_time = x,
            None => return Err(field_error("PreviewTime", FieldValueParseErrorKind::InvalidFloat)),
        }
    } else if chars_eq(k, "Countdown") {
        match parse_i32(v) {
            Some(x) => g.countdown = x,
            None => return Err(field_error("Countdown", FieldValueParseErrorKind::InvalidInt)),
        }
    } else if chars_eq(k, "SampleSet") {
        g.sample_set = string_of(v);
    } else if chars_eq(k, "StackLeniency") {
        match parse_decimal(v) {
            Some(x) => g.stack_leniency = x,
            None => return Err(field_error("StackLeniency", FieldValueParseErrorKind::InvalidFloat)),
        }
    } else if chars_eq(k, "Mode") {
        match parse_u8(v) {
            Some(x) => g.mode = x,
            None => return Err(field_error("Mode", FieldValueParseErrorKind::InvalidInt)),
        }
    } else if chars_eq(k, "LetterboxInBreaks") {
        match parse_flag(v) {
            Some(x) => g.letterbox_in_breaks = x,
            None => return Err(field_error("LetterboxInBreaks", FieldValueParseErrorKind::InvalidInt)),
        }
    } else if chars_eq(k, "StoryFireInFront") {
        match parse_flag(v) {
            Some(x) => g.story_fire_in_front = x,
            None => return Err(field_error("StoryFireInFront", FieldValueParseErrorKind::InvalidInt)),
        }
    } else if chars_eq(k, "UseSkinSprites") {
        match parse_flag(v) {
            Some(x) => g.use_skin_sprites = x,
            None => return Err(field_error("UseSkinSprites", FieldValueParseErrorKind::InvalidInt)),
        }
    } else if chars_eq(k, "AlwaysShowPlayfield") {
        match parse_flag(v) {
            Some(x) => g.always_show_playfield = x,
            None => return Err(field_error("AlwaysShowPlayfield", FieldValueParseErrorKind::InvalidInt)),
        }
    } else if chars_eq(k, "OverlayPosition") {
        match parse_overlay(v) {
            Ok(x) => g.overlay_position = x,
            Err(e) => return Err(field_error("OverlayPosition", FieldValueParseErrorKind::InvalidOverlayPosition(e))),
        }
    } else if chars_eq(k, "SkinPreference") {
        g.skin_preference = Some(string_of(v));
    } else if chars_eq(k, "EpilepsyWarning") {
        match parse_flag(v) {
            Some(x) => g.epilepsy_warning = x,
            None => return Err(field_error("EpilepsyWarning", FieldValueParseErrorKind::InvalidInt)),
        }
    } else if chars_eq(k, "CountdownOffset") {
        match parse_i32(v) {
            Some(x) => g.countdown_offset = x,
            None => return Err(field_error("CountdownOffset", FieldValueParseErrorKind::InvalidInt)),
        }
    } else if chars_eq(k, "SpecialStyle") {
        match parse_flag(v) {
            Some(x) => g.special_style = x,
            None => return Err(field_error("SpecialStyle", FieldValueParseErrorKind::InvalidInt)),
        }
    } else if chars_eq(k, "WidescreenStoryboard") {
        match parse_flag(v) {
            Some(x) => g.widescreen_storyboard = x,
            None => return Err(field_error("WidescreenStoryboard", FieldValueParseErrorKind::InvalidInt)),
        }
    } else if chars_eq(k, "SamplesMatchPlaybackRate") {
        match parse_flag(v) {
            Some(x) => g.samples_match_playback_rate = x,
            None => return Err(field_error("SamplesMatchPlaybackRate", FieldValueParseErrorKind::InvalidInt)),
        }
    }
    Ok(())
}

/// What went wrong inside a section.
#[derive(Clone, Debug, PartialEq, Eq)]
pub enum SectionParseErrorKind {
    InvalidKeyValuePair(InvalidKeyValuePairError),
    FieldValueParse(FieldValueParseError),
    UnspecifiedField(UnspecifiedFieldError),
    EventParse(crate::events::EventParseError),
    TimingPointParse(crate::records::TimingPointParseError),
    HitObjectParse(crate::hit_objects::HitObjectParseError),
    ColorParse(ColorParseError),
}

/// A section could not be read: which one, the line at fault, and why.
#[derive(Clone, Debug, PartialEq, Eq)]
pub struct SectionParseError {
    /// Name of the section, without brackets.
    pub section: String,
    /// The line at fault, or the section header where a field is missing.
    pub line: String,
    pub kind: SectionParseErrorKind,
}

pub fn section_error(section: &str, line: &[char], kind: SectionParseErrorKind) -> (r: SectionParseError)
    ensures
        r.section@ == section@,
        r.line@ == line@,
        r.kind == kind,
{
    SectionParseError { section: String::from_str(section), line: string_of(line), kind }
}

pub open spec fn general_default() -> GeneralView {
    GeneralView {
        audio_filename: Seq::empty(),
        audio_lead_in: 0,
        audio_hash: None,
        preview_time: Decimal { mantissa: -1i64, scale: 0u32 },
        countdown: 1,
        sample_set: "Normal"@,
        stack_leniency: Decimal { mantissa: 7i64, scale: 1u32 },
        mode: 0,
        letterbox_in_breaks: false,
        story_fire_in_front: true,
        use_skin_sprites: false,
        always_show_playfield: false,
        overlay_position: OverlayPosition::NoChange,
        skin_preference: None,
        epilepsy_warning: false,
        countdown_offset: 0,
        special_style: false,
        widescreen_storyboard: false,
        samples_match_playback_rate: false,
    }
}

/// The `[General]` section that its body lines give, applied in order from
/// the defaults.
pub open spec fn general_fold(lines: Seq<Seq<char>>) -> Option<GeneralView>
    decreases lines.len(),
{
    if lines.len() == 0 {
        Some(general_default())
    } else {
        match (general_fold(lines.drop_last()), key_value_of(lines.last())) {
            (Some(g), Some(kv)) => apply_general(g, kv.0, kv.1),
            _ => None,
        }
    }
}

/// Reads the body of a `[General]` section.
pub fn parse_general_section(lines: &[Vec<char>]) -> (r: Result<GeneralSection, SectionParseError>)
    ensures
        match r {
            Ok(g) => general_fold(views(lines@)) == Some(g@),
            Err(e) => general_fold(views(lines@)) is None && e.section@ == "General"@,
        },
{
    let ghost ls = views(lines@);
    let mut g = GeneralSection::new();
    assert(g@.sample_set == general_default().sample_set);
    assert(g@.audio_filename =~= general_default().audio_filename);
    assert(g@ == general_default());
    let mut i: usize = 0;
    assert(ls.take(0) =~= Seq::<Seq<char>>::empty());
    while i < lines.len()
        invariant
            i <= lines@.len(),
            ls == views(lines@),
            general_fold(ls.take(i as int)) == Some(g@),
        decreases lines@.len() - i,
    {
        let line = lines[i].as_slice();
        assert(ls.take(i + 1).drop_last() =~= ls.take(i as int));
        assert(ls.take(i + 1).last() == line@);
        let (k, v) = match parse_field_value_pair(line) {
            Ok(kv) => kv,
            Err(e) => {
                proof {
                    lemma_fold_stuck_general(ls, i as int);
                }
                return Err(section_error("General", line, SectionParseErrorKind::InvalidKeyValuePair(e)));
            },
        };
        match apply_general_field(&mut g, k.as_slice(), v.as_slice()) {
            Ok(()) => {},
            Err(e) => {
                proof {
                    lemma_fold_stuck_general(ls, i as int);
                }
                return Err(section_error("General", line, SectionParseErrorKind::FieldValueParse(e)));
            },
        }
        i = i + 1;
    }
    assert(ls.take(i as int) =~= ls);
    Ok(g)
}

/// Once a line fails, the fold over any longer prefix fails too.
proof fn lemma_fold_stuck_general(ls: Seq<Seq<char>>, i: int)
    requires
        0 <= i < ls.len(),
        general_fold(ls.take(i + 1)) is None,
    ensures
        general_fold(ls) is None,
    decreases ls.len() - i,
{
    if i + 1 < ls.len() {
        assert(ls.take(i + 2).drop_last() =~= ls.take(i + 1));
        lemma_fold_stuck_general(ls, i + 1);
    } else {
        assert(ls.take(i + 1) =~= ls);
    }
}

/// The decimals of a `,`-separated list, empty pieces skipped.
pub open spec fn decimal_list_of(pieces: Seq<Seq<char>>) -> Option<Seq<Decimal>>
    decreases pieces.len(),
{
    if pieces.len() == 0 {
        Some(Seq::empty())
    } else {
        match decimal_list_of(pieces.drop_last()) {
            None => None,
            Some(init) => if pieces.last().len() == 0 {
                Some(init)
            } else {
                match decimal_value(pieces.last()) {
                    Some(d) => Some(init.push(d)),
                    None => None,
                }
            },
        }
    }
}

fn parse_decimal_list(s: &[char]) -> (r: Option<Vec<Decimal>>)
    ensures
        match r {
            Some(v) => decimal_list_of(split(s@, ',')) == Some(v@),
            None => decimal_list_of(split(s@, ',')) is None,
        },
{
    let pieces = split_chars(s, ',');
    let ghost ps = split(s@, ',');
    let mut out: Vec<Decimal> = Vec::new();
    let mut i: usize = 0;
    assert(ps.take(0) =~= Seq::<Seq<char>>::empty());
    while i < pieces.len()
        invariant
            i <= pieces@.len(),
            views(pieces@) == ps,
            ps == split(s@, ','),
            decimal_list_of(ps.take(i as int)) == Some(out@),
        decreases pieces@.len() - i,
    {
        assert(ps.take(i + 1).drop_last() =~= ps.take(i as int));
        assert(ps.take(i + 1).last() == pieces@[i as int]@);
        if pieces[i].len() > 0 {
            match parse_decimal(pieces[i].as_slice()) {
                Some(d) => out.push(d),
                None => {
                    proof {
                        lemma_decimal_list_stuck(ps, i as int);
                    }
                    return None;
                },
            }
        }
        i = i + 1;
    }
    assert(ps.take(i as int) =~= ps);
    Some(out)
}

proof fn lemma_decimal_list_stuck(ps: Seq<Seq<char>>, i: int)
    requires
        0 <= i < ps.len(),
        decimal_list_of(ps.take(i + 1)) is None,
    ensures
        decimal_list_of(ps) is None,
    decreases ps.len() - i,
{
    if i + 1 < ps.len() {
        assert(ps.take(i + 2).drop_last() =~= ps.take(i + 1));
        lemma_decimal_list_stuck(ps, i + 1);
    } else {
        assert(ps.take(i + 1) =~= ps);
    }
}

/// What the lines of an `[Editor]` section have set so far.
pub struct EditorFieldsView {
    pub bookmarks: Seq<Decimal>,
    pub distance_spacing: Option<Decimal>,
    pub beat_divisor: Option<Decimal>,
    pub grid_size: Option<i32>,
    pub timeline_zoom: Option<Decimal>,
}

pub open spec fn apply_editor(e: EditorFieldsView, k: Seq<char>, v: Seq<char>) -> Option<EditorFieldsView> {
    if k == "Bookmarks"@ {
        match decimal_list_of(split(v, ',')) {
            Some(b) => Some(EditorFieldsView { bookmarks: b, ..e }),
            None => None,
        }
    } else if k == "DistanceSpacing"@ {
        match decimal_value(v) {
            Some(x) => Some(EditorFieldsView { distance_spacing: Some(x), ..e }),
            None => None,
        }
    } else if k == "BeatDivisor"@ {
        match decimal_value(v) {
            Some(x) => Some(EditorFieldsView { beat_divisor: Some(x), ..e }),
            None => None,
        }
    } else if k == "GridSize"@ {
        match i32_of(v) {
            Some(x) => Some(EditorFieldsView { grid_size: Some(x), ..e }),
            None => None,
        }
    } else if k == "TimelineZoom"@ {
        match decimal_value(v) {
            Some(x) => Some(EditorFieldsView { timeline_zoom: Some(x), ..e }),
            None => None,
        }
    } else {
        Some(e)
    }
}

pub open spec fn editor_fold(lines: Seq<Seq<char>>) -> Option<EditorFieldsView>
    decreases lines.len(),
{
    if lines.len() == 0 {
        Some(
            EditorFieldsView {
                bookmarks: Seq::empty(),
                distance_spacing: None,
                beat_divisor: None,
                grid_size: None,
                timeline_zoom: None,
            },
        )
    } else {
        match (editor_fold(lines.drop_last()), key_value_of(lines.last())) {
            (Some(e), Some(kv)) => apply_editor(e, kv.0, kv.1),
            _ => None,
        }
    }
}

/// The `[Editor]` section that its body lines give: distance spacing, beat
/// divisor and grid size must each be set.
pub open spec fn editor_of(lines: Seq<Seq<char>>) -> Option<EditorFieldsView> {
    match editor_fold(lines) {
        Some(e) => if e.distance_spacing is Some && e.beat_divisor is Some && e.grid_size is Some {
            Some(e)
        } else {
            None
        },
        None => None,
    }
}

proof fn lemma_fold_stuck_editor(ls: Seq<Seq<char>>, i: int)
    requires
        0 <= i < ls.len(),
        editor_fold(ls.take(i + 1)) is None,
    ensures
        editor_fold(ls) is None,
    decreases ls.len() - i,
{
    if i + 1 < ls.len() {
        assert(ls.take(i + 2).drop_last() =~= ls.take(i + 1));
        lemma_fold_stuck_editor(ls, i + 1);
    } else {
        assert(ls.take(i + 1) =~= ls);
    }
}

/// Reads the body of an `[Editor]` section.
pub fn parse_editor_section(lines: &[Vec<char>]) -> (r: Result<EditorSection, SectionParseError>)
    ensures
        match r {
            Ok(e) => editor_of(views(lines@)) == Some(
                EditorFieldsView {
                    bookmarks: e.bookmarks@,
                    distance_spacing: Some(e.distance_spacing),
                    beat_divisor: Some(e.beat_divisor),
                    grid_size: Some(e.grid_size),
                    timeline_zoom: e.timeline_zoom,
                },
            ),
            Err(e) => editor_of(views(lines@)) is None && e.section@ == "Editor"@,
        },
{
    let ghost ls = views(lines@);
    let mut bookmarks: Vec<Decimal> = Vec::new();
    let mut distance_spacing: Option<Decimal> = None;
    let mut beat_divisor: Option<Decimal> = None;
    let mut grid_size: Option<i32> = None;
    let mut timeline_zoom: Option<Decimal> = None;
    let mut i: usize = 0;
    assert(ls.take(0) =~= Seq::<Seq<char>>::empty());
    while i < lines.len()
        invariant
            i <= lines@.len(),
            ls == views(lines@),
            editor_fold(ls.take(i as int)) == Some(
                EditorFieldsView { bookmarks: bookmarks@, distance_spacing, beat_divisor, grid_size, timeline_zoom },
            ),
        decreases lines@.len() - i,
    {
        let line = lines[i].as_slice();
        assert(ls.take(i + 1).drop_last() =~= ls.take(i as int));
        assert(ls.take(i + 1).last() == line@);
        let (k, v) = match parse_field_value_pair(line) {
            Ok(kv) => kv,
            Err(e) => {
                proof {
                    lemma_fold_stuck_editor(ls, i as int);
                }
                return Err(section_error("Editor", line, SectionParseErrorKind::InvalidKeyValuePair(e)));
            },
        };
        let k = k.as_slice();
        let v = v.as_slice();
        let failed: Option<FieldValueParseError> = if chars_eq(k, "Bookmarks") {
            match parse_decimal_list(v) {
                Some(b) => {
                    bookmarks = b;
                    None
                },
                None => Some(field_error("Bookmarks", FieldValueParseErrorKind::InvalidFloatList)),
            }
        } else if chars_eq(k, "DistanceSpacing") {
            match parse_decimal(v) {
                Some(x) => {
                    distance_spacing = Some(x);
                    None
                },
                None => Some(field_error("DistanceSpacing", FieldValueParseErrorKind::InvalidFloat)),
            }
        } else if chars_eq(k, "BeatDivisor") {
            match parse_decimal(v) {
                Some(x) => {
                    beat_divisor = Some(x);
                    None
                },
                None => Some(field_error("BeatDivisor", FieldValueParseErrorKind::InvalidFloat)),
            }
        } else if chars_eq(k, "GridSize") {
            match parse_i32(v) {
                Some(x) => {
                    grid_size = Some(x);
                    None
                },
                None => Some(field_error("GridSize", FieldValueParseErrorKind::InvalidInt)),
            }
        } else if chars_eq(k, "TimelineZoom") {
            match parse_decimal(v) {
                Some(x) => {
                    timeline_zoom = Some(x);
                    None
                },
                None => Some(field_error("TimelineZoom", FieldValueParseErrorKind::InvalidFloat)),
            }
        } else {
            None
        };
        if let Some(e) = failed {
            proof {
                lemma_fold_stuck_editor(ls, i as int);
            }
            return Err(section_error("Editor", line, SectionParseErrorKind::FieldValueParse(e)));
        }
        i = i + 1;
    }
    assert(ls.take(i as int) =~= ls);
    let header = vec!['[', 'E', 'd', 'i', 't', 'o', 'r', ']'];
    let distance_spacing = match distance_spacing {
        Some(x) => x,
        None => {
            return Err(section_error("Editor", header.as_slice(), SectionParseErrorKind::UnspecifiedField(UnspecifiedFieldError(String::from_str("DistanceSpacing")))));
        },
    };
    let beat_divisor = match beat_divisor {
        Some(x) => x,
        None => {
            return Err(section_error("Editor", header.as_slice(), SectionParseErrorKind::UnspecifiedField(UnspecifiedFieldError(String::from_str("BeatDivisor")))));
        },
    };
    let grid_size = match grid_size {
        Some(x) => x,
        None => {
            return Err(section_error("Editor", header.as_slice(), SectionParseErrorKind::UnspecifiedField(UnspecifiedFieldError(String::from_str("GridSize")))));
        },
    };
    Ok(EditorSection { bookmarks, distance_spacing, beat_divisor, grid_size, timeline_zoom })
}

pub open spec fn string_views(v: Seq<String>) -> Seq<Seq<char>> {
    v.map_values(|s: String| s@)
}

/// What a `[Metadata]` section holds.
pub struct MetadataView {
    pub title: Seq<char>,
    pub title_unicode: Seq<char>,
    pub artist: Seq<char>,
    pub artist_unicode: Seq<char>,
    pub creator: Seq<char>,
    pub version: Seq<char>,
    pub source: Seq<char>,
    pub tags: Seq<Seq<char>>,
    pub beatmap_id: Option<i32>,
    pub beatmap_set_id: Option<i32>,
}

impl View for MetadataSection {
    type V = MetadataView;

    open spec fn view(&self) -> MetadataView {
        MetadataView {
            title: self.title@,
            title_unicode: self.title_unicode@,
            artist: self.artist@,
            artist_unicode: self.artist_unicode@,
            creator: self.creator@,
            version: self.version@,
            source: self.source@,
            tags: string_views(self.tags@),
            beatmap_id: self.beatmap_id,
            beatmap_set_id: self.beatmap_set_id,
        }
    }
}

/// The `[Metadata]` section after the line `k: v`; tags are the
/// space-separated pieces of their value.
pub open spec fn apply_metadata(m: MetadataView, k: Seq<char>, v: Seq<char>) -> Option<MetadataView> {
    if k == "Title"@ {
        Some(MetadataView { title: v, ..m })
    } else if k == "TitleUnicode"@ {
        Some(MetadataView { title_unicode: v, ..m })
    } else if k == "Artist"@ {
        Some(MetadataView { artist: v, ..m })
    } else if k == "ArtistUnicode"@ {
        Some(MetadataView { artist_unicode: v, ..m })
    } else if k == "Creator"@ {
        Some(MetadataView { creator: v, ..m })
    } else if k == "Version"@ {
        Some(MetadataView { version: v, ..m })
    } else if k == "Source"@ {
        Some(MetadataView { source: v, ..m })
    } else if k == "Tags"@ {
        Some(MetadataView { tags: split(v, ' '), ..m })
    } else if k == "BeatmapID"@ {
        match i32_of(v) {
            Some(x) => Some(MetadataView { beatmap_id: Some(x), ..m }),
            None => None,
        }
    } else if k == "BeatmapSetID"@ {
        match i32_of(v) {
            Some(x) => Some(MetadataView { beatmap_set_id: Some(x), ..m }),
            None => None,
        }
    } else {
        Some(m)
    }
}

pub open spec fn metadata_fold(lines: Seq<Seq<char>>) -> Option<MetadataView>
    decreases lines.len(),
{
    if lines.len() == 0 {
        Some(
            MetadataView {
                title: Seq::empty(),
                title_unicode: Seq::empty(),
                artist: Seq::empty(),
                artist_unicode: Seq::empty(),
                creator: Seq::empty(),
                version: Seq::empty(),
                source: Seq::empty(),
                tags: Seq::empty(),
                beatmap_id: None,
                beatmap_set_id: None,
            },
        )
    } else {
        match (metadata_fold(lines.drop_last()), key_value_of(lines.last())) {
            (Some(m), Some(kv)) => apply_metadata(m, kv.0, kv.1),
            _ => None,
        }
    }
}

proof fn lemma_fold_stuck_metadata(ls: Seq<Seq<char>>, i: int)
    requires
        0 <= i < ls.len(),
        metadata_fold(ls.take(i + 1)) is None,
    ensures
        metadata_fold(ls) is None,
    decreases ls.len() - i,
{
    if i + 1 < ls.len() {
        assert(ls.take(i + 2).drop_last() =~= ls.take(i + 1));
        lemma_fold_stuck_metadata(ls, i + 1);
    } else {
        assert(ls.take(i + 1) =~= ls);
    }
}

fn strings_of(pieces: &Vec<Vec<char>>) -> (r: Vec<String>)
    ensures
        string_views(r@) == views(pieces@),
{
    let mut out: Vec<String> = Vec::new();
    let mut i: usize = 0;
    while i < pieces.len()
        invariant
            i <= pieces@.len(),
            string_views(out@) == views(pieces@.take(i as int)),
        decreases pieces@.len() - i,
    {
        let ghost before = out@;
        out.push(string_of(pieces[i].as_slice()));
        assert(string_views(out@) =~= string_views(before).push(pieces@[i as int]@));
        assert(views(pieces@.take(i + 1)) =~= views(pieces@.take(i as int)).push(pieces@[i as int]@));
        i = i + 1;
        assert(string_views(out@) =~= views(pieces@.take(i as int)));
    }
    assert(pieces@.take(i as int) =~= pieces@);
    out
}

/// Applies the line `k: v` of a `[Metadata]` section.
#[verifier::rlimit(40)]
pub fn apply_metadata_field(m: &mut MetadataSection, k: &[char], v: &[char]) -> (r: Result<(), FieldValueParseError>)
    ensures
        match r {
            Ok(()) => apply_metadata(old(m)@, k@, v@) == Some(final(m)@),
            Err(_) => apply_metadata(old(m)@, k@, v@) is None,
        },
{
    if chars_eq(k, "Title") {
        m.title = string_of(v);
    } else if chars_eq(k, "TitleUnicode") {
        m.title_unicode = string_of(v);
    } else if chars_eq(k, "Artist") {
        m.artist = string_of(v);
    } else if chars_eq(k, "ArtistUnicode") {
        m.artist_unicode = string_of(v);
    } else if chars_eq(k, "Creator") {
        m.creator = string_of(v);
    } else if chars_eq(k, "Version") {
        m.version = string_of(v);
    } else if chars_eq(k, "Source") {
        m.source = string_of(v);
    } else if chars_eq(k, "Tags") {
        let pieces = split_chars(v, ' ');
        m.tags = strings_of(&pieces);
    } else if chars_eq(k, "BeatmapID") {
        match parse_i32(v) {
            Some(x) => m.beatmap_id = Some(x),
            None => return Err(field_error("BeatmapID", FieldValueParseErrorKind::InvalidInt)),
        }
    } else if chars_eq(k, "BeatmapSetID") {
        match parse_i32(v) {
            Some(x) => m.beatmap_set_id = Some(x),
            None => return Err(field_error("BeatmapSetID", FieldValueParseErrorKind::InvalidInt)),
        }
    }
    Ok(())
}

/// Reads the body of a `[Metadata]` section.
pub fn parse_metadata_section(lines: &[Vec<char>]) -> (r: Result<MetadataSection, SectionParseError>)
    ensures
        match r {
            Ok(m) => metadata_fold(views(lines@)) == Some(m@),
            Err(e) => metadata_fold(views(lines@)) is None && e.section@ == "Metadata"@,
        },
{
    let ghost ls = views(lines@);
    let mut m = MetadataSection::new();
    assert(m@.title =~= Seq::<char>::empty());
    assert(m@.title_unicode =~= Seq::<char>::empty());
    assert(m@.artist =~= Seq::<char>::empty());
    assert(m@.artist_unicode =~= Seq::<char>::empty());
    assert(m@.creator =~= Seq::<char>::empty());
    assert(m@.version =~= Seq::<char>::empty());
    assert(m@.source =~= Seq::<char>::empty());
    assert(m@.tags =~= Seq::<Seq<char>>::empty());
    assert(m@ == metadata_fold(Seq::<Seq<char>>::empty()).unwrap());
    let mut i: usize = 0;
    assert(ls.take(0) =~= Seq::<Seq<char>>::empty());
    while i < lines.len()
        invariant
            i <= lines@.len(),
            ls == views(lines@),
            metadata_fold(ls.take(i as int)) == Some(m@),
        decreases lines@.len() - i,
    {
        let line = lines[i].as_slice();
        assert(ls.take(i + 1).drop_last() =~= ls.take(i as int));
        assert(ls.take(i + 1).last() == line@);
        let (k, v) = match parse_field_value_pair(line) {
            Ok(kv) => kv,
            Err(e) => {
                proof {
                    lemma_fold_stuck_metadata(ls, i as int);
                }
                return Err(section_error("Metadata", line, SectionParseErrorKind::InvalidKeyValuePair(e)));
            },
        };
        match apply_metadata_field(&mut m, k.as_slice(), v.as_slice()) {
            Ok(()) => {},
            Err(e) => {
                proof {
                    lemma_fold_stuck_metadata(ls, i as int);
                }
                return Err(section_error("Metadata", line, SectionParseErrorKind::FieldValueParse(e)));
            },
        }
        i = i + 1;
    }
    assert(ls.take(i as int) =~= ls);
    Ok(m)
}

/// The `[Difficulty]` section after the line `k: v`.
pub open spec fn apply_difficulty(d: DifficultySection, k: Seq<char>, v: Seq<char>) -> Option<DifficultySection> {
    if k == "HPDrainRate"@ {
        match decimal_value(v) {
            Some(x) => Some(DifficultySection { hp_drain_rate: x, ..d }),
            None => None,
        }
    } else if k == "CircleSize"@ {
        match decimal_value(v) {
            Some(x) => Some(DifficultySection { circle_size: x, ..d }),
            None => None,
        }
    } else if k == "OverallDifficulty"@ {
        match decimal_value(v) {
            Some(x) => Some(DifficultySection { overall_difficulty: x, ..d }),
            None => None,
        }
    } else if k == "ApproachRate"@ {
        match decimal_value(v) {
            Some(x) => Some(DifficultySection { approach_rate: x, ..d }),
            None => None,
        }
    } else if k == "SliderMultiplier"@ {
        match decimal_value(v) {
            Some(x) => Some(DifficultySection { slider_multiplier: x, ..d }),
            None => None,
        }
    } else if k == "SliderTickRate"@ {
        match decimal_value(v) {
            Some(x) => Some(DifficultySection { slider_tick_rate: x, ..d }),
            None => None,
        }
    } else {
        Some(d)
    }
}

pub open spec fn difficulty_fold(lines: Seq<Seq<char>>) -> Option<DifficultySection>
    decreases lines.len(),
{
    if lines.len() == 0 {
        Some(
            DifficultySection {
                hp_drain_rate: Decimal::zero(),
                circle_size: Decimal::zero(),
                overall_difficulty: Decimal::zero(),
                approach_rate: Decimal::zero(),
                slider_multiplier: Decimal::zero(),
                slider_tick_rate: Decimal::zero(),
            },
        )
    } else {
        match (difficulty_fold(lines.drop_last()), key_value_of(lines.last())) {
            (Some(d), Some(kv)) => apply_difficulty(d, kv.0, kv.1),
            _ => None,
        }
    }
}

proof fn lemma_fold_stuck_difficulty(ls: Seq<Seq<char>>, i: int)
    requires
        0 <= i < ls.len(),
        difficulty_fold(ls.take(i + 1)) is None,
    ensures
        difficulty_fold(ls) is None,
    decreases ls.len() - i,
{
    if i + 1 < ls.len() {
        assert(ls.take(i + 2).drop_last() =~= ls.take(i + 1));
        lemma_fold_stuck_difficulty(ls, i + 1);
    } else {
        assert(ls.take(i + 1) =~= ls);
    }
}

/// Reads the body of a `[Difficulty]` section.
pub fn parse_difficulty_section(lines: &[Vec<char>]) -> (r: Result<DifficultySection, SectionParseError>)
    ensures
        match r {
            Ok(d) => difficulty_fold(views(lines@)) == Some(d) && d.slider_multiplier.wf(),
            Err(e) => difficulty_fold(views(lines@)) is None && e.section@ == "Difficulty"@,
        },
{
    let ghost ls = views(lines@);
    let mut d = DifficultySection::new();
    let mut i: usize = 0;
    assert(ls.take(0) =~= Seq::<Seq<char>>::empty());
    while i < lines.len()
        invariant
            i <= lines@.len(),
            ls == views(lines@),
            difficulty_fold(ls.take(i as int)) == Some(d),
            d.slider_multiplier.wf(),
        decreases lines@.len() - i,
    {
        let line = lines[i].as_slice();
        assert(ls.take(i + 1).drop_last() =~= ls.take(i as int));
        assert(ls.take(i + 1).last() == line@);
        let (k, v) = match parse_field_value_pair(line) {
            Ok(kv) => kv,
            Err(e) => {
                proof {
                    lemma_fold_stuck_difficulty(ls, i as int);
                }
                return Err(section_error("Difficulty", line, SectionParseErrorKind::InvalidKeyValuePair(e)));
            },
        };
        let k = k.as_slice();
        let v = v.as_slice();
        let known = chars_eq(k, "HPDrainRate") || chars_eq(k, "CircleSize") || chars_eq(k, "OverallDifficulty")
            || chars_eq(k, "ApproachRate") || chars_eq(k, "SliderMultiplier") || chars_eq(k, "SliderTickRate");
        if known {
            let x = match parse_decimal(v) {
                Some(x) => x,
                None => {
                    proof {
                        lemma_fold_stuck_difficulty(ls, i as int);
                    }
                    return Err(section_error("Difficulty", line, SectionParseErrorKind::FieldValueParse(
                        FieldValueParseError { field: string_of(k), kind: FieldValueParseErrorKind::InvalidFloat },
                    )));
                },
            };
            if chars_eq(k, "HPDrainRate") {
                d.hp_drain_rate = x;
            } else if chars_eq(k, "CircleSize") {
                d.circle_size = x;
            } else if chars_eq(k, "OverallDifficulty") {
                d.overall_difficulty = x;
            } else if chars_eq(k, "ApproachRate") {
                d.approach_rate = x;
            } else if chars_eq(k, "SliderMultiplier") {
                d.slider_multiplier = x;
            } else {
                d.slider_tick_rate = x;
            }
        }
        i = i + 1;
    }
    assert(ls.take(i as int) =~= ls);
    Ok(d)
}

/// What a `[Colours]` section holds.
pub struct ColorsView {
    pub combo_colors: Seq<Color>,
    pub slider_track_override: Option<Color>,
    pub slider_border: Option<Color>,
}

/// The `[Colours]` section after the line `k: v`: every value must be a
/// color; keys starting with `Combo` add a combo color in order of appearance.
pub open spec fn apply_colors(c: ColorsView, k: Seq<char>, v: Seq<char>) -> Option<ColorsView> {
    match color_of(v) {
        None => None,
        Some(col) => if "Combo"@.len() <= k.len() && k.take("Combo"@.len() as int) == "Combo"@ {
            Some(ColorsView { combo_colors: c.combo_colors.push(col), ..c })
        } else if k == "SliderTrackOverride"@ {
            Some(ColorsView { slider_track_override: Some(col), ..c })
        } else if k == "SliderBorder"@ {
            Some(ColorsView { slider_border: Some(col), ..c })
        } else {
            Some(c)
        },
    }
}

pub open spec fn colors_fold(lines: Seq<Seq<char>>) -> Option<ColorsView>
    decreases lines.len(),
{
    if lines.len() == 0 {
        Some(ColorsView { combo_colors: Seq::empty(), slider_track_override: None, slider_border: None })
    } else {
        match (colors_fold(lines.drop_last()), key_value_of(lines.last())) {
            (Some(c), Some(kv)) => apply_colors(c, kv.0, kv.1),
            _ => None,
        }
    }
}

proof fn lemma_fold_stuck_colors(ls: Seq<Seq<char>>, i: int)
    requires
        0 <= i < ls.len(),
        colors_fold(ls.take(i + 1)) is None,
    ensures
        colors_fold(ls) is None,
    decreases ls.len() - i,
{
    if i + 1 < ls.len() {
        assert(ls.take(i + 2).drop_last() =~= ls.take(i + 1));
        lemma_fold_stuck_colors(ls, i + 1);
    } else {
        assert(ls.take(i + 1) =~= ls);
    }
}

/// Reads the body of a `[Colours]` section.
pub fn parse_colors_section(lines: &[Vec<char>]) -> (r: Result<ColorsSection, SectionParseError>)
    ensures
        match r {
            Ok(c) => colors_fold(views(lines@)) == Some(
                ColorsView {
                    combo_colors: c.combo_colors@,
                    slider_track_override: c.slider_track_override,
                    slider_border: c.slider_border,
                },
            ),
            Err(e) => colors_fold(views(lines@)) is None && e.section@ == "Colours"@,
        },
{
    let ghost ls = views(lines@);
    let mut combo_colors: Vec<Color> = Vec::new();
    let mut slider_track_override: Option<Color> = None;
    let mut slider_border: Option<Color> = None;
    let mut i: usize = 0;
    assert(ls.take(0) =~= Seq::<Seq<char>>::empty());
    assert(combo_colors@ =~= Seq::<Color>::empty());
    while i < lines.len()
        invariant
            i <= lines@.len(),
            ls == views(lines@),
            colors_fold(ls.take(i as int)) == Some(
                ColorsView { combo_colors: combo_colors@, slider_track_override, slider_border },
            ),
        decreases lines@.len() - i,
    {
        let line = lines[i].as_slice();
        assert(ls.take(i + 1).drop_last() =~= ls.take(i as int));
        assert(ls.take(i + 1).last() == line@);
        let (k, v) = match parse_field_value_pair(line) {
            Ok(kv) => kv,
            Err(e) => {
                proof {
                    lemma_fold_stuck_colors(ls, i as int);
                }
                return Err(section_error("Colours", line, SectionParseErrorKind::InvalidKeyValuePair(e)));
            },
        };
        let col = match parse_color(v.as_slice()) {
            Ok(c) => c,
            Err(e) => {
                proof {
                    lemma_fold_stuck_colors(ls, i as int);
                }
                return Err(section_error("Colours", line, SectionParseErrorKind::ColorParse(e)));
            },
        };
        if chars_start_with(k.as_slice(), "Combo") {
            combo_colors.push(col);
        } else if chars_eq(k.as_slice(), "SliderTrackOverride") {
            slider_track_override = Some(col);
        } else if chars_eq(k.as_slice(), "SliderBorder") {
            slider_border = Some(col);
        }
        i = i + 1;
    }
    assert(ls.take(i as int) =~= ls);
    Ok(ColorsSection { combo_colors, slider_track_override, slider_border })
}

pub open spec fn difficulty_step(o: Option<DifficultySection>, line: Seq<char>) -> Option<DifficultySection> {
    match (o, key_value_of(line)) {
        (Some(d), Some(kv)) => apply_difficulty(d, kv.0, kv.1),
        _ => None,
    }
}

proof fn lemma_difficulty_commute(o: Option<DifficultySection>, l1: Seq<char>, l2: Seq<char>)
    requires
        key_value_of(l1) matches Some(kv1) && key_value_of(l2) matches Some(kv2) && kv1.0 != kv2.0,
    ensures
        difficulty_step(difficulty_step(o, l1), l2) == difficulty_step(difficulty_step(o, l2), l1),
{
}

proof fn lemma_difficulty_fold_push(p: Seq<Seq<char>>, x: Seq<char>)
    ensures
        difficulty_fold(p.push(x)) == difficulty_step(difficulty_fold(p), x),
{
    assert(p.push(x).drop_last() =~= p);
}

proof fn lemma_difficulty_fold_append(p1: Seq<Seq<char>>, p2: Seq<Seq<char>>, q: Seq<Seq<char>>)
    requires
        difficulty_fold(p1) == difficulty_fold(p2),
    ensures
        difficulty_fold(p1 + q) == difficulty_fold(p2 + q),
    decreases q.len(),
{
    if q.len() > 0 {
        lemma_difficulty_fold_append(p1, p2, q.drop_last());
        assert((p1 + q).drop_last() =~= p1 + q.drop_last());
        assert((p2 + q).drop_last() =~= p2 + q.drop_last());
    } else {
        assert(p1 + q =~= p1);
        assert(p2 + q =~= p2);
    }
}

/// Swapping two neighbouring lines of a `[Difficulty]` section that set
/// different keys gives the same section; any reordering of lines with
/// distinct keys is a sequence of such swaps.
pub proof fn lemma_difficulty_order_independent(ls: Seq<Seq<char>>, i: int)
    requires
        0 <= i,
        i + 1 < ls.len(),
        key_value_of(ls[i]) matches Some(kv1) && key_value_of(ls[i + 1]) matches Some(kv2) && kv1.0 != kv2.0,
    ensures
        difficulty_fold(ls) == difficulty_fold(ls.update(i, ls[i + 1]).update(i + 1, ls[i])),
{
    let sw = ls.update(i, ls[i + 1]).update(i + 1, ls[i]);
    let pre = ls.take(i);
    let a = pre.push(ls[i]).push(ls[i + 1]);
    let b = pre.push(ls[i + 1]).push(ls[i]);
    lemma_difficulty_fold_push(pre, ls[i]);
    lemma_difficulty_fold_push(pre.push(ls[i]), ls[i + 1]);
    lemma_difficulty_fold_push(pre, ls[i + 1]);
    lemma_difficulty_fold_push(pre.push(ls[i + 1]), ls[i]);
    lemma_difficulty_commute(difficulty_fold(pre), ls[i], ls[i + 1]);
    let q = ls.skip(i + 2);
    lemma_difficulty_fold_append(a, b, q);
    assert(a + q =~= ls);
    assert(b + q =~= sw);
}

pub open spec fn metadata_step(o: Option<MetadataView>, line: Seq<char>) -> Option<MetadataView> {
    match (o, key_value_of(line)) {
        (Some(m), Some(kv)) => apply_metadata(m, kv.0, kv.1),
        _ => None,
    }
}

#[verifier::rlimit(100)]
proof fn lemma_metadata_commute(o: Option<MetadataView>, l1: Seq<char>, l2: Seq<char>)
    requires
        key_value_of(l1) matches Some(kv1) && key_value_of(l2) matches Some(kv2) && kv1.0 != kv2.0,
    ensures
        metadata_step(metadata_step(o, l1), l2) == metadata_step(metadata_step(o, l2), l1),
{
    reveal_strlit("Title");
    reveal_strlit("TitleUnicode");
    reveal_strlit("Artist");
    reveal_strlit("ArtistUnicode");
    reveal_strlit("Creator");
    reveal_strlit("Version");
    reveal_strlit("Source");
    reveal_strlit("Tags");
    reveal_strlit("BeatmapID");
    reveal_strlit("BeatmapSetID");
}

proof fn lemma_metadata_fold_push(p: Seq<Seq<char>>, x: Seq<char>)
    ensures
        metadata_fold(p.push(x)) == metadata_step(metadata_fold(p), x),
{
    assert(p.push(x).drop_last() =~= p);
}

proof fn lemma_metadata_fold_append(p1: Seq<Seq<char>>, p2: Seq<Seq<char>>, q: Seq<Seq<char>>)
    requires
        metadata_fold(p1) == metadata_fold(p2),
    ensures
        metadata_fold(p1 + q) == metadata_fold(p2 + q),
    decreases q.len(),
{
    if q.len() > 0 {
        lemma_metadata_fold_append(p1, p2, q.drop_last());
        assert((p1 + q).drop_last() =~= p1 + q.drop_last());
        assert((p2 + q).drop_last() =~= p2 + q.drop_last());
    } else {
        assert(p1 + q =~= p1);
        assert(p2 + q =~= p2);
    }
}

/// Swapping two neighbouring lines of a `[Metadata]` section that set
/// different keys gives the same section; any reordering of lines with
/// distinct keys is a sequence of such swaps.
pub proof fn lemma_metadata_order_independent(ls: Seq<Seq<char>>, i: int)
    requires
        0 <= i,
        i + 1 < ls.len(),
        key_value_of(ls[i]) matches Some(kv1) && key_value_of(ls[i + 1]) matches Some(kv2) && kv1.0 != kv2.0,
    ensures
        metadata_fold(ls) == metadata_fold(ls.update(i, ls[i + 1]).update(i + 1, ls[i])),
{
    let sw = ls.update(i, ls[i + 1]).update(i + 1, ls[i]);
    let pre = ls.take(i);
    let a = pre.push(ls[i]).push(ls[i + 1]);
    let b = pre.push(ls[i + 1]).push(ls[i]);
    lemma_metadata_fold_push(pre, ls[i]);
    lemma_metadata_fold_push(pre.push(ls[i]), ls[i + 1]);
    lemma_metadata_fold_push(pre, ls[i + 1]);
    lemma_metadata_fold_push(pre.push(ls[i + 1]), ls[i]);
    lemma_metadata_commute(metadata_fold(pre), ls[i], ls[i + 1]);
    let q = ls.skip(i + 2);
    lemma_metadata_fold_append(a, b, q);
    assert(a + q =~= ls);
    assert(b + q =~= sw);
}

pub open spec fn editor_step(o: Option<EditorFieldsView>, line: Seq<char>) -> Option<EditorFieldsView> {
    match (o, key_value_of(line)) {
        (Some(e), Some(kv)) => apply_editor(e, kv.0, kv.1),
        _ => None,
    }
}

proof fn lemma_editor_commute(o: Option<EditorFieldsView>, l1: Seq<char>, l2: Seq<char>)
    requires
        key_value_of(l1) matches Some(kv1) && key_value_of(l2) matches Some(kv2) && kv1.0 != kv2.0,
    ensures
        editor_step(editor_step(o, l1), l2) == editor_step(editor_step(o, l2), l1),
{
    reveal_strlit("Bookmarks");
    reveal_strlit("DistanceSpacing");
    reveal_strlit("BeatDivisor");
    reveal_strlit("GridSize");
    reveal_strlit("TimelineZoom");
}

proof fn lemma_editor_fold_push(p: Seq<Seq<char>>, x: Seq<char>)
    ensures
        editor_fold(p.push(x)) == editor_step(editor_fold(p), x),
{
    assert(p.push(x).drop_last() =~= p);
}

proof fn lemma_editor_fold_append(p1: Seq<Seq<char>>, p2: Seq<Seq<char>>, q: Seq<Seq<char>>)
    requires
        editor_fold(p1) == editor_fold(p2),
    ensures
        editor_fold(p1 + q) == editor_fold(p2 + q),
    decreases q.len(),
{
    if q.len() > 0 {
        lemma_editor_fold_append(p1, p2, q.drop_last());
        assert((p1 + q).drop_last() =~= p1 + q.drop_last());
        assert((p2 + q).drop_last() =~= p2 + q.drop_last());
    } else {
        assert(p1 + q =~= p1);
        assert(p2 + q =~= p2);
    }
}

/// Swapping two neighbouring lines of an `[Editor]` section that set
/// different keys gives the same section; any reordering of lines with
/// distinct keys is a sequence of such swaps.
pub proof fn lemma_editor_order_independent(ls: Seq<Seq<char>>, i: int)
    requires
        0 <= i,
        i + 1 < ls.len(),
        key_value_of(ls[i]) matches Some(kv1) && key_value_of(ls[i + 1]) matches Some(kv2) && kv1.0 != kv2.0,
    ensures
        editor_of(ls) == editor_of(ls.update(i, ls[i + 1]).update(i + 1, ls[i])),
{
    let sw = ls.update(i, ls[i + 1]).update(i + 1, ls[i]);
    let pre = ls.take(i);
    let a = pre.push(ls[i]).push(ls[i + 1]);
    let b = pre.push(ls[i + 1]).push(ls[i]);
    lemma_editor_fold_push(pre, ls[i]);
    lemma_editor_fold_push(pre.push(ls[i]), ls[i + 1]);
    lemma_editor_fold_push(pre, ls[i + 1]);
    lemma_editor_fold_push(pre.push(ls[i + 1]), ls[i]);
    lemma_editor_commute(editor_fold(pre), ls[i], ls[i + 1]);
    let q = ls.skip(i + 2);
    lemma_editor_fold_append(a, b, q);
    assert(a + q =~= ls);
    assert(b + q =~= sw);
}


} // verus!
