//! The in-memory beatmap document.
use vstd::prelude::*;
use crate::decimal::{Decimal, decimal_text, push_decimal};
use crate::text::{int_text, push_int, string_of};

verus! {

/// Draw order of hit circle overlays compared to hit numbers.
#[derive(Clone, Copy, Debug, PartialEq, Eq, Structural)]
pub enum OverlayPosition {
    /// use skin setting
    NoChange,
    /// draw overlays under numbers
    Below,
    /// draw overlays on top of numbers
    Above,
}

/// General information about the beatmap.
#[derive(Clone, Debug, PartialEq)]
pub struct GeneralSection {
    /// Location of the audio file relative to the current folder
    pub audio_filename: String,
    /// Milliseconds of silence before the audio starts playing
    pub audio_lead_in: i32,
    /// Deprecated
    pub audio_hash: Option<String>,
    /// Time in milliseconds when the audio preview should start
    pub preview_time: Decimal,
    /// Speed of the countdown before the first hit object
    pub countdown: i32,
    /// Sample set used where timing points do not override it (Normal, Soft, Drum)
    pub sample_set: String,
    /// Multiplier for the threshold in time where close hit objects stack (0-1)
    pub stack_leniency: Decimal,
    /// Game mode: osu!, osu!taiko, osu!catch, osu!mania
    pub mode: u8,
    /// Whether or not breaks have a letterboxing effect
    pub letterbox_in_breaks: bool,
    /// Deprecated
    pub story_fire_in_front: bool,
    /// Whether or not the storyboard can use the user's skin images
    pub use_skin_sprites: bool,
    /// Deprecated
    pub always_show_playfield: bool,
    /// Draw order of hit circle overlays compared to hit numbers
    pub overlay_position: OverlayPosition,
    /// Preferred skin to use during gameplay
    pub skin_preference: Option<String>,
    /// Whether or not a warning about flashing colours is shown at the start
    pub epilepsy_warning: bool,
    /// Time in beats that the countdown starts before the first hit object
    pub countdown_offset: i32,
    /// Whether or not the "N+1" style key layout is used for osu!mania
    pub special_style: bool,
    /// Whether or not the storyboard allows widescreen viewing
    pub widescreen_storyboard: bool,
    /// Whether or not sound samples change rate with speed-changing mods
    pub samples_match_playback_rate: bool,
}

impl GeneralSection {
    /// The values that a `[General]` section starts from before its lines are read.
    pub fn new() -> (r: GeneralSection)
        ensures
            r.audio_filename@.len() == 0,
            r.audio_lead_in == 0,
            r.audio_hash is None,
            r.preview_time == (Decimal { mantissa: -1i64, scale: 0u32 }),
            r.countdown == 1,
            r.sample_set@ == "Normal"@,
            r.stack_leniency == (Decimal { mantissa: 7i64, scale: 1u32 }),
            r.mode == 0,
            !r.letterbox_in_breaks,
            r.story_fire_in_front,
            !r.use_skin_sprites,
            !r.always_show_playfield,
            r.overlay_position == OverlayPosition::NoChange,
            r.skin_preference is None,
            !r.epilepsy_warning,
            r.countdown_offset == 0,
            !r.special_style,
            !r.widescreen_storyboard,
            !r.samples_match_playback_rate,
    {
        GeneralSection {
            audio_filename: String::new(),
            audio_lead_in: 0,
            audio_hash: None,
            preview_time: Decimal { mantissa: -1, scale: 0 },
            countdown: 1,
            sample_set: String::from_str("Normal"),
            stack_leniency: Decimal { mantissa: 7, scale: 1 },
            mode: 0,
            letterbox_in_breaks: false,
            story_fire_in_front: true,
            use_skin_sprites: false,
            always_show_playfield: false,
            overlay_position: OverlayPosition::NoChange,
            skin_preference: None,
            epilepsy_warning: false,
            countdown_offset: 0,
            special_style: false,
            widescreen_storyboard: false,
            samples_match_playback_rate: false,
        }
    }
}

/// Saved settings for the beatmap editor.
#[derive(Clone, Debug, PartialEq)]
pub struct EditorSection {
    /// Time in milliseconds of bookmarks
    pub bookmarks: Vec<Decimal>,
    /// Distance snap multiplier
    pub distance_spacing: Decimal,
    /// Beat snap divisor
    pub beat_divisor: Decimal,
    /// Grid size
    pub grid_size: i32,
    /// Scale factor for the object timeline
    pub timeline_zoom: Option<Decimal>,
}

/// Information used to identify the beatmap.
#[derive(Clone, Debug, PartialEq)]
pub struct MetadataSection {
    /// Romanised song title
    pub title: String,
    /// Song title
    pub title_unicode: String,
    /// Romanised song artist
    pub artist: String,
    /// Song artist
    pub artist_unicode: String,
    /// Beatmap creator
    pub creator: String,
    /// Difficulty name
    pub version: String,
    /// Media the song was first produced for
    pub source: String,
    /// Search terms
    pub tags: Vec<String>,
    /// Difficulty ID
    pub beatmap_id: Option<i32>,
    /// Beatmap ID
    pub beatmap_set_id: Option<i32>,
}

impl MetadataSection {
    /// A section with every text empty and no identifiers.
    pub fn new() -> (r: MetadataSection)
        ensures
            r.title@.len() == 0,
            r.title_unicode@.len() == 0,
            r.artist@.len() == 0,
            r.artist_unicode@.len() == 0,
            r.creator@.len() == 0,
            r.version@.len() == 0,
            r.source@.len() == 0,
            r.tags@.len() == 0,
            r.beatmap_id is None,
            r.beatmap_set_id is None,
    {
        MetadataSection {
            title: String::new(),
            title_unicode: String::new(),
            artist: String::new(),
            artist_unicode: String::new(),
            creator: String::new(),
            version: String::new(),
            source: String::new(),
            tags: Vec::new(),
            beatmap_id: None,
            beatmap_set_id: None,
        }
    }
}

/// Difficulty settings.
#[derive(Clone, Copy, Debug, PartialEq, Eq, Structural)]
pub struct DifficultySection {
    /// HP setting (0-10)
    pub hp_drain_rate: Decimal,
    /// CS setting (0-10)
    pub circle_size: Decimal,
    /// OD setting (0-10)
    pub overall_difficulty: Decimal,
    /// AR setting (0-10)
    pub approach_rate: Decimal,
    /// Base slider velocity in hundreds of osu! pixels per beat
    pub slider_multiplier: Decimal,
    /// Amount of slider ticks per beat
    pub slider_tick_rate: Decimal,
}

impl DifficultySection {
    /// Every setting zero.
    pub fn new() -> (r: DifficultySection)
        ensures
            r.hp_drain_rate == Decimal::zero(),
            r.circle_size == Decimal::zero(),
            r.overall_difficulty == Decimal::zero(),
            r.approach_rate == Decimal::zero(),
            r.slider_multiplier == Decimal::zero(),
            r.slider_tick_rate == Decimal::zero(),
    {
        let z = Decimal { mantissa: 0, scale: 0 };
        DifficultySection {
            hp_drain_rate: z,
            circle_size: z,
            overall_difficulty: z,
            approach_rate: z,
            slider_multiplier: z,
            slider_tick_rate: z,
        }
    }
}

/// Extra parameters of a graphic event, by its kind.
#[derive(Clone, Debug, PartialEq)]
pub enum EventParams {
    Background {
        /// Location of the image relative to the beatmap directory
        filename: String,
        /// Offset in osu! pixels from the center of the screen
        x_offset: i32,
        /// Offset in osu! pixels from the center of the screen
        y_offset: i32,
    },
    Video {
        /// Location of the video relative to the beatmap directory
        filename: String,
        /// Offset in osu! pixels from the center of the screen
        x_offset: i32,
        /// Offset in osu! pixels from the center of the screen
        y_offset: i32,
    },
    Break {
        /// End time of the break, in milliseconds
        end_time: Decimal,
    },
}

/// Beatmap graphic event.
#[derive(Clone, Debug, PartialEq)]
pub struct Event {
    /// Type of the event, as written: a name or a number
    pub event_type: String,
    /// Start time of the event, in milliseconds
    pub start_time: Decimal,
    /// Extra parameters specific to the event's kind
    pub params: EventParams,
}

/// A bank of samples for normal, whistle, finish and clap hitsounds.
#[derive(Clone, Copy, Debug, PartialEq, Eq, Structural)]
pub enum SampleBank {
    Auto,
    Normal,
    Soft,
    Drum,
}

impl SampleBank {
    /// The number the file format writes for the bank.
    pub open spec fn spec_code(self) -> int {
        match self {
            SampleBank::Auto => 0,
            SampleBank::Normal => 1,
            SampleBank::Soft => 2,
            SampleBank::Drum => 3,
        }
    }

    /// The number the file format writes for the bank.
    pub fn code(self) -> (r: u8)
        ensures
            r as int == self.spec_code(),
    {
        match self {
            SampleBank::Auto => 0,
            SampleBank::Normal => 1,
            SampleBank::Soft => 2,
            SampleBank::Drum => 3,
        }
    }
}

/// Timing and control point.
#[derive(Clone, Copy, Debug, PartialEq, Eq, Structural)]
pub struct TimingPoint {
    /// Start time of the timing section, in milliseconds
    pub time: Decimal,
    /// Beat duration in milliseconds where uninherited; otherwise a negative
    /// inverse slider velocity multiplier, as a percentage
    pub beat_length: Decimal,
    /// Amount of beats in a measure; real files hold negative values too
    pub meter: i32,
    /// Default sample set for hit objects
    pub sample_set: SampleBank,
    /// Custom sample index for hit objects; `0` is osu!'s default hitsounds
    pub sample_index: u32,
    /// Volume percentage for hit objects; real files exceed 100
    pub volume: u32,
    /// Whether or not the timing point is uninherited
    pub uninherited: bool,
    /// Bit flags that give the timing point extra effects
    pub effects: u32,
}

impl TimingPoint {
    /// All fields but `time` and `uninherited` are equal.
    pub open spec fn spec_is_duplicate(self, other: TimingPoint) -> bool {
        &&& self.beat_length == other.beat_length
        &&& self.meter == other.meter
        &&& self.sample_set == other.sample_set
        &&& self.sample_index == other.sample_index
        &&& self.volume == other.volume
        &&& self.effects == other.effects
    }

    /// Whether this timing point is a duplicate of the other: all their fields
    /// but `time` and `uninherited` are equal.
    pub fn is_duplicate(&self, other: &TimingPoint) -> (r: bool)
        ensures
            r == self.spec_is_duplicate(*other),
    {
        self.beat_length == other.beat_length && self.meter == other.meter && self.sample_set
            == other.sample_set && self.sample_index == other.sample_index && self.volume
            == other.volume && self.effects == other.effects
    }
}

/// A combo or skin color.
#[derive(Clone, Copy, Debug, PartialEq, Eq, Structural)]
pub struct Color {
    /// Red value in range `[0, 255]`.
    pub r: u8,
    /// Green value in range `[0, 255]`.
    pub g: u8,
    /// Blue value in range `[0, 255]`.
    pub b: u8,
    /// Alpha value in range `[0, 255]`.
    pub a: Option<u8>,
}

/// `r,g,b` or `r,g,b,a`.
pub open spec fn color_text(c: Color) -> Seq<char> {
    let rgb = int_text(c.r as int) + seq![','] + int_text(c.g as int) + seq![','] + int_text(
        c.b as int,
    );
    match c.a {
        Some(a) => rgb + seq![','] + int_text(a as int),
        None => rgb,
    }
}

impl Color {
    /// The color as the file format writes it: `r,g,b` or `r,g,b,a`.
    pub fn to_osu_string(&self) -> (r: String)
        ensures
            r@ == color_text(*self),
    {
        let mut out: Vec<char> = Vec::new();
        push_color(&mut out, self);
        string_of(out.as_slice())
    }
}

pub fn push_color(out: &mut Vec<char>, c: &Color)
    ensures
        final(out)@ == old(out)@ + color_text(*c),
{
    push_int(out, c.r as i64);
    out.push(',');
    push_int(out, c.g as i64);
    out.push(',');
    push_int(out, c.b as i64);
    if let Some(a) = c.a {
        out.push(',');
        push_int(out, a as i64);
    }
    assert(final(out)@ =~= old(out)@ + color_text(*c));
}

/// Combo and skin colors.
#[derive(Clone, Debug, PartialEq)]
pub struct ColorsSection {
    /// Additive combo colors
    pub combo_colors: Vec<Color>,
    /// Additive slider track color
    pub slider_track_override: Option<Color>,
    /// Slider border color
    pub slider_border: Option<Color>,
}

/// Sample sets of a normal sound and of its additions.
#[derive(Clone, Copy, Debug, PartialEq, Eq, Structural)]
pub struct HitSampleSet {
    /// Sample set of the normal sound.
    pub normal_set: SampleBank,
    /// Sample set of the whistle, finish, and clap sounds.
    pub addition_set: SampleBank,
}

/// `normal:addition`, each as its number.
pub open spec fn hit_sample_set_text(s: HitSampleSet) -> Seq<char> {
    int_text(s.normal_set.spec_code()) + seq![':'] + int_text(s.addition_set.spec_code())
}

pub fn push_hit_sample_set(out: &mut Vec<char>, s: &HitSampleSet)
    ensures
        final(out)@ == old(out)@ + hit_sample_set_text(*s),
{
    push_int(out, s.normal_set.code() as i64);
    out.push(':');
    push_int(out, s.addition_set.code() as i64);
    assert(final(out)@ =~= old(out)@ + hit_sample_set_text(*s));
}

impl HitSampleSet {
    /// Both sets on `Auto`.
    pub fn new() -> (r: HitSampleSet)
        ensures
            r.normal_set == SampleBank::Auto,
            r.addition_set == SampleBank::Auto,
    {
        HitSampleSet { normal_set: SampleBank::Auto, addition_set: SampleBank::Auto }
    }

    /// The pair as the file format writes it: `normal:addition`.
    pub fn to_osu_string(&self) -> (r: String)
        ensures
            r@ == hit_sample_set_text(*self),
    {
        let mut out: Vec<char> = Vec::new();
        push_hit_sample_set(&mut out, self);
        string_of(out.as_slice())
    }
}

/// Type of curve used to construct a slider at a particular point.
#[derive(Clone, Copy, Debug, PartialEq, Eq, Structural)]
pub enum SliderCurveType {
    /// inherit the previous point's curve type
    Inherit,
    /// bezier curve
    Bezier,
    /// centripetal catmull-rom
    Catmull,
    /// linear
    Linear,
    /// perfect circle
    PerfectCurve,
}

/// Anchor point used to construct a slider.
#[derive(Clone, Copy, Debug, PartialEq, Eq, Structural)]
pub struct SliderPoint {
    /// Type of curve that starts at this point.
    pub curve_type: SliderCurveType,
    /// Horizontal coordinate of the slider point.
    pub x: i32,
    /// Vertical coordinate of the slider point.
    pub y: i32,
}

impl SliderPoint {
    /// A point of the given curve type at `(x, y)`.
    pub fn new_i16(curve_type: SliderCurveType, x: i16, y: i16) -> (r: SliderPoint)
        ensures
            r.curve_type == curve_type,
            r.x == x as i32,
            r.y == y as i32,
    {
        SliderPoint { curve_type, x: x as i32, y: y as i32 }
    }
}

/// Bit flags of the hitsounds that play on an object.
#[derive(Clone, Copy, Debug, PartialEq, Eq, Structural)]
pub struct HitSound(pub u8);

pub const HIT_SOUND_NONE: u8 = 0;
pub const HIT_SOUND_NORMAL: u8 = 1;
pub const HIT_SOUND_WHISTLE: u8 = 2;
pub const HIT_SOUND_FINISH: u8 = 4;
pub const HIT_SOUND_CLAP: u8 = 8;

pub open spec fn flag_chars(on: bool, c: char) -> Seq<char> {
    if on { seq![c] } else { Seq::empty() }
}

pub open spec fn word_chars(on: bool, w: Seq<char>) -> Seq<char> {
    if on { w } else { Seq::empty() }
}

impl HitSound {
    pub open spec fn spec_has(self, flag: u8) -> bool {
        self.0 & flag > 0
    }

    /// Some flag of `other` is set in `self`.
    pub fn has_all(&self, other: HitSound) -> (r: bool)
        ensures
            r == (self.0 & other.0 > 0),
    {
        self.0 & other.0 > 0
    }

    pub fn has_normal(&self) -> (r: bool)
        ensures
            r == self.spec_has(HIT_SOUND_NORMAL),
    {
        self.has_all(HitSound(HIT_SOUND_NORMAL))
    }

    pub fn has_whistle(&self) -> (r: bool)
        ensures
            r == self.spec_has(HIT_SOUND_WHISTLE),
    {
        self.has_all(HitSound(HIT_SOUND_WHISTLE))
    }

    pub fn has_finish(&self) -> (r: bool)
        ensures
            r == self.spec_has(HIT_SOUND_FINISH),
    {
        self.has_all(HitSound(HIT_SOUND_FINISH))
    }

    pub fn has_clap(&self) -> (r: bool)
        ensures
            r == self.spec_has(HIT_SOUND_CLAP),
    {
        self.has_all(HitSound(HIT_SOUND_CLAP))
    }

    #[verifier::rlimit(40)]
    /// `(hs)` followed by ` normal`, ` whistle`, ` finish`, ` clap` for each flag set.
    pub fn flags_string_verbose(&self) -> (r: String)
        ensures
            r@ == seq!['(', 'h', 's', ')'] + word_chars(
                self.spec_has(HIT_SOUND_NORMAL),
                seq![' ', 'n', 'o', 'r', 'm', 'a', 'l'],
            ) + word_chars(
                self.spec_has(HIT_SOUND_WHISTLE),
                seq![' ', 'w', 'h', 'i', 's', 't', 'l', 'e'],
            ) + word_chars(self.spec_has(HIT_SOUND_FINISH), seq![' ', 'f', 'i', 'n', 'i', 's', 'h'])
                + word_chars(self.spec_has(HIT_SOUND_CLAP), seq![' ', 'c', 'l', 'a', 'p']),
    {
        let mut out: Vec<char> = vec!['(', 'h', 's', ')'];
        let ghost s0 = out@;
        if self.has_normal() {
            out.push(' ');
            out.push('n');
            out.push('o');
            out.push('r');
            out.push('m');
            out.push('a');
            out.push('l');
        }
        let ghost s1 = out@;
        if self.has_whistle() {
            out.push(' ');
            out.push('w');
            out.push('h');
            out.push('i');
            out.push('s');
            out.push('t');
            out.push('l');
            out.push('e');
        }
        let ghost s2 = out@;
        if self.has_finish() {
            out.push(' ');
            out.push('f');
            out.push('i');
            out.push('n');
            out.push('i');
            out.push('s');
            out.push('h');
        }
        let ghost s3 = out@;
        if self.has_clap() {
            out.push(' ');
            out.push('c');
            out.push('l');
            out.push('a');
            out.push('p');
        }
        assert(s0 =~= seq!['(', 'h', 's', ')']);
        assert(s1 =~= s0 + word_chars(self.spec_has(HIT_SOUND_NORMAL), seq![' ', 'n', 'o', 'r', 'm', 'a', 'l']));
        assert(s2 =~= s1 + word_chars(self.spec_has(HIT_SOUND_WHISTLE), seq![' ', 'w', 'h', 'i', 's', 't', 'l', 'e']));
        assert(s3 =~= s2 + word_chars(self.spec_has(HIT_SOUND_FINISH), seq![' ', 'f', 'i', 'n', 'i', 's', 'h']));
        assert(out@ =~= s3 + word_chars(self.spec_has(HIT_SOUND_CLAP), seq![' ', 'c', 'l', 'a', 'p']));
        string_of(out.as_slice())
    }

    /// `(` then `N`, `W`, `F`, `C` for each flag set, then `)`.
    pub fn flags_string(&self) -> (r: String)
        ensures
            r@ == seq!['('] + flag_chars(self.spec_has(HIT_SOUND_NORMAL), 'N') + flag_chars(
                self.spec_has(HIT_SOUND_WHISTLE),
                'W',
            ) + flag_chars(self.spec_has(HIT_SOUND_FINISH), 'F') + flag_chars(
                self.spec_has(HIT_SOUND_CLAP),
                'C',
            ) + seq![')'],
    {
        let mut out: Vec<char> = vec!['('];
        let ghost s0 = out@;
        if self.has_normal() {
            out.push('N');
        }
        let ghost s1 = out@;
        if self.has_whistle() {
            out.push('W');
        }
        let ghost s2 = out@;
        if self.has_finish() {
            out.push('F');
        }
        let ghost s3 = out@;
        if self.has_clap() {
            out.push('C');
        }
        let ghost s4 = out@;
        out.push(')');
        assert(s0 =~= seq!['(']);
        assert(s1 =~= s0 + flag_chars(self.spec_has(HIT_SOUND_NORMAL), 'N'));
        assert(s2 =~= s1 + flag_chars(self.spec_has(HIT_SOUND_WHISTLE), 'W'));
        assert(s3 =~= s2 + flag_chars(self.spec_has(HIT_SOUND_FINISH), 'F'));
        assert(s4 =~= s3 + flag_chars(self.spec_has(HIT_SOUND_CLAP), 'C'));
        assert(out@ =~= s4 + seq![')']);
        string_of(out.as_slice())
    }

    /// `(NWFC)` with a `.` in place of each flag not set.
    pub fn fixed_flags_string(&self) -> (r: String)
        ensures
            r@ == seq![
                '(',
                if self.spec_has(HIT_SOUND_NORMAL) { 'N' } else { '.' },
                if self.spec_has(HIT_SOUND_WHISTLE) { 'W' } else { '.' },
                if self.spec_has(HIT_SOUND_FINISH) { 'F' } else { '.' },
                if self.spec_has(HIT_SOUND_CLAP) { 'C' } else { '.' },
                ')',
            ],
    {
        let n = if self.has_normal() { 'N' } else { '.' };
        let w = if self.has_whistle() { 'W' } else { '.' };
        let f = if self.has_finish() { 'F' } else { '.' };
        let c = if self.has_clap() { 'C' } else { '.' };
        let out: Vec<char> = vec!['(', n, w, f, c, ')'];
        string_of(out.as_slice())
    }
}

/// Information about which samples play when an object is hit.
#[derive(Clone, Debug, PartialEq)]
pub struct HitSample {
    /// Sample set of the normal sound.
    pub normal_set: SampleBank,
    /// Sample set of the whistle, finish, and clap sounds.
    pub addition_set: SampleBank,
    /// Index of the sample; `0` defers to the timing point.
    pub index: u32,
    /// Volume of the sample; `0` defers to the timing point. Real files exceed 255.
    pub volume: u32,
    /// Custom filename of the addition sound.
    pub filename: Option<String>,
}

/// `normal:addition:index:volume:filename`, an absent filename written empty.
pub open spec fn hit_sample_text(h: HitSample) -> Seq<char> {
    int_text(h.normal_set.spec_code()) + seq![':'] + int_text(h.addition_set.spec_code()) + seq![
        ':',
    ] + int_text(h.index as int) + seq![':'] + int_text(h.volume as int) + seq![':'] + match h.filename {
        Some(f) => f@,
        None => Seq::empty(),
    }
}

pub fn push_hit_sample(out: &mut Vec<char>, h: &HitSample)
    ensures
        final(out)@ == old(out)@ + hit_sample_text(*h),
{
    push_int(out, h.normal_set.code() as i64);
    out.push(':');
    push_int(out, h.addition_set.code() as i64);
    out.push(':');
    push_int(out, h.index as i64);
    out.push(':');
    push_int(out, h.volume as i64);
    out.push(':');
    if let Some(f) = &h.filename {
        push_str(out, f.as_str());
    }
    assert(final(out)@ =~= old(out)@ + hit_sample_text(*h));
}

/// Appends the chars of `s`.
pub fn push_str(out: &mut Vec<char>, s: &str)
    ensures
        final(out)@ == old(out)@ + s@,
{
    let mut cs = crate::text::chars_of(s);
    out.append(&mut cs);
}

impl HitSample {
    /// Defaults to the timing point in everything: `0:0:0:0:`.
    pub fn new() -> (r: HitSample)
        ensures
            r.normal_set == SampleBank::Auto,
            r.addition_set == SampleBank::Auto,
            r.index == 0,
            r.volume == 0,
            r.filename is None,
    {
        HitSample {
            normal_set: SampleBank::Auto,
            addition_set: SampleBank::Auto,
            index: 0,
            volume: 0,
            filename: None,
        }
    }

    /// The sample as the file format writes it: `normal:addition:index:volume:filename`.
    pub fn to_osu_string(&self) -> (r: String)
        ensures
            r@ == hit_sample_text(*self),
    {
        let mut out: Vec<char> = Vec::new();
        push_hit_sample(&mut out, self);
        string_of(out.as_slice())
    }

    /// The two sample sets of this sample.
    pub fn to_hit_sample_set(&self) -> (r: HitSampleSet)
        ensures
            r.normal_set == self.normal_set,
            r.addition_set == self.addition_set,
    {
        HitSampleSet { normal_set: self.normal_set, addition_set: self.addition_set }
    }
}

/// Extra parameters of a hit object, by its kind.
#[derive(Clone, Debug, PartialEq)]
pub enum HitObjectParams {
    HitCircle,
    Slider {
        /// Curve type written before the first anchor point
        first_curve_type: SliderCurveType,
        /// Anchor points, each with its own curve type
        curve_points: Vec<SliderPoint>,
        /// Amount of times the player follows the curve back and forth
        slides: u32,
        /// Visual length in osu! pixels
        length: Decimal,
        /// Hitsounds that play on the edges of the curve
        edge_hitsounds: Vec<HitSound>,
        /// Sample sets of the edge hitsounds
        edge_samplesets: Vec<HitSampleSet>,
    },
    Spinner {
        /// End time of the spinner, in milliseconds
        end_time: Decimal,
    },
    /// (osu!mania only)
    Hold {
        /// End time of the hold, in milliseconds
        end_time: Decimal,
    },
}

/// The kind of a hit object.
#[derive(Clone, Copy, Debug, PartialEq, Eq, Structural)]
pub enum HitObjectType {
    HitCircle,
    Slider,
    Spinner,
    /// (osu!mania only)
    Hold,
}

/// A timed interactive note.
#[derive(Clone, Debug, PartialEq)]
pub struct HitObject {
    /// Horizontal position in osu! pixels.
    pub x: i32,
    /// Vertical position in osu! pixels.
    pub y: i32,
    /// Time when the object is to be hit, in milliseconds.
    pub time: Decimal,
    /// Kind of the object.
    pub object_type: HitObjectType,
    /// How many combo colors to skip; `None` where the object starts no new combo.
    pub combo_color_skip: Option<u8>,
    /// Hitsounds applied to the object.
    pub hit_sound: HitSound,
    /// Extra parameters specific to the object's kind.
    pub object_params: HitObjectParams,
    /// Samples that play when the object is hit.
    pub hit_sample: HitSample,
}

/// A whole `.osu` document.
#[derive(Clone, Debug, PartialEq)]
pub struct BeatmapFile {
    /// Version of the file format, from the first line.
    pub osu_file_format: u32,
    /// General information about the beatmap
    pub general: Option<GeneralSection>,
    /// Saved settings for the beatmap editor
    pub editor: Option<EditorSection>,
    /// Information used to identify the beatmap
    pub metadata: Option<MetadataSection>,
    /// Difficulty settings
    pub difficulty: Option<DifficultySection>,
    /// Beatmap graphic events
    pub events: Vec<Event>,
    /// Timing and control points
    pub timing_points: Vec<TimingPoint>,
    /// Combo and skin colors
    pub colors: Option<ColorsSection>,
    /// Hit objects
    pub hit_objects: Vec<HitObject>,
}

} // verus!
