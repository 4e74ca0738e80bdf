//! Reading the comma-, colon- and bar-delimited records of the format.
use vstd::prelude::*;
use crate::decimal::{Decimal, decimal_value, parse_decimal};
use crate::model::{Color, HitSample, HitSampleSet, SampleBank, SliderCurveType, SliderPoint, TimingPoint};
use crate::text::{first_index, find_char, int_in, parse_int, split, split_chars, string_of, views};

verus! {

/// A sample bank token was not one of `0`, `1`, `2`, `3`.
#[derive(Clone, Debug, PartialEq, Eq)]
pub struct InvalidSampleBankError {
    /// The token as written.
    pub raw: String,
}

/// Why a hit sample `normal:addition[:index:volume:filename]` was refused.
#[derive(Clone, Debug, PartialEq, Eq)]
pub enum HitSampleParseError {
    /// Fewer than the two sample sets; holds the count of fields.
    NotEnoughArguments(usize),
    InvalidSampleBank(InvalidSampleBankError),
    InvalidInt,
}

/// Why a list of slider points was refused.
#[derive(Clone, Debug, PartialEq, Eq)]
pub enum CurvePointsParseError {
    /// The first token is not a curve type letter; holds it.
    UnknownCurveType(String),
    /// A token is neither a letter nor `x:y`.
    InvalidSliderPoint,
}

/// A list of numbers that could not be read; holds the list as written.
#[derive(Clone, Debug, PartialEq, Eq)]
pub struct InvalidListError {
    pub line: String,
}

impl InvalidListError {
    pub fn new(line: &[char]) -> (r: InvalidListError)
        ensures
            r.line@ == line@,
    {
        InvalidListError { line: string_of(line) }
    }
}

/// Why a color was refused.
#[derive(Clone, Debug, PartialEq, Eq)]
pub enum ColorParseError {
    InvalidList(InvalidListError),
    /// Not 3 or 4 numbers.
    WrongNumberCount,
}

pub open spec fn sample_bank_of(t: Seq<char>) -> Option<SampleBank> {
    if t == seq!['0'] {
        Some(SampleBank::Auto)
    } else if t == seq!['1'] {
        Some(SampleBank::Normal)
    } else if t == seq!['2'] {
        Some(SampleBank::Soft)
    } else if t == seq!['3'] {
        Some(SampleBank::Drum)
    } else {
        None
    }
}

pub open spec fn u32_of(t: Seq<char>) -> Option<u32> {
    match int_in(t, 0, 0xffff_ffff) {
        Some(v) => Some(v as u32),
        None => None,
    }
}

pub open spec fn i32_of(t: Seq<char>) -> Option<i32> {
    match int_in(t, -0x8000_0000, 0x7fff_ffff) {
        Some(v) => Some(v as i32),
        None => None,
    }
}

pub open spec fn u8_of(t: Seq<char>) -> Option<u8> {
    match int_in(t, 0, 255) {
        Some(v) => Some(v as u8),
        None => None,
    }
}

pub fn parse_u32(t: &[char]) -> (r: Option<u32>)
    ensures
        r == u32_of(t@),
{
    match parse_int(t, 0, 0xffff_ffff) {
        Some(v) => Some(v as u32),
        None => None,
    }
}

pub fn parse_i32(t: &[char]) -> (r: Option<i32>)
    ensures
        r == i32_of(t@),
{
    match parse_int(t, -0x8000_0000, 0x7fff_ffff) {
        Some(v) => Some(v as i32),
        None => None,
    }
}

pub fn parse_u8(t: &[char]) -> (r: Option<u8>)
    ensures
        r == u8_of(t@),
{
    match parse_int(t, 0, 255) {
        Some(v) => Some(v as u8),
        None => None,
    }
}

/// Reads a sample bank from its number.
pub fn parse_sample_bank(t: &[char]) -> (r: Result<SampleBank, InvalidSampleBankError>)
    ensures
        match r {
            Ok(b) => sample_bank_of(t@) == Some(b),
            Err(e) => sample_bank_of(t@) is None && e.raw@ == t@,
        },
{
    if t.len() == 1 {
        if t[0] == '0' {
            assert(t@ =~= seq!['0']);
            return Ok(SampleBank::Auto);
        } else if t[0] == '1' {
            assert(t@ =~= seq!['1']);
            return Ok(SampleBank::Normal);
        } else if t[0] == '2' {
            assert(t@ =~= seq!['2']);
            return Ok(SampleBank::Soft);
        } else if t[0] == '3' {
            assert(t@ =~= seq!['3']);
            return Ok(SampleBank::Drum);
        }
    }
    Err(InvalidSampleBankError { raw: string_of(t) })
}

/// `normal:addition`, each a sample bank number.
pub open spec fn hit_sample_set_of(s: Seq<char>) -> Option<HitSampleSet> {
    let p = first_index(s, ':');
    if p < 0 {
        None
    } else {
        match (sample_bank_of(s.take(p)), sample_bank_of(s.skip(p + 1))) {
            (Some(n), Some(a)) => Some(HitSampleSet { normal_set: n, addition_set: a }),
            _ => None,
        }
    }
}

/// Reads `normal:addition`.
pub fn parse_hit_sample_set(s: &[char]) -> (r: Option<HitSampleSet>)
    ensures
        r == hit_sample_set_of(s@),
{
    match find_char(s, ':') {
        None => None,
        Some(p) => {
            proof {
                crate::text::lemma_first_index_bounds(s@, ':');
            }
            assert(p < s@.len());
            assert(s@.len() == s.len());
            let n = parse_sample_bank(vstd::slice::slice_subrange(s, 0, p));
            let a = parse_sample_bank(vstd::slice::slice_subrange(s, p + 1, s.len()));
            proof {
                assert(s@.subrange(0, p as int) =~= s@.take(p as int));
                assert(s@.subrange(p + 1, s@.len() as int) =~= s@.skip(p + 1));
            }
            match (n, a) {
                (Ok(n), Ok(a)) => Some(HitSampleSet { normal_set: n, addition_set: a }),
                _ => None,
            }
        },
    }
}

/// What a hit sample holds.
pub struct HitSampleView {
    pub normal_set: SampleBank,
    pub addition_set: SampleBank,
    pub index: u32,
    pub volume: u32,
    pub filename: Option<Seq<char>>,
}

impl View for HitSample {
    type V = HitSampleView;

    open spec fn view(&self) -> HitSampleView {
        HitSampleView {
            normal_set: self.normal_set,
            addition_set: self.addition_set,
            index: self.index,
            volume: self.volume,
            filename: match self.filename {
                Some(f) => Some(f@),
                None => None,
            },
        }
    }
}

/// `normal:addition`, then optionally `:index:volume:filename`; any other
/// number of fields after the two sets leaves index, volume and filename at
/// their defaults. An empty filename is no filename.
pub open spec fn hit_sample_of(s: Seq<char>) -> Option<HitSampleView> {
    let args = split(s, ':');
    if args.len() < 2 {
        None
    } else {
        match (sample_bank_of(args[0]), sample_bank_of(args[1])) {
            (Some(n), Some(a)) => {
                if args.len() == 5 {
                    match (u32_of(args[2]), u32_of(args[3])) {
                        (Some(i), Some(v)) => Some(
                            HitSampleView {
                                normal_set: n,
                                addition_set: a,
                                index: i,
                                volume: v,
                                filename: if args[4].len() == 0 { None } else { Some(args[4]) },
                            },
                        ),
                        _ => None,
                    }
                } else {
                    Some(
                        HitSampleView {
                            normal_set: n,
                            addition_set: a,
                            index: 0,
                            volume: 0,
                            filename: None,
                        },
                    )
                }
            },
            _ => None,
        }
    }
}

/// Reads a hit sample `normal:addition[:index:volume:filename]`.
pub fn parse_hit_sample(s: &[char]) -> (r: Result<HitSample, HitSampleParseError>)
    ensures
        match r {
            Ok(h) => hit_sample_of(s@) == Some(h@),
            Err(e) => hit_sample_of(s@) is None && (e matches HitSampleParseError::NotEnoughArguments(n)
                ==> n == split(s@, ':').len() && n < 2),
        },
{
    let args = split_chars(s, ':');
    assert(args@.len() == split(s@, ':').len());
    if args.len() < 2 {
        return Err(HitSampleParseError::NotEnoughArguments(args.len()));
    }
    assert(args@[0]@ == split(s@, ':')[0]);
    assert(args@[1]@ == split(s@, ':')[1]);
    let normal_set = match parse_sample_bank(args[0].as_slice()) {
        Ok(b) => b,
        Err(e) => {
            return Err(HitSampleParseError::InvalidSampleBank(e));
        },
    };
    let addition_set = match parse_sample_bank(args[1].as_slice()) {
        Ok(b) => b,
        Err(e) => {
            return Err(HitSampleParseError::InvalidSampleBank(e));
        },
    };
    let mut index: u32 = 0;
    let mut volume: u32 = 0;
    let mut filename: Option<String> = None;
    if args.len() == 5 {
        assert(args@[2]@ == split(s@, ':')[2]);
        assert(args@[3]@ == split(s@, ':')[3]);
        assert(args@[4]@ == split(s@, ':')[4]);
        index = match parse_u32(args[2].as_slice()) {
            Some(v) => v,
            None => {
                return Err(HitSampleParseError::InvalidInt);
            },
        };
        volume = match parse_u32(args[3].as_slice()) {
            Some(v) => v,
            None => {
                return Err(HitSampleParseError::InvalidInt);
            },
        };
        if args[4].len() > 0 {
            filename = Some(string_of(args[4].as_slice()));
        }
    }
    Ok(HitSample { normal_set, addition_set, index, volume, filename })
}

/// The numbers of a `,`-separated list, empty pieces skipped, each within `0..=255`.
pub open spec fn u8_list_of(pieces: Seq<Seq<char>>) -> Option<Seq<u8>>
    decreases pieces.len(),
{
    if pieces.len() == 0 {
        Some(Seq::empty())
    } else {
        let head = pieces[0];
        match u8_list_of(pieces.drop_first()) {
            None => None,
            Some(rest) => if head.len() == 0 {
                Some(rest)
            } else {
                match u8_of(head) {
                    Some(v) => Some(seq![v] + rest),
                    None => None,
                }
            },
        }
    }
}

/// `r,g,b` or `r,g,b,a`, each within `0..=255`.
pub open spec fn color_of(s: Seq<char>) -> Option<Color> {
    match u8_list_of(split(s, ',')) {
        Some(v) => if v.len() == 3 {
            Some(Color { r: v[0], g: v[1], b: v[2], a: None })
        } else if v.len() == 4 {
            Some(Color { r: v[0], g: v[1], b: v[2], a: Some(v[3]) })
        } else {
            None
        },
        None => None,
    }
}

proof fn lemma_u8_list_step(pieces: Seq<Seq<char>>, k: int)
    requires
        0 <= k < pieces.len(),
    ensures
        pieces.skip(k).drop_first() == pieces.skip(k + 1),
        pieces.skip(k)[0] == pieces[k],
{
    assert(pieces.skip(k).drop_first() =~= pieces.skip(k + 1));
}

/// Reads the numbers of a list separated by `sep`, skipping empty pieces.
pub fn parse_u8_list(s: &[char], sep: char) -> (r: Option<Vec<u8>>)
    ensures
        match r {
            Some(v) => u8_list_of(split(s@, sep)) == Some(v@),
            None => u8_list_of(split(s@, sep)) is None,
        },
{
    let pieces = split_chars(s, sep);
    let ghost ps = split(s@, sep);
    let mut nums: Vec<u8> = Vec::new();
    let mut k: usize = pieces.len();
    assert(ps.skip(ps.len() as int) =~= Seq::<Seq<char>>::empty());
    while k > 0
        invariant
            k <= pieces@.len(),
            ps == split(s@, sep),
            views(pieces@) == ps,
            u8_list_of(ps.skip(k as int)) == Some(nums@),
        decreases k,
    {
        k = k - 1;
        proof {
            lemma_u8_list_step(ps, k as int);
        }
        assert(pieces@[k as int]@ == ps[k as int]);
        if pieces[k].len() > 0 {
            match parse_u8(pieces[k].as_slice()) {
                Some(v) => {
                    nums.insert(0, v);
                    assert(nums@ =~= seq![v] + u8_list_of(ps.skip(k + 1)).unwrap());
                },
                None => {
                    proof {
                        lemma_u8_list_none(ps, k as int);
                    }
                    return None;
                },
            }
        }
    }
    assert(ps.skip(0) =~= ps);
    Some(nums)
}

/// Reads a color `r,g,b[,a]`.
pub fn parse_color(s: &[char]) -> (r: Result<Color, ColorParseError>)
    ensures
        match r {
            Ok(c) => color_of(s@) == Some(c),
            Err(e) => color_of(s@) is None && (e is WrongNumberCount <==> u8_list_of(split(s@, ',')) is Some),
        },
{
    let nums = match parse_u8_list(s, ',') {
        Some(v) => v,
        None => {
            return Err(ColorParseError::InvalidList(InvalidListError::new(s)));
        },
    };
    if nums.len() == 3 {
        Ok(Color { r: nums[0], g: nums[1], b: nums[2], a: None })
    } else if nums.len() == 4 {
        Ok(Color { r: nums[0], g: nums[1], b: nums[2], a: Some(nums[3]) })
    } else {
        Err(ColorParseError::WrongNumberCount)
    }
}

/// One unreadable non-empty piece makes the whole list unreadable.
proof fn lemma_u8_list_none(pieces: Seq<Seq<char>>, k: int)
    requires
        0 <= k < pieces.len(),
        pieces[k].len() > 0,
        u8_of(pieces[k]) is None,
    ensures
        u8_list_of(pieces) is None,
    decreases k,
{
    if k > 0 {
        assert(pieces.drop_first()[k - 1] == pieces[k]);
        lemma_u8_list_none(pieces.drop_first(), k - 1);
    }
}

/// The curve type that a one-letter token names.
pub open spec fn letter_type(t: Seq<char>) -> Option<SliderCurveType> {
    if t == seq!['B'] {
        Some(SliderCurveType::Bezier)
    } else if t == seq!['C'] {
        Some(SliderCurveType::Catmull)
    } else if t == seq!['L'] {
        Some(SliderCurveType::Linear)
    } else if t == seq!['P'] {
        Some(SliderCurveType::PerfectCurve)
    } else {
        None
    }
}

fn parse_letter(t: &[char]) -> (r: Option<SliderCurveType>)
    ensures
        r == letter_type(t@),
{
    if t.len() == 1 {
        if t[0] == 'B' {
            assert(t@ =~= seq!['B']);
            return Some(SliderCurveType::Bezier);
        } else if t[0] == 'C' {
            assert(t@ =~= seq!['C']);
            return Some(SliderCurveType::Catmull);
        } else if t[0] == 'L' {
            assert(t@ =~= seq!['L']);
            return Some(SliderCurveType::Linear);
        } else if t[0] == 'P' {
            assert(t@ =~= seq!['P']);
            return Some(SliderCurveType::PerfectCurve);
        }
    }
    None
}

/// `x:y`, split at the first colon, as a point of curve type `t`.
pub open spec fn slider_point_of(s: Seq<char>, t: SliderCurveType) -> Option<SliderPoint> {
    let p = first_index(s, ':');
    if p < 0 {
        None
    } else {
        match (i32_of(s.take(p)), i32_of(s.skip(p + 1))) {
            (Some(x), Some(y)) => Some(SliderPoint { curve_type: t, x, y }),
            _ => None,
        }
    }
}

fn parse_slider_point(s: &[char], t: SliderCurveType) -> (r: Option<SliderPoint>)
    ensures
        r == slider_point_of(s@, t),
{
    match find_char(s, ':') {
        None => None,
        Some(p) => {
            proof {
                crate::text::lemma_first_index_bounds(s@, ':');
            }
            assert(p < s@.len());
            assert(s@.len() == s.len());
            let x = parse_i32(vstd::slice::slice_subrange(s, 0, p));
            let y = parse_i32(vstd::slice::slice_subrange(s, p + 1, s.len()));
            assert(s@.subrange(0, p as int) =~= s@.take(p as int));
            assert(s@.subrange(p + 1, s@.len() as int) =~= s@.skip(p + 1));
            match (x, y) {
                (Some(x), Some(y)) => Some(SliderPoint { curve_type: t, x, y }),
                _ => None,
            }
        },
    }
}

/// The points of the tokens from position `k` on, `cur` being the type that
/// the next point takes: a letter sets it for the point that follows, which
/// then resets it to `Inherit`.
pub open spec fn curve_points_from(toks: Seq<Seq<char>>, k: int, cur: SliderCurveType) -> Option<
    Seq<SliderPoint>,
>
    decreases toks.len() - k,
{
    if k < 0 || k >= toks.len() {
        Some(Seq::empty())
    } else {
        match letter_type(toks[k]) {
            Some(t) => curve_points_from(toks, k + 1, t),
            None => match slider_point_of(toks[k], cur) {
                Some(p) => match curve_points_from(toks, k + 1, SliderCurveType::Inherit) {
                    Some(rest) => Some(seq![p] + rest),
                    None => None,
                },
                None => None,
            },
        }
    }
}

/// `T|x:y|...` with `T` a curve letter: the first type and the points.
pub open spec fn curve_points_of(s: Seq<char>) -> Option<(SliderCurveType, Seq<SliderPoint>)> {
    let toks = split(s, '|');
    match letter_type(toks[0]) {
        Some(first) => match curve_points_from(toks, 1, SliderCurveType::Inherit) {
            Some(pts) => Some((first, pts)),
            None => None,
        },
        None => None,
    }
}

proof fn lemma_split_nonempty(s: Seq<char>, c: char)
    ensures
        split(s, c).len() >= 1,
{
    crate::text::lemma_first_index_bounds(s, c);
}

/// Reads the curve of a slider: `T|x:y|...`, where a letter token (`B`, `C`,
/// `L`, `P`) gives the type of the point after it.
pub fn parse_curve_points_chars(s: &[char]) -> (r: Result<(SliderCurveType, Vec<SliderPoint>), CurvePointsParseError>)
    ensures
        match r {
            Ok((first, pts)) => curve_points_of(s@) == Some((first, pts@)),
            Err(e) => curve_points_of(s@) is None && (e matches CurvePointsParseError::UnknownCurveType(t)
                ==> letter_type(split(s@, '|')[0]) is None && t@ == split(s@, '|')[0]),
        },
{
    let toks = split_chars(s, '|');
    let ghost ts = split(s@, '|');
    proof {
        lemma_split_nonempty(s@, '|');
    }
    assert(toks@.len() == ts.len());
    assert(toks@[0]@ == ts[0]);
    let first = match parse_letter(toks[0].as_slice()) {
        Some(t) => t,
        None => {
            return Err(CurvePointsParseError::UnknownCurveType(string_of(toks[0].as_slice())));
        },
    };
    let mut pts: Vec<SliderPoint> = Vec::new();
    let mut cur = SliderCurveType::Inherit;
    let mut k: usize = 1;
    while k < toks.len()
        invariant
            1 <= k <= toks@.len(),
            views(toks@) == ts,
            ts == split(s@, '|'),
            letter_type(ts[0]) == Some(first),
            curve_points_from(ts, 1, SliderCurveType::Inherit) == match curve_points_from(ts, k as int, cur) {
                Some(rest) => Some(pts@ + rest),
                None => None::<Seq<SliderPoint>>,
            },
        decreases toks@.len() - k,
    {
        assert(toks@[k as int]@ == ts[k as int]);
        match parse_letter(toks[k].as_slice()) {
            Some(t) => {
                cur = t;
            },
            None => {
                match parse_slider_point(toks[k].as_slice(), cur) {
                    Some(p) => {
                        proof {
                            match curve_points_from(ts, k + 1, SliderCurveType::Inherit) {
                                Some(rest) => {
                                    assert(pts@ + (seq![p] + rest) =~= pts@.push(p) + rest);
                                },
                                None => {},
                            }
                        }
                        pts.push(p);
                        cur = SliderCurveType::Inherit;
                    },
                    None => {
                        assert(curve_points_from(ts, k as int, cur) is None);
                        assert(letter_type(ts[0]) == Some(first));
                        return Err(CurvePointsParseError::InvalidSliderPoint);
                    },
                }
            },
        }
        k = k + 1;
    }
    assert(pts@ + Seq::<SliderPoint>::empty() =~= pts@);
    Ok((first, pts))
}

/// Reads the curve of a slider from its text.
pub fn parse_curve_points(s: &str) -> (r: Result<(SliderCurveType, Vec<SliderPoint>), CurvePointsParseError>)
    ensures
        match r {
            Ok((first, pts)) => curve_points_of(s@) == Some((first, pts@)),
            Err(_) => curve_points_of(s@) is None,
        },
{
    let cs = crate::text::chars_of(s);
    parse_curve_points_chars(cs.as_slice())
}

/// Why a timing point was refused.
#[derive(Clone, Debug, PartialEq, Eq)]
pub enum TimingPointParseError {
    /// Fewer than 2 fields; holds the count.
    LessThan2Values(usize),
    /// More than 8 fields; holds the count.
    MoreThan8Values(usize),
    InvalidFloat,
    InvalidInt,
    InvalidSampleBank(InvalidSampleBankError),
}

/// Field `i` read by `read`, or `d` where the record stops before it.
pub open spec fn field_or<A>(v: Seq<Seq<char>>, i: int, read: spec_fn(Seq<char>) -> Option<A>, d: A) -> Option<A> {
    if i < v.len() {
        read(v[i])
    } else {
        Some(d)
    }
}

/// `time,beatLength[,meter,sampleSet,sampleIndex,volume,uninherited,effects]`:
/// two to eight fields, those left out at zero (`Auto`, `false`).
pub open spec fn timing_point_of(s: Seq<char>) -> Option<TimingPoint> {
    let v = split(s, ',');
    let time = decimal_value(v[0]);
    let beat_length = field_or(v, 1, |t: Seq<char>| decimal_value(t), Decimal { mantissa: 0, scale: 0 });
    let meter = field_or(v, 2, |t: Seq<char>| i32_of(t), 0i32);
    let sample_set = field_or(v, 3, |t: Seq<char>| sample_bank_of(t), SampleBank::Auto);
    let sample_index = field_or(v, 4, |t: Seq<char>| u32_of(t), 0u32);
    let volume = field_or(v, 5, |t: Seq<char>| u32_of(t), 0u32);
    let uninherited = field_or(v, 6, |t: Seq<char>| u8_of(t), 0u8);
    let effects = field_or(v, 7, |t: Seq<char>| u32_of(t), 0u32);
    if 2 <= v.len() <= 8 && time is Some && beat_length is Some && meter is Some && sample_set is Some
        && sample_index is Some && volume is Some && uninherited is Some && effects is Some {
        Some(
            TimingPoint {
                time: time.unwrap(),
                beat_length: beat_length.unwrap(),
                meter: meter.unwrap(),
                sample_set: sample_set.unwrap(),
                sample_index: sample_index.unwrap(),
                volume: volume.unwrap(),
                uninherited: uninherited.unwrap() != 0,
                effects: effects.unwrap(),
            },
        )
    } else {
        None
    }
}

/// Reads a timing point record.
pub fn parse_timing_point(s: &[char]) -> (r: Result<TimingPoint, TimingPointParseError>)
    ensures
        match r {
            Ok(tp) => timing_point_of(s@) == Some(tp) && tp.time.wf() && tp.beat_length.wf(),
            Err(e) => timing_point_of(s@) is None && (e matches TimingPointParseError::LessThan2Values(n)
                ==> n == split(s@, ',').len() && n < 2) && (e matches TimingPointParseError::MoreThan8Values(n)
                ==> n == split(s@, ',').len() && n > 8) && (split(s@, ',').len() < 2
                ==> e is LessThan2Values) && (split(s@, ',').len() > 8 ==> e is MoreThan8Values),
        },
{
    let v = split_chars(s, ',');
    let ghost vs = split(s@, ',');
    assert(v@.len() == vs.len());
    if v.len() < 2 {
        return Err(TimingPointParseError::LessThan2Values(v.len()));
    }
    if v.len() > 8 {
        return Err(TimingPointParseError::MoreThan8Values(v.len()));
    }
    assert(forall|i: int| 0 <= i < vs.len() ==> v@[i]@ == #[trigger] vs[i]);
    let n = v.len();
    let time = match parse_decimal(v[0].as_slice()) {
        Some(d) => d,
        None => {
            return Err(TimingPointParseError::InvalidFloat);
        },
    };
    let beat_length = match parse_decimal(v[1].as_slice()) {
        Some(d) => d,
        None => {
            return Err(TimingPointParseError::InvalidFloat);
        },
    };
    let mut meter: i32 = 0;
    if n > 2 {
        meter = match parse_i32(v[2].as_slice()) {
            Some(x) => x,
            None => {
                return Err(TimingPointParseError::InvalidInt);
            },
        };
    }
    let mut sample_set = SampleBank::Auto;
    if n > 3 {
        sample_set = match parse_sample_bank(v[3].as_slice()) {
            Ok(b) => b,
            Err(e) => {
                return Err(TimingPointParseError::InvalidSampleBank(e));
            },
        };
    }
    let mut sample_index: u32 = 0;
    if n > 4 {
        sample_index = match parse_u32(v[4].as_slice()) {
            Some(x) => x,
            None => {
                return Err(TimingPointParseError::InvalidInt);
            },
        };
    }
    let mut volume: u32 = 0;
    if n > 5 {
        volume = match parse_u32(v[5].as_slice()) {
            Some(x) => x,
            None => {
                return Err(TimingPointParseError::InvalidInt);
            },
        };
    }
    let mut uninherited: u8 = 0;
    if n > 6 {
        uninherited = match parse_u8(v[6].as_slice()) {
            Some(x) => x,
            None => {
                return Err(TimingPointParseError::InvalidInt);
            },
        };
    }
    let mut effects: u32 = 0;
    if n > 7 {
        effects = match parse_u32(v[7].as_slice()) {
            Some(x) => x,
            None => {
                return Err(TimingPointParseError::InvalidInt);
            },
        };
    }
    Ok(
        TimingPoint {
            time,
            beat_length,
            meter,
            sample_set,
            sample_index,
            volume,
            uninherited: uninherited != 0,
            effects,
        },
    )
}

} // verus!
