//! Hit object records: the packed type byte and the per-kind tails.
use vstd::prelude::*;
use crate::decimal::{Decimal, decimal_value, parse_decimal};
use crate::model::{
    HitObject, HitObjectParams, HitObjectType, HitSample, HitSampleSet, HitSound, SampleBank,
    SliderCurveType, SliderPoint,
};
use crate::records::{
    CurvePointsParseError, HitSampleParseError, HitSampleView, curve_points_of, hit_sample_of,
    hit_sample_set_of, parse_curve_points_chars, parse_hit_sample,
    parse_hit_sample_set, parse_i32, parse_u32, parse_u8, parse_u8_list, u32_of, u8_list_of, i32_of,
    u8_of,
};
use crate::text::{first_index, find_char, split, split_chars, string_of, views};

verus! {

/// Why a hit object was refused.
#[derive(Clone, Debug, PartialEq, Eq)]
pub enum HitObjectParseError {
    /// The type byte selects no kind; holds the byte as written.
    UnknownHitObjectType(String),
    /// Fewer than 5 fields; holds the count.
    NotEnoughArguments(usize),
    /// A slider without its curve, slides and length; holds the count of its fields.
    WrongSliderParameterCount(usize),
    /// A spinner without its end time; holds the count of its fields.
    WrongSpinnerParameterCount(usize),
    /// A hold whose tail is not one field; holds the count of its fields.
    WrongHoldParameterCount(usize),
    InvalidHitSoundList,
    InvalidHitSampleSetList,
    CurvePointsParse(CurvePointsParseError),
    HitSampleParse(HitSampleParseError),
    /// A hold tail without the colon after its end time.
    InvalidHold,
    InvalidFloat,
    InvalidInt,
}

/// What a set of hit object parameters holds.
pub enum ParamsView {
    HitCircle,
    Slider {
        first_curve_type: SliderCurveType,
        curve_points: Seq<SliderPoint>,
        slides: u32,
        length: Decimal,
        edge_hitsounds: Seq<HitSound>,
        edge_samplesets: Seq<HitSampleSet>,
    },
    Spinner { end_time: Decimal },
    Hold { end_time: Decimal },
}

impl View for HitObjectParams {
    type V = ParamsView;

    open spec fn view(&self) -> ParamsView {
        match self {
            HitObjectParams::HitCircle => ParamsView::HitCircle,
            HitObjectParams::Slider {
                first_curve_type,
                curve_points,
                slides,
                length,
                edge_hitsounds,
                edge_samplesets,
            } => ParamsView::Slider {
                first_curve_type: *first_curve_type,
                curve_points: curve_points@,
                slides: *slides,
                length: *length,
                edge_hitsounds: edge_hitsounds@,
                edge_samplesets: edge_samplesets@,
            },
            HitObjectParams::Spinner { end_time } => ParamsView::Spinner { end_time: *end_time },
            HitObjectParams::Hold { end_time } => ParamsView::Hold { end_time: *end_time },
        }
    }
}

/// What a hit object holds.
pub struct HitObjectView {
    pub x: i32,
    pub y: i32,
    pub time: Decimal,
    pub object_type: HitObjectType,
    pub combo_color_skip: Option<u8>,
    pub hit_sound: HitSound,
    pub object_params: ParamsView,
    pub hit_sample: HitSampleView,
}

impl View for HitObject {
    type V = HitObjectView;

    open spec fn view(&self) -> HitObjectView {
        HitObjectView {
            x: self.x,
            y: self.y,
            time: self.time,
            object_type: self.object_type,
            combo_color_skip: self.combo_color_skip,
            hit_sound: self.hit_sound,
            object_params: self.object_params@,
            hit_sample: self.hit_sample@,
        }
    }
}

pub open spec fn view_type(p: ParamsView) -> HitObjectType {
    match p {
        ParamsView::HitCircle => HitObjectType::HitCircle,
        ParamsView::Slider { .. } => HitObjectType::Slider,
        ParamsView::Spinner { .. } => HitObjectType::Spinner,
        ParamsView::Hold { .. } => HitObjectType::Hold,
    }
}

/// The kind that the type byte selects: bit 0 circle, bit 1 slider, bit 3
/// spinner, bit 7 hold, the lowest set bit deciding.
pub open spec fn decoded_type(t: u8) -> Option<HitObjectType> {
    if t & 1 != 0 {
        Some(HitObjectType::HitCircle)
    } else if t & 2 != 0 {
        Some(HitObjectType::Slider)
    } else if t & 8 != 0 {
        Some(HitObjectType::Spinner)
    } else if t & 128 != 0 {
        Some(HitObjectType::Hold)
    } else {
        None
    }
}

/// The combo colors to skip: bits 4 to 6, where bit 2 marks a new combo.
pub open spec fn combo_skip_of(t: u8) -> Option<u8> {
    if t & 4 != 0 {
        Some(((t & 0x70) >> 4u8) as u8)
    } else {
        None
    }
}

pub open spec fn type_bit(k: HitObjectType) -> u8 {
    match k {
        HitObjectType::HitCircle => 1,
        HitObjectType::Slider => 2,
        HitObjectType::Spinner => 8,
        HitObjectType::Hold => 128,
    }
}

/// The type byte of a kind and a combo skip.
pub open spec fn encoded_type(k: HitObjectType, skip: Option<u8>) -> u8 {
    match skip {
        Some(n) => (type_bit(k) | 4 | (((n & 7) << 4u8) as u8)) as u8,
        None => type_bit(k),
    }
}

/// Decoding the type byte written for a kind and a combo skip of at most 7
/// gives back that kind and that skip.
pub proof fn lemma_type_byte_round_trip(k: HitObjectType, skip: Option<u8>)
    requires
        skip matches Some(n) ==> n <= 7,
    ensures
        decoded_type(encoded_type(k, skip)) == Some(k),
        combo_skip_of(encoded_type(k, skip)) == skip,
{
    match skip {
        Some(n) => {
            let t = encoded_type(k, skip);
            match k {
                HitObjectType::HitCircle => {
                    assert(t == (1u8 | 4 | (((n & 7) << 4u8) as u8)) as u8);
                    assert(n <= 7 ==> ((((1u8 | 4 | (((n & 7) << 4u8) as u8)) as u8) & 0x70) >> 4u8) as u8 == n) by (bit_vector);
                    assert(((1u8 | 4 | (((n & 7) << 4u8) as u8)) as u8) & 4 != 0) by (bit_vector);
                    assert(((1u8 | 4 | (((n & 7) << 4u8) as u8)) as u8) & 1 != 0) by (bit_vector);
                },
                HitObjectType::Slider => {
                    assert(t == (2u8 | 4 | (((n & 7) << 4u8) as u8)) as u8);
                    assert(n <= 7 ==> ((((2u8 | 4 | (((n & 7) << 4u8) as u8)) as u8) & 0x70) >> 4u8) as u8 == n) by (bit_vector);
                    assert(((2u8 | 4 | (((n & 7) << 4u8) as u8)) as u8) & 4 != 0) by (bit_vector);
                    assert(((2u8 | 4 | (((n & 7) << 4u8) as u8)) as u8) & 1 == 0) by (bit_vector);
                    assert(((2u8 | 4 | (((n & 7) << 4u8) as u8)) as u8) & 2 != 0) by (bit_vector);
                },
                HitObjectType::Spinner => {
                    assert(t == (8u8 | 4 | (((n & 7) << 4u8) as u8)) as u8);
                    assert(n <= 7 ==> ((((8u8 | 4 | (((n & 7) << 4u8) as u8)) as u8) & 0x70) >> 4u8) as u8 == n) by (bit_vector);
                    assert(((8u8 | 4 | (((n & 7) << 4u8) as u8)) as u8) & 4 != 0) by (bit_vector);
                    assert(((8u8 | 4 | (((n & 7) << 4u8) as u8)) as u8) & 1 == 0) by (bit_vector);
                    assert(((8u8 | 4 | (((n & 7) << 4u8) as u8)) as u8) & 2 == 0) by (bit_vector);
                    assert(((8u8 | 4 | (((n & 7) << 4u8) as u8)) as u8) & 8 != 0) by (bit_vector);
                },
                HitObjectType::Hold => {
                    assert(t == (128u8 | 4 | (((n & 7) << 4u8) as u8)) as u8);
                    assert(n <= 7 ==> ((((128u8 | 4 | (((n & 7) << 4u8) as u8)) as u8) & 0x70) >> 4u8) as u8 == n) by (bit_vector);
                    assert(((128u8 | 4 | (((n & 7) << 4u8) as u8)) as u8) & 4 != 0) by (bit_vector);
                    assert(((128u8 | 4 | (((n & 7) << 4u8) as u8)) as u8) & 1 == 0) by (bit_vector);
                    assert(((128u8 | 4 | (((n & 7) << 4u8) as u8)) as u8) & 2 == 0) by (bit_vector);
                    assert(((128u8 | 4 | (((n & 7) << 4u8) as u8)) as u8) & 8 == 0) by (bit_vector);
                    assert(((128u8 | 4 | (((n & 7) << 4u8) as u8)) as u8) & 128 != 0) by (bit_vector);
                },
            }
        },
        None => {
            assert(1u8 & 4 == 0 && 2u8 & 4 == 0 && 8u8 & 4 == 0 && 128u8 & 4 == 0) by (bit_vector);
            assert(1u8 & 1 != 0 && 2u8 & 2 != 0 && 8u8 & 8 != 0 && 128u8 & 128 != 0) by (bit_vector);
            assert(2u8 & 1 == 0 && 8u8 & 1 == 0 && 8u8 & 2 == 0 && 128u8 & 1 == 0 && 128u8 & 2 == 0
                && 128u8 & 8 == 0) by (bit_vector);
        },
    }
}

impl HitObject {
    pub fn raw_is_hit_circle(raw_object_type: u8) -> (r: bool)
        ensures
            r == (raw_object_type & 1 != 0),
    {
        raw_object_type & 1 != 0
    }

    pub fn raw_is_slider(raw_object_type: u8) -> (r: bool)
        ensures
            r == (raw_object_type & 2 != 0),
    {
        raw_object_type & 2 != 0
    }

    pub fn raw_is_spinner(raw_object_type: u8) -> (r: bool)
        ensures
            r == (raw_object_type & 8 != 0),
    {
        raw_object_type & 8 != 0
    }

    pub fn raw_is_osu_mania_hold(raw_object_type: u8) -> (r: bool)
        ensures
            r == (raw_object_type & 128 != 0),
    {
        raw_object_type & 128 != 0
    }

    pub fn raw_is_new_combo(raw_object_type: u8) -> (r: bool)
        ensures
            r == (raw_object_type & 4 != 0),
    {
        raw_object_type & 4 != 0
    }

    pub fn is_hit_circle(&self) -> (r: bool)
        ensures
            r == (self.object_type == HitObjectType::HitCircle),
    {
        self.object_type == HitObjectType::HitCircle
    }

    pub fn is_slider(&self) -> (r: bool)
        ensures
            r == (self.object_type == HitObjectType::Slider),
    {
        self.object_type == HitObjectType::Slider
    }

    pub fn is_spinner(&self) -> (r: bool)
        ensures
            r == (self.object_type == HitObjectType::Spinner),
    {
        self.object_type == HitObjectType::Spinner
    }

    pub fn is_osu_mania_hold(&self) -> (r: bool)
        ensures
            r == (self.object_type == HitObjectType::Hold),
    {
        self.object_type == HitObjectType::Hold
    }

    pub fn is_new_combo(&self) -> (r: bool)
        ensures
            r == (self.combo_color_skip is Some),
    {
        self.combo_color_skip.is_some()
    }

    /// The type byte as the file format packs it: the kind's bit, and for a
    /// new combo bit 2 with the skip count (its low 3 bits) in bits 4 to 6.
    pub fn raw_object_type(&self) -> (r: u8)
        ensures
            r == encoded_type(self.object_type, self.combo_color_skip),
    {
        let rt: u8 = match self.object_type {
            HitObjectType::HitCircle => 1,
            HitObjectType::Slider => 2,
            HitObjectType::Spinner => 8,
            HitObjectType::Hold => 128,
        };
        match self.combo_color_skip {
            Some(n) => rt | 4 | ((n & 7) << 4u8),
            None => rt,
        }
    }
}

/// The sample sets of a `|`-separated list, empty pieces skipped.
pub open spec fn sample_set_list_of(pieces: Seq<Seq<char>>) -> Option<Seq<HitSampleSet>>
    decreases pieces.len(),
{
    if pieces.len() == 0 {
        Some(Seq::empty())
    } else {
        let head = pieces[0];
        match sample_set_list_of(pieces.drop_first()) {
            None => None,
            Some(rest) => if head.len() == 0 {
                Some(rest)
            } else {
                match hit_sample_set_of(head) {
                    Some(v) => Some(seq![v] + rest),
                    None => None,
                }
            },
        }
    }
}

proof fn lemma_sample_set_list_none(pieces: Seq<Seq<char>>, k: int)
    requires
        0 <= k < pieces.len(),
        pieces[k].len() > 0,
        hit_sample_set_of(pieces[k]) is None,
    ensures
        sample_set_list_of(pieces) is None,
    decreases k,
{
    if k > 0 {
        assert(pieces.drop_first()[k - 1] == pieces[k]);
        lemma_sample_set_list_none(pieces.drop_first(), k - 1);
    }
}

fn parse_sample_set_list(s: &[char]) -> (r: Option<Vec<HitSampleSet>>)
    ensures
        match r {
            Some(v) => sample_set_list_of(split(s@, '|')) == Some(v@),
            None => sample_set_list_of(split(s@, '|')) is None,
        },
{
    let pieces = split_chars(s, '|');
    let ghost ps = split(s@, '|');
    let mut sets: Vec<HitSampleSet> = Vec::new();
    let mut k: usize = pieces.len();
    assert(ps.skip(ps.len() as int) =~= Seq::<Seq<char>>::empty());
    while k > 0
        invariant
            k <= pieces@.len(),
            ps == split(s@, '|'),
            views(pieces@) == ps,
            sample_set_list_of(ps.skip(k as int)) == Some(sets@),
        decreases k,
    {
        k = k - 1;
        assert(ps.skip(k as int).drop_first() =~= ps.skip(k + 1));
        assert(pieces@[k as int]@ == ps[k as int]);
        if pieces[k].len() > 0 {
            match parse_hit_sample_set(pieces[k].as_slice()) {
                Some(v) => {
                    sets.insert(0, v);
                    assert(sets@ =~= seq![v] + sample_set_list_of(ps.skip(k + 1)).unwrap());
                },
                None => {
                    proof {
                        lemma_sample_set_list_none(ps, k as int);
                    }
                    return None;
                },
            }
        }
    }
    assert(ps.skip(0) =~= ps);
    Some(sets)
}

pub open spec fn default_sample_view() -> HitSampleView {
    HitSampleView {
        normal_set: SampleBank::Auto,
        addition_set: SampleBank::Auto,
        index: 0,
        volume: 0,
        filename: None,
    }
}

/// The hit sample that a tail token gives: the default where there is none
/// or it is empty.
pub open spec fn sample_of_token(tok: Option<Seq<char>>) -> Option<HitSampleView> {
    match tok {
        Some(t) => if t.len() > 0 {
            hit_sample_of(t)
        } else {
            Some(default_sample_view())
        },
        None => Some(default_sample_view()),
    }
}

pub open spec fn to_hit_sounds(h: Seq<u8>) -> Seq<HitSound> {
    h.map_values(|b: u8| HitSound(b))
}

/// The parameters of a slider's tail `curve,slides,length[,edgeSounds,edgeSets,hitSample]`
/// and its hit sample token. Without edge sounds, each of the `slides + 1`
/// edges gets no sound and the default sets.
pub open spec fn slider_of(p: Seq<Seq<char>>) -> Option<(ParamsView, Option<Seq<char>>)> {
    match (curve_points_of(p[0]), u32_of(p[1]), decimal_value(p[2])) {
        (Some(c), Some(slides), Some(length)) => {
            let edges: Option<(Seq<u8>, Seq<HitSampleSet>)> = if p.len() == 6 {
                match (u8_list_of(split(p[3], '|')), sample_set_list_of(split(p[4], '|'))) {
                    (Some(h), Some(ss)) => Some((h, ss)),
                    _ => None,
                }
            } else {
                Some((Seq::empty(), Seq::empty()))
            };
            match edges {
                None => None,
                Some(e) => {
                    let hs = if e.0.len() == 0 {
                        Seq::new((slides + 1) as nat, |i: int| HitSound(0))
                    } else {
                        to_hit_sounds(e.0)
                    };
                    let ss = if e.0.len() == 0 {
                        Seq::new(
                            (slides + 1) as nat,
                            |i: int|
                                HitSampleSet {
                                    normal_set: SampleBank::Auto,
                                    addition_set: SampleBank::Auto,
                                },
                        )
                    } else {
                        e.1
                    };
                    Some(
                        (
                            ParamsView::Slider {
                                first_curve_type: c.0,
                                curve_points: c.1,
                                slides,
                                length,
                                edge_hitsounds: hs,
                                edge_samplesets: ss,
                            },
                            if p.len() == 6 { Some(p[5]) } else { None },
                        ),
                    )
                },
            }
        },
        _ => None,
    }
}

/// The parameters that the type byte `t` selects from the tail fields `p`,
/// and the hit sample token among them.
pub open spec fn params_of(t: u8, p: Seq<Seq<char>>) -> Option<(ParamsView, Option<Seq<char>>)> {
    if t & 1 != 0 {
        Some((ParamsView::HitCircle, if p.len() == 1 { Some(p[0]) } else { None }))
    } else if t & 2 != 0 {
        if p.len() < 3 {
            None
        } else {
            slider_of(p)
        }
    } else if t & 8 != 0 {
        if p.len() < 1 {
            None
        } else {
            match decimal_value(p[0]) {
                Some(e) => Some(
                    (ParamsView::Spinner { end_time: e }, if p.len() == 2 { Some(p[1]) } else { None }),
                ),
                None => None,
            }
        }
    } else if t & 128 != 0 {
        if p.len() != 1 {
            None
        } else {
            let q = first_index(p[0], ':');
            if q < 0 {
                None
            } else {
                match decimal_value(p[0].take(q)) {
                    Some(e) => Some((ParamsView::Hold { end_time: e }, Some(p[0].skip(q + 1)))),
                    None => None,
                }
            }
        }
    } else {
        None
    }
}

/// `x,y,time,type,hitSound` then the tail of the kind that `type` selects.
pub open spec fn hit_object_of(s: Seq<char>) -> Option<HitObjectView> {
    let a = split(s, ',');
    if a.len() < 5 {
        None
    } else {
        let x = i32_of(a[0]);
        let y = i32_of(a[1]);
        let time = decimal_value(a[2]);
        let ty = u8_of(a[3]);
        let hs = u8_of(a[4]);
        if x is Some && y is Some && time is Some && ty is Some && hs is Some {
            match params_of(ty.unwrap(), a.skip(5)) {
                Some((params, tok)) => match sample_of_token(tok) {
                    Some(sample) => Some(
                        HitObjectView {
                            x: x.unwrap(),
                            y: y.unwrap(),
                            time: time.unwrap(),
                            object_type: view_type(params),
                            combo_color_skip: combo_skip_of(ty.unwrap()),
                            hit_sound: HitSound(hs.unwrap()),
                            object_params: params,
                            hit_sample: sample,
                        },
                    ),
                    None => None,
                },
                None => None,
            }
        } else {
            None
        }
    }
}

pub open spec fn opt_view(o: Option<Vec<char>>) -> Option<Seq<char>> {
    match o {
        Some(v) => Some(v@),
        None => None,
    }
}

fn parse_slider(p: &[Vec<char>]) -> (r: Result<(HitObjectParams, Option<Vec<char>>), HitObjectParseError>)
    requires
        p@.len() >= 3,
    ensures
        match r {
            Ok((params, tok)) => slider_of(views(p@)) == Some((params@, opt_view(tok))),
            Err(e) => slider_of(views(p@)) is None && !(e is NotEnoughArguments),
        },
{
    let ghost ps = views(p@);
    assert(forall|i: int| 0 <= i < p@.len() ==> p@[i]@ == #[trigger] ps[i]);
    let (first_curve_type, curve_points) = match parse_curve_points_chars(p[0].as_slice()) {
        Ok(c) => c,
        Err(e) => {
            return Err(HitObjectParseError::CurvePointsParse(e));
        },
    };
    let slides = match parse_u32(p[1].as_slice()) {
        Some(v) => v,
        None => {
            return Err(HitObjectParseError::InvalidInt);
        },
    };
    let length = match parse_decimal(p[2].as_slice()) {
        Some(v) => v,
        None => {
            return Err(HitObjectParseError::InvalidFloat);
        },
    };
    let mut edge_hitsounds: Vec<HitSound> = Vec::new();
    let mut edge_samplesets: Vec<HitSampleSet> = Vec::new();
    let mut tok: Option<Vec<char>> = None;
    let mut raw_sounds_empty = true;
    if p.len() == 6 {
        let sounds = match parse_u8_list(p[3].as_slice(), '|') {
            Some(v) => v,
            None => {
                return Err(HitObjectParseError::InvalidHitSoundList);
            },
        };
        let sets = match parse_sample_set_list(p[4].as_slice()) {
            Some(v) => v,
            None => {
                return Err(HitObjectParseError::InvalidHitSampleSetList);
            },
        };
        let mut i: usize = 0;
        while i < sounds.len()
            invariant
                i <= sounds@.len(),
                edge_hitsounds@ == to_hit_sounds(sounds@.take(i as int)),
            decreases sounds@.len() - i,
        {
            edge_hitsounds.push(HitSound(sounds[i]));
            i = i + 1;
            assert(edge_hitsounds@ =~= to_hit_sounds(sounds@.take(i as int)));
        }
        assert(sounds@.take(i as int) =~= sounds@);
        raw_sounds_empty = sounds.len() == 0;
        edge_samplesets = sets;
        tok = Some(slice_to_vec_chars(p[5].as_slice()));
    }
    if raw_sounds_empty {
        edge_hitsounds = Vec::new();
        edge_samplesets = Vec::new();
        let count: u64 = slides as u64 + 1;
        let mut i: u64 = 0;
        while i < count
            invariant
                i <= count,
                count == slides + 1,
                edge_hitsounds@ =~= Seq::new(i as nat, |j: int| HitSound(0)),
                edge_samplesets@ =~= Seq::new(
                    i as nat,
                    |j: int| HitSampleSet { normal_set: SampleBank::Auto, addition_set: SampleBank::Auto },
                ),
            decreases count - i,
        {
            edge_hitsounds.push(HitSound(0));
            edge_samplesets.push(HitSampleSet { normal_set: SampleBank::Auto, addition_set: SampleBank::Auto });
            i = i + 1;
        }
    }
    let params = HitObjectParams::Slider {
        first_curve_type,
        curve_points,
        slides,
        length,
        edge_hitsounds,
        edge_samplesets,
    };
    Ok((params, tok))
}

fn slice_to_vec_chars(s: &[char]) -> (r: Vec<char>)
    ensures
        r@ == s@,
{
    vstd::slice::slice_to_vec(s)
}

fn parse_params(t: u8, p: &[Vec<char>]) -> (r: Result<(HitObjectParams, Option<Vec<char>>), HitObjectParseError>)
    ensures
        match r {
            Ok((params, tok)) => params_of(t, views(p@)) == Some((params@, opt_view(tok))),
            Err(e) => params_of(t, views(p@)) is None && !(e is NotEnoughArguments),
        },
{
    let ghost ps = views(p@);
    assert(forall|i: int| 0 <= i < p@.len() ==> p@[i]@ == #[trigger] ps[i]);
    if HitObject::raw_is_hit_circle(t) {
        let tok = if p.len() == 1 { Some(slice_to_vec_chars(p[0].as_slice())) } else { None };
        Ok((HitObjectParams::HitCircle, tok))
    } else if HitObject::raw_is_slider(t) {
        if p.len() < 3 {
            return Err(HitObjectParseError::WrongSliderParameterCount(p.len()));
        }
        parse_slider(p)
    } else if HitObject::raw_is_spinner(t) {
        if p.len() < 1 {
            return Err(HitObjectParseError::WrongSpinnerParameterCount(p.len()));
        }
        let end_time = match parse_decimal(p[0].as_slice()) {
            Some(v) => v,
            None => {
                return Err(HitObjectParseError::InvalidFloat);
            },
        };
        let tok = if p.len() == 2 { Some(slice_to_vec_chars(p[1].as_slice())) } else { None };
        Ok((HitObjectParams::Spinner { end_time }, tok))
    } else if HitObject::raw_is_osu_mania_hold(t) {
        if p.len() != 1 {
            return Err(HitObjectParseError::WrongHoldParameterCount(p.len()));
        }
        let f = p[0].as_slice();
        let q = match find_char(f, ':') {
            Some(q) => q,
            None => {
                return Err(HitObjectParseError::InvalidHold);
            },
        };
        proof {
            crate::text::lemma_first_index_bounds(f@, ':');
        }
        assert(q < f@.len());
        assert(f@.len() == f.len());
        let end_time = match parse_decimal(vstd::slice::slice_subrange(f, 0, q)) {
            Some(v) => v,
            None => {
                assert(f@.subrange(0, q as int) =~= f@.take(q as int));
                return Err(HitObjectParseError::InvalidFloat);
            },
        };
        assert(f@.subrange(0, q as int) =~= f@.take(q as int));
        let rest = slice_to_vec_chars(vstd::slice::slice_subrange(f, q + 1, f.len()));
        assert(rest@ =~= f@.skip(q + 1));
        Ok((HitObjectParams::Hold { end_time }, Some(rest)))
    } else {
        Err(HitObjectParseError::UnknownHitObjectType(string_of(&[])))
    }
}

/// Reads a hit object record.
pub fn parse_hit_object_chars(s: &[char]) -> (r: Result<HitObject, HitObjectParseError>)
    ensures
        match r {
            Ok(h) => hit_object_of(s@) == Some(h@) && h.time.wf(),
            Err(e) => hit_object_of(s@) is None && (e matches HitObjectParseError::NotEnoughArguments(n)
                ==> n == split(s@, ',').len()) && (split(s@, ',').len() < 5 <==> e is NotEnoughArguments),
        },
{
    let a = split_chars(s, ',');
    let ghost av = split(s@, ',');
    assert(a@.len() == av.len());
    if a.len() < 5 {
        return Err(HitObjectParseError::NotEnoughArguments(a.len()));
    }
    assert(forall|i: int| 0 <= i < a@.len() ==> a@[i]@ == #[trigger] av[i]);
    let x = match parse_i32(a[0].as_slice()) {
        Some(v) => v,
        None => {
            return Err(HitObjectParseError::InvalidInt);
        },
    };
    let y = match parse_i32(a[1].as_slice()) {
        Some(v) => v,
        None => {
            return Err(HitObjectParseError::InvalidInt);
        },
    };
    let time = match parse_decimal(a[2].as_slice()) {
        Some(v) => v,
        None => {
            return Err(HitObjectParseError::InvalidFloat);
        },
    };
    let ty = match parse_u8(a[3].as_slice()) {
        Some(v) => v,
        None => {
            return Err(HitObjectParseError::InvalidInt);
        },
    };
    let hs = match parse_u8(a[4].as_slice()) {
        Some(v) => v,
        None => {
            return Err(HitObjectParseError::InvalidInt);
        },
    };
    let tail = vstd::slice::slice_subrange(a.as_slice(), 5, a.len());
    assert(views(tail@) =~= av.skip(5));
    let (object_params, tok) = match parse_params(ty, tail) {
        Ok(r) => r,
        Err(e) => {
            if let HitObjectParseError::UnknownHitObjectType(_) = e {
                return Err(HitObjectParseError::UnknownHitObjectType(string_of(a[3].as_slice())));
            }
            return Err(e);
        },
    };
    let hit_sample = match tok {
        Some(t) => {
            if t.len() > 0 {
                match parse_hit_sample(t.as_slice()) {
                    Ok(h) => h,
                    Err(e) => {
                        return Err(HitObjectParseError::HitSampleParse(e));
                    },
                }
            } else {
                HitSample::new()
            }
        },
        None => HitSample::new(),
    };
    let object_type = match &object_params {
        HitObjectParams::HitCircle => HitObjectType::HitCircle,
        HitObjectParams::Slider { .. } => HitObjectType::Slider,
        HitObjectParams::Spinner { .. } => HitObjectType::Spinner,
        HitObjectParams::Hold { .. } => HitObjectType::Hold,
    };
    let combo_color_skip = if HitObject::raw_is_new_combo(ty) {
        Some((ty & 0x70) >> 4u8)
    } else {
        None
    };
    let h = HitObject {
        x,
        y,
        time,
        object_type,
        combo_color_skip,
        hit_sound: HitSound(hs),
        object_params,
        hit_sample,
    };
    assert(h@.hit_sample == sample_of_token(opt_view(tok)).unwrap());
    Ok(h)
}

/// Reads a hit object line: `x,y,time,type,hitSound` then the tail of its kind.
pub fn parse_hit_object(s: &str) -> (r: Result<HitObject, HitObjectParseError>)
    ensures
        match r {
            Ok(h) => hit_object_of(s@) == Some(h@),
            Err(_) => hit_object_of(s@) is None,
        },
{
    let cs = crate::text::chars_of(s);
    parse_hit_object_chars(cs.as_slice())
}

} // verus!
