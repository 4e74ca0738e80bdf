//! Reading a whole `.osu` document: its version line and its sections.
use vstd::prelude::*;
use crate::events::{EventView, event_of, parse_event};
use crate::hit_objects::{HitObjectView, hit_object_of, parse_hit_object_chars};
use crate::model::{BeatmapFile, Event, HitObject, TimingPoint};
use crate::records::{parse_timing_point, timing_point_of, u32_of, parse_u32};
use crate::sections::{
    ColorsView, EditorFieldsView, SectionParseError, SectionParseErrorKind, colors_fold, difficulty_fold,
    editor_of, general_fold, metadata_fold, parse_colors_section, parse_difficulty_section,
    parse_editor_section, parse_general_section, parse_metadata_section, section_error,
};
use crate::text::{chars_eq, chars_of, chars_start_with, split, split_chars, string_of, trim, trim_chars, views};

verus! {

/// Why a document could not be read.
#[derive(Clone, Debug, PartialEq, Eq)]
pub enum BeatmapFileParseError {
    /// No line but blank lines and comments.
    FileIsEmpty,
    /// The first line is not `osu file format v<version>`.
    InvalidOsuFileFormat,
    /// A line where a section header `[Name]` of a known section belongs; holds it.
    UnknownSection(String),
    SectionParse(SectionParseError),
}

/// The sections of a document.
#[derive(Clone, Copy, Debug, PartialEq, Eq, Structural)]
pub enum SectionName {
    General,
    Editor,
    Metadata,
    Difficulty,
    Events,
    TimingPoints,
    Colours,
    HitObjects,
}

/// A line without the carriage return that ends it, if any.
pub open spec fn strip_cr(l: Seq<char>) -> Seq<char> {
    if l.len() > 0 && l.last() == '\r' {
        l.drop_last()
    } else {
        l
    }
}

/// Blank lines and `//` comments, which the format ignores.
pub open spec fn ignorable(l: Seq<char>) -> bool {
    let t = trim(l);
    t.len() == 0 || (2 <= t.len() && t[0] == '/' && t[1] == '/')
}

/// The lines that count, in order, from position `k` of `ls` on.
pub open spec fn significant_from(ls: Seq<Seq<char>>, k: int) -> Seq<Seq<char>>
    decreases ls.len() - k,
{
    if k < 0 || k >= ls.len() {
        Seq::empty()
    } else if ignorable(strip_cr(ls[k])) {
        significant_from(ls, k + 1)
    } else {
        seq![strip_cr(ls[k])] + significant_from(ls, k + 1)
    }
}

/// The lines of a text that count: split at `\n`, without their `\r`,
/// blank lines and comments left out.
pub open spec fn significant_lines(text: Seq<char>) -> Seq<Seq<char>> {
    significant_from(split(text, '\n'), 0)
}

fn strip_cr_exec(l: &[char]) -> (r: Vec<char>)
    ensures
        r@ == strip_cr(l@),
{
    if l.len() > 0 && l[l.len() - 1] == '\r' {
        vstd::slice::slice_to_vec(vstd::slice::slice_subrange(l, 0, l.len() - 1))
    } else {
        vstd::slice::slice_to_vec(l)
    }
}

fn is_ignorable(l: &[char]) -> (r: bool)
    ensures
        r == ignorable(l@),
{
    let t = trim_chars(l);
    t.len() == 0 || (2 <= t.len() && t[0] == '/' && t[1] == '/')
}

fn significant_lines_exec(text: &[char]) -> (r: Vec<Vec<char>>)
    ensures
        views(r@) == significant_lines(text@),
{
    let ls = split_chars(text, '\n');
    let ghost lv = split(text@, '\n');
    let mut out: Vec<Vec<char>> = Vec::new();
    let mut k: usize = 0;
    while k < ls.len()
        invariant
            k <= ls@.len(),
            views(ls@) == lv,
            lv == split(text@, '\n'),
            views(out@) + significant_from(lv, k as int) == significant_from(lv, 0),
        decreases ls@.len() - k,
    {
        assert(ls@[k as int]@ == lv[k as int]);
        let l = strip_cr_exec(ls[k].as_slice());
        if !is_ignorable(l.as_slice()) {
            let ghost before = out@;
            out.push(l);
            assert(views(out@) =~= views(before).push(strip_cr(lv[k as int])));
            assert(views(out@) + significant_from(lv, k + 1) =~= views(before) + (seq![strip_cr(lv[k as int])]
                + significant_from(lv, k + 1)));
        }
        k = k + 1;
    }
    assert(views(out@) + Seq::<Seq<char>>::empty() =~= views(out@));
    out
}

/// A line without the byte order marks before it.
pub open spec fn strip_bom(l: Seq<char>) -> Seq<char>
    decreases l.len(),
{
    if l.len() > 0 && l[0] == '\u{feff}' {
        strip_bom(l.drop_first())
    } else {
        l
    }
}

/// The version that a first line `osu file format v<digits>` declares.
pub open spec fn version_of(l: Seq<char>) -> Option<u32> {
    let b = strip_bom(l);
    let p = "osu file format v"@;
    if p.len() <= b.len() && b.take(p.len() as int) == p {
        u32_of(b.skip(p.len() as int))
    } else {
        None
    }
}

fn parse_version(l: &[char]) -> (r: Option<u32>)
    ensures
        r == version_of(l@),
{
    let mut i: usize = 0;
    assert(l@.skip(0) =~= l@);
    while i < l.len() && l[i] == '\u{feff}'
        invariant
            i <= l@.len(),
            strip_bom(l@) == strip_bom(l@.skip(i as int)),
        decreases l@.len() - i,
    {
        assert(l@.skip(i as int).drop_first() =~= l@.skip(i + 1));
        i = i + 1;
    }
    let b = vstd::slice::slice_subrange(l, i, l.len());
    assert(b@ =~= l@.skip(i as int));
    if !chars_start_with(b, "osu file format v") {
        return None;
    }
    let n = chars_of("osu file format v").len();
    let rest = vstd::slice::slice_subrange(b, n, b.len());
    assert(rest@ =~= b@.skip(n as int));
    parse_u32(rest)
}

/// The section that a header line `[Name]` opens.
pub open spec fn section_of(l: Seq<char>) -> Option<SectionName> {
    if l == "[General]"@ {
        Some(SectionName::General)
    } else if l == "[Editor]"@ {
        Some(SectionName::Editor)
    } else if l == "[Metadata]"@ {
        Some(SectionName::Metadata)
    } else if l == "[Difficulty]"@ {
        Some(SectionName::Difficulty)
    } else if l == "[Events]"@ {
        Some(SectionName::Events)
    } else if l == "[TimingPoints]"@ {
        Some(SectionName::TimingPoints)
    } else if l == "[Colours]"@ {
        Some(SectionName::Colours)
    } else if l == "[HitObjects]"@ {
        Some(SectionName::HitObjects)
    } else {
        None
    }
}

fn parse_section_name(l: &[char]) -> (r: Option<SectionName>)
    ensures
        r == section_of(l@),
{
    if chars_eq(l, "[General]") {
        Some(SectionName::General)
    } else if chars_eq(l, "[Editor]") {
        Some(SectionName::Editor)
    } else if chars_eq(l, "[Metadata]") {
        Some(SectionName::Metadata)
    } else if chars_eq(l, "[Difficulty]") {
        Some(SectionName::Difficulty)
    } else if chars_eq(l, "[Events]") {
        Some(SectionName::Events)
    } else if chars_eq(l, "[TimingPoints]") {
        Some(SectionName::TimingPoints)
    } else if chars_eq(l, "[Colours]") {
        Some(SectionName::Colours)
    } else if chars_eq(l, "[HitObjects]") {
        Some(SectionName::HitObjects)
    } else {
        None
    }
}

/// A line that opens a section: it starts with `[` and ends with `]`.
pub open spec fn is_header(l: Seq<char>) -> bool {
    l.len() > 0 && l[0] == '[' && l.last() == ']'
}

/// The position of the next header from `k` on, or the end.
pub open spec fn next_header(ls: Seq<Seq<char>>, k: int) -> int
    decreases ls.len() - k,
{
    if k < 0 || k >= ls.len() || is_header(ls[k]) {
        k
    } else {
        next_header(ls, k + 1)
    }
}

/// The sections from position `k` on, each with its body lines: `None`
/// where a line there is no header of a known section.
pub open spec fn blocks_from(ls: Seq<Seq<char>>, k: int) -> Option<Seq<(SectionName, Seq<Seq<char>>)>>
    decreases ls.len() - k,
{
    if k < 0 || k >= ls.len() {
        Some(Seq::empty())
    } else {
        match section_of(ls[k]) {
            None => None,
            Some(name) => {
                let e = next_header(ls, k + 1);
                if e <= k || e > ls.len() {
                    None
                } else {
                    match blocks_from(ls, e) {
                        Some(rest) => Some(seq![(name, ls.subrange(k + 1, e))] + rest),
                        None => None,
                    }
                }
            },
        }
    }
}

proof fn lemma_next_header(ls: Seq<Seq<char>>, k: int)
    requires
        0 <= k <= ls.len(),
    ensures
        k <= next_header(ls, k) <= ls.len(),
        next_header(ls, k) < ls.len() ==> is_header(ls[next_header(ls, k)]),
        forall|j: int| k <= j < next_header(ls, k) ==> !is_header(#[trigger] ls[j]),
    decreases ls.len() - k,
{
    if k < ls.len() && !is_header(ls[k]) {
        lemma_next_header(ls, k + 1);
    }
}

/// The timing points of a section body, one per line.
pub open spec fn timing_points_of(body: Seq<Seq<char>>) -> Option<Seq<TimingPoint>>
    decreases body.len(),
{
    if body.len() == 0 {
        Some(Seq::empty())
    } else {
        match (timing_points_of(body.drop_last()), timing_point_of(body.last())) {
            (Some(init), Some(tp)) => Some(init.push(tp)),
            _ => None,
        }
    }
}

/// The hit objects of a section body, one per line.
pub open spec fn hit_objects_of(body: Seq<Seq<char>>) -> Option<Seq<HitObjectView>>
    decreases body.len(),
{
    if body.len() == 0 {
        Some(Seq::empty())
    } else {
        match (hit_objects_of(body.drop_last()), hit_object_of(body.last())) {
            (Some(init), Some(h)) => Some(init.push(h)),
            _ => None,
        }
    }
}

/// The events of a section body, storyboard lines left out.
pub open spec fn events_of(body: Seq<Seq<char>>) -> Option<Seq<EventView>>
    decreases body.len(),
{
    if body.len() == 0 {
        Some(Seq::empty())
    } else {
        match (events_of(body.drop_last()), event_of(body.last())) {
            (Some(init), Some(Some(e))) => Some(init.push(e)),
            (Some(init), Some(None)) => Some(init),
            _ => None,
        }
    }
}

pub open spec fn hit_object_views(v: Seq<HitObject>) -> Seq<HitObjectView> {
    v.map_values(|h: HitObject| h@)
}

pub open spec fn event_views(v: Seq<Event>) -> Seq<EventView> {
    v.map_values(|e: Event| e@)
}

fn parse_timing_points_section(body: &[Vec<char>]) -> (r: Result<Vec<TimingPoint>, SectionParseError>)
    ensures
        match r {
            Ok(v) => timing_points_of(views(body@)) == Some(v@),
            Err(_) => timing_points_of(views(body@)) is None,
        },
{
    let ghost ls = views(body@);
    let mut out: Vec<TimingPoint> = Vec::new();
    let mut i: usize = 0;
    assert(ls.take(0) =~= Seq::<Seq<char>>::empty());
    while i < body.len()
        invariant
            i <= body@.len(),
            ls == views(body@),
            timing_points_of(ls.take(i as int)) == Some(out@),
        decreases body@.len() - i,
    {
        assert(ls.take(i + 1).drop_last() =~= ls.take(i as int));
        assert(ls.take(i + 1).last() == body@[i as int]@);
        match parse_timing_point(body[i].as_slice()) {
            Ok(tp) => out.push(tp),
            Err(e) => {
                proof {
                    lemma_timing_points_stuck(ls, i as int);
                }
                return Err(section_error("TimingPoints", body[i].as_slice(), SectionParseErrorKind::TimingPointParse(e)));
            },
        }
        i = i + 1;
    }
    assert(ls.take(i as int) =~= ls);
    Ok(out)
}

proof fn lemma_timing_points_stuck(ls: Seq<Seq<char>>, i: int)
    requires
        0 <= i < ls.len(),
        timing_points_of(ls.take(i + 1)) is None,
    ensures
        timing_points_of(ls) is None,
    decreases ls.len() - i,
{
    if i + 1 < ls.len() {
        assert(ls.take(i + 2).drop_last() =~= ls.take(i + 1));
        lemma_timing_points_stuck(ls, i + 1);
    } else {
        assert(ls.take(i + 1) =~= ls);
    }
}

fn parse_hit_objects_section(body: &[Vec<char>]) -> (r: Result<Vec<HitObject>, SectionParseError>)
    ensures
        match r {
            Ok(v) => hit_objects_of(views(body@)) == Some(hit_object_views(v@)),
            Err(_) => hit_objects_of(views(body@)) is None,
        },
{
    let ghost ls = views(body@);
    let mut out: Vec<HitObject> = Vec::new();
    let mut i: usize = 0;
    assert(ls.take(0) =~= Seq::<Seq<char>>::empty());
    assert(hit_object_views(out@) =~= Seq::<HitObjectView>::empty());
    while i < body.len()
        invariant
            i <= body@.len(),
            ls == views(body@),
            hit_objects_of(ls.take(i as int)) == Some(hit_object_views(out@)),
        decreases body@.len() - i,
    {
        assert(ls.take(i + 1).drop_last() =~= ls.take(i as int));
        assert(ls.take(i + 1).last() == body@[i as int]@);
        match parse_hit_object_chars(body[i].as_slice()) {
            Ok(h) => {
                let ghost before = out@;
                out.push(h);
                assert(hit_object_views(out@) =~= hit_object_views(before).push(h@));
            },
            Err(e) => {
                proof {
                    lemma_hit_objects_stuck(ls, i as int);
                }
                return Err(section_error("HitObjects", body[i].as_slice(), SectionParseErrorKind::HitObjectParse(e)));
            },
        }
        i = i + 1;
    }
    assert(ls.take(i as int) =~= ls);
    Ok(out)
}

proof fn lemma_hit_objects_stuck(ls: Seq<Seq<char>>, i: int)
    requires
        0 <= i < ls.len(),
        hit_objects_of(ls.take(i + 1)) is None,
    ensures
        hit_objects_of(ls) is None,
    decreases ls.len() - i,
{
    if i + 1 < ls.len() {
        assert(ls.take(i + 2).drop_last() =~= ls.take(i + 1));
        lemma_hit_objects_stuck(ls, i + 1);
    } else {
        assert(ls.take(i + 1) =~= ls);
    }
}

fn parse_events_section(body: &[Vec<char>]) -> (r: Result<Vec<Event>, SectionParseError>)
    ensures
        match r {
            Ok(v) => events_of(views(body@)) == Some(event_views(v@)),
            Err(_) => events_of(views(body@)) is None,
        },
{
    let ghost ls = views(body@);
    let mut out: Vec<Event> = Vec::new();
    let mut i: usize = 0;
    assert(ls.take(0) =~= Seq::<Seq<char>>::empty());
    assert(event_views(out@) =~= Seq::<EventView>::empty());
    while i < body.len()
        invariant
            i <= body@.len(),
            ls == views(body@),
            events_of(ls.take(i as int)) == Some(event_views(out@)),
        decreases body@.len() - i,
    {
        assert(ls.take(i + 1).drop_last() =~= ls.take(i as int));
        assert(ls.take(i + 1).last() == body@[i as int]@);
        match parse_event(body[i].as_slice()) {
            Ok(Some(ev)) => {
                let ghost before = out@;
                out.push(ev);
                assert(event_views(out@) =~= event_views(before).push(ev@));
            },
            Ok(None) => {},
            Err(e) => {
                proof {
                    lemma_events_stuck(ls, i as int);
                }
                return Err(section_error("Events", body[i].as_slice(), SectionParseErrorKind::EventParse(e)));
            },
        }
        i = i + 1;
    }
    assert(ls.take(i as int) =~= ls);
    Ok(out)
}

proof fn lemma_events_stuck(ls: Seq<Seq<char>>, i: int)
    requires
        0 <= i < ls.len(),
        events_of(ls.take(i + 1)) is None,
    ensures
        events_of(ls) is None,
    decreases ls.len() - i,
{
    if i + 1 < ls.len() {
        assert(ls.take(i + 2).drop_last() =~= ls.take(i + 1));
        lemma_events_stuck(ls, i + 1);
    } else {
        assert(ls.take(i + 1) =~= ls);
    }
}

pub type Block = (SectionName, Seq<Seq<char>>);

/// Body of the last section of the given name: the one whose values stay.
pub open spec fn last_body(bs: Seq<Block>, n: SectionName) -> Option<Seq<Seq<char>>>
    decreases bs.len(),
{
    if bs.len() == 0 {
        None
    } else if bs.last().0 == n {
        Some(bs.last().1)
    } else {
        last_body(bs.drop_last(), n)
    }
}

/// The body of a section reads as that section.
pub open spec fn block_ok(b: Block) -> bool {
    match b.0 {
        SectionName::General => general_fold(b.1) is Some,
        SectionName::Editor => editor_of(b.1) is Some,
        SectionName::Metadata => metadata_fold(b.1) is Some,
        SectionName::Difficulty => difficulty_fold(b.1) is Some,
        SectionName::Events => events_of(b.1) is Some,
        SectionName::TimingPoints => timing_points_of(b.1) is Some,
        SectionName::Colours => colors_fold(b.1) is Some,
        SectionName::HitObjects => hit_objects_of(b.1) is Some,
    }
}

pub open spec fn all_ok(bs: Seq<Block>) -> bool {
    forall|i: int| 0 <= i < bs.len() ==> block_ok(#[trigger] bs[i])
}

/// A document reads: it has a version line, and after it only sections of
/// known names whose bodies read.
pub open spec fn parses(text: Seq<char>) -> bool {
    let ls = significant_lines(text);
    &&& ls.len() > 0
    &&& version_of(ls[0]) is Some
    &&& blocks_from(ls, 1) matches Some(bs) && all_ok(bs)
}

/// The document holds, for each section, what the last section of that name
/// gives, and nothing for a section that is absent.
pub open spec fn doc_matches(doc: BeatmapFile, bs: Seq<Block>) -> bool {
    &&& match doc.general {
        Some(g) => last_body(bs, SectionName::General) matches Some(b) && general_fold(b) == Some(g@),
        None => last_body(bs, SectionName::General) is None,
    }
    &&& match doc.editor {
        Some(e) => last_body(bs, SectionName::Editor) matches Some(b) && editor_of(b) == Some(
            EditorFieldsView {
                bookmarks: e.bookmarks@,
                distance_spacing: Some(e.distance_spacing),
                beat_divisor: Some(e.beat_divisor),
                grid_size: Some(e.grid_size),
                timeline_zoom: e.timeline_zoom,
            },
        ),
        None => last_body(bs, SectionName::Editor) is None,
    }
    &&& match doc.metadata {
        Some(m) => last_body(bs, SectionName::Metadata) matches Some(b) && metadata_fold(b) == Some(m@),
        None => last_body(bs, SectionName::Metadata) is None,
    }
    &&& match doc.difficulty {
        Some(d) => last_body(bs, SectionName::Difficulty) matches Some(b) && difficulty_fold(b) == Some(d),
        None => last_body(bs, SectionName::Difficulty) is None,
    }
    &&& match doc.colors {
        Some(c) => last_body(bs, SectionName::Colours) matches Some(b) && colors_fold(b) == Some(
            ColorsView {
                combo_colors: c.combo_colors@,
                slider_track_override: c.slider_track_override,
                slider_border: c.slider_border,
            },
        ),
        None => last_body(bs, SectionName::Colours) is None,
    }
    &&& event_views(doc.events@) == match last_body(bs, SectionName::Events) {
        Some(b) => events_of(b).unwrap(),
        None => Seq::empty(),
    }
    &&& doc.timing_points@ == match last_body(bs, SectionName::TimingPoints) {
        Some(b) => timing_points_of(b).unwrap(),
        None => Seq::empty(),
    }
    &&& hit_object_views(doc.hit_objects@) == match last_body(bs, SectionName::HitObjects) {
        Some(b) => hit_objects_of(b).unwrap(),
        None => Seq::empty(),
    }
}

proof fn lemma_last_body_push(bs: Seq<Block>, b: Block, n: SectionName)
    ensures
        last_body(bs.push(b), n) == if b.0 == n { Some(b.1) } else { last_body(bs, n) },
{
    assert(bs.push(b).drop_last() =~= bs);
}

fn is_header_exec(l: &[char]) -> (r: bool)
    ensures
        r == is_header(l@),
{
    l.len() > 0 && l[0] == '[' && l[l.len() - 1] == ']'
}

/// `new` is `old` with the section `b` read into it.
pub open spec fn doc_updated(old: BeatmapFile, new: BeatmapFile, b: Block) -> bool {
    &&& new.osu_file_format == old.osu_file_format
    &&& if b.0 == SectionName::General {
        new.general matches Some(g) && general_fold(b.1) == Some(g@)
    } else {
        new.general == old.general
    }
    &&& if b.0 == SectionName::Editor {
        new.editor matches Some(e) && editor_of(b.1) == Some(
            EditorFieldsView {
                bookmarks: e.bookmarks@,
                distance_spacing: Some(e.distance_spacing),
                beat_divisor: Some(e.beat_divisor),
                grid_size: Some(e.grid_size),
                timeline_zoom: e.timeline_zoom,
            },
        )
    } else {
        new.editor == old.editor
    }
    &&& if b.0 == SectionName::Metadata {
        new.metadata matches Some(m) && metadata_fold(b.1) == Some(m@)
    } else {
        new.metadata == old.metadata
    }
    &&& if b.0 == SectionName::Difficulty {
        new.difficulty matches Some(d) && difficulty_fold(b.1) == Some(d)
    } else {
        new.difficulty == old.difficulty
    }
    &&& if b.0 == SectionName::Colours {
        new.colors matches Some(c) && colors_fold(b.1) == Some(
            ColorsView {
                combo_colors: c.combo_colors@,
                slider_track_override: c.slider_track_override,
                slider_border: c.slider_border,
            },
        )
    } else {
        new.colors == old.colors
    }
    &&& if b.0 == SectionName::Events {
        events_of(b.1) == Some(event_views(new.events@))
    } else {
        new.events@ == old.events@
    }
    &&& if b.0 == SectionName::TimingPoints {
        timing_points_of(b.1) == Some(new.timing_points@)
    } else {
        new.timing_points@ == old.timing_points@
    }
    &&& if b.0 == SectionName::HitObjects {
        hit_objects_of(b.1) == Some(hit_object_views(new.hit_objects@))
    } else {
        new.hit_objects@ == old.hit_objects@
    }
}

proof fn lemma_doc_step(old: BeatmapFile, new: BeatmapFile, done: Seq<Block>, b: Block)
    requires
        doc_matches(old, done),
        doc_updated(old, new, b),
    ensures
        doc_matches(new, done.push(b)),
{
    lemma_last_body_push(done, b, SectionName::General);
    lemma_last_body_push(done, b, SectionName::Editor);
    lemma_last_body_push(done, b, SectionName::Metadata);
    lemma_last_body_push(done, b, SectionName::Difficulty);
    lemma_last_body_push(done, b, SectionName::Events);
    lemma_last_body_push(done, b, SectionName::TimingPoints);
    lemma_last_body_push(done, b, SectionName::Colours);
    lemma_last_body_push(done, b, SectionName::HitObjects);
}

/// Reads the body of one section into the document.
fn read_section(doc: &mut BeatmapFile, name: SectionName, body: &[Vec<char>]) -> (r: Result<(), SectionParseError>)
    ensures
        match r {
            Ok(()) => block_ok((name, views(body@))) && doc_updated(*old(doc), *final(doc), (name, views(body@))),
            Err(_) => !block_ok((name, views(body@))),
        },
{
    match name {
        SectionName::General => {
            let g = parse_general_section(body)?;
            doc.general = Some(g);
        },
        SectionName::Editor => {
            let x = parse_editor_section(body)?;
            doc.editor = Some(x);
        },
        SectionName::Metadata => {
            let x = parse_metadata_section(body)?;
            doc.metadata = Some(x);
        },
        SectionName::Difficulty => {
            let x = parse_difficulty_section(body)?;
            doc.difficulty = Some(x);
        },
        SectionName::Events => {
            let x = parse_events_section(body)?;
            doc.events = x;
        },
        SectionName::TimingPoints => {
            let x = parse_timing_points_section(body)?;
            doc.timing_points = x;
        },
        SectionName::Colours => {
            let x = parse_colors_section(body)?;
            doc.colors = Some(x);
        },
        SectionName::HitObjects => {
            let x = parse_hit_objects_section(body)?;
            doc.hit_objects = x;
        },
    }
    Ok(())
}

/// Reads a whole document from its text.
pub fn parse(text: &str) -> (r: Result<BeatmapFile, BeatmapFileParseError>)
    ensures
        r is Ok <==> parses(text@),
        match r {
            Ok(doc) => {
                let ls = significant_lines(text@);
                &&& version_of(ls[0]) == Some(doc.osu_file_format)
                &&& blocks_from(ls, 1) matches Some(bs) && doc_matches(doc, bs)
            },
            Err(BeatmapFileParseError::FileIsEmpty) => significant_lines(text@).len() == 0,
            Err(BeatmapFileParseError::InvalidOsuFileFormat) => significant_lines(text@).len() > 0
                && version_of(significant_lines(text@)[0]) is None,
            Err(_) => significant_lines(text@).len() > 0 && version_of(significant_lines(text@)[0]) is Some,
        },
{
    let chars = chars_of(text);
    let lines = significant_lines_exec(chars.as_slice());
    let ghost ls = significant_lines(text@);
    assert(views(lines@) == ls);
    let n = lines.len();
    if n == 0 {
        return Err(BeatmapFileParseError::FileIsEmpty);
    }
    assert(lines@[0]@ == ls[0]);
    let version = match parse_version(lines[0].as_slice()) {
        Some(v) => v,
        None => {
            return Err(BeatmapFileParseError::InvalidOsuFileFormat);
        },
    };
    let mut doc = BeatmapFile {
        osu_file_format: version,
        general: None,
        editor: None,
        metadata: None,
        difficulty: None,
        events: Vec::new(),
        timing_points: Vec::new(),
        colors: None,
        hit_objects: Vec::new(),
    };
    let ghost mut done: Seq<Block> = Seq::empty();
    assert(event_views(doc.events@) =~= Seq::<EventView>::empty());
    assert(hit_object_views(doc.hit_objects@) =~= Seq::<HitObjectView>::empty());
    assert(doc.timing_points@ =~= Seq::<TimingPoint>::empty());
    let mut k: usize = 1;
    proof {
        match blocks_from(ls, 1) {
            Some(rest) => {
                assert(done + rest =~= rest);
            },
            None => {},
        }
    }
    while k < n
        invariant
            1 <= k <= n,
            n == lines@.len(),
            views(lines@) == ls,
            ls == significant_lines(text@),
            version_of(ls[0]) == Some(doc.osu_file_format),
            all_ok(done),
            doc_matches(doc, done),
            blocks_from(ls, 1) == match blocks_from(ls, k as int) {
                Some(rest) => Some(done + rest),
                None => None::<Seq<Block>>,
            },
        decreases n - k,
    {
        assert(lines@[k as int]@ == ls[k as int]);
        let name = match parse_section_name(lines[k].as_slice()) {
            Some(nm) => nm,
            None => {
                return Err(BeatmapFileParseError::UnknownSection(string_of(lines[k].as_slice())));
            },
        };
        let mut e: usize = k + 1;
        while e < n && !is_header_exec(lines[e].as_slice())
            invariant
                k < e <= n,
                n == lines@.len(),
                views(lines@) == ls,
                next_header(ls, e as int) == next_header(ls, k + 1),
            decreases n - e,
        {
            assert(lines@[e as int]@ == ls[e as int]);
            e = e + 1;
        }
        proof {
            if e < n {
                assert(lines@[e as int]@ == ls[e as int]);
            }
        }
        assert(next_header(ls, e as int) == e);
        let body = vstd::slice::slice_subrange(lines.as_slice(), k + 1, e);
        let ghost bv = ls.subrange(k + 1, e as int);
        assert(views(body@) =~= bv);
        let ghost b: Block = (name, bv);
        let ghost prev_done = done;
        let ghost prev_doc = doc;
        assert(blocks_from(ls, k as int) == match blocks_from(ls, e as int) {
            Some(rest) => Some(seq![b] + rest),
            None => None::<Seq<Block>>,
        });
        match read_section(&mut doc, name, body) {
            Ok(()) => {},
            Err(err) => {
                proof {
                    match blocks_from(ls, e as int) {
                        Some(rest) => {
                            let all = prev_done + (seq![b] + rest);
                            assert(all[prev_done.len() as int] == b);
                        },
                        None => {},
                    }
                }
                return Err(BeatmapFileParseError::SectionParse(err));
            },
        }
        proof {
            lemma_doc_step(prev_doc, doc, prev_done, b);
            done = done.push(b);
            assert(all_ok(done)) by {
                assert forall|i: int| 0 <= i < done.len() implies block_ok(#[trigger] done[i]) by {
                    if i < prev_done.len() {
                        assert(done[i] == prev_done[i]);
                    }
                }
            }
            match blocks_from(ls, e as int) {
                Some(rest) => {
                    assert(prev_done + (seq![b] + rest) =~= done + rest);
                },
                None => {},
            }
        }
        k = e;
    }
    assert(blocks_from(ls, k as int) == Some(Seq::<Block>::empty()));
    assert(done + Seq::<Block>::empty() =~= done);
    Ok(doc)
}

} // verus!
