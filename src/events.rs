//! The `[Events]` section: backgrounds, videos and breaks.
use vstd::prelude::*;
use crate::decimal::{Decimal, decimal_value, parse_decimal};
use crate::model::{Event, EventParams};
use crate::records::{i32_of, parse_i32};
use crate::text::{chars_eq, split, split_chars, string_of, trim, trim_chars};

verus! {

/// Why an event line was refused.
#[derive(Clone, Debug, PartialEq, Eq)]
pub enum EventParseError {
    UnknownEventType(String),
    NoStartTime,
    InvalidStartTime,
    SpecificEvent(SpecificEventParseError),
}

/// What went wrong in the fields of one kind of event.
#[derive(Clone, Debug, PartialEq, Eq)]
pub enum SpecificEventParseErrorKind {
    NoFileName,
    NoEndTime,
    InvalidInt,
    InvalidFloat,
}

/// An event of a known kind with fields that could not be read.
#[derive(Clone, Debug, PartialEq, Eq)]
pub struct SpecificEventParseError {
    /// The kind of event: `Background`, `Video` or `Break`.
    pub event: String,
    pub kind: SpecificEventParseErrorKind,
}

/// What the parameters of an event hold.
pub enum EventParamsView {
    Background { filename: Seq<char>, x_offset: i32, y_offset: i32 },
    Video { filename: Seq<char>, x_offset: i32, y_offset: i32 },
    Break { end_time: Decimal },
}

/// What an event holds.
pub struct EventView {
    pub event_type: Seq<char>,
    pub start_time: Decimal,
    pub params: EventParamsView,
}

impl View for Event {
    type V = EventView;

    open spec fn view(&self) -> EventView {
        EventView {
            event_type: self.event_type@,
            start_time: self.start_time,
            params: match self.params {
                EventParams::Background { filename, x_offset, y_offset } => EventParamsView::Background {
                    filename: filename@,
                    x_offset,
                    y_offset,
                },
                EventParams::Video { filename, x_offset, y_offset } => EventParamsView::Video {
                    filename: filename@,
                    x_offset,
                    y_offset,
                },
                EventParams::Break { end_time } => EventParamsView::Break { end_time },
            },
        }
    }
}

/// Storyboard kinds, which this model skips.
pub open spec fn is_storyboard(t: Seq<char>) -> bool {
    t == "3"@ || t == "4"@ || t == "5"@ || t == "6"@ || t == "Sample"@ || t == "Sprite"@ || t
        == "Animation"@ || t == "F"@ || t == "M"@ || t == "MX"@ || t == "MY"@ || t == "S"@ || t == "V"@
        || t == "R"@ || t == "C"@ || t == "L"@ || t == "T"@ || t == "P"@
}

fn storyboard_kind(t: &[char]) -> (r: bool)
    ensures
        r == is_storyboard(t@),
{
    chars_eq(t, "3") || chars_eq(t, "4") || chars_eq(t, "5") || chars_eq(t, "6") || chars_eq(t, "Sample")
        || chars_eq(t, "Sprite") || chars_eq(t, "Animation") || chars_eq(t, "F") || chars_eq(t, "M")
        || chars_eq(t, "MX") || chars_eq(t, "MY") || chars_eq(t, "S") || chars_eq(t, "V") || chars_eq(t, "R")
        || chars_eq(t, "C") || chars_eq(t, "L") || chars_eq(t, "T") || chars_eq(t, "P")
}

/// An optional offset field: `0` where the record stops before it.
pub open spec fn offset_of(v: Seq<Seq<char>>, i: int) -> Option<i32> {
    if i < v.len() {
        i32_of(v[i])
    } else {
        Some(0)
    }
}

/// An event line: `Some(None)` for a storyboard event, which is skipped;
/// `0` a background and `1` or `Video` a video, each with a filename and
/// optional offsets; `2` or `Break` a break with its end time.
pub open spec fn event_of(line: Seq<char>) -> Option<Option<EventView>> {
    let v = split(line, ',');
    let ty = trim(v[0]);
    if is_storyboard(ty) {
        Some(None)
    } else if v.len() < 2 {
        None
    } else {
        match decimal_value(v[1]) {
            None => None,
            Some(st) => if ty == "0"@ || ty == "1"@ || ty == "Video"@ {
                if v.len() < 3 {
                    None
                } else {
                    match (offset_of(v, 3), offset_of(v, 4)) {
                        (Some(x), Some(y)) => Some(
                            Some(
                                EventView {
                                    event_type: ty,
                                    start_time: st,
                                    params: if ty == "0"@ {
                                        EventParamsView::Background { filename: v[2], x_offset: x, y_offset: y }
                                    } else {
                                        EventParamsView::Video { filename: v[2], x_offset: x, y_offset: y }
                                    },
                                },
                            ),
                        ),
                        _ => None,
                    }
                }
            } else if ty == "2"@ || ty == "Break"@ {
                if v.len() < 3 {
                    None
                } else {
                    match decimal_value(v[2]) {
                        Some(e) => Some(
                            Some(EventView { event_type: ty, start_time: st, params: EventParamsView::Break { end_time: e } }),
                        ),
                        None => None,
                    }
                }
            } else {
                None
            },
        }
    }
}

fn specific(event: &str, kind: SpecificEventParseErrorKind) -> (r: EventParseError)
    ensures
        r is SpecificEvent,
{
    EventParseError::SpecificEvent(SpecificEventParseError { event: String::from_str(event), kind })
}

fn parse_offset(v: &Vec<Vec<char>>, i: usize) -> (r: Option<i32>)
    ensures
        r == offset_of(crate::text::views(v@), i as int),
{
    if i < v.len() {
        parse_i32(v[i].as_slice())
    } else {
        Some(0)
    }
}

/// Reads an event line; storyboard events give `None`.
pub fn parse_event(line: &[char]) -> (r: Result<Option<Event>, EventParseError>)
    ensures
        match r {
            Ok(Some(e)) => event_of(line@) == Some(Some(e@)),
            Ok(None) => event_of(line@) == Some(None::<EventView>),
            Err(_) => event_of(line@) is None,
        },
{
    let v = split_chars(line, ',');
    let ghost vs = split(line@, ',');
    proof {
        crate::text::lemma_first_index_bounds(line@, ',');
    }
    assert(v@.len() == vs.len());
    assert(forall|i: int| 0 <= i < vs.len() ==> v@[i]@ == #[trigger] vs[i]);
    let ty = trim_chars(v[0].as_slice());
    let t = ty.as_slice();
    if storyboard_kind(t) {
        return Ok(None);
    }
    if v.len() < 2 {
        return Err(EventParseError::NoStartTime);
    }
    let start_time = match parse_decimal(v[1].as_slice()) {
        Some(d) => d,
        None => {
            return Err(EventParseError::InvalidStartTime);
        },
    };
    let background = chars_eq(t, "0");
    if background || chars_eq(t, "1") || chars_eq(t, "Video") {
        let name = if background { "Background" } else { "Video" };
        if v.len() < 3 {
            return Err(specific(name, SpecificEventParseErrorKind::NoFileName));
        }
        let x_offset = match parse_offset(&v, 3) {
            Some(x) => x,
            None => {
                return Err(specific(name, SpecificEventParseErrorKind::InvalidInt));
            },
        };
        let y_offset = match parse_offset(&v, 4) {
            Some(x) => x,
            None => {
                return Err(specific(name, SpecificEventParseErrorKind::InvalidInt));
            },
        };
        let filename = string_of(v[2].as_slice());
        let params = if background {
            EventParams::Background { filename, x_offset, y_offset }
        } else {
            EventParams::Video { filename, x_offset, y_offset }
        };
        Ok(Some(Event { event_type: string_of(t), start_time, params }))
    } else if chars_eq(t, "2") || chars_eq(t, "Break") {
        if v.len() < 3 {
            return Err(specific("Break", SpecificEventParseErrorKind::NoEndTime));
        }
        let end_time = match parse_decimal(v[2].as_slice()) {
            Some(d) => d,
            None => {
                return Err(specific("Break", SpecificEventParseErrorKind::InvalidFloat));
            },
        };
        Ok(Some(Event { event_type: string_of(t), start_time, params: EventParams::Break { end_time } }))
    } else {
        Err(EventParseError::UnknownEventType(string_of(t)))
    }
}

} // verus!
