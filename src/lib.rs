//! Model, parser and serializer for `.osu` beatmap files, with the
//! timestamp queries and slider-curve conversion that edits rely on.

pub mod algos;
pub mod curves;
pub mod decimal;
pub mod events;
pub mod hit_objects;
pub mod model;
pub mod options;
pub mod parsing;
pub mod records;
pub mod sections;
pub mod serializing;
pub mod text;
pub mod timestamp;
