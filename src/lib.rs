//! Parser for clip specs: a source file name followed by trim segments,
//! as in `clip.mp4 @ 00:01:00 - 00:02:30, 00:05:00-00:06:00`.
pub mod clip;
pub mod command;
pub mod laws;
pub mod text;
pub mod timecode;
pub mod util;

pub use clip::{ClipSegment, InputClip, ParseError};
pub use util::DropEmpty;
