//! Finds the rounds of a game in the storyboard of a video and tells, from the
//! frames of each round, which role the player had.
//!
//! The library decodes the storyboard descriptor, reads fixed visual features off
//! each 160x90 frame, and runs a single pass over the frames that cuts them into
//! rounds and classifies each one.

use vstd::prelude::*;

pub mod color;
mod encoding;
pub mod frame;
pub mod page;
pub mod segments;
pub mod storyboard;

pub use color::{blue_of, colors_match, green_of, red_of};
pub use page::{embedded_value, video_id};
pub use frame::{FeatureSet, Image, FRAME_BYTES, FRAME_HEIGHT, FRAME_WIDTH};
pub use segments::{detect_games, find_games, role_for, trim_blank_tail, GameSegment, Role, Tracker};
pub use storyboard::{parse_value, Endpoint, ParseError};

verus! {

} // verus!
