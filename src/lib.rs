//! An editing engine for non-destructive video and audio timelines.
//!
//! A timeline is a stack of tracks; each track is a gapless sequence of clips
//! and gaps. Every time value is an integer count of nanoseconds.
pub mod edit;
pub mod ids;
pub mod json;
pub mod laws;
pub mod model;
pub mod policy;
pub mod sanitize;
pub mod stack;
pub mod time;
pub mod timing;
pub mod track;
pub mod validate;

pub use edit::{EditError, InsertPolicy, OverlapPolicy};
pub use ids::fresh_id;
pub use model::{Clip, Gap, Item, MediaReference};
pub use policy::{insert_policy_from_str, overlap_policy_from_str, track_kind_from_str};
pub use time::{Nanos, RationalTime, TimeRange, EPS, NANOS_PER_SECOND};
pub use track::{IdMetadataExt, MetadataExt, Stack, Timeline, Track, TrackKind};
pub use validate::{validate_timeline, ValidationError};
