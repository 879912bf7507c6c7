//! Self-similarity analysis of note streams: run-length encoded feature
//! spaces, Jaccard similarity of note sets, and lazy enumeration of the
//! tiles of a self-similarity matrix.

pub mod event;
pub mod feature;
pub mod index;
pub mod iref;
pub mod lens;
pub mod midi;
pub mod pairs;
pub mod quantize;
pub mod scale;
pub mod stream;
pub mod temporal;
pub mod tiles;

pub use crate::lens::Lens;
pub use crate::midi::trim_midi;
pub use crate::temporal::TemporalSpace;
