//! A live tracker for competitive matches of known players: roster matching,
//! summary rendering, and the tracking store with its poll and aging cycles.

pub mod laws;
pub mod model;
pub mod plan;
pub mod render;
pub mod roster;
pub mod store;
pub mod text;
