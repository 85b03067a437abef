//! Reconstruction of charged-particle tracks from pixel-detector hits,
//! with a validator that scores the reconstruction against truth.
//!
//! An `Event` owns the hits and the z-ordered modules of one detector
//! readout. Three independent pattern-recognition strategies each turn an
//! event into a sequence of `Track`s under one shared contract: every track
//! crosses modules in strictly increasing order, holds at least the
//! configured minimum number of hits, and no hit is assigned to two tracks
//! of one run. The validator matches tracks to truth particles and computes
//! efficiency, clone and ghost metrics; the metrics serialize to JSON and
//! parse back exactly.
//!
//! Positions are integer (fixed-point) coordinates, bounded so that all
//! residual arithmetic stays exact.

pub mod event_model;
pub mod geometry;
pub mod graph_dfs;
pub mod json;
pub mod track_following;
pub mod triplet_trie;
pub mod validator;

use vstd::prelude::*;

verus! {

/// The error kinds the core can surface.
#[derive(Clone, Copy, PartialEq, Eq, Structural, Debug)]
pub enum VeloError {
    /// A nonpositive or otherwise invalid tolerance, hole tolerance,
    /// or purity threshold.
    Configuration,
    /// A hit references a nonexistent module, a module lists a hit that is
    /// not its own, or module z-ordering is violated.
    MalformedEvent,
    /// A supplied track references a hit index absent from the event.
    MismatchedTruth,
}

} // verus!
