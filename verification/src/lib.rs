//! Flatness (habitability) scoring over a terrain given as discrete spatial
//! samples with elevation values.
//!
//! The pipeline has two stages: per-point gradient-based flatness scoring with
//! sea-level exclusion, followed by a neighbor-density filter that prunes
//! isolated qualifying points. Elevations, gradients and scores are fixed-point
//! integers (see [`transform::SCALE`]); the spatial tessellation itself is an
//! external collaborator reached through the [`sample_map::SampleMap`] trait.

pub mod flatness;
pub mod sample_map;
pub mod transform;
