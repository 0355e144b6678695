//! Core of a Monte Carlo path tracer, split into its exactly-describable
//! parts: render configuration, scene selection, sample-set generation over a
//! seeded pseudo-random generator, the light-transport recursion, and the
//! image grid with its plain-text pixel serialization.
//!
//! Color arithmetic is carried out in fixed-point form (65536 units stand for
//! a channel value of 1.0), so that tone mapping and accumulation have exact
//! contracts. The floating-point vector geometry around this core (cameras,
//! ray-primitive intersection, hemisphere and disc mappings) lives with the
//! callers; the decisions it feeds are made and verified here.

pub mod color;
pub mod config;
pub mod image;
pub mod sampler;
pub mod scenes;
pub mod sets;
pub mod trace;
