//! Core rules of an offline 3D aim trainer: scenario catalogue, session
//! counters, configuration grammar and the trainer's input decisions.
//!
//! Everything that moves in space (targets, projectiles, the camera) is
//! measured in floating point and lives with the renderer; this crate holds
//! the discrete decisions around it.

pub mod config;
pub mod scenario;
pub mod stats;
pub mod trainer;
