//! Core logic of a deterministic combat simulation: a list arena for
//! per-entity item lists, fixed-point time, velocity sources, movement
//! intent, and the simulation's adaptive tick loop and lossy view buffer.

pub mod common;
pub mod simulation;
