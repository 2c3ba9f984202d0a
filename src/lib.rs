//! Procedural bonsai growth: a stochastic recursive branch generator, the
//! frame-pacing decisions that interleave its output with rendering, and
//! the two-number record that lets a run be saved and replayed.

pub mod branch;
pub mod dice;
pub mod deltas;
pub mod glyph;
pub mod spawn;
pub mod model;
pub mod growth;
pub mod frame;
pub mod persist;
