//! Offline hint construction for a lattice-based private-information-retrieval
//! server: deterministic expansion of public randomness, negacyclic convolution
//! through a number-theoretic transform, overflow-guarded accumulation across
//! database row-tiles, and modular reduction into a compact output range.

pub mod params;
pub mod engine;
pub mod expand;
pub mod hint;
