//! Portfolio exposure engine: a look-through resolver that expands
//! fund-of-funds holdings into their underlying constituents, aggregates
//! weighted exposure along five dimensions, derives region and market
//! composition from country composition, and computes a blended cost ratio.
//!
//! All weights are fixed-point fractions scaled by [`weights::WEIGHT_ONE`]
//! (parts per million), so every computation here is exact integer
//! arithmetic with explicit overflow reporting.

pub mod weights;
pub mod wmap;
pub mod security;
pub mod resolve;
pub mod analyze;
pub mod derivation;
pub mod laws;
