//! Small utilities: bounded and prioritized collections, an object pool,
//! and the arithmetic of BFT quorum models.

pub mod bft_models;
pub mod cache;
pub mod weighted_sampling;
