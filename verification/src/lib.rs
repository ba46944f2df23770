//! The verified core of a video-distillation lab: everything that decides, counts,
//! packs or parses. See the README for the modules.
pub mod alignment;
pub mod archive;
pub mod attention;
pub mod browser;
pub mod bytes;
pub mod cache;
pub mod contract;
pub mod geometry;
pub mod ieee;
pub mod latent;
pub mod precision;
pub mod quant;
pub mod rng;
pub mod sampling;
pub mod shard;
pub mod synth;
pub mod text;
pub mod train;
