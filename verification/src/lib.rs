//! Verified core of the infrared/RGB scene-loading pipeline: the byte-budgeted
//! cache of packed scene batches, the per-epoch shuffled view order of each
//! loader task, the seeding of loader tasks, and the model configuration.

pub mod batch_cache;
pub mod config;
pub mod loader;
mod rng;
