//! A small password-generation library: a character alphabet is built from
//! enabled character classes, a password of a requested length is drawn
//! uniformly from it, and a bounded, deduplicated history of recent passwords
//! is kept and serialized for persistence.

pub mod options;
pub mod alphabet;
pub mod sampler;
pub mod history;
pub mod persist;
pub mod generator;
