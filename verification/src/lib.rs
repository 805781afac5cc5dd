//! A secret-santa pairing library.
//!
//! Participants are loaded from a comma-separated record file, shuffled into
//! a random order, and paired along a single cycle: each participant gifts
//! the next one in the shuffled order, and the last gifts the first.

pub mod loader;
pub mod message;
pub mod pairing;
pub mod participant;
pub mod report;
