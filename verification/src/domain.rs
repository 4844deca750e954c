//! The values that the engine speaks of.

pub mod models;
