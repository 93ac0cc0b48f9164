//! Configuration helpers.

pub mod token;
