//! Web login and request gating.

pub mod session;
