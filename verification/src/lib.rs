//! Shared building blocks for MCP servers: character-safe text chunking, a
//! response-size budget for tool results, token generation, web-login
//! decisions and the evaluation helpers of the integration-test harness.

pub mod budget;
pub mod chars;
pub mod config;
pub mod testing;
pub mod text;
pub mod web;

pub use config::token::generate_random_token;
