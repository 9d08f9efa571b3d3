//! Auto-tagging: the provider, what is sent to it, and what becomes of its reply.

pub mod breaker;
pub mod config;
pub mod deepseek;
pub mod names;
pub mod provider;
pub mod worker;
