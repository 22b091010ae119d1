//! Deterministic assignment of users to feature treatments, and the
//! hash negotiation that lets clients skip unchanged toggle sets.

pub mod engine;
pub mod mapper;
pub mod user_io;
pub mod user_model;
