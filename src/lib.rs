//! Request building and response normalisation for an API-testing client,
//! variable interpolation, and translation of nested foreign collections into a
//! flat, path-linked collection model.

pub mod wire;
pub mod http;
pub mod text;
pub mod response;
pub mod interpolate;
pub mod postman;
pub mod import;
pub mod store;
