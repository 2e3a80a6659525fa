//! Streaming parser for HTTP `multipart/form-data` request bodies.
//!
//! A body arrives as a byte stream cut into parts by a boundary marker.
//! The crate finds the boundary inside a bounded, refillable lookahead
//! buffer, exposes each part's headers and payload, and can materialize a
//! whole request into text fields and in-memory files under configurable
//! limits.

pub mod boundary;
pub mod encode;
pub mod error;
pub mod field;
pub mod headers;
pub mod laws;
pub mod pattern;
pub mod request;
pub mod save;
pub mod source;
