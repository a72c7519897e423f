//! The RESP2 protocol: values, their encoding, and a streaming parser.
pub mod debug;
pub mod laws;
pub mod model;
pub mod parser;
pub mod wire;
