//! A small HTTP wire library: an incremental request parser for HTTP/1.0 with
//! an HTTP/0.9 fallback, the request and response model, and the response
//! serializer. Every function carries a contract over byte sequences.

pub mod text;
pub mod headers;
pub mod data;
pub mod equality;
pub mod wire;
pub mod grammar;
pub mod parser;
pub mod message;
pub mod laws;
pub mod handler;
pub mod server;
