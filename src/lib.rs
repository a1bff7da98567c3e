//! A small HTTP/1.1 server library: request parsing, content negotiation,
//! byte ranges, response building and routing, over plain bytes.
pub mod auth;
pub mod bytes;
pub mod cache;
pub mod common;
pub mod compressor;
pub mod request;
pub mod response;
pub mod text;
pub mod url;
