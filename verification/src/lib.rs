//! Decoding of HTTP responses for a small text browser: URL splitting, request
//! text, status line and header parsing, body decoding and plain-text rendering.

pub mod body;
pub mod error;
pub mod headers;
pub mod load;
pub mod render;
pub mod request;
pub mod response;
pub mod status;
pub mod stream;
pub mod text;
pub mod url;
