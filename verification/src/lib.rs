//! A verified HTTP/1.1 wire-format codec: request decoding (start line,
//! headers, body) and response serialization (status line, headers, body),
//! together with the content model (methods, status codes, content types)
//! that both sides share.

pub mod decode;
pub mod encode;
pub mod laws;
pub mod model;
pub mod text;
