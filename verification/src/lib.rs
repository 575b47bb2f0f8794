//! Static file-serving protocol logic.
//!
//! This library answers, for an HTTP-style request path and a small set of
//! request headers, which status code, headers and body bytes should be
//! returned to serve a file tree safely: path sanitization, resolution
//! against a virtual filesystem, content-encoding negotiation against
//! pre-compressed sibling files, conditional requests, byte ranges and
//! multipart/byteranges bodies with exact length accounting.
//!
//! The transport (sockets, request framing) and the blocking filesystem
//! backend live outside this crate; they exchange plain values with it.

pub mod body;
pub mod file_response_builder;
pub mod range;
pub mod response_builder;
pub mod resolve;
pub mod service;
pub mod requested_path;
pub mod stream;
pub mod util;
pub mod vfs;
