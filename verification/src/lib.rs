//! A minimal HTTP/1.x static-file server library.
//!
//! The request/response pipeline — request-line, header and body parsing,
//! URI validation and query decomposition, file-path resolution policy and
//! response serialization — is verified. Socket and file I/O live outside
//! the library and hand it plain values.

pub mod config;
pub mod http_types;
pub mod logger;
pub mod request;
pub mod response;
pub mod server;
pub mod strmap;
pub mod strutil;
pub mod uri;
