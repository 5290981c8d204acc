//! A minimal object-storage service core: an incremental HTTP/1.1 request
//! parser, a response builder, a keyed record/blob store with path-safety
//! checks, session authentication with signed tokens, and an authorization
//! engine over an ordered set of access levels.

pub mod auth;
pub mod bytes;
pub mod handler;
pub mod http;
pub mod json;
pub mod metadata;
pub mod parser;
pub mod request;
pub mod response;
pub mod storage;
pub mod store;
pub mod wrappers;

pub use http::Method;
pub use http::MimeType;
