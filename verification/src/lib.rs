//! A minimal HTTP/1.1 request-handling core.
//!
//! The crate covers the byte-level request parser, the method/path routing
//! table, and the response builder with content-negotiated payload encoding
//! and exact wire serialization. Sockets and threads live outside; callers
//! hand the parser the header lines and body bytes they read and write back
//! the serialized response bytes.

pub mod content_type;
pub mod encoding;
pub mod headers;
pub mod method;
pub mod status;
pub mod text;
pub mod request;
pub mod response;
pub mod routes;
pub mod router;
pub mod handler;
pub mod pool;
