//! A minimal HTTP/1.1 request handler: a hand-rolled request parser, a fixed
//! route table and the serialisation of responses, all on plain values.
//!
//! The library never touches a socket or the filesystem. It turns the bytes
//! of one request into the next thing to do ([`router::Step`]), and the result
//! of a file operation into a response.

pub mod decimal;
pub mod error;
pub mod headers;
pub mod laws;
pub mod request;
pub mod response;
pub mod router;
pub mod text;
