//! A minimal HTTP/1.x client transport: destinations, a zero-copy wire
//! parser, a content-length bounded body stream, proxy tunnelling, a DNS
//! cache and the decisions of a dual-stack connector, each stated and
//! proved. The I/O that drives them lives outside this crate.

pub mod text;
pub mod utils;
pub mod wire;
pub mod body;
pub mod destination;
pub mod tunnel;
pub mod proxy;
pub mod request;
pub mod response;
pub mod head;
pub mod connector;
pub mod cache;
