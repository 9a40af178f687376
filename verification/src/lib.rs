//! A minimal HTTP/1.1 core: the wire codec, the route table and the
//! per-connection request/response step.

pub mod framing;
pub mod handlers;
pub mod http;
pub mod router;
pub mod server;
pub mod text;
