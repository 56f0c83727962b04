//! A minimal HTTP/1.1 server core: request framing, routing and response
//! rendering over plain bytes. Sockets and the filesystem stay with the caller.
pub mod protocol;
pub mod request;
pub mod response;
pub mod router;
pub mod text;
