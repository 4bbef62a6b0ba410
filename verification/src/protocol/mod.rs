//! The messages of the UDP tracker protocol and their bytes on the wire.

pub mod request;
pub mod response;
