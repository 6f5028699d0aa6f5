//! The parts of a URI.
pub mod codec;
pub mod ipv4;
pub mod ipv6;
pub mod authority;
pub mod scheme;
