//! Strict parsing of the authority component of a URI (`userinfo@host:port`),
//! with the character classes, the percent-encoding codec and the IPv4 and
//! IPv6 literal validators it is built from, and a few HTTP enumerations.
pub mod chars_sets;
pub mod error;
pub mod status;
pub mod text;
pub mod uri;
pub mod version;
