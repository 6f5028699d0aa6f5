//! HTTP versions.
use vstd::prelude::*;

verus! {

/// The versions of HTTP.
#[derive(Debug, Clone, Copy, PartialEq, Eq, Structural)]
pub enum Version {
    /// `HTTP/1.1`
    V1,
    /// `HTTP/2.0`
    V2,
    /// `HTTP/3.0`
    V3,
}

} // verus!
