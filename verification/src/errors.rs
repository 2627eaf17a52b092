//! Why a candidate fails validation, or why no document could be fetched.

use vstd::prelude::*;

verus! {

/// The ways discovery and validation can fail. Per-candidate failures are
/// swallowed by the pipeline: a failing candidate is dropped, never surfaced.
#[derive(Clone, Copy, PartialEq, Eq, Structural, Debug)]
pub enum IconError {
    /// The network transport failed before any response arrived.
    TransportError,
    /// The response status was outside the success range.
    BadStatus,
    /// The response carried no content-type header.
    MissingContentType,
    /// The content type names no decodable format, and the bytes sniff as
    /// no known format either.
    UnsupportedContentType,
    /// The bytes were claimed decodable but the decode failed.
    DecodeError,
}

} // verus!
