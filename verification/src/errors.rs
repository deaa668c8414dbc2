//! Error values returned by the library's fallible operations.

use vstd::prelude::*;

verus! {

/// Model of a decoded service error body.
pub struct KeenErrorV {
    pub message: Seq<u8>,
    pub error_code: Seq<u8>,
}

/// A decoded error body from the analytics service.
#[derive(Debug, PartialEq, Eq)]
pub struct KeenError {
    /// Human-readable message from the service.
    pub message: Vec<u8>,
    /// Machine-readable error code from the service.
    pub error_code: Vec<u8>,
}

impl View for KeenError {
    type V = KeenErrorV;

    open spec fn view(&self) -> KeenErrorV {
        KeenErrorV { message: self.message@, error_code: self.error_code@ }
    }
}

/// Every failure a library operation can surface, as a value.
#[derive(Debug, PartialEq, Eq)]
pub enum NativeError {
    /// Network or HTTP failure reaching the analytics service.
    TransportError,
    /// The analytics service answered with a non-success status and a
    /// decodable error body.
    ServiceError(KeenError),
    /// A JSON payload did not match the expected shape.
    DecodeError,
    /// The cache store could not be reached.
    ConnectionError,
    /// A store read failed after the connection was established.
    CacheReadError,
    /// A store write failed after the connection was established.
    CacheWriteError,
    /// The key was absent from the store on read.
    CacheMiss,
    /// A `select` predicate matched no entry where one was required.
    SelectionError,
}

} // verus!
