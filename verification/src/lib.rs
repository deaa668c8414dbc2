//! A caching and result-shaping layer in front of an analytics query service.
//!
//! The library holds the verified core: the typed result envelope, the JSON
//! codec for its four payload shapes, the transformations (`accumulate`,
//! `select`), and the cache persistence plans. The blocking network calls
//! (the analytics HTTP request, the store's get/set/expire) are performed by
//! the surrounding application, which hands their outcomes to the library as
//! plain values.

use vstd::prelude::*;

pub mod client;
pub mod codec;
pub mod codec_proofs;
pub mod decode;
pub mod encode;
pub mod envelope;
pub mod errors;
pub mod payload;
pub mod transform;

verus! {

/// Runtime discriminator for the four payload shapes, exposed to consumers
/// (for instance across an FFI boundary) as a small integer via [`ResultType::code`].
#[derive(Clone, Copy, PartialEq, Eq, Structural, Debug)]
pub enum ResultType {
    POD,
    ITEMS,
    DAYSPOD,
    DAYSITEMS,
}

impl ResultType {
    /// The small-integer form of the tag.
    pub fn code(&self) -> (r: u8)
        ensures
            r == match *self {
                ResultType::POD => 0u8,
                ResultType::ITEMS => 1u8,
                ResultType::DAYSPOD => 2u8,
                ResultType::DAYSITEMS => 3u8,
            },
    {
        match *self {
            ResultType::POD => 0u8,
            ResultType::ITEMS => 1u8,
            ResultType::DAYSPOD => 2u8,
            ResultType::DAYSITEMS => 3u8,
        }
    }
}

} // verus!
