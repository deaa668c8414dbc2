//! The result envelope: a decoded payload, its runtime type tag, and the
//! optional cache store it may be persisted against.
//!
//! The envelope never performs network I/O itself. Reads take the reported
//! outcome of a store fetch; writes produce an ordered plan of store
//! commands for the surrounding application to run.

use vstd::prelude::*;
use vstd::slice::slice_to_vec;

use crate::payload::{payload_wf, shape_of, FieldValue, Payload, PayloadV};
use crate::errors::NativeError;
use crate::codec::{enc_body, sp_body};
use crate::codec_proofs::lemma_body_complete;
use crate::encode::encode_body;
use crate::decode::decode_body;
use crate::transform::{
    lemma_accumulate_wf, lemma_select_wf, accumulate_payload, select_payload, spec_accumulate,
    spec_select,
};
use crate::ResultType;

verus! {

/// One store operation of a write plan, to be run in order.
#[derive(Debug, PartialEq, Eq)]
pub enum CacheCommand {
    Put { key: Vec<u8>, value: Vec<u8> },
    Expire { key: Vec<u8>, seconds: u64 },
}

/// The outcome of a store read, as the surrounding application reports it.
#[derive(Debug, PartialEq, Eq)]
pub enum FetchOutcome {
    /// The store could not be reached at all.
    ConnectFailed,
    /// The connection stood but the read itself failed.
    GetFailed,
    /// The key was absent.
    Missing,
    /// The key held this value.
    Value(Vec<u8>),
}

/// The cache-aware result container: a decoded payload, the tag naming its
/// shape, and the URL of the store it was produced against, if any.
#[derive(Debug)]
pub struct KeenCacheResult {
    type_tag: ResultType,
    data: Payload,
    redis: Option<Vec<u8>>,
}

impl KeenCacheResult {
    /// The envelope's well-formedness: the payload's strings can be carried
    /// by the canonical encoding, and the tag matches the payload's shape.
    pub closed spec fn inv(&self) -> bool {
        payload_wf(self.data@) && self.type_tag == shape_of(self.data@)
    }

    /// The runtime tag, as consumers that cannot see the payload type read
    /// it.
    pub closed spec fn tag_view(&self) -> ResultType {
        self.type_tag
    }

    /// The runtime discriminator of this envelope's shape.
    pub fn tag(&self) -> (r: ResultType)
        ensures
            r == self.tag_view(),
    {
        self.type_tag
    }

    /// The payload by value.
    pub closed spec fn payload_view(&self) -> PayloadV {
        self.data@
    }

    /// The attached store URL, if one is configured.
    pub closed spec fn store_view(&self) -> Option<Seq<u8>> {
        match self.redis {
            Option::Some(ref u) => Some(u@),
            Option::None => None,
        }
    }

    /// Wrap a payload with no store attached; the tag is set from the
    /// payload's actual shape.
    pub fn from_payload(p: Payload) -> (r: KeenCacheResult)
        requires
            payload_wf(p@),
        ensures
            r.inv(),
            r.payload_view() == p@,
            r.store_view() is None,
    {
        let tag = match &p {
            Payload::Scalar(_) => ResultType::POD,
            Payload::Items(_) => ResultType::ITEMS,
            Payload::DaysScalar(_) => ResultType::DAYSPOD,
            Payload::DaysItems(_) => ResultType::DAYSITEMS,
        };
        KeenCacheResult { type_tag: tag, data: p, redis: None }
    }

    /// Attach (or replace) the store this envelope persists against.
    pub fn attach_store(&mut self, url: &[u8])
        ensures
            final(self).store_view() == Some(url@),
            final(self).payload_view() == old(self).payload_view(),
            final(self).tag_view() == old(self).tag_view(),
            old(self).inv() ==> final(self).inv(),
    {
        self.redis = Some(slice_to_vec(url));
    }

    /// Borrow the decoded payload.
    pub fn payload(&self) -> (r: &Payload)
        ensures
            r@ == self.payload_view(),
    {
        &self.data
    }

    /// Re-derive the type tag from the payload's actual shape. With the
    /// closed payload union one method serves all four shapes, and leaves
    /// the tag correct by construction.
    pub fn tt(&mut self)
        ensures
            final(self).tag_view() == shape_of(old(self).payload_view()),
            final(self).payload_view() == old(self).payload_view(),
            final(self).store_view() == old(self).store_view(),
            payload_wf(old(self).payload_view()) ==> final(self).inv(),
    {
        self.type_tag = match &self.data {
            Payload::Scalar(_) => ResultType::POD,
            Payload::Items(_) => ResultType::ITEMS,
            Payload::DaysScalar(_) => ResultType::DAYSPOD,
            Payload::DaysItems(_) => ResultType::DAYSITEMS,
        };
    }

    /// Build an envelope from a store read's outcome, decoding the fetched
    /// value as the given shape. This path never touches the analytics
    /// service and never attaches a store: it is a disconnected snapshot
    /// read.
    ///
    /// Errors, if and only if: `ConnectionError` when the store was
    /// unreachable, `CacheReadError` when the read failed after connecting,
    /// `CacheMiss` when the key was absent, `DecodeError` when the value was
    /// not a canonical body of the requested shape.
    pub fn from_redis(fetch: FetchOutcome, shape: ResultType) -> (r: Result<
        KeenCacheResult,
        NativeError,
    >)
        ensures
            fetch is ConnectFailed ==> r == Result::<KeenCacheResult, NativeError>::Err(
                NativeError::ConnectionError,
            ),
            fetch is GetFailed ==> r == Result::<KeenCacheResult, NativeError>::Err(
                NativeError::CacheReadError,
            ),
            fetch is Missing ==> r == Result::<KeenCacheResult, NativeError>::Err(
                NativeError::CacheMiss,
            ),
            fetch matches FetchOutcome::Value(s) ==> match r {
                Result::Ok(env) => sp_body(shape, s@) == Some(env.payload_view()) && env.inv()
                    && env.tag_view() == shape && env.store_view() is None && s@ == enc_body(
                    env.payload_view(),
                ),
                Result::Err(e) => e == NativeError::DecodeError && sp_body(shape, s@) is None,
            },
            forall|pv: PayloadV|
                (fetch matches FetchOutcome::Value(s) && payload_wf(pv) && shape_of(pv) == shape
                    && s@ == #[trigger] enc_body(pv)) ==> r is Ok && r.unwrap().payload_view()
                    == pv,
    {
        match fetch {
            FetchOutcome::ConnectFailed => Err(NativeError::ConnectionError),
            FetchOutcome::GetFailed => Err(NativeError::CacheReadError),
            FetchOutcome::Missing => Err(NativeError::CacheMiss),
            FetchOutcome::Value(s) => match decode_body(shape, s.as_slice()) {
                Some(p) => Ok(KeenCacheResult { type_tag: shape, data: p, redis: None }),
                None => Err(NativeError::DecodeError),
            },
        }
    }

    /// Collapse the payload into its aggregate, per `spec_accumulate`:
    /// total for every shape, consuming the envelope and keeping its store,
    /// with the tag re-derived from the result's shape.
    pub fn accumulate(self) -> (r: KeenCacheResult)
        requires
            self.inv(),
        ensures
            r.inv(),
            r.payload_view() == spec_accumulate(self.payload_view()),
            r.store_view() == self.store_view(),
    {
        proof {
            lemma_accumulate_wf(self.data@);
        }
        let p = accumulate_payload(self.data);
        let mut out = KeenCacheResult::from_payload(p);
        out.redis = self.redis;
        out
    }

    /// Project the payload down by a field predicate, per `spec_select`:
    /// `Ok` exactly when the selection is defined (a grouped payload with a
    /// matching entry; for day buckets, a match in every day), consuming the
    /// envelope and keeping its store. Fails with `SelectionError` otherwise.
    pub fn select(self, name: &[u8], val: &FieldValue) -> (r: Result<
        KeenCacheResult,
        NativeError,
    >)
        requires
            self.inv(),
        ensures
            match r {
                Result::Ok(q) => spec_select(self.payload_view(), name@, val@) == Some(
                    q.payload_view(),
                ) && q.inv() && q.store_view() == self.store_view(),
                Result::Err(e) => e == NativeError::SelectionError && spec_select(
                    self.payload_view(),
                    name@,
                    val@,
                ) is None,
            },
    {
        let ghost pv = self.data@;
        let redis = self.redis;
        match select_payload(self.data, name, val) {
            Some(q) => {
                proof {
                    lemma_select_wf(pv, name@, val@);
                }
                let mut out = KeenCacheResult::from_payload(q);
                out.redis = redis;
                Ok(out)
            },
            None => Err(NativeError::SelectionError),
        }
    }

    /// The ordered store plan for persisting this envelope under `key` with
    /// the given expiration in seconds.
    ///
    /// With no store attached the plan is empty: writing is a no-op that
    /// touches no connection. With a store attached the plan holds exactly
    /// two commands, the `Put` of the canonical encoding (the store's `set`) first and the
    /// `Expire` second, so the value is always written before its expiration
    /// is attached — also when the expiration is `0`.
    pub fn to_redis(&self, key: &[u8], expire: u64) -> (r: Vec<CacheCommand>)
        requires
            self.inv(),
        ensures
            self.store_view() is None ==> r@.len() == 0,
            self.store_view() is Some ==> r@.len() == 2 && (r@[0] matches CacheCommand::Put {
                key: k0,
                value: v0,
            } && k0@ == key@ && v0@ == enc_body(self.payload_view())) && (
            r@[1] matches CacheCommand::Expire { key: k1, seconds: sec } && k1@ == key@ && sec
                == expire),
    {
        let mut plan: Vec<CacheCommand> = Vec::new();
        if self.redis.is_some() {
            let bin = encode_body(&self.data);
            plan.push(CacheCommand::Put { key: slice_to_vec(key), value: bin });
            plan.push(CacheCommand::Expire { key: slice_to_vec(key), seconds: expire });
        }
        plan
    }

    /// The payload's serialized transport form; always available.
    pub fn to_json(&self) -> (r: Vec<u8>)
        ensures
            r@ == enc_body(self.payload_view()),
    {
        encode_body(&self.data)
    }

    /// Used by the query facade: wrap a decoded payload against a store.
    pub(crate) fn assemble(tag: ResultType, data: Payload, redis: Option<Vec<u8>>) -> (r:
        KeenCacheResult)
        requires
            payload_wf(data@),
            tag == shape_of(data@),
        ensures
            r.inv(),
            r.tag_view() == tag,
            r.payload_view() == data@,
            r.store_view() == match redis {
                Option::Some(u) => Some::<Seq<u8>>(u@),
                Option::None => None::<Seq<u8>>,
            },
    {
        KeenCacheResult { type_tag: tag, data, redis }
    }
}

/// Cache round trip: the value that `to_redis` plans to store for an
/// envelope — the canonical body of its payload — decodes back, under the
/// same shape tag, to exactly that payload; so writing an envelope and
/// reading the stored value back with `from_redis` yields an equal payload.
pub proof fn lemma_cache_round_trip(p: PayloadV)
    requires
        payload_wf(p),
    ensures
        sp_body(shape_of(p), enc_body(p)) == Some(p),
{
    lemma_body_complete(p);
}

} // verus!
