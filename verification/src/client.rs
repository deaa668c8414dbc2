//! The query facade: a client holding analytics credentials and an optional
//! store, and a query builder bound to that store.
//!
//! The facade performs no I/O. The surrounding application executes the
//! described query over HTTP and hands the response's status and body to
//! `data`, which decodes them into a result envelope.

use vstd::prelude::*;

use vstd::slice::slice_to_vec;
use vstd::string::StringExecFns;

use crate::envelope::KeenCacheResult;
use crate::errors::{KeenErrorV, NativeError};
use crate::payload::{bytes_wf, payload_wf, shape_of, PayloadV};
use crate::codec::{enc_body, enc_error, sp_body, sp_error};
use crate::decode::{decode_body, decode_error};
use crate::ResultType;

verus! {

/// An analytics metric, carried opaquely to the executor.
#[derive(Debug, PartialEq, Eq)]
pub struct Metric(pub String);

/// A query timeframe, carried opaquely to the executor.
#[derive(Debug, PartialEq, Eq)]
pub struct TimeFrame(pub String);

/// A query filter, carried opaquely to the executor.
#[derive(Debug, PartialEq, Eq)]
pub struct Filter(pub String);

/// A bucketing interval, carried opaquely to the executor.
#[derive(Debug, PartialEq, Eq)]
pub struct Interval(pub String);

/// The views of a list of strings, for contracts about builder state.
pub open spec fn strings_view(v: Seq<String>) -> Seq<Seq<char>> {
    v.map_values(|s: String| s@)
}

/// The views of a list of filters.
pub open spec fn filters_view(v: Seq<Filter>) -> Seq<Seq<char>> {
    v.map_values(|f: Filter| f.0@)
}

/// A client for the analytics service: credentials, an optional request
/// timeout, and an optional cache store.
pub struct KeenCacheClient {
    key: String,
    project: String,
    timeout_ms: Option<u64>,
    redis: Option<Vec<u8>>,
}

impl KeenCacheClient {
    pub closed spec fn key_view(&self) -> Seq<char> {
        self.key@
    }

    pub closed spec fn project_view(&self) -> Seq<char> {
        self.project@
    }

    pub closed spec fn timeout_view(&self) -> Option<u64> {
        self.timeout_ms
    }

    /// The configured store URL, if any.
    pub closed spec fn store_view(&self) -> Option<Seq<u8>> {
        match self.redis {
            Option::Some(ref u) => Some(u@),
            Option::None => None,
        }
    }

    /// A client with these credentials; no store and no timeout yet.
    pub fn new(key: &str, project: &str) -> (r: KeenCacheClient)
        ensures
            r.key_view() == key@,
            r.project_view() == project@,
            r.timeout_view() is None,
            r.store_view() is None,
    {
        KeenCacheClient {
            key: String::from_str(key),
            project: String::from_str(project),
            timeout_ms: None,
            redis: None,
        }
    }

    /// Configure the cache store. Opening the connection is outside work:
    /// the caller attempts it and reports whether the store answered at this
    /// URL. On success the store is replaced; on failure `ConnectionError`
    /// is returned and the previous store stands.
    pub fn set_redis(&mut self, url: &[u8], reachable: bool) -> (r: Result<(), NativeError>)
        ensures
            reachable ==> r is Ok && final(self).store_view() == Some(url@),
            !reachable ==> r == Result::<(), NativeError>::Err(NativeError::ConnectionError)
                && final(self).store_view() == old(self).store_view(),
            final(self).key_view() == old(self).key_view(),
            final(self).project_view() == old(self).project_view(),
            final(self).timeout_view() == old(self).timeout_view(),
    {
        if reachable {
            self.redis = Some(slice_to_vec(url));
            Ok(())
        } else {
            Err(NativeError::ConnectionError)
        }
    }

    /// Set the request timeout for analytics calls, in milliseconds.
    pub fn set_timeout(&mut self, timeout_ms: u64)
        ensures
            final(self).timeout_view() == Some(timeout_ms),
            final(self).key_view() == old(self).key_view(),
            final(self).project_view() == old(self).project_view(),
            final(self).store_view() == old(self).store_view(),
    {
        self.timeout_ms = Some(timeout_ms);
    }

    /// Derive a query for this metric, collection and timeframe, bound to
    /// this client's store, with no group-by, filters, interval or age hint
    /// yet.
    pub fn query(&self, metric: Metric, collection: String, timeframe: TimeFrame) -> (r:
        KeenCacheQuery)
        ensures
            r.metric.0@ == metric.0@,
            r.collection@ == collection@,
            r.timeframe.0@ == timeframe.0@,
            r.group_by@.len() == 0,
            r.filters@.len() == 0,
            r.interval is None,
            r.max_age is None,
            r.timeout_ms == self.timeout_view(),
            r.store_view() == self.store_view(),
    {
        let redis = match &self.redis {
            Option::Some(u) => Some(slice_to_vec(u.as_slice())),
            Option::None => None,
        };
        KeenCacheQuery {
            metric,
            collection,
            timeframe,
            group_by: Vec::new(),
            filters: Vec::new(),
            interval: None,
            max_age: None,
            timeout_ms: self.timeout_ms,
            redis,
        }
    }
}

/// A query description bound to one client's store. The surrounding
/// application reads these fields to issue the HTTP request; `data` decodes
/// what came back.
pub struct KeenCacheQuery {
    pub metric: Metric,
    pub collection: String,
    pub timeframe: TimeFrame,
    pub group_by: Vec<String>,
    pub filters: Vec<Filter>,
    pub interval: Option<Interval>,
    pub max_age: Option<u64>,
    pub timeout_ms: Option<u64>,
    pub redis: Option<Vec<u8>>,
}

impl KeenCacheQuery {
    /// The store this query's envelopes will persist against.
    pub open spec fn store_view(&self) -> Option<Seq<u8>> {
        match self.redis {
            Option::Some(ref u) => Some(u@),
            Option::None => None,
        }
    }

    /// Attach a group-by field.
    pub fn group_by(&mut self, g: &str)
        ensures
            strings_view(final(self).group_by@) == strings_view(old(self).group_by@).push(g@),
            final(self).metric == old(self).metric,
            final(self).collection == old(self).collection,
            final(self).timeframe == old(self).timeframe,
            final(self).filters == old(self).filters,
            final(self).interval == old(self).interval,
            final(self).max_age == old(self).max_age,
            final(self).timeout_ms == old(self).timeout_ms,
            final(self).redis == old(self).redis,
    {
        let ghost before = strings_view(self.group_by@);
        self.group_by.push(String::from_str(g));
        proof {
            assert forall|q: int| 0 <= q < self.group_by@.len() implies strings_view(
                self.group_by@,
            )[q] == before.push(g@)[q] by {
                if q < before.len() {
                    assert(self.group_by@[q] == old(self).group_by@[q]);
                }
            }
            assert(strings_view(self.group_by@) =~= before.push(g@));
        }
    }

    /// Attach a filter.
    pub fn filter(&mut self, f: Filter)
        ensures
            filters_view(final(self).filters@) == filters_view(old(self).filters@).push(f.0@),
            final(self).metric == old(self).metric,
            final(self).collection == old(self).collection,
            final(self).timeframe == old(self).timeframe,
            final(self).group_by == old(self).group_by,
            final(self).interval == old(self).interval,
            final(self).max_age == old(self).max_age,
            final(self).timeout_ms == old(self).timeout_ms,
            final(self).redis == old(self).redis,
    {
        let ghost before = filters_view(self.filters@);
        let ghost fv = f.0@;
        self.filters.push(f);
        proof {
            assert forall|q: int| 0 <= q < self.filters@.len() implies filters_view(
                self.filters@,
            )[q] == before.push(fv)[q] by {
                if q < before.len() {
                    assert(self.filters@[q] == old(self).filters@[q]);
                }
            }
            assert(filters_view(self.filters@) =~= before.push(fv));
        }
    }

    /// Set the bucketing interval.
    pub fn interval(&mut self, i: Interval)
        ensures
            (final(self).interval matches Some(x) && x.0@ == i.0@),
            final(self).metric == old(self).metric,
            final(self).collection == old(self).collection,
            final(self).timeframe == old(self).timeframe,
            final(self).group_by == old(self).group_by,
            final(self).filters == old(self).filters,
            final(self).max_age == old(self).max_age,
            final(self).timeout_ms == old(self).timeout_ms,
            final(self).redis == old(self).redis,
    {
        self.interval = Some(i);
    }

    /// Set the maximum acceptable age of a cached answer, in seconds.
    pub fn max_age(&mut self, age: u64)
        ensures
            final(self).max_age == Some(age),
            final(self).metric == old(self).metric,
            final(self).collection == old(self).collection,
            final(self).timeframe == old(self).timeframe,
            final(self).group_by == old(self).group_by,
            final(self).filters == old(self).filters,
            final(self).interval == old(self).interval,
            final(self).timeout_ms == old(self).timeout_ms,
            final(self).redis == old(self).redis,
    {
        self.max_age = Some(age);
    }

    /// Decode an analytics response into a result envelope of the given
    /// shape, carrying this query's store.
    ///
    /// A success status must carry a canonical body of the shape; the
    /// envelope then holds exactly the decoded payload. A non-success
    /// status never yields an envelope: with a decodable error body the
    /// decoded service error is returned as `ServiceError`, otherwise
    /// `DecodeError`.
    pub fn data(&self, status: u16, body: &[u8], shape: ResultType) -> (r: Result<
        KeenCacheResult,
        NativeError,
    >)
        ensures
            status == 200 ==> match r {
                Result::Ok(env) => sp_body(shape, body@) == Some(env.payload_view())
                    && env.inv() && env.tag_view() == shape && env.store_view()
                    == self.store_view() && body@ == enc_body(env.payload_view()),
                Result::Err(e) => e == NativeError::DecodeError && sp_body(shape, body@)
                    is None,
            },
            status == 200 ==> forall|pv: PayloadV|
                (payload_wf(pv) && shape_of(pv) == shape && body@ == #[trigger] enc_body(pv))
                    ==> r is Ok && r.unwrap().payload_view() == pv,
            status != 200 ==> match r {
                Result::Ok(_) => false,
                Result::Err(e) => match sp_error(body@) {
                    Option::Some(ev) => (e matches NativeError::ServiceError(ke) && ke@ == ev
                        && body@ == enc_error(ev)),
                    Option::None => e == NativeError::DecodeError,
                },
            },
            status != 200 ==> forall|ev: KeenErrorV|
                (bytes_wf(ev.message) && bytes_wf(ev.error_code) && body@ == #[trigger] enc_error(
                    ev,
                )) ==> (r matches Err(NativeError::ServiceError(ke)) && ke@ == ev),
    {
        if status != 200 {
            match decode_error(body) {
                Some(e) => return Err(NativeError::ServiceError(e)),
                None => return Err(NativeError::DecodeError),
            }
        }
        match decode_body(shape, body) {
            Some(p) => {
                let redis = match &self.redis {
                    Option::Some(u) => Some(slice_to_vec(u.as_slice())),
                    Option::None => None,
                };
                Ok(KeenCacheResult::assemble(shape, p, redis))
            },
            None => Err(NativeError::DecodeError),
        }
    }
}

} // verus!
