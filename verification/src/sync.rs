//! The sync orchestrator: try the live fetch; on success hand back a fresh
//! snapshot together with the document to persist (best-effort, a failed
//! write never demotes the result); on any fetch failure serve the cached
//! snapshot instead; when that also fails, report both errors combined.
#![allow(unused_imports)]

use vstd::prelude::*;
use vstd::string::StringExecFns;

use crate::dec::{decode_snapshot, spec_decode_snapshot};
use crate::enc::{enc_snapshot, encode_snapshot};
use crate::fetch::{FetchError, HttpResponse, RespV, fetch_event_data, spec_fetch};
use crate::model::{EventData, EventDataV, snapshot_wf};

verus! {

/// What reading the cache file for an event key yielded: no file, an
/// unreadable file, or its text.
#[derive(Debug)]
pub enum CacheRead {
    Missing,
    Unreadable,
    Content(String),
}

/// Ghost view of `CacheRead`.
pub enum CacheReadV {
    Missing,
    Unreadable,
    Content(Seq<char>),
}

impl View for CacheRead {
    type V = CacheReadV;

    open spec fn view(&self) -> CacheReadV {
        match self {
            CacheRead::Missing => CacheReadV::Missing,
            CacheRead::Unreadable => CacheReadV::Unreadable,
            CacheRead::Content(s) => CacheReadV::Content(s@),
        }
    }
}

/// Why the cached snapshot could not be served.
#[derive(Debug)]
pub enum CacheError {
    NotFound,
    StorageError,
    Decode,
}

/// A failed sync names both underlying failures; neither is swallowed.
#[derive(Debug)]
pub struct CombinedError {
    pub fetch: FetchError,
    pub cache: CacheError,
}

/// Where a served snapshot came from.
#[derive(Debug)]
pub enum Origin {
    Fresh,
    Cached,
}

/// A served snapshot and its origin.
#[derive(Debug)]
pub struct FetchOutcome {
    pub snapshot: EventData,
    pub origin: Origin,
}

/// The whole result of one sync: the outcome or the combined error; the
/// document to persist when the fetch was fresh; and, when a cached snapshot
/// was served, the fetch failure it papered over, for diagnostics.
#[derive(Debug)]
pub struct SyncOutcome {
    pub result: Result<FetchOutcome, CombinedError>,
    pub persist: Option<String>,
    pub degraded: Option<FetchError>,
}

/// What serving the cache yields for each read outcome.
pub open spec fn spec_load(c: CacheReadV) -> Result<EventDataV, CacheError> {
    match c {
        CacheReadV::Missing => Result::Err(CacheError::NotFound),
        CacheReadV::Unreadable => Result::Err(CacheError::StorageError),
        CacheReadV::Content(text) => match spec_decode_snapshot(text) {
            Option::Some(d) => Result::Ok(d),
            Option::None => Result::Err(CacheError::Decode),
        },
    }
}

/// The whole orchestrator policy: the served snapshot with its origin (or the
/// pair of errors), and the document to persist.
pub open spec fn spec_sync(m: RespV, t: RespV, c: CacheReadV) -> (Result<
    (EventDataV, Origin),
    (FetchError, CacheError),
>, Option<Seq<char>>) {
    match spec_fetch(m, t) {
        Result::Ok(d) => (
            Result::Ok((d, Origin::Fresh)),
            Option::Some(enc_snapshot(d)),
        ),
        Result::Err(fe) => match spec_load(c) {
            Result::Ok(d) => (Result::Ok((d, Origin::Cached)), Option::None),
            Result::Err(ce) => (Result::Err((fe, ce)), Option::None),
        },
    }
}

/// Serve the cached snapshot from one cache read: `NotFound` when no file
/// exists, `StorageError` when it could not be read, `Decode` when its text
/// is not a canonical snapshot document.
pub fn load_snapshot(read: &CacheRead) -> (r: Result<EventData, CacheError>)
    ensures
        r matches Result::Ok(d) ==> spec_load(read@) == Result::<EventDataV, CacheError>::Ok(d@),
        r matches Result::Err(e) ==> spec_load(read@) == Result::<EventDataV, CacheError>::Err(e),
{
    match read {
        CacheRead::Missing => Result::Err(CacheError::NotFound),
        CacheRead::Unreadable => Result::Err(CacheError::StorageError),
        CacheRead::Content(text) => match decode_snapshot(text.as_str()) {
            Option::Some(d) => Result::Ok(d),
            Option::None => Result::Err(CacheError::Decode),
        },
    }
}

/// The cache file name for an event key.
pub fn cache_file_name(event_key: &str) -> (r: String)
    ensures
        r@ == event_key@ + "_event_data.json"@,
{
    let mut s = String::from_str(event_key);
    s.append("_event_data.json");
    s
}

/// One sync for one event key, from the observed outcomes of the two remote
/// requests and of the cache read. A successful fetch is served `Fresh` with
/// its canonical document to persist; a failed fetch is served from the cache
/// as `Cached` with nothing persisted; when both fail, both errors are
/// reported and nothing is persisted.
pub fn sync_event_data(
    matches_resp: &HttpResponse,
    teams_resp: &HttpResponse,
    cached: &CacheRead,
) -> (r: SyncOutcome)
    ensures
        spec_fetch(matches_resp@, teams_resp@) matches Result::Ok(sd) ==> {
            &&& r.result matches Result::Ok(o) && o.snapshot@ == sd && o.origin is Fresh
            &&& r.persist matches Option::Some(doc) && doc@ == enc_snapshot(sd)
            &&& r.degraded is None
            &&& snapshot_wf(sd)
        },
        spec_fetch(matches_resp@, teams_resp@) matches Result::Err(fe) ==> {
            &&& r.persist is None
            &&& spec_load(cached@) matches Result::Ok(cd) ==> r.result matches Result::Ok(o)
                && o.snapshot@ == cd && o.origin is Cached && r.degraded == Option::Some(fe)
            &&& spec_load(cached@) matches Result::Err(ce) ==> r.result matches Result::Err(c2)
                && c2.fetch == fe && c2.cache == ce
        },
{
    match fetch_event_data(matches_resp, teams_resp) {
        Result::Ok(d) => {
            let doc = encode_snapshot(&d);
            SyncOutcome {
                result: Result::Ok(FetchOutcome { snapshot: d, origin: Origin::Fresh }),
                persist: Option::Some(doc),
                degraded: Option::None,
            }
        },
        Result::Err(fe) => match load_snapshot(cached) {
            Result::Ok(d) => SyncOutcome {
                result: Result::Ok(FetchOutcome { snapshot: d, origin: Origin::Cached }),
                persist: Option::None,
                degraded: Option::Some(fe),
            },
            Result::Err(ce) => SyncOutcome {
                result: Result::Err(CombinedError { fetch: fe, cache: ce }),
                persist: Option::None,
                degraded: Option::None,
            },
        },
    }
}

/// Syncing over a fetch that succeeds ignores the cache entirely: two runs
/// with the same responses yield the same `Fresh` outcome whatever either
/// cache held, and the persisted document decodes back to exactly the served
/// snapshot.
pub proof fn lemma_sync_idempotent(m: RespV, t: RespV, c1: CacheReadV, c2: CacheReadV)
    requires
        spec_fetch(m, t) is Ok,
    ensures
        spec_sync(m, t, c1) == spec_sync(m, t, c2),
        spec_sync(m, t, c1).0 matches Result::Ok(p) && p.1 is Fresh && p.0 == spec_fetch(m, t)->Ok_0,
        spec_sync(m, t, c1).1 matches Option::Some(doc) && spec_decode_snapshot(doc)
            == Option::Some(spec_fetch(m, t)->Ok_0),
{
    crate::round_trip::lemma_snapshot_round_trip(spec_fetch(m, t)->Ok_0);
}

} // verus!
