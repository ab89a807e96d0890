use event_sync::dec::decode_snapshot;
use event_sync::enc::encode_snapshot;
use event_sync::fetch::{FetchError, HttpResponse};
use event_sync::sync::{
    CacheError, CacheRead, Origin, cache_file_name, load_snapshot, sync_event_data,
};

fn ok(body: &str) -> HttpResponse {
    HttpResponse::Status { code: 200, body: body.to_string() }
}

// Event "2026caoc": three matches referencing {frc1..frc4} and a team list
// [frc1..frc5].
const MATCHES_A: &str = "[{\"key\":\"2026caoc_qm1\",\"comp_level\":\"qm\",\"match_number\":1,\"alliances\":{\"red\":{\"team_keys\":[\"frc1\",\"frc2\"]},\"blue\":{\"team_keys\":[\"frc3\",\"frc4\"]}}},{\"key\":\"2026caoc_qm2\",\"comp_level\":\"qm\",\"match_number\":2,\"alliances\":{\"red\":{\"team_keys\":[\"frc1\",\"frc3\"]},\"blue\":{\"team_keys\":[\"frc2\",\"frc4\"]}}},{\"key\":\"2026caoc_qm3\",\"comp_level\":\"qm\",\"match_number\":3,\"alliances\":{\"red\":{\"team_keys\":[\"frc1\",\"frc4\"]},\"blue\":{\"team_keys\":[\"frc2\",\"frc3\"]}}}]";

const TEAMS_A: &str = "[{\"key\":\"frc1\",\"team_number\":1,\"nickname\":null},{\"key\":\"frc2\",\"team_number\":2,\"nickname\":null},{\"key\":\"frc3\",\"team_number\":3,\"nickname\":null},{\"key\":\"frc4\",\"team_number\":4,\"nickname\":null},{\"key\":\"frc5\",\"team_number\":5,\"nickname\":\"Echo\"}]";

#[test]
fn scenario_a_fresh_sync_writes_cache() {
    let r = sync_event_data(&ok(MATCHES_A), &ok(TEAMS_A), &CacheRead::Missing);
    let outcome = r.result.ok().expect("sync must succeed");
    assert!(matches!(outcome.origin, Origin::Fresh));
    assert_eq!(outcome.snapshot.matches.len(), 3);
    assert_eq!(outcome.snapshot.team_keys.len(), 5);
    for k in ["frc1", "frc2", "frc3", "frc4", "frc5"] {
        assert!(outcome.snapshot.team_keys.iter().any(|x| x == k), "missing {k}");
    }
    // The cache document to write exists and is the snapshot's canonical form.
    assert!(r.degraded.is_none());
    let doc = r.persist.expect("fresh sync must hand back a document to persist");
    assert_eq!(doc, encode_snapshot(&outcome.snapshot));
}

#[test]
fn scenario_b_network_down_serves_cache() {
    // A prior sync persisted the snapshot for this key.
    let first = sync_event_data(&ok(MATCHES_A), &ok(TEAMS_A), &CacheRead::Missing);
    let cache_file = first.persist.expect("fresh sync must persist");
    let fresh = first.result.ok().expect("sync must succeed").snapshot;

    // Now the network fails on both requests; the cache file from above exists.
    let r = sync_event_data(
        &HttpResponse::Transport,
        &HttpResponse::Transport,
        &CacheRead::Content(cache_file.clone()),
    );
    // The degraded-service diagnostic names the fetch failure.
    assert!(matches!(r.degraded, Some(FetchError::Network)));
    let outcome = r.result.ok().expect("fallback must serve the cache");
    assert!(matches!(outcome.origin, Origin::Cached));
    assert_eq!(encode_snapshot(&outcome.snapshot), encode_snapshot(&fresh));
    assert!(r.persist.is_none());
}

#[test]
fn scenario_c_network_down_no_cache_fails_combined() {
    let r = sync_event_data(&HttpResponse::Transport, &ok(TEAMS_A), &CacheRead::Missing);
    let combined = r.result.err().expect("sync must fail");
    assert!(matches!(combined.fetch, FetchError::Network));
    assert!(matches!(combined.cache, CacheError::NotFound));
    assert!(r.persist.is_none());
}

#[test]
fn sync_is_idempotent_for_a_stable_remote() {
    let r1 = sync_event_data(&ok(MATCHES_A), &ok(TEAMS_A), &CacheRead::Missing);
    let doc1 = r1.persist.expect("fresh sync must persist");
    let o1 = r1.result.ok().expect("sync must succeed");
    assert!(matches!(o1.origin, Origin::Fresh));

    // Second call, same remote, now with the first call's cache file present.
    let r2 = sync_event_data(&ok(MATCHES_A), &ok(TEAMS_A), &CacheRead::Content(doc1.clone()));
    let doc2 = r2.persist.expect("fresh sync must persist");
    let o2 = r2.result.ok().expect("sync must succeed");
    assert!(matches!(o2.origin, Origin::Fresh));

    // Identical snapshots, and each cache file round-trips.
    assert_eq!(encode_snapshot(&o1.snapshot), encode_snapshot(&o2.snapshot));
    assert_eq!(doc1, doc2);
    let back = decode_snapshot(&doc2).expect("persisted document must round-trip");
    assert_eq!(encode_snapshot(&back), doc2);
}

#[test]
fn failed_fetch_with_unreadable_cache_reports_both() {
    let r = sync_event_data(
        &ok(MATCHES_A),
        &HttpResponse::Status { code: 500, body: String::new() },
        &CacheRead::Unreadable,
    );
    let combined = r.result.err().expect("sync must fail");
    assert!(matches!(combined.fetch, FetchError::RemoteRejected(500)));
    assert!(matches!(combined.cache, CacheError::StorageError));
}

#[test]
fn failed_fetch_with_corrupt_cache_reports_decode() {
    let r = sync_event_data(
        &HttpResponse::Transport,
        &ok(TEAMS_A),
        &CacheRead::Content("{half a file".to_string()),
    );
    let combined = r.result.err().expect("sync must fail");
    assert!(matches!(combined.fetch, FetchError::Network));
    assert!(matches!(combined.cache, CacheError::Decode));
}

#[test]
fn load_snapshot_maps_read_outcomes() {
    assert!(matches!(load_snapshot(&CacheRead::Missing), Err(CacheError::NotFound)));
    assert!(matches!(load_snapshot(&CacheRead::Unreadable), Err(CacheError::StorageError)));
    assert!(matches!(
        load_snapshot(&CacheRead::Content("nope".to_string())),
        Err(CacheError::Decode)
    ));
    let good = "{\"matches\":[],\"teams\":[{\"key\":\"frc9\",\"team_number\":9,\"nickname\":null}],\"team_keys\":[\"frc9\"]}";
    let d = load_snapshot(&CacheRead::Content(good.to_string())).expect("must load");
    assert_eq!(d.teams[0].key, "frc9");
}

#[test]
fn cache_file_name_is_keyed_by_event() {
    assert_eq!(cache_file_name("2026caoc"), "2026caoc_event_data.json");
    assert_eq!(cache_file_name(""), "_event_data.json");
}
