use event_sync::fetch::{FetchError, HttpResponse, NO_DATA_STATUS, fetch_event_data, list_events};

fn ok(body: &str) -> HttpResponse {
    HttpResponse::Status { code: 200, body: body.to_string() }
}

fn status(code: u16) -> HttpResponse {
    HttpResponse::Status { code, body: String::new() }
}

const MATCHES_BODY: &str = "[{\"key\":\"2026caoc_qm1\",\"comp_level\":\"qm\",\"match_number\":1,\"alliances\":{\"red\":{\"team_keys\":[\"frc1\",\"frc2\"]},\"blue\":{\"team_keys\":[\"frc3\",\"frc4\"]}}}]";

const TEAMS_BODY: &str = "[{\"key\":\"frc1\",\"team_number\":1,\"nickname\":null},{\"key\":\"frc5\",\"team_number\":5,\"nickname\":\"Echo\"}]";

#[test]
fn fetch_merges_and_derives_team_keys() {
    let d = fetch_event_data(&ok(MATCHES_BODY), &ok(TEAMS_BODY)).expect("fetch must succeed");
    assert_eq!(d.matches.len(), 1);
    assert_eq!(d.teams.len(), 2);
    // Union of alliance keys {frc1..frc4} and team-list keys {frc1, frc5},
    // duplicates collapsed: exactly five keys.
    assert_eq!(d.team_keys.len(), 5);
    for k in ["frc1", "frc2", "frc3", "frc4", "frc5"] {
        assert!(d.team_keys.iter().any(|x| x == k), "missing {k}");
    }
}

#[test]
fn fetch_team_keys_with_empty_teams() {
    // The union property holds when only matches name teams.
    let d = fetch_event_data(&ok(MATCHES_BODY), &ok("[]")).expect("fetch must succeed");
    assert_eq!(d.teams.len(), 0);
    assert_eq!(d.team_keys.len(), 4);
    for k in ["frc1", "frc2", "frc3", "frc4"] {
        assert!(d.team_keys.iter().any(|x| x == k), "missing {k}");
    }
}

#[test]
fn matches_404_with_teams_succeeds_empty_matches() {
    let d = fetch_event_data(&status(404), &ok(TEAMS_BODY)).expect("fetch must succeed");
    assert!(d.matches.is_empty());
    assert_eq!(d.team_keys.len(), 2);
    assert!(d.team_keys.iter().any(|x| x == "frc1"));
    assert!(d.team_keys.iter().any(|x| x == "frc5"));
}

#[test]
fn teams_404_rejects_whole_call() {
    let e = fetch_event_data(&ok(MATCHES_BODY), &status(404)).unwrap_err();
    assert!(matches!(e, FetchError::RemoteRejected(404)));
    let e2 = fetch_event_data(&HttpResponse::Transport, &status(404)).unwrap_err();
    assert!(matches!(e2, FetchError::RemoteRejected(404)));
    let e3 = fetch_event_data(&status(500), &status(404)).unwrap_err();
    assert!(matches!(e3, FetchError::RemoteRejected(404)));
}

#[test]
fn auth_failure_on_either_side_wins() {
    let e = fetch_event_data(&status(401), &ok(TEAMS_BODY)).unwrap_err();
    assert!(matches!(e, FetchError::Unauthorized));
    let e2 = fetch_event_data(&ok(MATCHES_BODY), &status(403)).unwrap_err();
    assert!(matches!(e2, FetchError::Unauthorized));
    let e3 = fetch_event_data(&status(401), &status(404)).unwrap_err();
    assert!(matches!(e3, FetchError::Unauthorized));
}

#[test]
fn transport_failure_maps_to_network() {
    let e = fetch_event_data(&HttpResponse::Transport, &ok(TEAMS_BODY)).unwrap_err();
    assert!(matches!(e, FetchError::Network));
    let e2 = fetch_event_data(&ok(MATCHES_BODY), &HttpResponse::Transport).unwrap_err();
    assert!(matches!(e2, FetchError::Network));
}

#[test]
fn other_statuses_map_to_remote_rejected() {
    let e = fetch_event_data(&status(500), &ok(TEAMS_BODY)).unwrap_err();
    assert!(matches!(e, FetchError::RemoteRejected(500)));
    let e2 = fetch_event_data(&ok(MATCHES_BODY), &status(503)).unwrap_err();
    assert!(matches!(e2, FetchError::RemoteRejected(503)));
}

#[test]
fn malformed_sub_resource_body_counts_as_empty() {
    // A 2xx body that is not a canonical array yields an empty sub-resource,
    // not an error; teams still carry the call.
    let d = fetch_event_data(&ok("garbage"), &ok(TEAMS_BODY)).expect("fetch must succeed");
    assert!(d.matches.is_empty());
    assert_eq!(d.teams.len(), 2);
}

#[test]
fn no_data_at_all_is_rejected() {
    // The carried value is the no-data sentinel, not the 2xx the requests had.
    let e = fetch_event_data(&ok("[]"), &ok("[]")).unwrap_err();
    assert!(matches!(e, FetchError::RemoteRejected(NO_DATA_STATUS)));
    let e2 = fetch_event_data(&ok("garbage"), &ok("also garbage")).unwrap_err();
    assert!(matches!(e2, FetchError::RemoteRejected(NO_DATA_STATUS)));
}

#[test]
fn list_events_maps_outcomes() {
    let body = "[{\"key\":\"2026caoc\",\"name\":\"Orange County\",\"short_name\":null,\"start_date\":\"2026-03-01\",\"end_date\":\"2026-03-03\"}]";
    let evs = list_events(&ok(body)).expect("listing must succeed");
    assert_eq!(evs.len(), 1);
    assert_eq!(evs[0].key, "2026caoc");
    assert!(matches!(list_events(&HttpResponse::Transport), Err(FetchError::Network)));
    assert!(matches!(list_events(&status(401)), Err(FetchError::Unauthorized)));
    assert!(matches!(list_events(&status(403)), Err(FetchError::Unauthorized)));
    assert!(matches!(list_events(&status(500)), Err(FetchError::RemoteRejected(500))));
    assert!(matches!(list_events(&ok("oops")), Err(FetchError::Decode)));
}
