use event_sync::dec::decode_snapshot;
use event_sync::json::{parse_events_doc, parse_matches_doc, parse_teams_doc};
use event_sync::enc::encode_snapshot;
use event_sync::model::{Alliance, Alliances, EventData, TbaMatch, TbaTeam};

fn team(key: &str, number: u32, nickname: Option<&str>) -> TbaTeam {
    TbaTeam {
        key: key.to_string(),
        team_number: number,
        nickname: nickname.map(|s| s.to_string()),
    }
}

fn simple_match(key: &str, level: &str, number: u32, red: &[&str], blue: &[&str]) -> TbaMatch {
    TbaMatch {
        key: key.to_string(),
        comp_level: level.to_string(),
        match_number: number,
        alliances: Alliances {
            red: Alliance { team_keys: red.iter().map(|s| s.to_string()).collect() },
            blue: Alliance { team_keys: blue.iter().map(|s| s.to_string()).collect() },
        },
    }
}

#[test]
fn encode_empty_snapshot_exact_text() {
    let d = EventData { matches: vec![], teams: vec![], team_keys: vec![] };
    let doc = encode_snapshot(&d);
    assert_eq!(doc, "{\"matches\":[],\"teams\":[],\"team_keys\":[]}");
}

#[test]
fn encode_one_team_exact_text() {
    let d = EventData {
        matches: vec![],
        teams: vec![team("frc1", 1, Some("Alpha"))],
        team_keys: vec!["frc1".to_string()],
    };
    let doc = encode_snapshot(&d);
    assert_eq!(
        doc,
        "{\"matches\":[],\"teams\":[{\"key\":\"frc1\",\"team_number\":1,\"nickname\":\"Alpha\"}],\"team_keys\":[\"frc1\"]}"
    );
}

#[test]
fn round_trip_full_snapshot() {
    let d = EventData {
        matches: vec![
            simple_match("2026caoc_qm1", "qm", 1, &["frc1", "frc2"], &["frc3", "frc4"]),
            simple_match("2026caoc_qm2", "qm", 2, &["frc4"], &["frc1"]),
        ],
        teams: vec![team("frc1", 1, Some("Alpha")), team("frc4", 4, None)],
        team_keys: vec![
            "frc1".to_string(),
            "frc2".to_string(),
            "frc3".to_string(),
            "frc4".to_string(),
        ],
    };
    let doc = encode_snapshot(&d);
    let back = decode_snapshot(&doc).expect("canonical document must decode");
    assert_eq!(encode_snapshot(&back), doc);
    assert_eq!(back.matches.len(), 2);
    assert_eq!(back.matches[0].key, "2026caoc_qm1");
    assert_eq!(back.matches[1].alliances.blue.team_keys, vec!["frc1".to_string()]);
    assert_eq!(back.teams.len(), 2);
    assert_eq!(back.teams[0].nickname, Some("Alpha".to_string()));
    assert_eq!(back.teams[1].nickname, None);
    assert_eq!(back.team_keys.len(), 4);
}

#[test]
fn round_trip_escaped_strings() {
    let d = EventData {
        matches: vec![],
        teams: vec![team("k\"quote", 7, Some("back\\slash and \n tab \t bell \u{7} çédille 日本"))],
        team_keys: vec!["k\"quote".to_string()],
    };
    let doc = encode_snapshot(&d);
    let back = decode_snapshot(&doc).expect("escaped document must decode");
    assert_eq!(back.teams[0].key, "k\"quote");
    assert_eq!(
        back.teams[0].nickname.as_deref(),
        Some("back\\slash and \n tab \t bell \u{7} çédille 日本")
    );
}

#[test]
fn encode_escapes_exact_text() {
    let d = EventData {
        matches: vec![],
        teams: vec![team("a\"b\\c", 3, Some("x\u{1}\n\u{1f}y"))],
        team_keys: vec![],
    };
    let doc = encode_snapshot(&d);
    assert_eq!(
        doc,
        "{\"matches\":[],\"teams\":[{\"key\":\"a\\\"b\\\\c\",\"team_number\":3,\"nickname\":\"x\\u0001\\u000a\\u001fy\"}],\"team_keys\":[]}"
    );
}

#[test]
fn round_trip_extreme_number() {
    let d = EventData {
        matches: vec![],
        teams: vec![team("frc0", u32::MAX, None), team("frcz", 0, None)],
        team_keys: vec!["frc0".to_string(), "frcz".to_string()],
    };
    let doc = encode_snapshot(&d);
    let back = decode_snapshot(&doc).expect("document must decode");
    assert_eq!(back.teams[0].team_number, u32::MAX);
    assert_eq!(back.teams[1].team_number, 0);
}

#[test]
fn decode_rejects_malformed() {
    assert!(decode_snapshot("").is_none());
    assert!(decode_snapshot("{}").is_none());
    assert!(decode_snapshot("{\"matches\":[],\"teams\":[]}").is_none());
    assert!(decode_snapshot("{\"matches\":[],\"teams\":[],\"team_keys\":[]} ").is_none());
    assert!(decode_snapshot("{\"matches\":[],\"teams\":[],\"team_keys\":[\"a\"")
        .is_none());
    assert!(decode_snapshot("not json at all").is_none());
}

#[test]
fn decode_rejects_number_overflow() {
    let doc = "{\"matches\":[],\"teams\":[{\"key\":\"a\",\"team_number\":4294967296,\"nickname\":null}],\"team_keys\":[]}";
    assert!(decode_snapshot(doc).is_none());
}

#[test]
fn parse_matches_doc_reads_canonical_array() {
    let body = "[{\"key\":\"m1\",\"comp_level\":\"qm\",\"match_number\":1,\"alliances\":{\"red\":{\"team_keys\":[\"frc1\"]},\"blue\":{\"team_keys\":[\"frc2\"]}}}]";
    let ms = parse_matches_doc(body).expect("canonical match array must parse");
    assert_eq!(ms.len(), 1);
    assert_eq!(ms[0].key, "m1");
    assert_eq!(ms[0].comp_level, "qm");
    assert_eq!(ms[0].match_number, 1);
    assert_eq!(ms[0].alliances.red.team_keys, vec!["frc1".to_string()]);
    assert_eq!(ms[0].alliances.blue.team_keys, vec!["frc2".to_string()]);
}

#[test]
fn parse_teams_doc_reads_canonical_array() {
    let body = "[{\"key\":\"frc1\",\"team_number\":1,\"nickname\":\"Alpha\"},{\"key\":\"frc2\",\"team_number\":2,\"nickname\":null}]";
    let ts = parse_teams_doc(body).expect("canonical team array must parse");
    assert_eq!(ts.len(), 2);
    assert_eq!(ts[0].nickname.as_deref(), Some("Alpha"));
    assert_eq!(ts[1].nickname, None);
    assert!(parse_teams_doc("[").is_none());
    assert!(parse_teams_doc("[]").unwrap().is_empty());
}

#[test]
fn parse_events_doc_reads_canonical_array() {
    let body = "[{\"key\":\"2026caoc\",\"name\":\"Orange County\",\"short_name\":\"OC\",\"start_date\":\"2026-03-01\",\"end_date\":\"2026-03-03\"},{\"key\":\"2026wk\",\"name\":\"Week Zero\",\"short_name\":null,\"start_date\":\"2026-02-20\",\"end_date\":\"2026-02-21\"}]";
    let evs = parse_events_doc(body).expect("canonical event array must parse");
    assert_eq!(evs.len(), 2);
    assert_eq!(evs[0].key, "2026caoc");
    assert_eq!(evs[0].short_name.as_deref(), Some("OC"));
    assert_eq!(evs[1].short_name, None);
    assert!(parse_events_doc("nope").is_none());
}
