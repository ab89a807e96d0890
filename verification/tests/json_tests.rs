use event_sync::fetch::{fetch_event_data, HttpResponse};
use event_sync::json::{parse_events_doc, parse_matches_doc, parse_teams_doc};

fn ok(body: &str) -> HttpResponse {
    HttpResponse::Status { code: 200, body: body.to_string() }
}

// A body shaped like the live service's: pretty-printed, members in its own
// order, and many members beyond the modelled ones.
const REAL_MATCH_BODY: &str = r#"[
  {
    "actual_time": 1767000000,
    "alliances": {
      "blue": {
        "dq_team_keys": [],
        "score": 52,
        "surrogate_team_keys": [],
        "team_keys": ["frc3", "frc4"]
      },
      "red": {
        "dq_team_keys": ["frc9"],
        "score": -1,
        "surrogate_team_keys": [],
        "team_keys": ["frc1", "frc2"]
      }
    },
    "comp_level": "qm",
    "event_key": "2026caoc",
    "key": "2026caoc_qm1",
    "match_number": 1,
    "predicted_time": 1.767e9,
    "score_breakdown": {"red": {"rp": 2.5, "auto": [1, 2, 3]}, "blue": null},
    "videos": [{"key": "xyz", "type": "youtube"}],
    "winning_alliance": "blue"
  }
]"#;

const REAL_TEAMS_BODY: &str = r#"[
  {
    "address": null,
    "city": "Anaheim",
    "country": "USA",
    "key": "frc1",
    "nickname": "The \"First\" One \u2014 d\u00e9j\u00e0 vu \ud83d\ude00",
    "rookie_year": 1997,
    "team_number": 1
  },
  {
    "city": "Irvine",
    "key": "frc5",
    "team_number": 5
  }
]"#;

#[test]
fn parses_real_shaped_match_body() {
    let ms = parse_matches_doc(REAL_MATCH_BODY).expect("interchange match body must parse");
    assert_eq!(ms.len(), 1);
    assert_eq!(ms[0].key, "2026caoc_qm1");
    assert_eq!(ms[0].comp_level, "qm");
    assert_eq!(ms[0].match_number, 1);
    assert_eq!(ms[0].alliances.red.team_keys, vec!["frc1".to_string(), "frc2".to_string()]);
    assert_eq!(ms[0].alliances.blue.team_keys, vec!["frc3".to_string(), "frc4".to_string()]);
}

#[test]
fn parses_real_shaped_teams_body() {
    let ts = parse_teams_doc(REAL_TEAMS_BODY).expect("interchange team body must parse");
    assert_eq!(ts.len(), 2);
    assert_eq!(ts[0].key, "frc1");
    assert_eq!(ts[0].team_number, 1);
    // Standard escapes: \uXXXX, a non-ASCII escape, and a surrogate pair.
    assert_eq!(
        ts[0].nickname.as_deref(),
        Some("The \"First\" One \u{2014} d\u{e9}j\u{e0} vu \u{1F600}")
    );
    // A missing nickname member reads as absence.
    assert_eq!(ts[1].nickname, None);
}

#[test]
fn parses_real_shaped_event_body() {
    let body = r#" [ {
        "district": null,
        "end_date": "2026-03-03",
        "event_type": 0,
        "key": "2026caoc",
        "lat": 33.67,
        "name": "Orange County Regional",
        "short_name": "Orange County",
        "start_date": "2026-03-01",
        "webcasts": [{"channel": "firstinspires", "type": "twitch"}],
        "week": 1
    } ] "#;
    let evs = parse_events_doc(body).expect("interchange event body must parse");
    assert_eq!(evs.len(), 1);
    assert_eq!(evs[0].key, "2026caoc");
    assert_eq!(evs[0].name, "Orange County Regional");
    assert_eq!(evs[0].short_name.as_deref(), Some("Orange County"));
    assert_eq!(evs[0].start_date, "2026-03-01");
    assert_eq!(evs[0].end_date, "2026-03-03");
}

#[test]
fn string_escape_forms_decode() {
    let body = "[{\"key\":\"a\\tb\\nc\\rd\\be\\ff\\/g\\\\h\\\"i\",\"team_number\":7,\"nickname\":null}]";
    let ts = parse_teams_doc(body).expect("escape forms must parse");
    assert_eq!(ts[0].key, "a\tb\nc\rd\u{8}e\u{c}f/g\\h\"i");
}

#[test]
fn rejects_bad_json() {
    // A lone low surrogate, an unpaired high surrogate, a raw control
    // character, a missing required member, and a duplicated member.
    assert!(parse_teams_doc("[{\"key\":\"\\udc00\",\"team_number\":1}]").is_none());
    assert!(parse_teams_doc("[{\"key\":\"\\ud83d x\",\"team_number\":1}]").is_none());
    assert!(parse_teams_doc("[{\"key\":\"a\u{1}b\",\"team_number\":1}]").is_none());
    assert!(parse_teams_doc("[{\"key\":\"frc1\"}]").is_none());
    assert!(parse_teams_doc("[{\"key\":\"a\",\"key\":\"b\",\"team_number\":1}]").is_none());
    assert!(parse_teams_doc("[{\"key\":\"a\",\"team_number\":1},]").is_none());
}

#[test]
fn fetch_succeeds_on_real_shaped_bodies() {
    let d = fetch_event_data(&ok(REAL_MATCH_BODY), &ok(REAL_TEAMS_BODY))
        .expect("fetch must succeed on interchange bodies");
    assert_eq!(d.matches.len(), 1);
    assert_eq!(d.teams.len(), 2);
    // frc1..frc4 from the match, frc5 from the team list.
    assert_eq!(d.team_keys.len(), 5);
    for k in ["frc1", "frc2", "frc3", "frc4", "frc5"] {
        assert!(d.team_keys.iter().any(|x| x == k), "missing {k}");
    }
}
