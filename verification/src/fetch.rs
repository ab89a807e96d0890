//! The remote-fetch policy: how the outcomes of the two event-data requests
//! (matches, teams) combine into a snapshot or an error, per the error
//! taxonomy. Decode failures of a 2xx sub-resource body yield an empty result
//! for that sub-resource rather than failing the whole call.
#![allow(unused_imports)]

use vstd::prelude::*;

use crate::json::{json_events_doc, json_matches_doc, json_teams_doc, parse_events_doc,
    parse_matches_doc, parse_teams_doc};
use crate::model::{EventData, EventDataV, TbaEvent, TbaEventV, TbaMatch, TbaMatchV, TbaTeam,
    TbaTeamV, distinct_keys, match_mentions_key, snapshot_mentions_key, snapshot_wf};

verus! {

/// The observed outcome of one HTTP request: a transport-level failure, or a
/// status code with the response body.
#[derive(Debug)]
pub enum HttpResponse {
    Transport,
    Status { code: u16, body: String },
}

/// Ghost view of `HttpResponse`.
pub enum RespV {
    Transport,
    Status { code: u16, body: Seq<char> },
}

impl View for HttpResponse {
    type V = RespV;

    open spec fn view(&self) -> RespV {
        match self {
            HttpResponse::Transport => RespV::Transport,
            HttpResponse::Status { code, body } => RespV::Status { code: *code, body: body@ },
        }
    }
}

/// Why a remote fetch failed.
#[derive(Debug)]
pub enum FetchError {
    Network,
    Unauthorized,
    RemoteRejected(u16),
    Decode,
}

/// The value a `RemoteRejected` carries when both requests succeeded but the
/// event held no matches and no teams: no HTTP status, distinguishable from
/// every real one.
pub const NO_DATA_STATUS: u16 = 0;

/// A successful HTTP status.
pub open spec fn is_2xx(s: u16) -> bool {
    200 <= s < 300
}

/// A status that rejects the credential.
pub open spec fn is_auth_fail(s: u16) -> bool {
    s == 401 || s == 403
}

/// Whether a response carries a credential-rejecting status.
pub open spec fn resp_auth_fail(r: RespV) -> bool {
    r matches RespV::Status { code, .. } && is_auth_fail(code)
}

/// The matches decoded from a 2xx body; empty when the body is malformed.
pub open spec fn matches_of_body(body: Seq<char>) -> Seq<TbaMatchV> {
    match json_matches_doc(body) {
        Option::Some(v) => v,
        Option::None => Seq::empty(),
    }
}

/// The teams decoded from a 2xx body; empty when the body is malformed.
pub open spec fn teams_of_body(body: Seq<char>) -> Seq<TbaTeamV> {
    match json_teams_doc(body) {
        Option::Some(v) => v,
        Option::None => Seq::empty(),
    }
}

/// Every alliance team key of `ms`, in match order, red before blue.
pub open spec fn keys_of_matches(ms: Seq<TbaMatchV>) -> Seq<Seq<char>>
    decreases ms.len(),
{
    if ms.len() == 0 {
        Seq::empty()
    } else {
        keys_of_matches(ms.drop_last()) + ms.last().alliances.red.team_keys
            + ms.last().alliances.blue.team_keys
    }
}

/// The key of every team of `ts`, in order.
pub open spec fn keys_of_teams(ts: Seq<TbaTeamV>) -> Seq<Seq<char>>
    decreases ts.len(),
{
    if ts.len() == 0 {
        Seq::empty()
    } else {
        keys_of_teams(ts.drop_last()).push(ts.last().key)
    }
}

/// First occurrences of `s`, in order, duplicates dropped.
pub open spec fn dedup_keys(s: Seq<Seq<char>>) -> Seq<Seq<char>>
    decreases s.len(),
{
    if s.len() == 0 {
        Seq::empty()
    } else {
        let d = dedup_keys(s.drop_last());
        if d.contains(s.last()) {
            d
        } else {
            d.push(s.last())
        }
    }
}

/// The derived team-key list of a snapshot: alliance keys of all matches, then
/// team-list keys, de-duplicated keeping first occurrences.
pub open spec fn derived_key_seq(ms: Seq<TbaMatchV>, ts: Seq<TbaTeamV>) -> Seq<Seq<char>> {
    dedup_keys(keys_of_matches(ms) + keys_of_teams(ts))
}

/// The whole fetch policy: what `fetch_event_data` returns for each pair of
/// request outcomes. Credential rejection on either request wins; then a
/// missing event (teams 404); then transport failure; then any other non-2xx
/// status, matches request first; then the merge, which rejects an event
/// that carried no data at all with `RemoteRejected(NO_DATA_STATUS)`.
pub open spec fn spec_fetch(m: RespV, t: RespV) -> Result<EventDataV, FetchError> {
    if resp_auth_fail(m) || resp_auth_fail(t) {
        Result::Err(FetchError::Unauthorized)
    } else if t matches RespV::Status { code, .. } && code == 404 {
        Result::Err(FetchError::RemoteRejected(404))
    } else if m is Transport || t is Transport {
        Result::Err(FetchError::Network)
    } else {
        match (m, t) {
            (RespV::Status { code: mc, body: mb }, RespV::Status { code: tc, body: tb }) => {
                if !is_2xx(mc) && mc != 404 {
                    Result::Err(FetchError::RemoteRejected(mc))
                } else if !is_2xx(tc) {
                    Result::Err(FetchError::RemoteRejected(tc))
                } else {
                    let ms = if mc == 404 {
                        Seq::<TbaMatchV>::empty()
                    } else {
                        matches_of_body(mb)
                    };
                    let ts = teams_of_body(tb);
                    if ms.len() == 0 && ts.len() == 0 {
                        Result::Err(FetchError::RemoteRejected(NO_DATA_STATUS))
                    } else {
                        Result::Ok(
                            EventDataV {
                                matches: ms,
                                teams: ts,
                                team_keys: derived_key_seq(ms, ts),
                            },
                        )
                    }
                }
            },
            _ => Result::Err(FetchError::Network),
        }
    }
}

/// The listing policy: what `list_events` returns for one request outcome.
pub open spec fn spec_list_events(r: RespV) -> Result<Seq<TbaEventV>, FetchError> {
    match r {
        RespV::Transport => Result::Err(FetchError::Network),
        RespV::Status { code, body } => {
            if is_auth_fail(code) {
                Result::Err(FetchError::Unauthorized)
            } else if !is_2xx(code) {
                Result::Err(FetchError::RemoteRejected(code))
            } else {
                match json_events_doc(body) {
                    Option::Some(evs) => Result::Ok(evs),
                    Option::None => Result::Err(FetchError::Decode),
                }
            }
        },
    }
}

proof fn lemma_contains_concat(a: Seq<Seq<char>>, b: Seq<Seq<char>>, x: Seq<char>)
    ensures
        (a + b).contains(x) <==> a.contains(x) || b.contains(x),
{
    if a.contains(x) {
        let i = choose|i: int| 0 <= i < a.len() && a[i] == x;
        assert((a + b)[i] == x);
    }
    if b.contains(x) {
        let i = choose|i: int| 0 <= i < b.len() && b[i] == x;
        assert((a + b)[a.len() + i] == x);
    }
    if (a + b).contains(x) {
        let i = choose|i: int| 0 <= i < (a + b).len() && (a + b)[i] == x;
        if i < a.len() {
            assert(a[i] == x);
        } else {
            assert(b[i - a.len()] == x);
        }
    }
}

proof fn lemma_contains_push(s: Seq<Seq<char>>, y: Seq<char>, x: Seq<char>)
    ensures
        s.push(y).contains(x) <==> s.contains(x) || x == y,
{
    assert(s.push(y) =~= s + seq![y]);
    lemma_contains_concat(s, seq![y], x);
    assert(seq![y].contains(x) <==> x == y) by {
        if x == y {
            assert(seq![y][0] == x);
        }
    }
}

/// De-duplication keeps membership and yields pairwise-distinct keys.
proof fn lemma_dedup_keys(s: Seq<Seq<char>>)
    ensures
        distinct_keys(dedup_keys(s)),
        forall|x: Seq<char>| #[trigger] dedup_keys(s).contains(x) <==> s.contains(x),
    decreases s.len(),
{
    if s.len() == 0 {
    } else {
        lemma_dedup_keys(s.drop_last());
        let d = dedup_keys(s.drop_last());
        assert forall|x: Seq<char>| #[trigger] dedup_keys(s).contains(x) <==> s.contains(x) by {
            lemma_contains_push(d, s.last(), x);
            lemma_contains_push(s.drop_last(), s.last(), x);
            assert(s.drop_last().push(s.last()) =~= s);
        }
        if !d.contains(s.last()) {
            let d2 = d.push(s.last());
            assert forall|i: int, j: int| 0 <= i < j < d2.len() implies d2[i] != d2[j] by {
                if j < d.len() {
                } else {
                    assert(d2[j] == s.last());
                    assert(d.contains(d[i]));
                }
            }
        }
    }
}

/// Alliance-key membership across all matches.
proof fn lemma_keys_of_matches_mentions(ms: Seq<TbaMatchV>)
    ensures
        forall|k: Seq<char>| #[trigger]
            keys_of_matches(ms).contains(k) <==> (exists|i: int|
                0 <= i < ms.len() && match_mentions_key(#[trigger] ms[i], k)),
    decreases ms.len(),
{
    if ms.len() == 0 {
    } else {
        lemma_keys_of_matches_mentions(ms.drop_last());
        let pre = keys_of_matches(ms.drop_last());
        let red = ms.last().alliances.red.team_keys;
        let blue = ms.last().alliances.blue.team_keys;
        assert forall|k: Seq<char>| #[trigger]
            keys_of_matches(ms).contains(k) <==> (exists|i: int|
                0 <= i < ms.len() && match_mentions_key(#[trigger] ms[i], k)) by {
            lemma_contains_concat(pre + red, blue, k);
            lemma_contains_concat(pre, red, k);
            if keys_of_matches(ms).contains(k) {
                if pre.contains(k) {
                    let i = choose|i: int|
                        0 <= i < ms.drop_last().len() && match_mentions_key(
                            #[trigger] ms.drop_last()[i],
                            k,
                        );
                    assert(match_mentions_key(ms[i], k));
                } else {
                    assert(match_mentions_key(ms[ms.len() - 1], k));
                }
            }
            if exists|i: int| 0 <= i < ms.len() && match_mentions_key(#[trigger] ms[i], k) {
                let i = choose|i: int| 0 <= i < ms.len() && match_mentions_key(#[trigger] ms[i], k);
                if i < ms.len() - 1 {
                    assert(match_mentions_key(ms.drop_last()[i], k));
                    assert(pre.contains(k));
                } else {
                    assert(match_mentions_key(ms.last(), k));
                }
            }
        }
    }
}

/// Team-key membership across the team list.
proof fn lemma_keys_of_teams_mentions(ts: Seq<TbaTeamV>)
    ensures
        forall|k: Seq<char>| #[trigger]
            keys_of_teams(ts).contains(k) <==> (exists|j: int|
                0 <= j < ts.len() && (#[trigger] ts[j]).key == k),
    decreases ts.len(),
{
    if ts.len() == 0 {
    } else {
        lemma_keys_of_teams_mentions(ts.drop_last());
        let pre = keys_of_teams(ts.drop_last());
        assert forall|k: Seq<char>| #[trigger]
            keys_of_teams(ts).contains(k) <==> (exists|j: int|
                0 <= j < ts.len() && (#[trigger] ts[j]).key == k) by {
            lemma_contains_push(pre, ts.last().key, k);
            if keys_of_teams(ts).contains(k) {
                if pre.contains(k) {
                    let j = choose|j: int|
                        0 <= j < ts.drop_last().len() && (#[trigger] ts.drop_last()[j]).key == k;
                    assert(ts[j].key == k);
                } else {
                    assert(ts[ts.len() - 1].key == k);
                }
            }
            if exists|j: int| 0 <= j < ts.len() && (#[trigger] ts[j]).key == k {
                let j = choose|j: int| 0 <= j < ts.len() && (#[trigger] ts[j]).key == k;
                if j < ts.len() - 1 {
                    assert(ts.drop_last()[j].key == k);
                    assert(pre.contains(k));
                } else {
                    assert(ts.last().key == k);
                }
            }
        }
    }
}

/// The derived key list is distinct and holds exactly the mentioned keys.
proof fn lemma_derived_key_seq(ms: Seq<TbaMatchV>, ts: Seq<TbaTeamV>)
    ensures
        distinct_keys(derived_key_seq(ms, ts)),
        forall|k: Seq<char>| #[trigger]
            derived_key_seq(ms, ts).contains(k) <==> snapshot_mentions_key(ms, ts, k),
{
    let all = keys_of_matches(ms) + keys_of_teams(ts);
    lemma_dedup_keys(all);
    lemma_keys_of_matches_mentions(ms);
    lemma_keys_of_teams_mentions(ts);
    assert forall|k: Seq<char>| #[trigger]
        derived_key_seq(ms, ts).contains(k) <==> snapshot_mentions_key(ms, ts, k) by {
        lemma_contains_concat(keys_of_matches(ms), keys_of_teams(ts), k);
    }
}

/// Every successful fetch returns a well-formed snapshot: `team_keys`, read
/// as a set, equals the union of all alliance team keys across `matches` and
/// all team keys of `teams`, duplicates collapsed, whether either side is
/// empty or not.
pub proof fn lemma_fetch_team_keys(m: RespV, t: RespV)
    requires
        spec_fetch(m, t) is Ok,
    ensures
        spec_fetch(m, t) matches Result::Ok(d) && snapshot_wf(d) && d.team_keys.to_set()
            == crate::model::derived_team_keys(d.matches, d.teams),
{
    let d = spec_fetch(m, t)->Ok_0;
    lemma_derived_key_seq(d.matches, d.teams);
    assert(d.team_keys.to_set() =~= crate::model::derived_team_keys(d.matches, d.teams));
}

/// A missing matches resource (404) with a 2xx teams response holding at
/// least one team yields a snapshot with no matches whose `team_keys` are
/// exactly the returned teams' keys.
pub proof fn lemma_matches_missing_teams_present(mb: Seq<char>, tc: u16, tb: Seq<char>)
    requires
        is_2xx(tc),
        teams_of_body(tb).len() >= 1,
    ensures
        spec_fetch(
            RespV::Status { code: 404, body: mb },
            RespV::Status { code: tc, body: tb },
        ) matches Result::Ok(d) && d.matches == Seq::<TbaMatchV>::empty() && d.teams
            == teams_of_body(tb) && (forall|k: Seq<char>| #[trigger]
            d.team_keys.contains(k) <==> keys_of_teams(teams_of_body(tb)).contains(k)),
{
    let m = RespV::Status { code: 404, body: mb };
    let t = RespV::Status { code: tc, body: tb };
    let ts = teams_of_body(tb);
    let d = spec_fetch(m, t)->Ok_0;
    assert(d.matches == Seq::<TbaMatchV>::empty());
    lemma_dedup_keys(keys_of_matches(d.matches) + keys_of_teams(ts));
    assert forall|k: Seq<char>| #[trigger]
        d.team_keys.contains(k) <==> keys_of_teams(ts).contains(k) by {
        lemma_contains_concat(keys_of_matches(d.matches), keys_of_teams(ts), k);
        assert(keys_of_matches(d.matches).len() == 0);
    }
}

/// A 404 from the teams endpoint rejects the whole call, whatever the matches
/// endpoint returned, as long as neither response rejects the credential.
pub proof fn lemma_teams_not_found(m: RespV, tb: Seq<char>)
    requires
        !resp_auth_fail(m),
    ensures
        spec_fetch(m, RespV::Status { code: 404, body: tb }) == Result::<
            EventDataV,
            FetchError,
        >::Err(FetchError::RemoteRejected(404)),
{
}

/// A credential-rejecting status (401 or 403) on either request fails the
/// whole call with `Unauthorized`; no partial snapshot is returned.
pub proof fn lemma_unauthorized(m: RespV, t: RespV)
    requires
        resp_auth_fail(m) || resp_auth_fail(t),
    ensures
        spec_fetch(m, t) == Result::<EventDataV, FetchError>::Err(FetchError::Unauthorized),
{
}

/// Whether some string of `v` has the characters of `s`.
fn contains_string(v: &Vec<String>, s: &String) -> (r: bool)
    ensures
        r == v@.map_values(|x: String| x@).contains(s@),
{
    let ghost kv = v@.map_values(|x: String| x@);
    let mut i: usize = 0;
    while i < v.len()
        invariant
            kv == v@.map_values(|x: String| x@),
            i <= v.len(),
            forall|j: int| 0 <= j < i ==> kv[j] != s@,
        decreases v.len() - i,
    {
        if v[i] == *s {
            proof {
                assert(kv[i as int] == s@);
            }
            return true;
        }
        i = i + 1;
    }
    false
}

/// Append clones of all of `src` to `dst`.
fn push_all(dst: &mut Vec<String>, src: &Vec<String>)
    ensures
        final(dst)@.map_values(|x: String| x@) == old(dst)@.map_values(|x: String| x@)
            + src@.map_values(|x: String| x@),
{
    let ghost base = old(dst)@.map_values(|x: String| x@);
    let ghost sv = src@.map_values(|x: String| x@);
    let mut i: usize = 0;
    while i < src.len()
        invariant
            base == old(dst)@.map_values(|x: String| x@),
            sv == src@.map_values(|x: String| x@),
            i <= src.len(),
            dst@.map_values(|x: String| x@) == base + sv.take(i as int),
        decreases src.len() - i,
    {
        let c = src[i].clone();
        dst.push(c);
        proof {
            assert(sv[i as int] == src@[i as int]@);
            assert(c@ == sv[i as int]);
            assert(sv.take(i + 1 as int) =~= sv.take(i as int).push(sv[i as int]));
            assert(dst@.map_values(|x: String| x@) =~= (base + sv.take(i as int)).push(c@));
            assert((base + sv.take(i as int)).push(c@) =~= base + sv.take(i + 1 as int));
        }
        i = i + 1;
    }
    proof {
        assert(sv.take(src@.len() as int) =~= sv);
    }
}

/// The derived, de-duplicated team-key list of a fetched snapshot.
fn collect_keys(matches: &Vec<TbaMatch>, teams: &Vec<TbaTeam>) -> (r: Vec<String>)
    ensures
        r@.map_values(|x: String| x@) == derived_key_seq(
            matches@.map_values(|m: TbaMatch| m@),
            teams@.map_values(|t: TbaTeam| t@),
        ),
{
    let ghost msv = matches@.map_values(|m: TbaMatch| m@);
    let ghost tsv = teams@.map_values(|t: TbaTeam| t@);
    let mut all: Vec<String> = Vec::new();
    let mut i: usize = 0;
    while i < matches.len()
        invariant
            msv == matches@.map_values(|m: TbaMatch| m@),
            i <= matches.len(),
            all@.map_values(|x: String| x@) == keys_of_matches(msv.take(i as int)),
        decreases matches.len() - i,
    {
        push_all(&mut all, &matches[i].alliances.red.team_keys);
        push_all(&mut all, &matches[i].alliances.blue.team_keys);
        proof {
            let pre = msv.take(i as int);
            let post = msv.take(i + 1 as int);
            assert(post.drop_last() =~= pre);
            assert(post.last() == msv[i as int]);
            assert(msv[i as int] == matches@[i as int]@);
            assert(keys_of_matches(post) == keys_of_matches(pre)
                + msv[i as int].alliances.red.team_keys + msv[i as int].alliances.blue.team_keys);
        }
        i = i + 1;
    }
    proof {
        assert(msv.take(matches@.len() as int) =~= msv);
    }
    let mut j: usize = 0;
    while j < teams.len()
        invariant
            msv == matches@.map_values(|m: TbaMatch| m@),
            tsv == teams@.map_values(|t: TbaTeam| t@),
            j <= teams.len(),
            all@.map_values(|x: String| x@) == keys_of_matches(msv) + keys_of_teams(
                tsv.take(j as int),
            ),
        decreases teams.len() - j,
    {
        let c = teams[j].key.clone();
        all.push(c);
        proof {
            let pre = tsv.take(j as int);
            let post = tsv.take(j + 1 as int);
            assert(post.drop_last() =~= pre);
            assert(post.last() == tsv[j as int]);
            assert(tsv[j as int] == teams@[j as int]@);
            assert(keys_of_teams(post) == keys_of_teams(pre).push(tsv[j as int].key));
            assert(c@ == tsv[j as int].key);
            assert(all@.map_values(|x: String| x@) =~= (keys_of_matches(msv) + keys_of_teams(
                pre,
            )).push(c@));
            assert((keys_of_matches(msv) + keys_of_teams(pre)).push(c@) =~= keys_of_matches(msv)
                + keys_of_teams(post));
        }
        j = j + 1;
    }
    proof {
        assert(tsv.take(teams@.len() as int) =~= tsv);
    }
    let ghost allv = keys_of_matches(msv) + keys_of_teams(tsv);
    let mut out: Vec<String> = Vec::new();
    let mut k: usize = 0;
    while k < all.len()
        invariant
            allv == keys_of_matches(msv) + keys_of_teams(tsv),
            all@.map_values(|x: String| x@) == allv,
            k <= all.len(),
            out@.map_values(|x: String| x@) == dedup_keys(allv.take(k as int)),
        decreases all.len() - k,
    {
        let present = contains_string(&out, &all[k]);
        proof {
            let pre = allv.take(k as int);
            let post = allv.take(k + 1 as int);
            assert(post.drop_last() =~= pre);
            assert(post.last() == allv[k as int]);
            assert(allv[k as int] == all@[k as int]@);
        }
        if !present {
            let c = all[k].clone();
            out.push(c);
            proof {
                assert(out@.map_values(|x: String| x@) =~= dedup_keys(allv.take(k as int)).push(
                    all@[k as int]@,
                ));
            }
        }
        k = k + 1;
    }
    proof {
        assert(allv.take(all@.len() as int) =~= allv);
    }
    out
}

/// Combine the outcomes of the matches and teams requests for one event key
/// into a snapshot, or the error the policy prescribes. On success the
/// snapshot is well-formed: `team_keys` is the duplicate-free union of every
/// alliance key and every listed team's key.
pub fn fetch_event_data(matches_resp: &HttpResponse, teams_resp: &HttpResponse) -> (r: Result<
    EventData,
    FetchError,
>)
    ensures
        r matches Result::Ok(d) ==> spec_fetch(matches_resp@, teams_resp@) == Result::<
            EventDataV,
            FetchError,
        >::Ok(d@) && snapshot_wf(d@),
        r matches Result::Err(e) ==> spec_fetch(matches_resp@, teams_resp@) == Result::<
            EventDataV,
            FetchError,
        >::Err(e),
{
    let m_auth = match matches_resp {
        HttpResponse::Status { code, .. } => *code == 401 || *code == 403,
        HttpResponse::Transport => false,
    };
    let t_auth = match teams_resp {
        HttpResponse::Status { code, .. } => *code == 401 || *code == 403,
        HttpResponse::Transport => false,
    };
    if m_auth || t_auth {
        return Result::Err(FetchError::Unauthorized);
    }
    let t_missing = match teams_resp {
        HttpResponse::Status { code, .. } => *code == 404,
        HttpResponse::Transport => false,
    };
    if t_missing {
        return Result::Err(FetchError::RemoteRejected(404));
    }
    match (matches_resp, teams_resp) {
        (HttpResponse::Transport, _) => Result::Err(FetchError::Network),
        (_, HttpResponse::Transport) => Result::Err(FetchError::Network),
        (
            HttpResponse::Status { code: mc, body: mb },
            HttpResponse::Status { code: tc, body: tb },
        ) => {
            if !(200 <= *mc && *mc < 300) && *mc != 404 {
                return Result::Err(FetchError::RemoteRejected(*mc));
            }
            if !(200 <= *tc && *tc < 300) {
                return Result::Err(FetchError::RemoteRejected(*tc));
            }
            let ms: Vec<TbaMatch> = if *mc == 404 {
                Vec::new()
            } else {
                match parse_matches_doc(mb.as_str()) {
                    Option::Some(v) => v,
                    Option::None => Vec::new(),
                }
            };
            let ts: Vec<TbaTeam> = match parse_teams_doc(tb.as_str()) {
                Option::Some(v) => v,
                Option::None => Vec::new(),
            };
            proof {
                assert(ms@.map_values(|m: TbaMatch| m@) =~= (if mc == 404 {
                    Seq::<TbaMatchV>::empty()
                } else {
                    matches_of_body(mb@)
                }));
                assert(ts@.map_values(|t: TbaTeam| t@) =~= teams_of_body(tb@));
            }
            if ms.len() == 0 && ts.len() == 0 {
                return Result::Err(FetchError::RemoteRejected(NO_DATA_STATUS));
            }
            let keys = collect_keys(&ms, &ts);
            let d = EventData { matches: ms, teams: ts, team_keys: keys };
            proof {
                lemma_fetch_team_keys(matches_resp@, teams_resp@);
            }
            Result::Ok(d)
        },
    }
}

/// Decode the listing endpoint's outcome into the season's events, or the
/// error the policy prescribes; a 2xx body that is not a canonical event
/// array fails with `Decode`.
pub fn list_events(resp: &HttpResponse) -> (r: Result<Vec<TbaEvent>, FetchError>)
    ensures
        r matches Result::Ok(v) ==> spec_list_events(resp@) == Result::<
            Seq<TbaEventV>,
            FetchError,
        >::Ok(v@.map_values(|e: TbaEvent| e@)),
        r matches Result::Err(e) ==> spec_list_events(resp@) == Result::<
            Seq<TbaEventV>,
            FetchError,
        >::Err(e),
{
    match resp {
        HttpResponse::Transport => Result::Err(FetchError::Network),
        HttpResponse::Status { code, body } => {
            if *code == 401 || *code == 403 {
                Result::Err(FetchError::Unauthorized)
            } else if !(200 <= *code && *code < 300) {
                Result::Err(FetchError::RemoteRejected(*code))
            } else {
                match parse_events_doc(body.as_str()) {
                    Option::Some(evs) => Result::Ok(evs),
                    Option::None => Result::Err(FetchError::Decode),
                }
            }
        },
    }
}

} // verus!
