//! The domain model: teams, matches, alliances, and the event snapshot that
//! the fetch pipeline produces and the cache persists. Each executable type
//! has a ghost view over `Seq<char>` that the contracts speak of.
#![allow(unused_imports)]

use vstd::prelude::*;

verus! {

/// One event as returned by the listing endpoint. Not persisted.
#[derive(Debug)]
pub struct TbaEvent {
    pub key: String,
    pub name: String,
    pub short_name: Option<String>,
    pub start_date: String,
    pub end_date: String,
}

/// One team, immutable once fetched.
#[derive(Debug)]
pub struct TbaTeam {
    pub key: String,
    pub team_number: u32,
    pub nickname: Option<String>,
}

/// The two alliances of one match.
#[derive(Debug)]
pub struct Alliances {
    pub red: Alliance,
    pub blue: Alliance,
}

/// An ordered list of team keys competing together in one match.
#[derive(Debug)]
pub struct Alliance {
    pub team_keys: Vec<String>,
}

/// One match, immutable once fetched.
#[derive(Debug)]
pub struct TbaMatch {
    pub key: String,
    pub comp_level: String,
    pub match_number: u32,
    pub alliances: Alliances,
}

/// The full matches + teams + derived team-key bundle for one event.
#[derive(Debug)]
pub struct EventData {
    pub matches: Vec<TbaMatch>,
    pub teams: Vec<TbaTeam>,
    pub team_keys: Vec<String>,
}

/// Ghost view of `TbaEvent`.
pub struct TbaEventV {
    pub key: Seq<char>,
    pub name: Seq<char>,
    pub short_name: Option<Seq<char>>,
    pub start_date: Seq<char>,
    pub end_date: Seq<char>,
}

/// Ghost view of `TbaTeam`.
pub struct TbaTeamV {
    pub key: Seq<char>,
    pub team_number: u32,
    pub nickname: Option<Seq<char>>,
}

/// Ghost view of `Alliances`.
pub struct AlliancesV {
    pub red: AllianceV,
    pub blue: AllianceV,
}

/// Ghost view of `Alliance`.
pub struct AllianceV {
    pub team_keys: Seq<Seq<char>>,
}

/// Ghost view of `TbaMatch`.
pub struct TbaMatchV {
    pub key: Seq<char>,
    pub comp_level: Seq<char>,
    pub match_number: u32,
    pub alliances: AlliancesV,
}

/// Ghost view of `EventData`.
pub struct EventDataV {
    pub matches: Seq<TbaMatchV>,
    pub teams: Seq<TbaTeamV>,
    pub team_keys: Seq<Seq<char>>,
}

pub open spec fn opt_string_view(o: Option<String>) -> Option<Seq<char>> {
    match o {
        Option::Some(s) => Option::Some(s@),
        Option::None => Option::None,
    }
}

impl View for TbaEvent {
    type V = TbaEventV;

    open spec fn view(&self) -> TbaEventV {
        TbaEventV {
            key: self.key@,
            name: self.name@,
            short_name: opt_string_view(self.short_name),
            start_date: self.start_date@,
            end_date: self.end_date@,
        }
    }
}

impl View for TbaTeam {
    type V = TbaTeamV;

    open spec fn view(&self) -> TbaTeamV {
        TbaTeamV {
            key: self.key@,
            team_number: self.team_number,
            nickname: opt_string_view(self.nickname),
        }
    }
}

impl View for Alliance {
    type V = AllianceV;

    open spec fn view(&self) -> AllianceV {
        AllianceV { team_keys: self.team_keys@.map_values(|s: String| s@) }
    }
}

impl View for Alliances {
    type V = AlliancesV;

    open spec fn view(&self) -> AlliancesV {
        AlliancesV { red: self.red@, blue: self.blue@ }
    }
}

impl View for TbaMatch {
    type V = TbaMatchV;

    open spec fn view(&self) -> TbaMatchV {
        TbaMatchV {
            key: self.key@,
            comp_level: self.comp_level@,
            match_number: self.match_number,
            alliances: self.alliances@,
        }
    }
}

impl View for EventData {
    type V = EventDataV;

    open spec fn view(&self) -> EventDataV {
        EventDataV {
            matches: self.matches@.map_values(|m: TbaMatch| m@),
            teams: self.teams@.map_values(|t: TbaTeam| t@),
            team_keys: self.team_keys@.map_values(|s: String| s@),
        }
    }
}

/// Whether team key `k` appears in some alliance of `m`.
pub open spec fn match_mentions_key(m: TbaMatchV, k: Seq<char>) -> bool {
    m.alliances.red.team_keys.contains(k) || m.alliances.blue.team_keys.contains(k)
}

/// Whether team key `k` appears in some alliance of `ms` or as the key of a team in `ts`.
pub open spec fn snapshot_mentions_key(ms: Seq<TbaMatchV>, ts: Seq<TbaTeamV>, k: Seq<char>) -> bool {
    (exists|i: int| 0 <= i < ms.len() && match_mentions_key(#[trigger] ms[i], k)) || (exists|j: int|
        0 <= j < ts.len() && (#[trigger] ts[j]).key == k)
}

/// The derived team-key set of a snapshot: the union of all alliance team keys
/// across `ms` and all team keys of `ts`.
pub open spec fn derived_team_keys(ms: Seq<TbaMatchV>, ts: Seq<TbaTeamV>) -> Set<Seq<char>> {
    Set::new(|k: Seq<char>| snapshot_mentions_key(ms, ts, k))
}

/// No key is listed twice.
pub open spec fn distinct_keys(ks: Seq<Seq<char>>) -> bool {
    forall|i: int, j: int| 0 <= i < j < ks.len() ==> ks[i] != ks[j]
}

/// The snapshot invariant: `team_keys` is exactly the derived, de-duplicated
/// union of every key mentioned by a match alliance or listed in `teams`.
pub open spec fn snapshot_wf(s: EventDataV) -> bool {
    &&& distinct_keys(s.team_keys)
    &&& forall|k: Seq<char>| s.team_keys.contains(k) <==> snapshot_mentions_key(
        s.matches,
        s.teams,
        k,
    )
}

} // verus!
