//! The interchange-JSON reader for remote bodies. The remote service writes
//! ordinary JSON: insignificant whitespace, object members in any order,
//! members beyond the modelled ones, and the standard string escapes
//! (including `\uXXXX` and surrogate pairs). The spec functions define what
//! such a document means; the executable readers are proved to return
//! exactly what the spec functions say, on every input. The canonical cache
//! format keeps its own strict parser.
#![allow(unused_imports)]

use vstd::prelude::*;

use crate::dec::{p_lit, p_u32};
use crate::model::{Alliance, AllianceV, Alliances, AlliancesV, TbaEvent, TbaEventV, TbaMatch,
    TbaMatchV, TbaTeam, TbaTeamV};
use crate::text::{char_from_code, char_is_digit, char_is_hex_any, char_is_ws, chars_to_string,
    hex_val_any, hex_val_any_exec, is_digit, is_hex_any, is_ws, str_to_chars, valid_code_point};

verus! {

/// The first position at or after `i` holding no insignificant whitespace.
pub open spec fn skip_ws(s: Seq<char>, i: int) -> int
    decreases s.len() - i,
{
    if 0 <= i && i < s.len() && is_ws(s[i]) {
        skip_ws(s, i + 1)
    } else {
        i
    }
}

/// The value of four hexadecimal digits at `i`.
pub open spec fn hex_quad(s: Seq<char>, i: int) -> int
    recommends
        0 <= i,
        i + 4 <= s.len(),
{
    hex_val_any(s[i]) * 4096 + hex_val_any(s[i + 1]) * 256 + hex_val_any(s[i + 2]) * 16
        + hex_val_any(s[i + 3])
}

/// Whether four hexadecimal digits stand at `i`.
pub open spec fn hex_quad_at(s: Seq<char>, i: int) -> bool {
    &&& 0 <= i
    &&& i + 4 <= s.len()
    &&& is_hex_any(s[i])
    &&& is_hex_any(s[i + 1])
    &&& is_hex_any(s[i + 2])
    &&& is_hex_any(s[i + 3])
}

/// Read string characters after the opening quote, through the closing
/// quote, with the standard JSON escapes.
pub open spec fn j_str_content(s: Seq<char>, i: int) -> Option<(Seq<char>, int)>
    decreases s.len() - i,
{
    if i < 0 || i >= s.len() {
        Option::None
    } else if s[i] == '"' {
        Option::Some((Seq::empty(), i + 1))
    } else if s[i] == '\\' {
        if i + 1 >= s.len() {
            Option::None
        } else {
            let e = s[i + 1];
            if e == '"' || e == '\\' || e == '/' {
                match j_str_content(s, i + 2) {
                    Option::Some((rest, j)) => Option::Some((seq![e] + rest, j)),
                    Option::None => Option::None,
                }
            } else if e == 'b' || e == 'f' || e == 'n' || e == 'r' || e == 't' {
                let c = if e == 'b' {
                    '\u{0008}'
                } else if e == 'f' {
                    '\u{000C}'
                } else if e == 'n' {
                    '\n'
                } else if e == 'r' {
                    '\r'
                } else {
                    '\t'
                };
                match j_str_content(s, i + 2) {
                    Option::Some((rest, j)) => Option::Some((seq![c] + rest, j)),
                    Option::None => Option::None,
                }
            } else if e == 'u' && hex_quad_at(s, i + 2) {
                let v = hex_quad(s, i + 2);
                if 0xD800 <= v && v < 0xDC00 {
                    if i + 11 < s.len() && s[i + 6] == '\\' && s[i + 7] == 'u' && hex_quad_at(
                        s,
                        i + 8,
                    ) {
                        let w = hex_quad(s, i + 8);
                        if 0xDC00 <= w && w < 0xE000 {
                            let code = 0x10000 + (v - 0xD800) * 0x400 + (w - 0xDC00);
                            match j_str_content(s, i + 12) {
                                Option::Some((rest, j)) => Option::Some(
                                    (seq![(code as char)] + rest, j),
                                ),
                                Option::None => Option::None,
                            }
                        } else {
                            Option::None
                        }
                    } else {
                        Option::None
                    }
                } else if 0xDC00 <= v && v < 0xE000 {
                    Option::None
                } else {
                    match j_str_content(s, i + 6) {
                        Option::Some((rest, j)) => Option::Some((seq![(v as char)] + rest, j)),
                        Option::None => Option::None,
                    }
                }
            } else {
                Option::None
            }
        }
    } else if (s[i] as u32) < 32 {
        Option::None
    } else {
        match j_str_content(s, i + 1) {
            Option::Some((rest, j)) => Option::Some((seq![s[i]] + rest, j)),
            Option::None => Option::None,
        }
    }
}

/// Read a quoted JSON string.
pub open spec fn j_string(s: Seq<char>, i: int) -> Option<(Seq<char>, int)> {
    if 0 <= i && i < s.len() && s[i] == '"' {
        j_str_content(s, i + 1)
    } else {
        Option::None
    }
}

/// A character that can stand in a JSON number.
pub open spec fn is_num_char(c: char) -> bool {
    is_digit(c) || c == '-' || c == '+' || c == '.' || c == 'e' || c == 'E'
}

/// The first position at or after `i` past a run of number characters.
pub open spec fn skip_num(s: Seq<char>, i: int) -> int
    decreases s.len() - i,
{
    if 0 <= i && i < s.len() && is_num_char(s[i]) {
        skip_num(s, i + 1)
    } else {
        i
    }
}

/// Skip one JSON value of any shape, returning the position after it.
pub open spec fn j_skip(s: Seq<char>, i: int) -> Option<int>
    decreases s.len() - i, 0int,
{
    if i < 0 || i >= s.len() {
        Option::None
    } else if s[i] == '"' {
        match j_string(s, i) {
            Option::Some((v, j)) => Option::Some(j),
            Option::None => Option::None,
        }
    } else if s[i] == '{' {
        let k = skip_ws(s, i + 1);
        if k < s.len() && s[k] == '}' {
            Option::Some(k + 1)
        } else if i < k && k <= s.len() {
            j_skip_members(s, k)
        } else {
            Option::None
        }
    } else if s[i] == '[' {
        let k = skip_ws(s, i + 1);
        if k < s.len() && s[k] == ']' {
            Option::Some(k + 1)
        } else if i < k && k <= s.len() {
            j_skip_items(s, k)
        } else {
            Option::None
        }
    } else if s[i] == 't' {
        p_lit(s, i, "true"@)
    } else if s[i] == 'f' {
        p_lit(s, i, "false"@)
    } else if s[i] == 'n' {
        p_lit(s, i, "null"@)
    } else if s[i] == '-' || is_digit(s[i]) {
        Option::Some(skip_num(s, i))
    } else {
        Option::None
    }
}

/// Skip the members of an object, positioned at a member name, through the
/// closing brace.
pub open spec fn j_skip_members(s: Seq<char>, i: int) -> Option<int>
    decreases s.len() - i, 2int,
{
    match j_string(s, i) {
        Option::Some((name, j)) => {
            let k = skip_ws(s, j);
            if k < s.len() && s[k] == ':' {
                let m = skip_ws(s, k + 1);
                if i < m && m <= s.len() {
                    match j_skip(s, m) {
                        Option::Some(q) => {
                            let w = skip_ws(s, q);
                            if w < s.len() && s[w] == ',' {
                                let nx = skip_ws(s, w + 1);
                                if i < nx && nx <= s.len() {
                                    j_skip_members(s, nx)
                                } else {
                                    Option::None
                                }
                            } else if w < s.len() && s[w] == '}' {
                                Option::Some(w + 1)
                            } else {
                                Option::None
                            }
                        },
                        Option::None => Option::None,
                    }
                } else {
                    Option::None
                }
            } else {
                Option::None
            }
        },
        Option::None => Option::None,
    }
}

/// Skip the items of an array, positioned at an item, through the closing
/// bracket.
pub open spec fn j_skip_items(s: Seq<char>, i: int) -> Option<int>
    decreases s.len() - i, 1int,
{
    match j_skip(s, i) {
        Option::Some(j) => {
            let w = skip_ws(s, j);
            if w < s.len() && s[w] == ',' {
                let nx = skip_ws(s, w + 1);
                if i < nx && nx <= s.len() {
                    j_skip_items(s, nx)
                } else {
                    Option::None
                }
            } else if w < s.len() && s[w] == ']' {
                Option::Some(w + 1)
            } else {
                Option::None
            }
        },
        Option::None => Option::None,
    }
}

/// Read a string, or `null` as absence.
pub open spec fn j_opt_string(s: Seq<char>, i: int) -> Option<(Option<Seq<char>>, int)> {
    if 0 <= i && i < s.len() && s[i] == 'n' {
        match p_lit(s, i, "null"@) {
            Option::Some(j) => Option::Some((Option::None, j)),
            Option::None => Option::None,
        }
    } else {
        match j_string(s, i) {
            Option::Some((v, j)) => Option::Some((Option::Some(v), j)),
            Option::None => Option::None,
        }
    }
}

/// Read the items of a string array, positioned at an item, through the
/// closing bracket.
pub open spec fn j_str_array_items(s: Seq<char>, i: int) -> Option<(Seq<Seq<char>>, int)>
    decreases s.len() - i,
{
    match j_string(s, i) {
        Option::Some((e, j)) => {
            let w = skip_ws(s, j);
            if w < s.len() && s[w] == ',' {
                let nx = skip_ws(s, w + 1);
                if i < nx && nx <= s.len() {
                    match j_str_array_items(s, nx) {
                        Option::Some((rest, k)) => Option::Some((seq![e] + rest, k)),
                        Option::None => Option::None,
                    }
                } else {
                    Option::None
                }
            } else if w < s.len() && s[w] == ']' {
                Option::Some((seq![e], w + 1))
            } else {
                Option::None
            }
        },
        Option::None => Option::None,
    }
}

/// Read an array of strings.
pub open spec fn j_str_array(s: Seq<char>, i: int) -> Option<(Seq<Seq<char>>, int)> {
    if 0 <= i && i < s.len() && s[i] == '[' {
        let k = skip_ws(s, i + 1);
        if k < s.len() && s[k] == ']' {
            Option::Some((Seq::empty(), k + 1))
        } else {
            j_str_array_items(s, k)
        }
    } else {
        Option::None
    }
}

/// Read the members of an alliance object, positioned at a member name.
/// `team_keys` is required; a repeated known member is malformed; members
/// beyond the modelled ones are skipped.
pub open spec fn j_alliance_members(s: Seq<char>, i: int, keys: Option<Seq<Seq<char>>>) -> Option<
    (AllianceV, int),
>
    decreases s.len() - i, 1int,
{
    match j_string(s, i) {
        Option::Some((name, j)) => {
            let k = skip_ws(s, j);
            if k < s.len() && s[k] == ':' {
                let m = skip_ws(s, k + 1);
                if name == "team_keys"@ {
                    if keys is Some {
                        Option::None
                    } else {
                        match j_str_array(s, m) {
                            Option::Some((v, q)) => j_alliance_after(s, i, q, Option::Some(v)),
                            Option::None => Option::None,
                        }
                    }
                } else {
                    match j_skip(s, m) {
                        Option::Some(q) => j_alliance_after(s, i, q, keys),
                        Option::None => Option::None,
                    }
                }
            } else {
                Option::None
            }
        },
        Option::None => Option::None,
    }
}

/// After one alliance member: a comma and more members, or the closing brace.
pub open spec fn j_alliance_after(s: Seq<char>, i0: int, q: int, keys: Option<Seq<Seq<char>>>) -> Option<
    (AllianceV, int),
>
    decreases s.len() - i0, 0int,
{
    let w = skip_ws(s, q);
    if w < s.len() && s[w] == ',' {
        let nx = skip_ws(s, w + 1);
        if i0 < nx && nx <= s.len() {
            j_alliance_members(s, nx, keys)
        } else {
            Option::None
        }
    } else if w < s.len() && s[w] == '}' {
        match keys {
            Option::Some(v) => Option::Some((AllianceV { team_keys: v }, w + 1)),
            Option::None => Option::None,
        }
    } else {
        Option::None
    }
}

/// Read one alliance object.
pub open spec fn j_alliance(s: Seq<char>, i: int) -> Option<(AllianceV, int)> {
    if 0 <= i && i < s.len() && s[i] == '{' {
        let k = skip_ws(s, i + 1);
        if k < s.len() && s[k] == '}' {
            Option::None
        } else {
            j_alliance_members(s, k, Option::None)
        }
    } else {
        Option::None
    }
}

/// Read the members of the alliance-pair object, positioned at a member
/// name. `red` and `blue` are required.
pub open spec fn j_alliances_members(
    s: Seq<char>,
    i: int,
    red: Option<AllianceV>,
    blue: Option<AllianceV>,
) -> Option<(AlliancesV, int)>
    decreases s.len() - i, 1int,
{
    match j_string(s, i) {
        Option::Some((name, j)) => {
            let k = skip_ws(s, j);
            if k < s.len() && s[k] == ':' {
                let m = skip_ws(s, k + 1);
                if name == "red"@ {
                    if red is Some {
                        Option::None
                    } else {
                        match j_alliance(s, m) {
                            Option::Some((v, q)) => j_alliances_after(
                                s,
                                i,
                                q,
                                Option::Some(v),
                                blue,
                            ),
                            Option::None => Option::None,
                        }
                    }
                } else if name == "blue"@ {
                    if blue is Some {
                        Option::None
                    } else {
                        match j_alliance(s, m) {
                            Option::Some((v, q)) => j_alliances_after(
                                s,
                                i,
                                q,
                                red,
                                Option::Some(v),
                            ),
                            Option::None => Option::None,
                        }
                    }
                } else {
                    match j_skip(s, m) {
                        Option::Some(q) => j_alliances_after(s, i, q, red, blue),
                        Option::None => Option::None,
                    }
                }
            } else {
                Option::None
            }
        },
        Option::None => Option::None,
    }
}

/// After one alliance-pair member: a comma and more members, or the closing
/// brace.
pub open spec fn j_alliances_after(
    s: Seq<char>,
    i0: int,
    q: int,
    red: Option<AllianceV>,
    blue: Option<AllianceV>,
) -> Option<(AlliancesV, int)>
    decreases s.len() - i0, 0int,
{
    let w = skip_ws(s, q);
    if w < s.len() && s[w] == ',' {
        let nx = skip_ws(s, w + 1);
        if i0 < nx && nx <= s.len() {
            j_alliances_members(s, nx, red, blue)
        } else {
            Option::None
        }
    } else if w < s.len() && s[w] == '}' {
        match (red, blue) {
            (Option::Some(r), Option::Some(b)) => Option::Some(
                (AlliancesV { red: r, blue: b }, w + 1),
            ),
            _ => Option::None,
        }
    } else {
        Option::None
    }
}

/// Read the alliance-pair object.
pub open spec fn j_alliances(s: Seq<char>, i: int) -> Option<(AlliancesV, int)> {
    if 0 <= i && i < s.len() && s[i] == '{' {
        let k = skip_ws(s, i + 1);
        if k < s.len() && s[k] == '}' {
            Option::None
        } else {
            j_alliances_members(s, k, Option::None, Option::None)
        }
    } else {
        Option::None
    }
}

/// Read the members of a team object, positioned at a member name. `key`
/// and `team_number` are required; a missing `nickname` is absence.
pub open spec fn j_team_members(
    s: Seq<char>,
    i: int,
    key: Option<Seq<char>>,
    num: Option<u32>,
    nick: Option<Option<Seq<char>>>,
) -> Option<(TbaTeamV, int)>
    decreases s.len() - i, 1int,
{
    match j_string(s, i) {
        Option::Some((name, j)) => {
            let k = skip_ws(s, j);
            if k < s.len() && s[k] == ':' {
                let m = skip_ws(s, k + 1);
                if name == "key"@ {
                    if key is Some {
                        Option::None
                    } else {
                        match j_string(s, m) {
                            Option::Some((v, q)) => j_team_after(
                                s,
                                i,
                                q,
                                Option::Some(v),
                                num,
                                nick,
                            ),
                            Option::None => Option::None,
                        }
                    }
                } else if name == "team_number"@ {
                    if num is Some {
                        Option::None
                    } else {
                        match p_u32(s, m) {
                            Option::Some((v, q)) => j_team_after(
                                s,
                                i,
                                q,
                                key,
                                Option::Some(v),
                                nick,
                            ),
                            Option::None => Option::None,
                        }
                    }
                } else if name == "nickname"@ {
                    if nick is Some {
                        Option::None
                    } else {
                        match j_opt_string(s, m) {
                            Option::Some((v, q)) => j_team_after(
                                s,
                                i,
                                q,
                                key,
                                num,
                                Option::Some(v),
                            ),
                            Option::None => Option::None,
                        }
                    }
                } else {
                    match j_skip(s, m) {
                        Option::Some(q) => j_team_after(s, i, q, key, num, nick),
                        Option::None => Option::None,
                    }
                }
            } else {
                Option::None
            }
        },
        Option::None => Option::None,
    }
}

/// After one team member: a comma and more members, or the closing brace.
pub open spec fn j_team_after(
    s: Seq<char>,
    i0: int,
    q: int,
    key: Option<Seq<char>>,
    num: Option<u32>,
    nick: Option<Option<Seq<char>>>,
) -> Option<(TbaTeamV, int)>
    decreases s.len() - i0, 0int,
{
    let w = skip_ws(s, q);
    if w < s.len() && s[w] == ',' {
        let nx = skip_ws(s, w + 1);
        if i0 < nx && nx <= s.len() {
            j_team_members(s, nx, key, num, nick)
        } else {
            Option::None
        }
    } else if w < s.len() && s[w] == '}' {
        match (key, num) {
            (Option::Some(kv), Option::Some(nv)) => Option::Some(
                (
                    TbaTeamV {
                        key: kv,
                        team_number: nv,
                        nickname: match nick {
                            Option::Some(x) => x,
                            Option::None => Option::None,
                        },
                    },
                    w + 1,
                ),
            ),
            _ => Option::None,
        }
    } else {
        Option::None
    }
}

/// Read one team object.
pub open spec fn j_team(s: Seq<char>, i: int) -> Option<(TbaTeamV, int)> {
    if 0 <= i && i < s.len() && s[i] == '{' {
        let k = skip_ws(s, i + 1);
        if k < s.len() && s[k] == '}' {
            Option::None
        } else {
            j_team_members(s, k, Option::None, Option::None, Option::None)
        }
    } else {
        Option::None
    }
}

/// Read the members of a match object, positioned at a member name. `key`,
/// `comp_level`, `match_number` and `alliances` are required.
pub open spec fn j_match_members(
    s: Seq<char>,
    i: int,
    key: Option<Seq<char>>,
    lvl: Option<Seq<char>>,
    num: Option<u32>,
    al: Option<AlliancesV>,
) -> Option<(TbaMatchV, int)>
    decreases s.len() - i, 1int,
{
    match j_string(s, i) {
        Option::Some((name, j)) => {
            let k = skip_ws(s, j);
            if k < s.len() && s[k] == ':' {
                let m = skip_ws(s, k + 1);
                if name == "key"@ {
                    if key is Some {
                        Option::None
                    } else {
                        match j_string(s, m) {
                            Option::Some((v, q)) => j_match_after(
                                s,
                                i,
                                q,
                                Option::Some(v),
                                lvl,
                                num,
                                al,
                            ),
                            Option::None => Option::None,
                        }
                    }
                } else if name == "comp_level"@ {
                    if lvl is Some {
                        Option::None
                    } else {
                        match j_string(s, m) {
                            Option::Some((v, q)) => j_match_after(
                                s,
                                i,
                                q,
                                key,
                                Option::Some(v),
                                num,
                                al,
                            ),
                            Option::None => Option::None,
                        }
                    }
                } else if name == "match_number"@ {
                    if num is Some {
                        Option::None
                    } else {
                        match p_u32(s, m) {
                            Option::Some((v, q)) => j_match_after(
                                s,
                                i,
                                q,
                                key,
                                lvl,
                                Option::Some(v),
                                al,
                            ),
                            Option::None => Option::None,
                        }
                    }
                } else if name == "alliances"@ {
                    if al is Some {
                        Option::None
                    } else {
                        match j_alliances(s, m) {
                            Option::Some((v, q)) => j_match_after(
                                s,
                                i,
                                q,
                                key,
                                lvl,
                                num,
                                Option::Some(v),
                            ),
                            Option::None => Option::None,
                        }
                    }
                } else {
                    match j_skip(s, m) {
                        Option::Some(q) => j_match_after(s, i, q, key, lvl, num, al),
                        Option::None => Option::None,
                    }
                }
            } else {
                Option::None
            }
        },
        Option::None => Option::None,
    }
}

/// After one match member: a comma and more members, or the closing brace.
pub open spec fn j_match_after(
    s: Seq<char>,
    i0: int,
    q: int,
    key: Option<Seq<char>>,
    lvl: Option<Seq<char>>,
    num: Option<u32>,
    al: Option<AlliancesV>,
) -> Option<(TbaMatchV, int)>
    decreases s.len() - i0, 0int,
{
    let w = skip_ws(s, q);
    if w < s.len() && s[w] == ',' {
        let nx = skip_ws(s, w + 1);
        if i0 < nx && nx <= s.len() {
            j_match_members(s, nx, key, lvl, num, al)
        } else {
            Option::None
        }
    } else if w < s.len() && s[w] == '}' {
        match (key, lvl, num, al) {
            (Option::Some(kv), Option::Some(lv), Option::Some(nv), Option::Some(av)) => Option::Some(
                (
                    TbaMatchV { key: kv, comp_level: lv, match_number: nv, alliances: av },
                    w + 1,
                ),
            ),
            _ => Option::None,
        }
    } else {
        Option::None
    }
}

/// Read one match object.
pub open spec fn j_match(s: Seq<char>, i: int) -> Option<(TbaMatchV, int)> {
    if 0 <= i && i < s.len() && s[i] == '{' {
        let k = skip_ws(s, i + 1);
        if k < s.len() && s[k] == '}' {
            Option::None
        } else {
            j_match_members(s, k, Option::None, Option::None, Option::None, Option::None)
        }
    } else {
        Option::None
    }
}

/// Read the members of an event object, positioned at a member name. `key`,
/// `name`, `start_date` and `end_date` are required; a missing `short_name`
/// is absence.
pub open spec fn j_event_members(
    s: Seq<char>,
    i: int,
    key: Option<Seq<char>>,
    name_v: Option<Seq<char>>,
    sn: Option<Option<Seq<char>>>,
    sd: Option<Seq<char>>,
    ed: Option<Seq<char>>,
) -> Option<(TbaEventV, int)>
    decreases s.len() - i, 1int,
{
    match j_string(s, i) {
        Option::Some((name, j)) => {
            let k = skip_ws(s, j);
            if k < s.len() && s[k] == ':' {
                let m = skip_ws(s, k + 1);
                if name == "key"@ {
                    if key is Some {
                        Option::None
                    } else {
                        match j_string(s, m) {
                            Option::Some((v, q)) => j_event_after(
                                s,
                                i,
                                q,
                                Option::Some(v),
                                name_v,
                                sn,
                                sd,
                                ed,
                            ),
                            Option::None => Option::None,
                        }
                    }
                } else if name == "name"@ {
                    if name_v is Some {
                        Option::None
                    } else {
                        match j_string(s, m) {
                            Option::Some((v, q)) => j_event_after(
                                s,
                                i,
                                q,
                                key,
                                Option::Some(v),
                                sn,
                                sd,
                                ed,
                            ),
                            Option::None => Option::None,
                        }
                    }
                } else if name == "short_name"@ {
                    if sn is Some {
                        Option::None
                    } else {
                        match j_opt_string(s, m) {
                            Option::Some((v, q)) => j_event_after(
                                s,
                                i,
                                q,
                                key,
                                name_v,
                                Option::Some(v),
                                sd,
                                ed,
                            ),
                            Option::None => Option::None,
                        }
                    }
                } else if name == "start_date"@ {
                    if sd is Some {
                        Option::None
                    } else {
                        match j_string(s, m) {
                            Option::Some((v, q)) => j_event_after(
                                s,
                                i,
                                q,
                                key,
                                name_v,
                                sn,
                                Option::Some(v),
                                ed,
                            ),
                            Option::None => Option::None,
                        }
                    }
                } else if name == "end_date"@ {
                    if ed is Some {
                        Option::None
                    } else {
                        match j_string(s, m) {
                            Option::Some((v, q)) => j_event_after(
                                s,
                                i,
                                q,
                                key,
                                name_v,
                                sn,
                                sd,
                                Option::Some(v),
                            ),
                            Option::None => Option::None,
                        }
                    }
                } else {
                    match j_skip(s, m) {
                        Option::Some(q) => j_event_after(s, i, q, key, name_v, sn, sd, ed),
                        Option::None => Option::None,
                    }
                }
            } else {
                Option::None
            }
        },
        Option::None => Option::None,
    }
}

/// After one event member: a comma and more members, or the closing brace.
pub open spec fn j_event_after(
    s: Seq<char>,
    i0: int,
    q: int,
    key: Option<Seq<char>>,
    name_v: Option<Seq<char>>,
    sn: Option<Option<Seq<char>>>,
    sd: Option<Seq<char>>,
    ed: Option<Seq<char>>,
) -> Option<(TbaEventV, int)>
    decreases s.len() - i0, 0int,
{
    let w = skip_ws(s, q);
    if w < s.len() && s[w] == ',' {
        let nx = skip_ws(s, w + 1);
        if i0 < nx && nx <= s.len() {
            j_event_members(s, nx, key, name_v, sn, sd, ed)
        } else {
            Option::None
        }
    } else if w < s.len() && s[w] == '}' {
        match (key, name_v, sd, ed) {
            (Option::Some(kv), Option::Some(nv), Option::Some(sv), Option::Some(ev)) => Option::Some(
                (
                    TbaEventV {
                        key: kv,
                        name: nv,
                        short_name: match sn {
                            Option::Some(x) => x,
                            Option::None => Option::None,
                        },
                        start_date: sv,
                        end_date: ev,
                    },
                    w + 1,
                ),
            ),
            _ => Option::None,
        }
    } else {
        Option::None
    }
}

/// Read one event object.
pub open spec fn j_event(s: Seq<char>, i: int) -> Option<(TbaEventV, int)> {
    if 0 <= i && i < s.len() && s[i] == '{' {
        let k = skip_ws(s, i + 1);
        if k < s.len() && s[k] == '}' {
            Option::None
        } else {
            j_event_members(
                s,
                k,
                Option::None,
                Option::None,
                Option::None,
                Option::None,
                Option::None,
            )
        }
    } else {
        Option::None
    }
}

/// Read the items of a team array, positioned at an item, through the
/// closing bracket.
pub open spec fn j_team_array_items(s: Seq<char>, i: int) -> Option<(Seq<TbaTeamV>, int)>
    decreases s.len() - i,
{
    match j_team(s, i) {
        Option::Some((e, j)) => {
            let w = skip_ws(s, j);
            if w < s.len() && s[w] == ',' {
                let nx = skip_ws(s, w + 1);
                if i < nx && nx <= s.len() {
                    match j_team_array_items(s, nx) {
                        Option::Some((rest, k)) => Option::Some((seq![e] + rest, k)),
                        Option::None => Option::None,
                    }
                } else {
                    Option::None
                }
            } else if w < s.len() && s[w] == ']' {
                Option::Some((seq![e], w + 1))
            } else {
                Option::None
            }
        },
        Option::None => Option::None,
    }
}

/// Read an array of teams.
pub open spec fn j_team_array(s: Seq<char>, i: int) -> Option<(Seq<TbaTeamV>, int)> {
    if 0 <= i && i < s.len() && s[i] == '[' {
        let k = skip_ws(s, i + 1);
        if k < s.len() && s[k] == ']' {
            Option::Some((Seq::empty(), k + 1))
        } else {
            j_team_array_items(s, k)
        }
    } else {
        Option::None
    }
}

/// Read the items of a match array, positioned at an item, through the
/// closing bracket.
pub open spec fn j_match_array_items(s: Seq<char>, i: int) -> Option<(Seq<TbaMatchV>, int)>
    decreases s.len() - i,
{
    match j_match(s, i) {
        Option::Some((e, j)) => {
            let w = skip_ws(s, j);
            if w < s.len() && s[w] == ',' {
                let nx = skip_ws(s, w + 1);
                if i < nx && nx <= s.len() {
                    match j_match_array_items(s, nx) {
                        Option::Some((rest, k)) => Option::Some((seq![e] + rest, k)),
                        Option::None => Option::None,
                    }
                } else {
                    Option::None
                }
            } else if w < s.len() && s[w] == ']' {
                Option::Some((seq![e], w + 1))
            } else {
                Option::None
            }
        },
        Option::None => Option::None,
    }
}

/// Read an array of matches.
pub open spec fn j_match_array(s: Seq<char>, i: int) -> Option<(Seq<TbaMatchV>, int)> {
    if 0 <= i && i < s.len() && s[i] == '[' {
        let k = skip_ws(s, i + 1);
        if k < s.len() && s[k] == ']' {
            Option::Some((Seq::empty(), k + 1))
        } else {
            j_match_array_items(s, k)
        }
    } else {
        Option::None
    }
}

/// Read the items of an event array, positioned at an item, through the
/// closing bracket.
pub open spec fn j_event_array_items(s: Seq<char>, i: int) -> Option<(Seq<TbaEventV>, int)>
    decreases s.len() - i,
{
    match j_event(s, i) {
        Option::Some((e, j)) => {
            let w = skip_ws(s, j);
            if w < s.len() && s[w] == ',' {
                let nx = skip_ws(s, w + 1);
                if i < nx && nx <= s.len() {
                    match j_event_array_items(s, nx) {
                        Option::Some((rest, k)) => Option::Some((seq![e] + rest, k)),
                        Option::None => Option::None,
                    }
                } else {
                    Option::None
                }
            } else if w < s.len() && s[w] == ']' {
                Option::Some((seq![e], w + 1))
            } else {
                Option::None
            }
        },
        Option::None => Option::None,
    }
}

/// Read an array of events.
pub open spec fn j_event_array(s: Seq<char>, i: int) -> Option<(Seq<TbaEventV>, int)> {
    if 0 <= i && i < s.len() && s[i] == '[' {
        let k = skip_ws(s, i + 1);
        if k < s.len() && s[k] == ']' {
            Option::Some((Seq::empty(), k + 1))
        } else {
            j_event_array_items(s, k)
        }
    } else {
        Option::None
    }
}

/// A whole remote body that is one JSON array of matches, with whitespace
/// allowed around it.
pub open spec fn json_matches_doc(s: Seq<char>) -> Option<Seq<TbaMatchV>> {
    match j_match_array(s, skip_ws(s, 0)) {
        Option::Some((v, j)) => if skip_ws(s, j) == s.len() {
            Option::Some(v)
        } else {
            Option::None
        },
        Option::None => Option::None,
    }
}

/// A whole remote body that is one JSON array of teams, with whitespace
/// allowed around it.
pub open spec fn json_teams_doc(s: Seq<char>) -> Option<Seq<TbaTeamV>> {
    match j_team_array(s, skip_ws(s, 0)) {
        Option::Some((v, j)) => if skip_ws(s, j) == s.len() {
            Option::Some(v)
        } else {
            Option::None
        },
        Option::None => Option::None,
    }
}

/// A whole remote body that is one JSON array of events, with whitespace
/// allowed around it.
pub open spec fn json_events_doc(s: Seq<char>) -> Option<Seq<TbaEventV>> {
    match j_event_array(s, skip_ws(s, 0)) {
        Option::Some((v, j)) => if skip_ws(s, j) == s.len() {
            Option::Some(v)
        } else {
            Option::None
        },
        Option::None => Option::None,
    }
}

/// Ghost view of an optional team-key accumulator.
pub open spec fn opt_keys_view(o: Option<Vec<String>>) -> Option<Seq<Seq<char>>> {
    match o {
        Option::Some(v) => Option::Some(v@.map_values(|s: String| s@)),
        Option::None => Option::None,
    }
}

/// Ghost view of an optional string accumulator.
pub open spec fn opt_str_view(o: Option<String>) -> Option<Seq<char>> {
    match o {
        Option::Some(s) => Option::Some(s@),
        Option::None => Option::None,
    }
}

/// Ghost view of an optional optional-string accumulator.
pub open spec fn opt_opt_str_view(o: Option<Option<String>>) -> Option<Option<Seq<char>>> {
    match o {
        Option::Some(x) => Option::Some(crate::model::opt_string_view(x)),
        Option::None => Option::None,
    }
}

/// Ghost view of an optional alliance accumulator.
pub open spec fn opt_alliance_view(o: Option<Alliance>) -> Option<AllianceV> {
    match o {
        Option::Some(a) => Option::Some(a@),
        Option::None => Option::None,
    }
}

/// Ghost view of an optional alliance-pair accumulator.
pub open spec fn opt_alliances_view(o: Option<Alliances>) -> Option<AlliancesV> {
    match o {
        Option::Some(a) => Option::Some(a@),
        Option::None => Option::None,
    }
}

fn x_skip_ws(text: &Vec<char>, i: usize) -> (r: usize)
    ensures
        r as int == skip_ws(text@, i as int),
        i <= r,
        r as int <= text@.len() || r == i,
{
    let mut j: usize = i;
    while j < text.len() && char_is_ws(text[j])
        invariant
            i <= j,
            j as int <= text@.len() || j == i,
            skip_ws(text@, i as int) == skip_ws(text@, j as int),
        decreases text@.len() - j,
    {
        j = j + 1;
    }
    j
}

fn char_is_num(c: char) -> (r: bool)
    ensures
        r == is_num_char(c),
{
    char_is_digit(c) || c == '-' || c == '+' || c == '.' || c == 'e' || c == 'E'
}

fn x_skip_num(text: &Vec<char>, i: usize) -> (r: usize)
    ensures
        r as int == skip_num(text@, i as int),
        i <= r,
        r as int <= text@.len() || r == i,
{
    let mut j: usize = i;
    while j < text.len() && char_is_num(text[j])
        invariant
            i <= j,
            j as int <= text@.len() || j == i,
            skip_num(text@, i as int) == skip_num(text@, j as int),
        decreases text@.len() - j,
    {
        j = j + 1;
    }
    j
}

/// Whether the characters of `v` are exactly those of `lit`.
fn chars_eq_lit(v: &Vec<char>, lit: &str) -> (r: bool)
    ensures
        r == (v@ == lit@),
{
    let n = lit.unicode_len();
    if v.len() != n {
        proof {
            assert(v@.len() != lit@.len());
        }
        return false;
    }
    let mut i: usize = 0;
    while i < n
        invariant
            n == lit@.len(),
            n == v@.len(),
            i <= n,
            forall|k: int| 0 <= k < i ==> v@[k] == lit@[k],
        decreases n - i,
    {
        if v[i] != lit.get_char(i) {
            return false;
        }
        i = i + 1;
    }
    proof {
        assert(v@ =~= lit@);
    }
    true
}

fn x_hex_quad(text: &Vec<char>, i: usize) -> (r: Option<u32>)
    ensures
        r is Some <==> hex_quad_at(text@, i as int),
        r matches Some(v) ==> v as int == hex_quad(text@, i as int) && v < 0x10000,
{
    if i <= text.len() && text.len() - i >= 4 {
        if char_is_hex_any(text[i]) && char_is_hex_any(text[i + 1]) && char_is_hex_any(
            text[i + 2],
        ) && char_is_hex_any(text[i + 3]) {
            let v = hex_val_any_exec(text[i]) * 4096 + hex_val_any_exec(text[i + 1]) * 256
                + hex_val_any_exec(text[i + 2]) * 16 + hex_val_any_exec(text[i + 3]);
            Option::Some(v)
        } else {
            Option::None
        }
    } else {
        Option::None
    }
}

fn xj_str_content(text: &Vec<char>, i: usize) -> (r: Option<(Vec<char>, usize)>)
    ensures
        r is Some <==> j_str_content(text@, i as int) is Some,
        r matches Some((v, j)) ==> j_str_content(text@, i as int) == Option::Some((v@, j as int)),
    decreases text@.len() - i,
{
    if i >= text.len() {
        return Option::None;
    }
    let c = text[i];
    if c == '"' {
        let v: Vec<char> = Vec::new();
        proof {
            assert(v@ =~= Seq::<char>::empty());
        }
        return Option::Some((v, i + 1));
    }
    if c == '\\' {
        if text.len() - i <= 1 {
            return Option::None;
        }
        let e = text[i + 1];
        if e == '"' || e == '\\' || e == '/' {
            match xj_str_content(text, i + 2) {
                Option::Some((rest, j)) => {
                    let mut v: Vec<char> = Vec::new();
                    v.push(e);
                    let mut r2 = rest;
                    v.append(&mut r2);
                    Option::Some((v, j))
                },
                Option::None => Option::None,
            }
        } else if e == 'b' || e == 'f' || e == 'n' || e == 'r' || e == 't' {
            let c2: char = if e == 'b' {
                '\u{0008}'
            } else if e == 'f' {
                '\u{000C}'
            } else if e == 'n' {
                '\n'
            } else if e == 'r' {
                '\r'
            } else {
                '\t'
            };
            match xj_str_content(text, i + 2) {
                Option::Some((rest, j)) => {
                    let mut v: Vec<char> = Vec::new();
                    v.push(c2);
                    let mut r2 = rest;
                    v.append(&mut r2);
                    Option::Some((v, j))
                },
                Option::None => Option::None,
            }
        } else if e == 'u' {
            match x_hex_quad(text, i + 2) {
                Option::Some(v) => {
                    if 0xD800 <= v && v < 0xDC00 {
                        if text.len() - i > 11 && text[i + 6] == '\\' && text[i + 7] == 'u' {
                            match x_hex_quad(text, i + 8) {
                                Option::Some(w) => {
                                    if 0xDC00 <= w && w < 0xE000 {
                                        let code = 0x10000 + (v - 0xD800) * 0x400 + (w - 0xDC00);
                                        let c2 = char_from_code(code);
                                        match xj_str_content(text, i + 12) {
                                            Option::Some((rest, j)) => {
                                                let mut out: Vec<char> = Vec::new();
                                                out.push(c2);
                                                let mut r2 = rest;
                                                out.append(&mut r2);
                                                Option::Some((out, j))
                                            },
                                            Option::None => Option::None,
                                        }
                                    } else {
                                        Option::None
                                    }
                                },
                                Option::None => Option::None,
                            }
                        } else {
                            Option::None
                        }
                    } else if 0xDC00 <= v && v < 0xE000 {
                        Option::None
                    } else {
                        let c2 = char_from_code(v);
                        match xj_str_content(text, i + 6) {
                            Option::Some((rest, j)) => {
                                let mut out: Vec<char> = Vec::new();
                                out.push(c2);
                                let mut r2 = rest;
                                out.append(&mut r2);
                                Option::Some((out, j))
                            },
                            Option::None => Option::None,
                        }
                    }
                },
                Option::None => Option::None,
            }
        } else {
            Option::None
        }
    } else if (c as u32) < 32 {
        Option::None
    } else {
        match xj_str_content(text, i + 1) {
            Option::Some((rest, j)) => {
                let mut v: Vec<char> = Vec::new();
                v.push(c);
                let mut r2 = rest;
                v.append(&mut r2);
                Option::Some((v, j))
            },
            Option::None => Option::None,
        }
    }
}

fn xj_string(text: &Vec<char>, i: usize) -> (r: Option<(Vec<char>, usize)>)
    ensures
        r is Some <==> j_string(text@, i as int) is Some,
        r matches Some((v, j)) ==> j_string(text@, i as int) == Option::Some((v@, j as int)),
{
    if i < text.len() && text[i] == '"' {
        xj_str_content(text, i + 1)
    } else {
        Option::None
    }
}

fn xj_opt_string(text: &Vec<char>, i: usize) -> (r: Option<(Option<String>, usize)>)
    ensures
        r is Some <==> j_opt_string(text@, i as int) is Some,
        r matches Some((o, j)) ==> j_opt_string(text@, i as int) == Option::Some(
            (crate::model::opt_string_view(o), j as int),
        ),
{
    if i < text.len() && text[i] == 'n' {
        match crate::dec::x_lit(text, i, "null") {
            Option::Some(j) => Option::Some((Option::None, j)),
            Option::None => Option::None,
        }
    } else {
        match xj_string(text, i) {
            Option::Some((v, j)) => {
                let s = chars_to_string(&v);
                Option::Some((Option::Some(s), j))
            },
            Option::None => Option::None,
        }
    }
}

fn xj_skip(text: &Vec<char>, i: usize) -> (r: Option<usize>)
    ensures
        r is Some <==> j_skip(text@, i as int) is Some,
        r matches Some(j) ==> j_skip(text@, i as int) == Option::Some(j as int),
    decreases text@.len() - i, 0int,
{
    if i >= text.len() {
        return Option::None;
    }
    let c = text[i];
    if c == '"' {
        match xj_string(text, i) {
            Option::Some((_, j)) => Option::Some(j),
            Option::None => Option::None,
        }
    } else if c == '{' {
        let k = x_skip_ws(text, i + 1);
        if k < text.len() && text[k] == '}' {
            Option::Some(k + 1)
        } else if i < k && k <= text.len() {
            xj_skip_members(text, k)
        } else {
            Option::None
        }
    } else if c == '[' {
        let k = x_skip_ws(text, i + 1);
        if k < text.len() && text[k] == ']' {
            Option::Some(k + 1)
        } else if i < k && k <= text.len() {
            xj_skip_items(text, k)
        } else {
            Option::None
        }
    } else if c == 't' {
        crate::dec::x_lit(text, i, "true")
    } else if c == 'f' {
        crate::dec::x_lit(text, i, "false")
    } else if c == 'n' {
        crate::dec::x_lit(text, i, "null")
    } else if c == '-' || char_is_digit(c) {
        Option::Some(x_skip_num(text, i))
    } else {
        Option::None
    }
}

fn xj_skip_members(text: &Vec<char>, i: usize) -> (r: Option<usize>)
    ensures
        r is Some <==> j_skip_members(text@, i as int) is Some,
        r matches Some(j) ==> j_skip_members(text@, i as int) == Option::Some(j as int),
    decreases text@.len() - i, 2int,
{
    match xj_string(text, i) {
        Option::Some((_, j)) => {
            let k = x_skip_ws(text, j);
            if k < text.len() && text[k] == ':' {
                let m = x_skip_ws(text, k + 1);
                if i < m && m <= text.len() {
                    match xj_skip(text, m) {
                        Option::Some(q) => {
                            let w = x_skip_ws(text, q);
                            if w < text.len() && text[w] == ',' {
                                let nx = x_skip_ws(text, w + 1);
                                if i < nx && nx <= text.len() {
                                    xj_skip_members(text, nx)
                                } else {
                                    Option::None
                                }
                            } else if w < text.len() && text[w] == '}' {
                                Option::Some(w + 1)
                            } else {
                                Option::None
                            }
                        },
                        Option::None => Option::None,
                    }
                } else {
                    Option::None
                }
            } else {
                Option::None
            }
        },
        Option::None => Option::None,
    }
}

fn xj_skip_items(text: &Vec<char>, i: usize) -> (r: Option<usize>)
    ensures
        r is Some <==> j_skip_items(text@, i as int) is Some,
        r matches Some(j) ==> j_skip_items(text@, i as int) == Option::Some(j as int),
    decreases text@.len() - i, 1int,
{
    match xj_skip(text, i) {
        Option::Some(j) => {
            let w = x_skip_ws(text, j);
            if w < text.len() && text[w] == ',' {
                let nx = x_skip_ws(text, w + 1);
                if i < nx && nx <= text.len() {
                    xj_skip_items(text, nx)
                } else {
                    Option::None
                }
            } else if w < text.len() && text[w] == ']' {
                Option::Some(w + 1)
            } else {
                Option::None
            }
        },
        Option::None => Option::None,
    }
}

fn xj_str_array_items(text: &Vec<char>, i: usize) -> (r: Option<(Vec<String>, usize)>)
    ensures
        r is Some <==> j_str_array_items(text@, i as int) is Some,
        r matches Some((v, j)) ==> j_str_array_items(text@, i as int) == Option::Some(
            (v@.map_values(|s: String| s@), j as int),
        ),
    decreases text@.len() - i,
{
    let (e, j) = match xj_string(text, i) {
        Option::Some(p) => p,
        Option::None => {
            return Option::None;
        },
    };
    let es = chars_to_string(&e);
    let w = x_skip_ws(text, j);
    if w < text.len() && text[w] == ',' {
        let nx = x_skip_ws(text, w + 1);
        if i < nx && nx <= text.len() {
            match xj_str_array_items(text, nx) {
                Option::Some((rest, k)) => {
                    let mut v: Vec<String> = Vec::new();
                    v.push(es);
                    let mut r2 = rest;
                    v.append(&mut r2);
                    proof {
                        assert(v@.map_values(|s: String| s@) =~= seq![e@] + rest@.map_values(
                            |s: String| s@,
                        ));
                    }
                    Option::Some((v, k))
                },
                Option::None => Option::None,
            }
        } else {
            Option::None
        }
    } else if w < text.len() && text[w] == ']' {
        let mut v: Vec<String> = Vec::new();
        v.push(es);
        proof {
            assert(v@.map_values(|s: String| s@) =~= seq![e@]);
        }
        Option::Some((v, w + 1))
    } else {
        Option::None
    }
}

fn xj_str_array(text: &Vec<char>, i: usize) -> (r: Option<(Vec<String>, usize)>)
    ensures
        r is Some <==> j_str_array(text@, i as int) is Some,
        r matches Some((v, j)) ==> j_str_array(text@, i as int) == Option::Some(
            (v@.map_values(|s: String| s@), j as int),
        ),
{
    if i < text.len() && text[i] == '[' {
        let k = x_skip_ws(text, i + 1);
        if k < text.len() && text[k] == ']' {
            let v: Vec<String> = Vec::new();
            proof {
                assert(v@.map_values(|s: String| s@) =~= Seq::<Seq<char>>::empty());
            }
            Option::Some((v, k + 1))
        } else {
            xj_str_array_items(text, k)
        }
    } else {
        Option::None
    }
}

fn xj_alliance_members(text: &Vec<char>, i: usize, keys: Option<Vec<String>>) -> (r: Option<
    (Alliance, usize),
>)
    ensures
        r is Some <==> j_alliance_members(text@, i as int, opt_keys_view(keys)) is Some,
        r matches Some((a, j)) ==> j_alliance_members(text@, i as int, opt_keys_view(keys))
            == Option::Some((a@, j as int)),
    decreases text@.len() - i, 1int,
{
    let (name, j) = match xj_string(text, i) {
        Option::Some(p) => p,
        Option::None => {
            return Option::None;
        },
    };
    let k = x_skip_ws(text, j);
    if k < text.len() && text[k] == ':' {
        let m = x_skip_ws(text, k + 1);
        if chars_eq_lit(&name, "team_keys") {
            if keys.is_some() {
                Option::None
            } else {
                match xj_str_array(text, m) {
                    Option::Some((v, q)) => xj_alliance_after(text, i, q, Option::Some(v)),
                    Option::None => Option::None,
                }
            }
        } else {
            match xj_skip(text, m) {
                Option::Some(q) => xj_alliance_after(text, i, q, keys),
                Option::None => Option::None,
            }
        }
    } else {
        Option::None
    }
}

fn xj_alliance_after(text: &Vec<char>, i0: usize, q: usize, keys: Option<Vec<String>>) -> (r:
    Option<(Alliance, usize)>)
    ensures
        r is Some <==> j_alliance_after(text@, i0 as int, q as int, opt_keys_view(keys)) is Some,
        r matches Some((a, j)) ==> j_alliance_after(text@, i0 as int, q as int, opt_keys_view(keys))
            == Option::Some((a@, j as int)),
    decreases text@.len() - i0, 0int,
{
    let w = x_skip_ws(text, q);
    if w < text.len() && text[w] == ',' {
        let nx = x_skip_ws(text, w + 1);
        if i0 < nx && nx <= text.len() {
            xj_alliance_members(text, nx, keys)
        } else {
            Option::None
        }
    } else if w < text.len() && text[w] == '}' {
        match keys {
            Option::Some(v) => Option::Some((Alliance { team_keys: v }, w + 1)),
            Option::None => Option::None,
        }
    } else {
        Option::None
    }
}

fn xj_alliance(text: &Vec<char>, i: usize) -> (r: Option<(Alliance, usize)>)
    ensures
        r is Some <==> j_alliance(text@, i as int) is Some,
        r matches Some((a, j)) ==> j_alliance(text@, i as int) == Option::Some((a@, j as int)),
{
    if i < text.len() && text[i] == '{' {
        let k = x_skip_ws(text, i + 1);
        if k < text.len() && text[k] == '}' {
            Option::None
        } else {
            xj_alliance_members(text, k, Option::None)
        }
    } else {
        Option::None
    }
}

fn xj_alliances_members(
    text: &Vec<char>,
    i: usize,
    red: Option<Alliance>,
    blue: Option<Alliance>,
) -> (r: Option<(Alliances, usize)>)
    ensures
        r is Some <==> j_alliances_members(
            text@,
            i as int,
            opt_alliance_view(red),
            opt_alliance_view(blue),
        ) is Some,
        r matches Some((a, j)) ==> j_alliances_members(
            text@,
            i as int,
            opt_alliance_view(red),
            opt_alliance_view(blue),
        ) == Option::Some((a@, j as int)),
    decreases text@.len() - i, 1int,
{
    let (name, j) = match xj_string(text, i) {
        Option::Some(p) => p,
        Option::None => {
            return Option::None;
        },
    };
    let k = x_skip_ws(text, j);
    if k < text.len() && text[k] == ':' {
        let m = x_skip_ws(text, k + 1);
        if chars_eq_lit(&name, "red") {
            if red.is_some() {
                Option::None
            } else {
                match xj_alliance(text, m) {
                    Option::Some((v, q)) => xj_alliances_after(text, i, q, Option::Some(v), blue),
                    Option::None => Option::None,
                }
            }
        } else if chars_eq_lit(&name, "blue") {
            if blue.is_some() {
                Option::None
            } else {
                match xj_alliance(text, m) {
                    Option::Some((v, q)) => xj_alliances_after(text, i, q, red, Option::Some(v)),
                    Option::None => Option::None,
                }
            }
        } else {
            match xj_skip(text, m) {
                Option::Some(q) => xj_alliances_after(text, i, q, red, blue),
                Option::None => Option::None,
            }
        }
    } else {
        Option::None
    }
}

fn xj_alliances_after(
    text: &Vec<char>,
    i0: usize,
    q: usize,
    red: Option<Alliance>,
    blue: Option<Alliance>,
) -> (r: Option<(Alliances, usize)>)
    ensures
        r is Some <==> j_alliances_after(
            text@,
            i0 as int,
            q as int,
            opt_alliance_view(red),
            opt_alliance_view(blue),
        ) is Some,
        r matches Some((a, j)) ==> j_alliances_after(
            text@,
            i0 as int,
            q as int,
            opt_alliance_view(red),
            opt_alliance_view(blue),
        ) == Option::Some((a@, j as int)),
    decreases text@.len() - i0, 0int,
{
    let w = x_skip_ws(text, q);
    if w < text.len() && text[w] == ',' {
        let nx = x_skip_ws(text, w + 1);
        if i0 < nx && nx <= text.len() {
            xj_alliances_members(text, nx, red, blue)
        } else {
            Option::None
        }
    } else if w < text.len() && text[w] == '}' {
        match (red, blue) {
            (Option::Some(r2), Option::Some(b2)) => Option::Some(
                (Alliances { red: r2, blue: b2 }, w + 1),
            ),
            _ => Option::None,
        }
    } else {
        Option::None
    }
}

fn xj_alliances(text: &Vec<char>, i: usize) -> (r: Option<(Alliances, usize)>)
    ensures
        r is Some <==> j_alliances(text@, i as int) is Some,
        r matches Some((a, j)) ==> j_alliances(text@, i as int) == Option::Some((a@, j as int)),
{
    if i < text.len() && text[i] == '{' {
        let k = x_skip_ws(text, i + 1);
        if k < text.len() && text[k] == '}' {
            Option::None
        } else {
            xj_alliances_members(text, k, Option::None, Option::None)
        }
    } else {
        Option::None
    }
}

fn xj_team_members(
    text: &Vec<char>,
    i: usize,
    key: Option<String>,
    num: Option<u32>,
    nick: Option<Option<String>>,
) -> (r: Option<(TbaTeam, usize)>)
    ensures
        r is Some <==> j_team_members(
            text@,
            i as int,
            opt_str_view(key),
            num,
            opt_opt_str_view(nick),
        ) is Some,
        r matches Some((t, j)) ==> j_team_members(
            text@,
            i as int,
            opt_str_view(key),
            num,
            opt_opt_str_view(nick),
        ) == Option::Some((t@, j as int)),
    decreases text@.len() - i, 1int,
{
    let (name, j) = match xj_string(text, i) {
        Option::Some(p) => p,
        Option::None => {
            return Option::None;
        },
    };
    let k = x_skip_ws(text, j);
    if k < text.len() && text[k] == ':' {
        let m = x_skip_ws(text, k + 1);
        if chars_eq_lit(&name, "key") {
            if key.is_some() {
                Option::None
            } else {
                match xj_string(text, m) {
                    Option::Some((v, q)) => {
                        let s = chars_to_string(&v);
                        xj_team_after(text, i, q, Option::Some(s), num, nick)
                    },
                    Option::None => Option::None,
                }
            }
        } else if chars_eq_lit(&name, "team_number") {
            if num.is_some() {
                Option::None
            } else {
                match crate::dec::x_u32(text, m) {
                    Option::Some((v, q)) => xj_team_after(text, i, q, key, Option::Some(v), nick),
                    Option::None => Option::None,
                }
            }
        } else if chars_eq_lit(&name, "nickname") {
            if nick.is_some() {
                Option::None
            } else {
                match xj_opt_string(text, m) {
                    Option::Some((v, q)) => xj_team_after(text, i, q, key, num, Option::Some(v)),
                    Option::None => Option::None,
                }
            }
        } else {
            match xj_skip(text, m) {
                Option::Some(q) => xj_team_after(text, i, q, key, num, nick),
                Option::None => Option::None,
            }
        }
    } else {
        Option::None
    }
}

fn xj_team_after(
    text: &Vec<char>,
    i0: usize,
    q: usize,
    key: Option<String>,
    num: Option<u32>,
    nick: Option<Option<String>>,
) -> (r: Option<(TbaTeam, usize)>)
    ensures
        r is Some <==> j_team_after(
            text@,
            i0 as int,
            q as int,
            opt_str_view(key),
            num,
            opt_opt_str_view(nick),
        ) is Some,
        r matches Some((t, j)) ==> j_team_after(
            text@,
            i0 as int,
            q as int,
            opt_str_view(key),
            num,
            opt_opt_str_view(nick),
        ) == Option::Some((t@, j as int)),
    decreases text@.len() - i0, 0int,
{
    let w = x_skip_ws(text, q);
    if w < text.len() && text[w] == ',' {
        let nx = x_skip_ws(text, w + 1);
        if i0 < nx && nx <= text.len() {
            xj_team_members(text, nx, key, num, nick)
        } else {
            Option::None
        }
    } else if w < text.len() && text[w] == '}' {
        match (key, num) {
            (Option::Some(kv), Option::Some(nv)) => {
                let t = TbaTeam {
                    key: kv,
                    team_number: nv,
                    nickname: match nick {
                        Option::Some(x) => x,
                        Option::None => Option::None,
                    },
                };
                Option::Some((t, w + 1))
            },
            _ => Option::None,
        }
    } else {
        Option::None
    }
}

fn xj_team(text: &Vec<char>, i: usize) -> (r: Option<(TbaTeam, usize)>)
    ensures
        r is Some <==> j_team(text@, i as int) is Some,
        r matches Some((t, j)) ==> j_team(text@, i as int) == Option::Some((t@, j as int)),
{
    if i < text.len() && text[i] == '{' {
        let k = x_skip_ws(text, i + 1);
        if k < text.len() && text[k] == '}' {
            Option::None
        } else {
            xj_team_members(text, k, Option::None, Option::None, Option::None)
        }
    } else {
        Option::None
    }
}

fn xj_match_members(
    text: &Vec<char>,
    i: usize,
    key: Option<String>,
    lvl: Option<String>,
    num: Option<u32>,
    al: Option<Alliances>,
) -> (r: Option<(TbaMatch, usize)>)
    ensures
        r is Some <==> j_match_members(
            text@,
            i as int,
            opt_str_view(key),
            opt_str_view(lvl),
            num,
            opt_alliances_view(al),
        ) is Some,
        r matches Some((mt, j)) ==> j_match_members(
            text@,
            i as int,
            opt_str_view(key),
            opt_str_view(lvl),
            num,
            opt_alliances_view(al),
        ) == Option::Some((mt@, j as int)),
    decreases text@.len() - i, 1int,
{
    let (name, j) = match xj_string(text, i) {
        Option::Some(p) => p,
        Option::None => {
            return Option::None;
        },
    };
    let k = x_skip_ws(text, j);
    if k < text.len() && text[k] == ':' {
        let m = x_skip_ws(text, k + 1);
        if chars_eq_lit(&name, "key") {
            if key.is_some() {
                Option::None
            } else {
                match xj_string(text, m) {
                    Option::Some((v, q)) => {
                        let s = chars_to_string(&v);
                        xj_match_after(text, i, q, Option::Some(s), lvl, num, al)
                    },
                    Option::None => Option::None,
                }
            }
        } else if chars_eq_lit(&name, "comp_level") {
            if lvl.is_some() {
                Option::None
            } else {
                match xj_string(text, m) {
                    Option::Some((v, q)) => {
                        let s = chars_to_string(&v);
                        xj_match_after(text, i, q, key, Option::Some(s), num, al)
                    },
                    Option::None => Option::None,
                }
            }
        } else if chars_eq_lit(&name, "match_number") {
            if num.is_some() {
                Option::None
            } else {
                match crate::dec::x_u32(text, m) {
                    Option::Some((v, q)) => xj_match_after(
                        text,
                        i,
                        q,
                        key,
                        lvl,
                        Option::Some(v),
                        al,
                    ),
                    Option::None => Option::None,
                }
            }
        } else if chars_eq_lit(&name, "alliances") {
            if al.is_some() {
                Option::None
            } else {
                match xj_alliances(text, m) {
                    Option::Some((v, q)) => xj_match_after(
                        text,
                        i,
                        q,
                        key,
                        lvl,
                        num,
                        Option::Some(v),
                    ),
                    Option::None => Option::None,
                }
            }
        } else {
            match xj_skip(text, m) {
                Option::Some(q) => xj_match_after(text, i, q, key, lvl, num, al),
                Option::None => Option::None,
            }
        }
    } else {
        Option::None
    }
}

fn xj_match_after(
    text: &Vec<char>,
    i0: usize,
    q: usize,
    key: Option<String>,
    lvl: Option<String>,
    num: Option<u32>,
    al: Option<Alliances>,
) -> (r: Option<(TbaMatch, usize)>)
    ensures
        r is Some <==> j_match_after(
            text@,
            i0 as int,
            q as int,
            opt_str_view(key),
            opt_str_view(lvl),
            num,
            opt_alliances_view(al),
        ) is Some,
        r matches Some((mt, j)) ==> j_match_after(
            text@,
            i0 as int,
            q as int,
            opt_str_view(key),
            opt_str_view(lvl),
            num,
            opt_alliances_view(al),
        ) == Option::Some((mt@, j as int)),
    decreases text@.len() - i0, 0int,
{
    let w = x_skip_ws(text, q);
    if w < text.len() && text[w] == ',' {
        let nx = x_skip_ws(text, w + 1);
        if i0 < nx && nx <= text.len() {
            xj_match_members(text, nx, key, lvl, num, al)
        } else {
            Option::None
        }
    } else if w < text.len() && text[w] == '}' {
        match (key, lvl, num, al) {
            (Option::Some(kv), Option::Some(lv), Option::Some(nv), Option::Some(av)) => {
                let mt = TbaMatch { key: kv, comp_level: lv, match_number: nv, alliances: av };
                Option::Some((mt, w + 1))
            },
            _ => Option::None,
        }
    } else {
        Option::None
    }
}

fn xj_match(text: &Vec<char>, i: usize) -> (r: Option<(TbaMatch, usize)>)
    ensures
        r is Some <==> j_match(text@, i as int) is Some,
        r matches Some((mt, j)) ==> j_match(text@, i as int) == Option::Some((mt@, j as int)),
{
    if i < text.len() && text[i] == '{' {
        let k = x_skip_ws(text, i + 1);
        if k < text.len() && text[k] == '}' {
            Option::None
        } else {
            xj_match_members(text, k, Option::None, Option::None, Option::None, Option::None)
        }
    } else {
        Option::None
    }
}

fn xj_event_members(
    text: &Vec<char>,
    i: usize,
    key: Option<String>,
    name_v: Option<String>,
    sn: Option<Option<String>>,
    sd: Option<String>,
    ed: Option<String>,
) -> (r: Option<(TbaEvent, usize)>)
    ensures
        r is Some <==> j_event_members(
            text@,
            i as int,
            opt_str_view(key),
            opt_str_view(name_v),
            opt_opt_str_view(sn),
            opt_str_view(sd),
            opt_str_view(ed),
        ) is Some,
        r matches Some((ev, j)) ==> j_event_members(
            text@,
            i as int,
            opt_str_view(key),
            opt_str_view(name_v),
            opt_opt_str_view(sn),
            opt_str_view(sd),
            opt_str_view(ed),
        ) == Option::Some((ev@, j as int)),
    decreases text@.len() - i, 1int,
{
    let (name, j) = match xj_string(text, i) {
        Option::Some(p) => p,
        Option::None => {
            return Option::None;
        },
    };
    let k = x_skip_ws(text, j);
    if k < text.len() && text[k] == ':' {
        let m = x_skip_ws(text, k + 1);
        if chars_eq_lit(&name, "key") {
            if key.is_some() {
                Option::None
            } else {
                match xj_string(text, m) {
                    Option::Some((v, q)) => {
                        let s = chars_to_string(&v);
                        xj_event_after(text, i, q, Option::Some(s), name_v, sn, sd, ed)
                    },
                    Option::None => Option::None,
                }
            }
        } else if chars_eq_lit(&name, "name") {
            if name_v.is_some() {
                Option::None
            } else {
                match xj_string(text, m) {
                    Option::Some((v, q)) => {
                        let s = chars_to_string(&v);
                        xj_event_after(text, i, q, key, Option::Some(s), sn, sd, ed)
                    },
                    Option::None => Option::None,
                }
            }
        } else if chars_eq_lit(&name, "short_name") {
            if sn.is_some() {
                Option::None
            } else {
                match xj_opt_string(text, m) {
                    Option::Some((v, q)) => xj_event_after(
                        text,
                        i,
                        q,
                        key,
                        name_v,
                        Option::Some(v),
                        sd,
                        ed,
                    ),
                    Option::None => Option::None,
                }
            }
        } else if chars_eq_lit(&name, "start_date") {
            if sd.is_some() {
                Option::None
            } else {
                match xj_string(text, m) {
                    Option::Some((v, q)) => {
                        let s = chars_to_string(&v);
                        xj_event_after(text, i, q, key, name_v, sn, Option::Some(s), ed)
                    },
                    Option::None => Option::None,
                }
            }
        } else if chars_eq_lit(&name, "end_date") {
            if ed.is_some() {
                Option::None
            } else {
                match xj_string(text, m) {
                    Option::Some((v, q)) => {
                        let s = chars_to_string(&v);
                        xj_event_after(text, i, q, key, name_v, sn, sd, Option::Some(s))
                    },
                    Option::None => Option::None,
                }
            }
        } else {
            match xj_skip(text, m) {
                Option::Some(q) => xj_event_after(text, i, q, key, name_v, sn, sd, ed),
                Option::None => Option::None,
            }
        }
    } else {
        Option::None
    }
}

fn xj_event_after(
    text: &Vec<char>,
    i0: usize,
    q: usize,
    key: Option<String>,
    name_v: Option<String>,
    sn: Option<Option<String>>,
    sd: Option<String>,
    ed: Option<String>,
) -> (r: Option<(TbaEvent, usize)>)
    ensures
        r is Some <==> j_event_after(
            text@,
            i0 as int,
            q as int,
            opt_str_view(key),
            opt_str_view(name_v),
            opt_opt_str_view(sn),
            opt_str_view(sd),
            opt_str_view(ed),
        ) is Some,
        r matches Some((ev, j)) ==> j_event_after(
            text@,
            i0 as int,
            q as int,
            opt_str_view(key),
            opt_str_view(name_v),
            opt_opt_str_view(sn),
            opt_str_view(sd),
            opt_str_view(ed),
        ) == Option::Some((ev@, j as int)),
    decreases text@.len() - i0, 0int,
{
    let w = x_skip_ws(text, q);
    if w < text.len() && text[w] == ',' {
        let nx = x_skip_ws(text, w + 1);
        if i0 < nx && nx <= text.len() {
            xj_event_members(text, nx, key, name_v, sn, sd, ed)
        } else {
            Option::None
        }
    } else if w < text.len() && text[w] == '}' {
        match (key, name_v, sd, ed) {
            (Option::Some(kv), Option::Some(nv), Option::Some(sv), Option::Some(ev2)) => {
                let ev = TbaEvent {
                    key: kv,
                    name: nv,
                    short_name: match sn {
                        Option::Some(x) => x,
                        Option::None => Option::None,
                    },
                    start_date: sv,
                    end_date: ev2,
                };
                Option::Some((ev, w + 1))
            },
            _ => Option::None,
        }
    } else {
        Option::None
    }
}

fn xj_event(text: &Vec<char>, i: usize) -> (r: Option<(TbaEvent, usize)>)
    ensures
        r is Some <==> j_event(text@, i as int) is Some,
        r matches Some((ev, j)) ==> j_event(text@, i as int) == Option::Some((ev@, j as int)),
{
    if i < text.len() && text[i] == '{' {
        let k = x_skip_ws(text, i + 1);
        if k < text.len() && text[k] == '}' {
            Option::None
        } else {
            xj_event_members(
                text,
                k,
                Option::None,
                Option::None,
                Option::None,
                Option::None,
                Option::None,
            )
        }
    } else {
        Option::None
    }
}

fn xj_team_array_items(text: &Vec<char>, i: usize) -> (r: Option<(Vec<TbaTeam>, usize)>)
    ensures
        r is Some <==> j_team_array_items(text@, i as int) is Some,
        r matches Some((v, j)) ==> j_team_array_items(text@, i as int) == Option::Some(
            (v@.map_values(|t: TbaTeam| t@), j as int),
        ),
    decreases text@.len() - i,
{
    let (e, j) = match xj_team(text, i) {
        Option::Some(p) => p,
        Option::None => {
            return Option::None;
        },
    };
    let w = x_skip_ws(text, j);
    if w < text.len() && text[w] == ',' {
        let nx = x_skip_ws(text, w + 1);
        if i < nx && nx <= text.len() {
            match xj_team_array_items(text, nx) {
                Option::Some((rest, k)) => {
                    let ghost ev = e@;
                    let mut v: Vec<TbaTeam> = Vec::new();
                    v.push(e);
                    let mut r2 = rest;
                    v.append(&mut r2);
                    proof {
                        assert(v@.map_values(|t: TbaTeam| t@) =~= seq![ev] + rest@.map_values(
                            |t: TbaTeam| t@,
                        ));
                    }
                    Option::Some((v, k))
                },
                Option::None => Option::None,
            }
        } else {
            Option::None
        }
    } else if w < text.len() && text[w] == ']' {
        let ghost ev = e@;
        let mut v: Vec<TbaTeam> = Vec::new();
        v.push(e);
        proof {
            assert(v@.map_values(|t: TbaTeam| t@) =~= seq![ev]);
        }
        Option::Some((v, w + 1))
    } else {
        Option::None
    }
}

fn xj_team_array(text: &Vec<char>, i: usize) -> (r: Option<(Vec<TbaTeam>, usize)>)
    ensures
        r is Some <==> j_team_array(text@, i as int) is Some,
        r matches Some((v, j)) ==> j_team_array(text@, i as int) == Option::Some(
            (v@.map_values(|t: TbaTeam| t@), j as int),
        ),
{
    if i < text.len() && text[i] == '[' {
        let k = x_skip_ws(text, i + 1);
        if k < text.len() && text[k] == ']' {
            let v: Vec<TbaTeam> = Vec::new();
            proof {
                assert(v@.map_values(|t: TbaTeam| t@) =~= Seq::<TbaTeamV>::empty());
            }
            Option::Some((v, k + 1))
        } else {
            xj_team_array_items(text, k)
        }
    } else {
        Option::None
    }
}

fn xj_match_array_items(text: &Vec<char>, i: usize) -> (r: Option<(Vec<TbaMatch>, usize)>)
    ensures
        r is Some <==> j_match_array_items(text@, i as int) is Some,
        r matches Some((v, j)) ==> j_match_array_items(text@, i as int) == Option::Some(
            (v@.map_values(|m: TbaMatch| m@), j as int),
        ),
    decreases text@.len() - i,
{
    let (e, j) = match xj_match(text, i) {
        Option::Some(p) => p,
        Option::None => {
            return Option::None;
        },
    };
    let w = x_skip_ws(text, j);
    if w < text.len() && text[w] == ',' {
        let nx = x_skip_ws(text, w + 1);
        if i < nx && nx <= text.len() {
            match xj_match_array_items(text, nx) {
                Option::Some((rest, k)) => {
                    let ghost ev = e@;
                    let mut v: Vec<TbaMatch> = Vec::new();
                    v.push(e);
                    let mut r2 = rest;
                    v.append(&mut r2);
                    proof {
                        assert(v@.map_values(|m: TbaMatch| m@) =~= seq![ev] + rest@.map_values(
                            |m: TbaMatch| m@,
                        ));
                    }
                    Option::Some((v, k))
                },
                Option::None => Option::None,
            }
        } else {
            Option::None
        }
    } else if w < text.len() && text[w] == ']' {
        let ghost ev = e@;
        let mut v: Vec<TbaMatch> = Vec::new();
        v.push(e);
        proof {
            assert(v@.map_values(|m: TbaMatch| m@) =~= seq![ev]);
        }
        Option::Some((v, w + 1))
    } else {
        Option::None
    }
}

fn xj_match_array(text: &Vec<char>, i: usize) -> (r: Option<(Vec<TbaMatch>, usize)>)
    ensures
        r is Some <==> j_match_array(text@, i as int) is Some,
        r matches Some((v, j)) ==> j_match_array(text@, i as int) == Option::Some(
            (v@.map_values(|m: TbaMatch| m@), j as int),
        ),
{
    if i < text.len() && text[i] == '[' {
        let k = x_skip_ws(text, i + 1);
        if k < text.len() && text[k] == ']' {
            let v: Vec<TbaMatch> = Vec::new();
            proof {
                assert(v@.map_values(|m: TbaMatch| m@) =~= Seq::<TbaMatchV>::empty());
            }
            Option::Some((v, k + 1))
        } else {
            xj_match_array_items(text, k)
        }
    } else {
        Option::None
    }
}

fn xj_event_array_items(text: &Vec<char>, i: usize) -> (r: Option<(Vec<TbaEvent>, usize)>)
    ensures
        r is Some <==> j_event_array_items(text@, i as int) is Some,
        r matches Some((v, j)) ==> j_event_array_items(text@, i as int) == Option::Some(
            (v@.map_values(|e: TbaEvent| e@), j as int),
        ),
    decreases text@.len() - i,
{
    let (e, j) = match xj_event(text, i) {
        Option::Some(p) => p,
        Option::None => {
            return Option::None;
        },
    };
    let w = x_skip_ws(text, j);
    if w < text.len() && text[w] == ',' {
        let nx = x_skip_ws(text, w + 1);
        if i < nx && nx <= text.len() {
            match xj_event_array_items(text, nx) {
                Option::Some((rest, k)) => {
                    let ghost ev = e@;
                    let mut v: Vec<TbaEvent> = Vec::new();
                    v.push(e);
                    let mut r2 = rest;
                    v.append(&mut r2);
                    proof {
                        assert(v@.map_values(|e2: TbaEvent| e2@) =~= seq![ev] + rest@.map_values(
                            |e2: TbaEvent| e2@,
                        ));
                    }
                    Option::Some((v, k))
                },
                Option::None => Option::None,
            }
        } else {
            Option::None
        }
    } else if w < text.len() && text[w] == ']' {
        let ghost ev = e@;
        let mut v: Vec<TbaEvent> = Vec::new();
        v.push(e);
        proof {
            assert(v@.map_values(|e2: TbaEvent| e2@) =~= seq![ev]);
        }
        Option::Some((v, w + 1))
    } else {
        Option::None
    }
}

fn xj_event_array(text: &Vec<char>, i: usize) -> (r: Option<(Vec<TbaEvent>, usize)>)
    ensures
        r is Some <==> j_event_array(text@, i as int) is Some,
        r matches Some((v, j)) ==> j_event_array(text@, i as int) == Option::Some(
            (v@.map_values(|e: TbaEvent| e@), j as int),
        ),
{
    if i < text.len() && text[i] == '[' {
        let k = x_skip_ws(text, i + 1);
        if k < text.len() && text[k] == ']' {
            let v: Vec<TbaEvent> = Vec::new();
            proof {
                assert(v@.map_values(|e: TbaEvent| e@) =~= Seq::<TbaEventV>::empty());
            }
            Option::Some((v, k + 1))
        } else {
            xj_event_array_items(text, k)
        }
    } else {
        Option::None
    }
}

/// Decode a remote matches body; `None` when it is not one JSON array of
/// match objects.
pub fn parse_matches_doc(s: &str) -> (r: Option<Vec<TbaMatch>>)
    ensures
        r is Some <==> json_matches_doc(s@) is Some,
        r matches Some(v) ==> json_matches_doc(s@) == Option::Some(
            v@.map_values(|m: TbaMatch| m@),
        ),
{
    let text = str_to_chars(s);
    let i = x_skip_ws(&text, 0);
    match xj_match_array(&text, i) {
        Option::Some((v, j)) => {
            let e = x_skip_ws(&text, j);
            if e == text.len() {
                Option::Some(v)
            } else {
                Option::None
            }
        },
        Option::None => Option::None,
    }
}

/// Decode a remote teams body; `None` when it is not one JSON array of team
/// objects.
pub fn parse_teams_doc(s: &str) -> (r: Option<Vec<TbaTeam>>)
    ensures
        r is Some <==> json_teams_doc(s@) is Some,
        r matches Some(v) ==> json_teams_doc(s@) == Option::Some(v@.map_values(|t: TbaTeam| t@)),
{
    let text = str_to_chars(s);
    let i = x_skip_ws(&text, 0);
    match xj_team_array(&text, i) {
        Option::Some((v, j)) => {
            let e = x_skip_ws(&text, j);
            if e == text.len() {
                Option::Some(v)
            } else {
                Option::None
            }
        },
        Option::None => Option::None,
    }
}

/// Decode a remote events body; `None` when it is not one JSON array of
/// event objects.
pub fn parse_events_doc(s: &str) -> (r: Option<Vec<TbaEvent>>)
    ensures
        r is Some <==> json_events_doc(s@) is Some,
        r matches Some(v) ==> json_events_doc(s@) == Option::Some(
            v@.map_values(|e: TbaEvent| e@),
        ),
{
    let text = str_to_chars(s);
    let i = x_skip_ws(&text, 0);
    match xj_event_array(&text, i) {
        Option::Some((v, j)) => {
            let e = x_skip_ws(&text, j);
            if e == text.len() {
                Option::Some(v)
            } else {
                Option::None
            }
        },
        Option::None => Option::None,
    }
}

} // verus!
