//! The strict parser for the canonical wire form, which only this library
//! writes: the persisted snapshot document. Spec-level recursive-descent
//! parsers define what each document means, and the executable parsers are
//! proved to return exactly what the spec parsers say, on every input.
//! Remote bodies are ordinary interchange JSON and have their own reader.
#![allow(unused_imports)]

use vstd::prelude::*;

use crate::model::{Alliance, AllianceV, Alliances, AlliancesV, EventData, EventDataV, TbaMatch,
    TbaMatchV, TbaTeam, TbaTeamV};
use crate::text::{char_is_digit, char_is_hex, chars_to_string, digit_val, hex_val, hex_val_exec,
    is_digit, is_hex, str_to_chars};

verus! {

/// Expect the exact literal `lit` at position `i`.
pub open spec fn p_lit(s: Seq<char>, i: int, lit: Seq<char>) -> Option<int> {
    if 0 <= i && i + lit.len() <= s.len() && s.subrange(i, i + lit.len()) == lit {
        Option::Some(i + lit.len())
    } else {
        Option::None
    }
}

/// Parse string characters after the opening quote, through the closing quote.
pub open spec fn p_str_content(s: Seq<char>, i: int) -> Option<(Seq<char>, int)>
    decreases s.len() - i,
{
    if i < 0 || i >= s.len() {
        Option::None
    } else if s[i] == '"' {
        Option::Some((Seq::empty(), i + 1))
    } else if s[i] == '\\' {
        if i + 1 < s.len() && (s[i + 1] == '"' || s[i + 1] == '\\') {
            match p_str_content(s, i + 2) {
                Option::Some((rest, j)) => Option::Some((seq![s[i + 1]] + rest, j)),
                Option::None => Option::None,
            }
        } else if i + 5 < s.len() && s[i + 1] == 'u' && s[i + 2] == '0' && s[i + 3] == '0' && is_hex(
            s[i + 4],
        ) && is_hex(s[i + 5]) && hex_val(s[i + 4]) * 16 + hex_val(s[i + 5]) < 32 {
            match p_str_content(s, i + 6) {
                Option::Some((rest, j)) => Option::Some(
                    (seq![((hex_val(s[i + 4]) * 16 + hex_val(s[i + 5])) as u8) as char] + rest, j),
                ),
                Option::None => Option::None,
            }
        } else {
            Option::None
        }
    } else if (s[i] as u32) < 32 {
        Option::None
    } else {
        match p_str_content(s, i + 1) {
            Option::Some((rest, j)) => Option::Some((seq![s[i]] + rest, j)),
            Option::None => Option::None,
        }
    }
}

/// Parse a quoted string.
pub open spec fn p_string(s: Seq<char>, i: int) -> Option<(Seq<char>, int)> {
    if 0 <= i && i < s.len() && s[i] == '"' {
        p_str_content(s, i + 1)
    } else {
        Option::None
    }
}

/// The maximal run of digit characters starting at `i`, and where it ends.
pub open spec fn p_digit_run(s: Seq<char>, i: int) -> (Seq<char>, int)
    decreases s.len() - i,
{
    if 0 <= i && i < s.len() && is_digit(s[i]) {
        let r = p_digit_run(s, i + 1);
        (seq![s[i]] + r.0, r.1)
    } else {
        (Seq::empty(), i)
    }
}

/// The value of a digit string, most significant digit first.
pub open spec fn val_of_digits(ds: Seq<char>) -> int
    decreases ds.len(),
{
    if ds.len() == 0 {
        0
    } else {
        val_of_digits(ds.drop_last()) * 10 + digit_val(ds.last())
    }
}

/// Parse a decimal number that fits in a `u32`.
pub open spec fn p_u32(s: Seq<char>, i: int) -> Option<(u32, int)> {
    let r = p_digit_run(s, i);
    if r.0.len() == 0 {
        Option::None
    } else if val_of_digits(r.0) > u32::MAX {
        Option::None
    } else {
        Option::Some((val_of_digits(r.0) as u32, r.1))
    }
}

/// Parse a string or `null`.
pub open spec fn p_opt_string(s: Seq<char>, i: int) -> Option<(Option<Seq<char>>, int)> {
    if 0 <= i && i < s.len() && s[i] == 'n' {
        match p_lit(s, i, "null"@) {
            Option::Some(j) => Option::Some((Option::None, j)),
            Option::None => Option::None,
        }
    } else {
        match p_string(s, i) {
            Option::Some((v, j)) => Option::Some((Option::Some(v), j)),
            Option::None => Option::None,
        }
    }
}

/// Parse the comma-separated string elements of an array, through the closing
/// bracket. At least one element.
pub open spec fn p_str_items(s: Seq<char>, i: int) -> Option<(Seq<Seq<char>>, int)>
    decreases s.len() - i,
{
    match p_string(s, i) {
        Option::Some((e, j)) => {
            if i < j && j < s.len() && s[j] == ',' {
                match p_str_items(s, j + 1) {
                    Option::Some((rest, k)) => Option::Some((seq![e] + rest, k)),
                    Option::None => Option::None,
                }
            } else if j < s.len() && s[j] == ']' {
                Option::Some((seq![e], j + 1))
            } else {
                Option::None
            }
        },
        Option::None => Option::None,
    }
}

/// Parse an array of strings.
pub open spec fn p_str_list(s: Seq<char>, i: int) -> Option<(Seq<Seq<char>>, int)> {
    if 0 <= i && i < s.len() && s[i] == '[' {
        if i + 1 < s.len() && s[i + 1] == ']' {
            Option::Some((Seq::empty(), i + 2))
        } else {
            p_str_items(s, i + 1)
        }
    } else {
        Option::None
    }
}

/// Parse one alliance object.
pub open spec fn p_alliance(s: Seq<char>, i: int) -> Option<(AllianceV, int)> {
    match p_lit(s, i, "{\"team_keys\":"@) {
        Option::Some(j) => match p_str_list(s, j) {
            Option::Some((ks, k)) => match p_lit(s, k, "}"@) {
                Option::Some(l) => Option::Some((AllianceV { team_keys: ks }, l)),
                Option::None => Option::None,
            },
            Option::None => Option::None,
        },
        Option::None => Option::None,
    }
}

/// Parse the red/blue alliance pair.
pub open spec fn p_alliances(s: Seq<char>, i: int) -> Option<(AlliancesV, int)> {
    match p_lit(s, i, "{\"red\":"@) {
        Option::Some(j) => match p_alliance(s, j) {
            Option::Some((red, k)) => match p_lit(s, k, ",\"blue\":"@) {
                Option::Some(l) => match p_alliance(s, l) {
                    Option::Some((blue, m)) => match p_lit(s, m, "}"@) {
                        Option::Some(e) => Option::Some((AlliancesV { red, blue }, e)),
                        Option::None => Option::None,
                    },
                    Option::None => Option::None,
                },
                Option::None => Option::None,
            },
            Option::None => Option::None,
        },
        Option::None => Option::None,
    }
}

/// Parse one team object.
pub open spec fn p_team(s: Seq<char>, i: int) -> Option<(TbaTeamV, int)> {
    match p_lit(s, i, "{\"key\":"@) {
        Option::Some(j) => match p_string(s, j) {
            Option::Some((key, k)) => match p_lit(s, k, ",\"team_number\":"@) {
                Option::Some(l) => match p_u32(s, l) {
                    Option::Some((num, m)) => match p_lit(s, m, ",\"nickname\":"@) {
                        Option::Some(o) => match p_opt_string(s, o) {
                            Option::Some((nick, q)) => match p_lit(s, q, "}"@) {
                                Option::Some(e) => Option::Some(
                                    (TbaTeamV { key, team_number: num, nickname: nick }, e),
                                ),
                                Option::None => Option::None,
                            },
                            Option::None => Option::None,
                        },
                        Option::None => Option::None,
                    },
                    Option::None => Option::None,
                },
                Option::None => Option::None,
            },
            Option::None => Option::None,
        },
        Option::None => Option::None,
    }
}

/// Parse one match object.
pub open spec fn p_match(s: Seq<char>, i: int) -> Option<(TbaMatchV, int)> {
    match p_lit(s, i, "{\"key\":"@) {
        Option::Some(j) => match p_string(s, j) {
            Option::Some((key, k)) => match p_lit(s, k, ",\"comp_level\":"@) {
                Option::Some(l) => match p_string(s, l) {
                    Option::Some((lvl, m)) => match p_lit(s, m, ",\"match_number\":"@) {
                        Option::Some(o) => match p_u32(s, o) {
                            Option::Some((num, q)) => match p_lit(s, q, ",\"alliances\":"@) {
                                Option::Some(u) => match p_alliances(s, u) {
                                    Option::Some((al, w)) => match p_lit(s, w, "}"@) {
                                        Option::Some(e) => Option::Some(
                                            (
                                                TbaMatchV {
                                                    key,
                                                    comp_level: lvl,
                                                    match_number: num,
                                                    alliances: al,
                                                },
                                                e,
                                            ),
                                        ),
                                        Option::None => Option::None,
                                    },
                                    Option::None => Option::None,
                                },
                                Option::None => Option::None,
                            },
                            Option::None => Option::None,
                        },
                        Option::None => Option::None,
                    },
                    Option::None => Option::None,
                },
                Option::None => Option::None,
            },
            Option::None => Option::None,
        },
        Option::None => Option::None,
    }
}

/// Parse the comma-separated team elements of an array, through the closing
/// bracket. At least one element.
pub open spec fn p_team_items(s: Seq<char>, i: int) -> Option<(Seq<TbaTeamV>, int)>
    decreases s.len() - i,
{
    match p_team(s, i) {
        Option::Some((e, j)) => {
            if i < j && j < s.len() && s[j] == ',' {
                match p_team_items(s, j + 1) {
                    Option::Some((rest, k)) => Option::Some((seq![e] + rest, k)),
                    Option::None => Option::None,
                }
            } else if j < s.len() && s[j] == ']' {
                Option::Some((seq![e], j + 1))
            } else {
                Option::None
            }
        },
        Option::None => Option::None,
    }
}

/// Parse an array of teams.
pub open spec fn p_team_list(s: Seq<char>, i: int) -> Option<(Seq<TbaTeamV>, int)> {
    if 0 <= i && i < s.len() && s[i] == '[' {
        if i + 1 < s.len() && s[i + 1] == ']' {
            Option::Some((Seq::empty(), i + 2))
        } else {
            p_team_items(s, i + 1)
        }
    } else {
        Option::None
    }
}

/// Parse the comma-separated match elements of an array, through the closing
/// bracket. At least one element.
pub open spec fn p_match_items(s: Seq<char>, i: int) -> Option<(Seq<TbaMatchV>, int)>
    decreases s.len() - i,
{
    match p_match(s, i) {
        Option::Some((e, j)) => {
            if i < j && j < s.len() && s[j] == ',' {
                match p_match_items(s, j + 1) {
                    Option::Some((rest, k)) => Option::Some((seq![e] + rest, k)),
                    Option::None => Option::None,
                }
            } else if j < s.len() && s[j] == ']' {
                Option::Some((seq![e], j + 1))
            } else {
                Option::None
            }
        },
        Option::None => Option::None,
    }
}

/// Parse an array of matches.
pub open spec fn p_match_list(s: Seq<char>, i: int) -> Option<(Seq<TbaMatchV>, int)> {
    if 0 <= i && i < s.len() && s[i] == '[' {
        if i + 1 < s.len() && s[i + 1] == ']' {
            Option::Some((Seq::empty(), i + 2))
        } else {
            p_match_items(s, i + 1)
        }
    } else {
        Option::None
    }
}

/// Parse the whole persisted snapshot document.
pub open spec fn p_snapshot(s: Seq<char>, i: int) -> Option<(EventDataV, int)> {
    match p_lit(s, i, "{\"matches\":"@) {
        Option::Some(j) => match p_match_list(s, j) {
            Option::Some((ms, k)) => match p_lit(s, k, ",\"teams\":"@) {
                Option::Some(l) => match p_team_list(s, l) {
                    Option::Some((ts, m)) => match p_lit(s, m, ",\"team_keys\":"@) {
                        Option::Some(o) => match p_str_list(s, o) {
                            Option::Some((ks, q)) => match p_lit(s, q, "}"@) {
                                Option::Some(e) => Option::Some(
                                    (EventDataV { matches: ms, teams: ts, team_keys: ks }, e),
                                ),
                                Option::None => Option::None,
                            },
                            Option::None => Option::None,
                        },
                        Option::None => Option::None,
                    },
                    Option::None => Option::None,
                },
                Option::None => Option::None,
            },
            Option::None => Option::None,
        },
        Option::None => Option::None,
    }
}

/// A whole document that is exactly one snapshot.
pub open spec fn spec_decode_snapshot(s: Seq<char>) -> Option<EventDataV> {
    match p_snapshot(s, 0) {
        Option::Some((v, j)) => if j == s.len() {
            Option::Some(v)
        } else {
            Option::None
        },
        Option::None => Option::None,
    }
}

pub(crate) fn x_lit(text: &Vec<char>, i: usize, lit: &str) -> (r: Option<usize>)
    ensures
        r is Some <==> p_lit(text@, i as int, lit@) is Some,
        r matches Some(j) ==> p_lit(text@, i as int, lit@) == Option::Some(j as int),
{
    let n = lit.unicode_len();
    let tl = text.len();
    if i > tl || n > tl - i {
        return Option::None;
    }
    let mut k: usize = 0;
    while k < n
        invariant
            n == lit@.len(),
            tl == text@.len(),
            i + n <= tl,
            k <= n,
            text@.subrange(i as int, i + k as int) == lit@.subrange(0, k as int),
        decreases n - k,
    {
        let c = text[i + k];
        let d = lit.get_char(k);
        if c != d {
            proof {
                assert(text@.subrange(i as int, i + n as int)[k as int] == text@[i + k]);
                assert(text@.subrange(i as int, i + n as int) != lit@);
            }
            return Option::None;
        }
        proof {
            assert forall|l: int| 0 <= l < k + 1 implies #[trigger] text@.subrange(
                i as int,
                i + (k + 1) as int,
            )[l] == lit@.subrange(0, (k + 1) as int)[l] by {
                if l < k {
                    assert(text@.subrange(i as int, i + k as int)[l] == lit@.subrange(
                        0,
                        k as int,
                    )[l]);
                }
            }
            assert(text@.subrange(i as int, i + (k + 1) as int) =~= lit@.subrange(
                0,
                (k + 1) as int,
            ));
        }
        k = k + 1;
    }
    proof {
        assert(lit@.subrange(0, n as int) =~= lit@);
        assert(text@.subrange(i as int, i + n as int) == lit@);
    }
    Option::Some(i + n)
}

fn x_str_content(text: &Vec<char>, i: usize) -> (r: Option<(Vec<char>, usize)>)
    ensures
        r is Some <==> p_str_content(text@, i as int) is Some,
        r matches Some((v, j)) ==> p_str_content(text@, i as int) == Option::Some((v@, j as int)),
    decreases text@.len() - i,
{
    if i >= text.len() {
        return Option::None;
    }
    let c = text[i];
    if c == '"' {
        let v: Vec<char> = Vec::new();
        proof {
            assert(v@ =~= Seq::<char>::empty());
        }
        return Option::Some((v, i + 1));
    }
    if c == '\\' {
        if text.len() - i > 1 && (text[i + 1] == '"' || text[i + 1] == '\\') {
            let e = text[i + 1];
            match x_str_content(text, i + 2) {
                Option::Some((rest, j)) => {
                    let mut v: Vec<char> = Vec::new();
                    v.push(e);
                    let mut r2 = rest;
                    v.append(&mut r2);
                    proof {
                        assert(v@ =~= seq![text@[i + 1]] + v@.subrange(1, v@.len() as int));
                    }
                    Option::Some((v, j))
                },
                Option::None => Option::None,
            }
        } else if text.len() - i > 5 && text[i + 1] == 'u' && text[i + 2] == '0' && text[i + 3]
            == '0' && char_is_hex(text[i + 4]) && char_is_hex(text[i + 5]) {
            let hv = hex_val_exec(text[i + 4]) * 16 + hex_val_exec(text[i + 5]);
            if hv < 32 {
                match x_str_content(text, i + 6) {
                    Option::Some((rest, j)) => {
                        let ec = (hv as u8) as char;
                        let mut v: Vec<char> = Vec::new();
                        v.push(ec);
                        let mut r2 = rest;
                        v.append(&mut r2);
                        Option::Some((v, j))
                    },
                    Option::None => Option::None,
                }
            } else {
                Option::None
            }
        } else {
            Option::None
        }
    } else if (c as u32) < 32 {
        Option::None
    } else {
        match x_str_content(text, i + 1) {
            Option::Some((rest, j)) => {
                let mut v: Vec<char> = Vec::new();
                v.push(c);
                let mut r2 = rest;
                v.append(&mut r2);
                Option::Some((v, j))
            },
            Option::None => Option::None,
        }
    }
}

fn x_string(text: &Vec<char>, i: usize) -> (r: Option<(Vec<char>, usize)>)
    ensures
        r is Some <==> p_string(text@, i as int) is Some,
        r matches Some((v, j)) ==> p_string(text@, i as int) == Option::Some((v@, j as int)),
{
    if i < text.len() && text[i] == '"' {
        x_str_content(text, i + 1)
    } else {
        Option::None
    }
}

pub proof fn lemma_digit_run(s: Seq<char>, i: int, j: int)
    requires
        0 <= i <= j <= s.len(),
        forall|k: int| i <= k < j ==> is_digit(s[k]),
        j == s.len() || !is_digit(s[j]),
    ensures
        p_digit_run(s, i) == (s.subrange(i, j), j),
    decreases j - i,
{
    if i == j {
        assert(s.subrange(i, j) =~= Seq::<char>::empty());
    } else {
        assert(is_digit(s[i]));
        lemma_digit_run(s, i + 1, j);
        assert(seq![s[i]] + s.subrange(i + 1, j) =~= s.subrange(i, j));
    }
}

pub(crate) fn x_u32(text: &Vec<char>, i: usize) -> (r: Option<(u32, usize)>)
    ensures
        r is Some <==> p_u32(text@, i as int) is Some,
        r matches Some((n, j)) ==> p_u32(text@, i as int) == Option::Some((n, j as int)),
{
    if i >= text.len() {
        return Option::None;
    }
    let mut j: usize = i;
    while j < text.len() && char_is_digit(text[j])
        invariant
            i <= j <= text@.len(),
            forall|k: int| i <= k < j ==> is_digit(text@[k]),
        decreases text@.len() - j,
    {
        j = j + 1;
    }
    proof {
        lemma_digit_run(text@, i as int, j as int);
    }
    if j == i {
        return Option::None;
    }
    let ghost ds: Seq<char> = text@.subrange(i as int, j as int);
    let mut acc: u64 = 0;
    let mut k: usize = i;
    while k < j
        invariant
            i <= k <= j <= text@.len(),
            ds == text@.subrange(i as int, j as int),
            forall|m: int| i <= m < j ==> is_digit(text@[m]),
            0 <= val_of_digits(ds.subrange(0, (k - i) as int)),
            val_of_digits(ds.subrange(0, (k - i) as int)) <= u32::MAX ==> acc == val_of_digits(
                ds.subrange(0, (k - i) as int),
            ),
            val_of_digits(ds.subrange(0, (k - i) as int)) > u32::MAX ==> acc == u32::MAX as u64
                + 1,
            acc <= u32::MAX as u64 + 1,
        decreases j - k,
    {
        proof {
            assert(is_digit(text@[k as int]));
        }
        let d = (text[k] as u32) - 48;
        let next = acc * 10 + d as u64;
        proof {
            let pre = ds.subrange(0, (k - i) as int);
            let post = ds.subrange(0, (k + 1 - i) as int);
            assert(post.drop_last() =~= pre);
            assert(post.last() == ds[(k - i) as int]);
            assert(ds[(k - i) as int] == text@[k as int]);
            assert(val_of_digits(post) == val_of_digits(pre) * 10 + digit_val(text@[k as int]));
        }
        acc = if next > 0xffff_ffffu64 {
            0xffff_ffffu64 + 1
        } else {
            next
        };
        k = k + 1;
    }
    proof {
        assert(ds.subrange(0, (j - i) as int) =~= ds);
    }
    if acc > 0xffff_ffffu64 {
        Option::None
    } else {
        Option::Some((acc as u32, j))
    }
}

fn x_opt_string(text: &Vec<char>, i: usize) -> (r: Option<(Option<String>, usize)>)
    ensures
        r is Some <==> p_opt_string(text@, i as int) is Some,
        r matches Some((o, j)) ==> p_opt_string(text@, i as int) == Option::Some(
            (crate::model::opt_string_view(o), j as int),
        ),
{
    if i < text.len() && text[i] == 'n' {
        match x_lit(text, i, "null") {
            Option::Some(j) => Option::Some((Option::None, j)),
            Option::None => Option::None,
        }
    } else {
        match x_string(text, i) {
            Option::Some((v, j)) => {
                let s = chars_to_string(&v);
                Option::Some((Option::Some(s), j))
            },
            Option::None => Option::None,
        }
    }
}

fn x_alliance(text: &Vec<char>, i: usize) -> (r: Option<(Alliance, usize)>)
    ensures
        r is Some <==> p_alliance(text@, i as int) is Some,
        r matches Some((a, j)) ==> p_alliance(text@, i as int) == Option::Some((a@, j as int)),
{
    let j = match x_lit(text, i, "{\"team_keys\":") {
        Option::Some(p) => p,
        Option::None => {
            return Option::None;
        },
    };
    let (ks, k) = match x_str_list(text, j) {
        Option::Some(p) => p,
        Option::None => {
            return Option::None;
        },
    };
    let e = match x_lit(text, k, "}") {
        Option::Some(p) => p,
        Option::None => {
            return Option::None;
        },
    };
    Option::Some((Alliance { team_keys: ks }, e))
}

fn x_alliances(text: &Vec<char>, i: usize) -> (r: Option<(Alliances, usize)>)
    ensures
        r is Some <==> p_alliances(text@, i as int) is Some,
        r matches Some((a, j)) ==> p_alliances(text@, i as int) == Option::Some((a@, j as int)),
{
    let j = match x_lit(text, i, "{\"red\":") {
        Option::Some(p) => p,
        Option::None => {
            return Option::None;
        },
    };
    let (red, k) = match x_alliance(text, j) {
        Option::Some(p) => p,
        Option::None => {
            return Option::None;
        },
    };
    let l = match x_lit(text, k, ",\"blue\":") {
        Option::Some(p) => p,
        Option::None => {
            return Option::None;
        },
    };
    let (blue, m) = match x_alliance(text, l) {
        Option::Some(p) => p,
        Option::None => {
            return Option::None;
        },
    };
    let e = match x_lit(text, m, "}") {
        Option::Some(p) => p,
        Option::None => {
            return Option::None;
        },
    };
    Option::Some((Alliances { red, blue }, e))
}

fn x_team(text: &Vec<char>, i: usize) -> (r: Option<(TbaTeam, usize)>)
    ensures
        r is Some <==> p_team(text@, i as int) is Some,
        r matches Some((t, j)) ==> p_team(text@, i as int) == Option::Some((t@, j as int)),
{
    let j = match x_lit(text, i, "{\"key\":") {
        Option::Some(p) => p,
        Option::None => {
            return Option::None;
        },
    };
    let (key, k) = match x_string(text, j) {
        Option::Some(p) => p,
        Option::None => {
            return Option::None;
        },
    };
    let l = match x_lit(text, k, ",\"team_number\":") {
        Option::Some(p) => p,
        Option::None => {
            return Option::None;
        },
    };
    let (num, m) = match x_u32(text, l) {
        Option::Some(p) => p,
        Option::None => {
            return Option::None;
        },
    };
    let o = match x_lit(text, m, ",\"nickname\":") {
        Option::Some(p) => p,
        Option::None => {
            return Option::None;
        },
    };
    let (nick, q) = match x_opt_string(text, o) {
        Option::Some(p) => p,
        Option::None => {
            return Option::None;
        },
    };
    let e = match x_lit(text, q, "}") {
        Option::Some(p) => p,
        Option::None => {
            return Option::None;
        },
    };
    let t = TbaTeam { key: chars_to_string(&key), team_number: num, nickname: nick };
    Option::Some((t, e))
}

fn x_match(text: &Vec<char>, i: usize) -> (r: Option<(TbaMatch, usize)>)
    ensures
        r is Some <==> p_match(text@, i as int) is Some,
        r matches Some((m, j)) ==> p_match(text@, i as int) == Option::Some((m@, j as int)),
{
    let j = match x_lit(text, i, "{\"key\":") {
        Option::Some(p) => p,
        Option::None => {
            return Option::None;
        },
    };
    let (key, k) = match x_string(text, j) {
        Option::Some(p) => p,
        Option::None => {
            return Option::None;
        },
    };
    let l = match x_lit(text, k, ",\"comp_level\":") {
        Option::Some(p) => p,
        Option::None => {
            return Option::None;
        },
    };
    let (lvl, m) = match x_string(text, l) {
        Option::Some(p) => p,
        Option::None => {
            return Option::None;
        },
    };
    let o = match x_lit(text, m, ",\"match_number\":") {
        Option::Some(p) => p,
        Option::None => {
            return Option::None;
        },
    };
    let (num, q) = match x_u32(text, o) {
        Option::Some(p) => p,
        Option::None => {
            return Option::None;
        },
    };
    let u = match x_lit(text, q, ",\"alliances\":") {
        Option::Some(p) => p,
        Option::None => {
            return Option::None;
        },
    };
    let (al, w) = match x_alliances(text, u) {
        Option::Some(p) => p,
        Option::None => {
            return Option::None;
        },
    };
    let e = match x_lit(text, w, "}") {
        Option::Some(p) => p,
        Option::None => {
            return Option::None;
        },
    };
    let mt = TbaMatch {
        key: chars_to_string(&key),
        comp_level: chars_to_string(&lvl),
        match_number: num,
        alliances: al,
    };
    Option::Some((mt, e))
}

fn x_str_items(text: &Vec<char>, i: usize) -> (r: Option<(Vec<String>, usize)>)
    ensures
        r is Some <==> p_str_items(text@, i as int) is Some,
        r matches Some((v, j)) ==> p_str_items(text@, i as int) == Option::Some(
            (v@.map_values(|s: String| s@), j as int),
        ),
    decreases text@.len() - i,
{
    let (e, j) = match x_string(text, i) {
        Option::Some(p) => p,
        Option::None => {
            return Option::None;
        },
    };
    let es = chars_to_string(&e);
    if j > i && j < text.len() && text[j] == ',' {
        match x_str_items(text, j + 1) {
            Option::Some((rest, k)) => {
                let mut v: Vec<String> = Vec::new();
                v.push(es);
                let mut r2 = rest;
                v.append(&mut r2);
                proof {
                    assert(v@.map_values(|s: String| s@) =~= seq![e@] + rest@.map_values(
                        |s: String| s@,
                    ));
                }
                Option::Some((v, k))
            },
            Option::None => Option::None,
        }
    } else if j < text.len() && text[j] == ']' {
        let mut v: Vec<String> = Vec::new();
        v.push(es);
        proof {
            assert(v@.map_values(|s: String| s@) =~= seq![e@]);
        }
        Option::Some((v, j + 1))
    } else {
        Option::None
    }
}

fn x_str_list(text: &Vec<char>, i: usize) -> (r: Option<(Vec<String>, usize)>)
    ensures
        r is Some <==> p_str_list(text@, i as int) is Some,
        r matches Some((v, j)) ==> p_str_list(text@, i as int) == Option::Some(
            (v@.map_values(|s: String| s@), j as int),
        ),
{
    if i < text.len() && text[i] == '[' {
        if text.len() - i > 1 && text[i + 1] == ']' {
            let v: Vec<String> = Vec::new();
            proof {
                assert(v@.map_values(|s: String| s@) =~= Seq::<Seq<char>>::empty());
            }
            Option::Some((v, i + 2))
        } else {
            x_str_items(text, i + 1)
        }
    } else {
        Option::None
    }
}

fn x_team_items(text: &Vec<char>, i: usize) -> (r: Option<(Vec<TbaTeam>, usize)>)
    ensures
        r is Some <==> p_team_items(text@, i as int) is Some,
        r matches Some((v, j)) ==> p_team_items(text@, i as int) == Option::Some(
            (v@.map_values(|t: TbaTeam| t@), j as int),
        ),
    decreases text@.len() - i,
{
    let (e, j) = match x_team(text, i) {
        Option::Some(p) => p,
        Option::None => {
            return Option::None;
        },
    };
    if j > i && j < text.len() && text[j] == ',' {
        match x_team_items(text, j + 1) {
            Option::Some((rest, k)) => {
                let ghost ev = e@;
                let mut v: Vec<TbaTeam> = Vec::new();
                v.push(e);
                let mut r2 = rest;
                v.append(&mut r2);
                proof {
                    assert(v@.map_values(|t: TbaTeam| t@) =~= seq![ev] + rest@.map_values(
                        |t: TbaTeam| t@,
                    ));
                }
                Option::Some((v, k))
            },
            Option::None => Option::None,
        }
    } else if j < text.len() && text[j] == ']' {
        let ghost ev = e@;
        let mut v: Vec<TbaTeam> = Vec::new();
        v.push(e);
        proof {
            assert(v@.map_values(|t: TbaTeam| t@) =~= seq![ev]);
        }
        Option::Some((v, j + 1))
    } else {
        Option::None
    }
}

fn x_team_list(text: &Vec<char>, i: usize) -> (r: Option<(Vec<TbaTeam>, usize)>)
    ensures
        r is Some <==> p_team_list(text@, i as int) is Some,
        r matches Some((v, j)) ==> p_team_list(text@, i as int) == Option::Some(
            (v@.map_values(|t: TbaTeam| t@), j as int),
        ),
{
    if i < text.len() && text[i] == '[' {
        if text.len() - i > 1 && text[i + 1] == ']' {
            let v: Vec<TbaTeam> = Vec::new();
            proof {
                assert(v@.map_values(|t: TbaTeam| t@) =~= Seq::<TbaTeamV>::empty());
            }
            Option::Some((v, i + 2))
        } else {
            x_team_items(text, i + 1)
        }
    } else {
        Option::None
    }
}

fn x_match_items(text: &Vec<char>, i: usize) -> (r: Option<(Vec<TbaMatch>, usize)>)
    ensures
        r is Some <==> p_match_items(text@, i as int) is Some,
        r matches Some((v, j)) ==> p_match_items(text@, i as int) == Option::Some(
            (v@.map_values(|m: TbaMatch| m@), j as int),
        ),
    decreases text@.len() - i,
{
    let (e, j) = match x_match(text, i) {
        Option::Some(p) => p,
        Option::None => {
            return Option::None;
        },
    };
    if j > i && j < text.len() && text[j] == ',' {
        match x_match_items(text, j + 1) {
            Option::Some((rest, k)) => {
                let ghost ev = e@;
                let mut v: Vec<TbaMatch> = Vec::new();
                v.push(e);
                let mut r2 = rest;
                v.append(&mut r2);
                proof {
                    assert(v@.map_values(|m: TbaMatch| m@) =~= seq![ev] + rest@.map_values(
                        |m: TbaMatch| m@,
                    ));
                }
                Option::Some((v, k))
            },
            Option::None => Option::None,
        }
    } else if j < text.len() && text[j] == ']' {
        let ghost ev = e@;
        let mut v: Vec<TbaMatch> = Vec::new();
        v.push(e);
        proof {
            assert(v@.map_values(|m: TbaMatch| m@) =~= seq![ev]);
        }
        Option::Some((v, j + 1))
    } else {
        Option::None
    }
}

fn x_match_list(text: &Vec<char>, i: usize) -> (r: Option<(Vec<TbaMatch>, usize)>)
    ensures
        r is Some <==> p_match_list(text@, i as int) is Some,
        r matches Some((v, j)) ==> p_match_list(text@, i as int) == Option::Some(
            (v@.map_values(|m: TbaMatch| m@), j as int),
        ),
{
    if i < text.len() && text[i] == '[' {
        if text.len() - i > 1 && text[i + 1] == ']' {
            let v: Vec<TbaMatch> = Vec::new();
            proof {
                assert(v@.map_values(|m: TbaMatch| m@) =~= Seq::<TbaMatchV>::empty());
            }
            Option::Some((v, i + 2))
        } else {
            x_match_items(text, i + 1)
        }
    } else {
        Option::None
    }
}

fn x_snapshot(text: &Vec<char>, i: usize) -> (r: Option<(EventData, usize)>)
    ensures
        r is Some <==> p_snapshot(text@, i as int) is Some,
        r matches Some((d, j)) ==> p_snapshot(text@, i as int) == Option::Some((d@, j as int)),
{
    let j = match x_lit(text, i, "{\"matches\":") {
        Option::Some(p) => p,
        Option::None => {
            return Option::None;
        },
    };
    let (ms, k) = match x_match_list(text, j) {
        Option::Some(p) => p,
        Option::None => {
            return Option::None;
        },
    };
    let l = match x_lit(text, k, ",\"teams\":") {
        Option::Some(p) => p,
        Option::None => {
            return Option::None;
        },
    };
    let (ts, m) = match x_team_list(text, l) {
        Option::Some(p) => p,
        Option::None => {
            return Option::None;
        },
    };
    let o = match x_lit(text, m, ",\"team_keys\":") {
        Option::Some(p) => p,
        Option::None => {
            return Option::None;
        },
    };
    let (ks, q) = match x_str_list(text, o) {
        Option::Some(p) => p,
        Option::None => {
            return Option::None;
        },
    };
    let e = match x_lit(text, q, "}") {
        Option::Some(p) => p,
        Option::None => {
            return Option::None;
        },
    };
    Option::Some((EventData { matches: ms, teams: ts, team_keys: ks }, e))
}

/// Decode a persisted snapshot document; `None` when the text is not exactly
/// one canonical snapshot.
pub fn decode_snapshot(s: &str) -> (r: Option<EventData>)
    ensures
        r is Some <==> spec_decode_snapshot(s@) is Some,
        r matches Some(d) ==> spec_decode_snapshot(s@) == Option::Some(d@),
{
    let text = str_to_chars(s);
    match x_snapshot(&text, 0) {
        Option::Some((d, j)) => {
            if j == text.len() {
                Option::Some(d)
            } else {
                Option::None
            }
        },
        Option::None => Option::None,
    }
}

} // verus!
