//! The canonical wire form of the domain model: compact JSON with fields in
//! declaration order, strings escaped minimally (`\"`, `\\`, and `\u00XX` for
//! control characters), numbers in plain decimal. The spec functions define
//! the form; the executable encoder is proved to produce exactly that form.
#![allow(unused_imports)]

use vstd::prelude::*;

use crate::model::{Alliance, AllianceV, Alliances, AlliancesV, EventData, EventDataV, TbaMatch,
    TbaMatchV, TbaTeam, TbaTeamV, opt_string_view};
use crate::text::{chars_to_string, digit_char, digit_char_exec, hex_char, hex_char_exec};

verus! {

/// The escaped wire form of one character inside a JSON string.
pub open spec fn esc_char(c: char) -> Seq<char> {
    if c == '"' {
        seq!['\\', '"']
    } else if c == '\\' {
        seq!['\\', '\\']
    } else if (c as u32) < 32 {
        seq!['\\', 'u', '0', '0', hex_char(c as u32 as int / 16), hex_char(c as u32 as int % 16)]
    } else {
        seq![c]
    }
}

/// The escaped wire form of a string's characters (without the quotes).
pub open spec fn enc_chars(s: Seq<char>) -> Seq<char>
    decreases s.len(),
{
    if s.len() == 0 {
        Seq::empty()
    } else {
        enc_chars(s.drop_last()) + esc_char(s.last())
    }
}

/// A quoted, escaped JSON string.
pub open spec fn enc_string(s: Seq<char>) -> Seq<char> {
    seq!['"'] + enc_chars(s) + seq!['"']
}

/// The decimal digits of a non-negative integer, most significant first.
pub open spec fn dec_digits(n: int) -> Seq<char>
    recommends
        n >= 0,
    decreases n,
{
    if n < 10 {
        seq![digit_char(n)]
    } else {
        dec_digits(n / 10) + seq![digit_char(n % 10)]
    }
}

/// A JSON number holding a `u32`.
pub open spec fn enc_u32(n: u32) -> Seq<char> {
    dec_digits(n as int)
}

/// An optional string: `null` when absent.
pub open spec fn enc_opt_string(o: Option<Seq<char>>) -> Seq<char> {
    match o {
        Option::Some(s) => enc_string(s),
        Option::None => "null"@,
    }
}

/// Comma-separated string elements of a JSON array.
pub open spec fn enc_str_items(l: Seq<Seq<char>>) -> Seq<char>
    decreases l.len(),
{
    if l.len() == 0 {
        Seq::empty()
    } else if l.len() == 1 {
        enc_string(l[0])
    } else {
        enc_str_items(l.drop_last()) + seq![','] + enc_string(l.last())
    }
}

/// A JSON array of strings.
pub open spec fn enc_str_list(l: Seq<Seq<char>>) -> Seq<char> {
    seq!['['] + enc_str_items(l) + seq![']']
}

/// One alliance object.
pub open spec fn enc_alliance(a: AllianceV) -> Seq<char> {
    "{\"team_keys\":"@ + enc_str_list(a.team_keys) + seq!['}']
}

/// The red/blue alliance pair of one match.
pub open spec fn enc_alliances(a: AlliancesV) -> Seq<char> {
    "{\"red\":"@ + enc_alliance(a.red) + ",\"blue\":"@ + enc_alliance(a.blue) + seq!['}']
}

/// One team object.
pub open spec fn enc_team(t: TbaTeamV) -> Seq<char> {
    "{\"key\":"@ + enc_string(t.key) + ",\"team_number\":"@ + enc_u32(t.team_number)
        + ",\"nickname\":"@ + enc_opt_string(t.nickname) + seq!['}']
}

/// One match object.
pub open spec fn enc_match(m: TbaMatchV) -> Seq<char> {
    "{\"key\":"@ + enc_string(m.key) + ",\"comp_level\":"@ + enc_string(m.comp_level)
        + ",\"match_number\":"@ + enc_u32(m.match_number) + ",\"alliances\":"@ + enc_alliances(
        m.alliances,
    ) + seq!['}']
}

/// Comma-separated team elements of a JSON array.
pub open spec fn enc_team_items(l: Seq<TbaTeamV>) -> Seq<char>
    decreases l.len(),
{
    if l.len() == 0 {
        Seq::empty()
    } else if l.len() == 1 {
        enc_team(l[0])
    } else {
        enc_team_items(l.drop_last()) + seq![','] + enc_team(l.last())
    }
}

/// A JSON array of teams.
pub open spec fn enc_team_list(l: Seq<TbaTeamV>) -> Seq<char> {
    seq!['['] + enc_team_items(l) + seq![']']
}

/// Comma-separated match elements of a JSON array.
pub open spec fn enc_match_items(l: Seq<TbaMatchV>) -> Seq<char>
    decreases l.len(),
{
    if l.len() == 0 {
        Seq::empty()
    } else if l.len() == 1 {
        enc_match(l[0])
    } else {
        enc_match_items(l.drop_last()) + seq![','] + enc_match(l.last())
    }
}

/// A JSON array of matches.
pub open spec fn enc_match_list(l: Seq<TbaMatchV>) -> Seq<char> {
    seq!['['] + enc_match_items(l) + seq![']']
}

/// The persisted snapshot document.
pub open spec fn enc_snapshot(s: EventDataV) -> Seq<char> {
    "{\"matches\":"@ + enc_match_list(s.matches) + ",\"teams\":"@ + enc_team_list(s.teams)
        + ",\"team_keys\":"@ + enc_str_list(s.team_keys) + seq!['}']
}

fn push_lit(out: &mut Vec<char>, lit: &str)
    ensures
        final(out)@ == old(out)@ + lit@,
{
    let n = lit.unicode_len();
    let mut i: usize = 0;
    while i < n
        invariant
            n == lit@.len(),
            i <= n,
            out@ == old(out)@ + lit@.subrange(0, i as int),
        decreases n - i,
    {
        let c = lit.get_char(i);
        out.push(c);
        proof {
            assert(out@ =~= old(out)@ + lit@.subrange(0, i + 1 as int));
        }
        i = i + 1;
    }
    proof {
        assert(out@ =~= old(out)@ + lit@);
    }
}

fn push_esc_char(out: &mut Vec<char>, c: char)
    ensures
        final(out)@ == old(out)@ + esc_char(c),
{
    if c == '"' {
        out.push('\\');
        out.push('"');
    } else if c == '\\' {
        out.push('\\');
        out.push('\\');
    } else {
        let v = c as u32;
        if v < 32 {
            out.push('\\');
            out.push('u');
            out.push('0');
            out.push('0');
            let hi = hex_char_exec((v / 16) as u8);
            let lo = hex_char_exec((v % 16) as u8);
            out.push(hi);
            out.push(lo);
        } else {
            out.push(c);
        }
    }
    proof {
        assert(out@ =~= old(out)@ + esc_char(c));
    }
}

fn push_string(out: &mut Vec<char>, s: &str)
    ensures
        final(out)@ == old(out)@ + enc_string(s@),
{
    out.push('"');
    let n = s.unicode_len();
    let mut i: usize = 0;
    while i < n
        invariant
            n == s@.len(),
            i <= n,
            out@ == old(out)@ + seq!['"'] + enc_chars(s@.subrange(0, i as int)),
        decreases n - i,
    {
        let c = s.get_char(i);
        push_esc_char(out, c);
        proof {
            let pre = s@.subrange(0, i as int);
            let post = s@.subrange(0, i + 1 as int);
            assert(post.drop_last() =~= pre);
            assert(post.last() == s@[i as int]);
            assert(out@ =~= old(out)@ + seq!['"'] + enc_chars(post));
        }
        i = i + 1;
    }
    out.push('"');
    proof {
        assert(s@.subrange(0, n as int) =~= s@);
        assert(out@ =~= old(out)@ + enc_string(s@));
    }
}

fn push_digits(out: &mut Vec<char>, n: u32)
    ensures
        final(out)@ == old(out)@ + dec_digits(n as int),
    decreases n,
{
    if n < 10 {
        let c = digit_char_exec(n as u8);
        out.push(c);
        proof {
            assert(out@ =~= old(out)@ + dec_digits(n as int));
        }
    } else {
        push_digits(out, n / 10);
        let c = digit_char_exec((n % 10) as u8);
        out.push(c);
        proof {
            assert(out@ =~= old(out)@ + dec_digits(n as int));
        }
    }
}

fn push_opt_string(out: &mut Vec<char>, o: &Option<String>)
    ensures
        final(out)@ == old(out)@ + enc_opt_string(opt_string_view(*o)),
{
    match o {
        Option::Some(s) => push_string(out, s.as_str()),
        Option::None => push_lit(out, "null"),
    }
}

fn push_str_list(out: &mut Vec<char>, v: &Vec<String>)
    ensures
        final(out)@ == old(out)@ + enc_str_list(v@.map_values(|s: String| s@)),
{
    let ghost keys: Seq<Seq<char>> = v@.map_values(|s: String| s@);
    out.push('[');
    let mut i: usize = 0;
    while i < v.len()
        invariant
            keys == v@.map_values(|s: String| s@),
            keys.len() == v@.len(),
            i <= v.len(),
            out@ == old(out)@ + seq!['['] + enc_str_items(keys.take(i as int)),
        decreases v.len() - i,
    {
        if i > 0 {
            out.push(',');
        }
        push_string(out, v[i].as_str());
        proof {
            assert(keys[i as int] == v@[i as int]@);
            let pre = keys.take(i as int);
            let post = keys.take(i + 1 as int);
            assert(post.drop_last() =~= pre);
            assert(post.last() == keys[i as int]);
            if i == 0 {
                assert(post.len() == 1);
                assert(post[0] == keys[0]);
                assert(enc_str_items(post) == enc_string(keys[0]));
            }
            assert(out@ =~= old(out)@ + seq!['['] + enc_str_items(post));
        }
        i = i + 1;
    }
    out.push(']');
    proof {
        assert(keys.take(v@.len() as int) =~= keys);
        assert(out@ =~= old(out)@ + enc_str_list(keys));
    }
}

fn push_alliance(out: &mut Vec<char>, a: &Alliance)
    ensures
        final(out)@ == old(out)@ + enc_alliance(a@),
{
    push_lit(out, "{\"team_keys\":");
    push_str_list(out, &a.team_keys);
    out.push('}');
    proof {
        assert(out@ =~= old(out)@ + enc_alliance(a@));
    }
}

fn push_alliances(out: &mut Vec<char>, a: &Alliances)
    ensures
        final(out)@ == old(out)@ + enc_alliances(a@),
{
    push_lit(out, "{\"red\":");
    push_alliance(out, &a.red);
    push_lit(out, ",\"blue\":");
    push_alliance(out, &a.blue);
    out.push('}');
    proof {
        assert(out@ =~= old(out)@ + enc_alliances(a@));
    }
}

fn push_team(out: &mut Vec<char>, t: &TbaTeam)
    ensures
        final(out)@ == old(out)@ + enc_team(t@),
{
    push_lit(out, "{\"key\":");
    push_string(out, t.key.as_str());
    push_lit(out, ",\"team_number\":");
    push_digits(out, t.team_number);
    push_lit(out, ",\"nickname\":");
    push_opt_string(out, &t.nickname);
    out.push('}');
    proof {
        assert(out@ =~= old(out)@ + enc_team(t@));
    }
}

fn push_match(out: &mut Vec<char>, m: &TbaMatch)
    ensures
        final(out)@ == old(out)@ + enc_match(m@),
{
    push_lit(out, "{\"key\":");
    push_string(out, m.key.as_str());
    push_lit(out, ",\"comp_level\":");
    push_string(out, m.comp_level.as_str());
    push_lit(out, ",\"match_number\":");
    push_digits(out, m.match_number);
    push_lit(out, ",\"alliances\":");
    push_alliances(out, &m.alliances);
    out.push('}');
    proof {
        assert(out@ =~= old(out)@ + enc_match(m@));
    }
}

fn push_team_list(out: &mut Vec<char>, v: &Vec<TbaTeam>)
    ensures
        final(out)@ == old(out)@ + enc_team_list(v@.map_values(|t: TbaTeam| t@)),
{
    let ghost items: Seq<TbaTeamV> = v@.map_values(|t: TbaTeam| t@);
    out.push('[');
    let mut i: usize = 0;
    while i < v.len()
        invariant
            items == v@.map_values(|t: TbaTeam| t@),
            items.len() == v@.len(),
            i <= v.len(),
            out@ == old(out)@ + seq!['['] + enc_team_items(items.take(i as int)),
        decreases v.len() - i,
    {
        if i > 0 {
            out.push(',');
        }
        push_team(out, &v[i]);
        proof {
            assert(items[i as int] == v@[i as int]@);
            let pre = items.take(i as int);
            let post = items.take(i + 1 as int);
            assert(post.drop_last() =~= pre);
            assert(post.last() == items[i as int]);
            if i == 0 {
                assert(post.len() == 1);
                assert(post[0] == items[0]);
                assert(enc_team_items(post) == enc_team(items[0]));
            }
            assert(out@ =~= old(out)@ + seq!['['] + enc_team_items(post));
        }
        i = i + 1;
    }
    out.push(']');
    proof {
        assert(items.take(v@.len() as int) =~= items);
        assert(out@ =~= old(out)@ + enc_team_list(items));
    }
}

fn push_match_list(out: &mut Vec<char>, v: &Vec<TbaMatch>)
    ensures
        final(out)@ == old(out)@ + enc_match_list(v@.map_values(|m: TbaMatch| m@)),
{
    let ghost items: Seq<TbaMatchV> = v@.map_values(|m: TbaMatch| m@);
    out.push('[');
    let mut i: usize = 0;
    while i < v.len()
        invariant
            items == v@.map_values(|m: TbaMatch| m@),
            items.len() == v@.len(),
            i <= v.len(),
            out@ == old(out)@ + seq!['['] + enc_match_items(items.take(i as int)),
        decreases v.len() - i,
    {
        if i > 0 {
            out.push(',');
        }
        push_match(out, &v[i]);
        proof {
            assert(items[i as int] == v@[i as int]@);
            let pre = items.take(i as int);
            let post = items.take(i + 1 as int);
            assert(post.drop_last() =~= pre);
            assert(post.last() == items[i as int]);
            if i == 0 {
                assert(post.len() == 1);
                assert(post[0] == items[0]);
                assert(enc_match_items(post) == enc_match(items[0]));
            }
            assert(out@ =~= old(out)@ + seq!['['] + enc_match_items(post));
        }
        i = i + 1;
    }
    out.push(']');
    proof {
        assert(items.take(v@.len() as int) =~= items);
        assert(out@ =~= old(out)@ + enc_match_list(items));
    }
}

/// Serialize a snapshot into its canonical persisted document.
pub fn encode_snapshot(d: &EventData) -> (r: String)
    ensures
        r@ == enc_snapshot(d@),
{
    let mut out: Vec<char> = Vec::new();
    push_lit(&mut out, "{\"matches\":");
    push_match_list(&mut out, &d.matches);
    push_lit(&mut out, ",\"teams\":");
    push_team_list(&mut out, &d.teams);
    push_lit(&mut out, ",\"team_keys\":");
    push_str_list(&mut out, &d.team_keys);
    out.push('}');
    proof {
        assert(out@ =~= enc_snapshot(d@));
    }
    chars_to_string(&out)
}

} // verus!
