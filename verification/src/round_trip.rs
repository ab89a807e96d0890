//! Round-trip: the strict parser inverts the canonical encoder. The public
//! lemma at the bottom states it for whole snapshot documents; the lemmas
//! above it walk the document piece by piece.
#![allow(unused_imports)]

use vstd::prelude::*;

use crate::dec::{p_alliance, p_alliances, p_match, p_match_items, p_match_list, p_opt_string,
    p_snapshot, p_str_content, p_str_items, p_str_list, p_string, p_team, p_team_items,
    p_team_list, p_u32, spec_decode_snapshot, val_of_digits};
use crate::enc::{dec_digits, enc_alliance, enc_alliances, enc_chars, enc_match, enc_match_items,
    enc_match_list, enc_opt_string, enc_snapshot, enc_str_items, enc_str_list, enc_string,
    enc_team, enc_team_items, enc_team_list, enc_u32, esc_char};
use crate::model::{AllianceV, AlliancesV, EventDataV, TbaMatchV, TbaTeamV};
use crate::text::{digit_char, digit_val, hex_char, hex_val, is_digit, is_hex};

verus! {

/// A subrange equal to a concatenation splits into subranges equal to the parts.
proof fn lemma_split_at(text: Seq<char>, i: int, a: Seq<char>, b: Seq<char>)
    requires
        0 <= i,
        i + a.len() + b.len() <= text.len(),
        text.subrange(i, i + a.len() + b.len()) == a + b,
    ensures
        text.subrange(i, i + a.len()) == a,
        text.subrange(i + a.len(), i + a.len() + b.len()) == b,
{
    let w = text.subrange(i, i + a.len() + b.len());
    assert forall|k: int| 0 <= k < a.len() implies #[trigger] text.subrange(i, i + a.len())[k]
        == a[k] by {
        assert(w[k] == (a + b)[k]);
    }
    assert(text.subrange(i, i + a.len()) =~= a);
    assert forall|k: int| 0 <= k < b.len() implies #[trigger] text.subrange(
        i + a.len(),
        i + a.len() + b.len(),
    )[k] == b[k] by {
        assert(w[a.len() + k] == (a + b)[a.len() + k]);
    }
    assert(text.subrange(i + a.len(), i + a.len() + b.len()) =~= b);
}

/// One character of a subrange known to equal `e`.
proof fn lemma_index_of_subrange(text: Seq<char>, i: int, e: Seq<char>, k: int)
    requires
        0 <= i,
        i + e.len() <= text.len(),
        text.subrange(i, i + e.len()) == e,
        0 <= k < e.len(),
    ensures
        text[i + k] == e[k],
{
    assert(text.subrange(i, i + e.len())[k] == e[k]);
}

/// Unfold the escaped form of a non-empty string at its first character.
proof fn lemma_enc_chars_first(v: Seq<char>)
    requires
        v.len() > 0,
    ensures
        enc_chars(v) == esc_char(v[0]) + enc_chars(v.drop_first()),
    decreases v.len(),
{
    if v.len() == 1 {
        assert(v.drop_last() =~= Seq::<char>::empty());
        assert(v.drop_first() =~= Seq::<char>::empty());
        assert(enc_chars(v) =~= esc_char(v[0]) + enc_chars(v.drop_first()));
    } else {
        lemma_enc_chars_first(v.drop_last());
        assert(v.drop_last()[0] == v[0]);
        assert(v.drop_last().drop_first() =~= v.drop_first().drop_last());
        assert(v.drop_first().last() == v.last());
        assert(v.drop_first().len() > 0);
        assert(enc_chars(v) =~= esc_char(v[0]) + enc_chars(v.drop_first()));
    }
}

/// Encoding and reading back a hexadecimal digit is the identity.
proof fn lemma_hex_inverse(d: int)
    requires
        0 <= d < 16,
    ensures
        is_hex(hex_char(d)),
        hex_val(hex_char(d)) == d,
{
}

/// A control character survives the trip through its code point.
proof fn lemma_ctl_char_cast(c: char)
    requires
        (c as u32) < 32,
    ensures
        ((c as u32) as u8) as char == c,
{
}

/// Encoding and reading back a decimal digit is the identity.
proof fn lemma_digit_inverse(d: int)
    requires
        0 <= d < 10,
    ensures
        is_digit(digit_char(d)),
        digit_val(digit_char(d)) == d,
{
}

/// The parser reads back exactly the escaped characters the encoder wrote,
/// up to the closing quote.
proof fn lemma_rt_content(text: Seq<char>, i: int, v: Seq<char>)
    requires
        0 <= i,
        i + enc_chars(v).len() + 1 <= text.len(),
        text.subrange(i, i + enc_chars(v).len()) == enc_chars(v),
        text[i + enc_chars(v).len()] == '"',
    ensures
        p_str_content(text, i) == Option::Some((v, i + enc_chars(v).len() + 1)),
    decreases v.len(),
{
    if v.len() == 0 {
        assert(enc_chars(v).len() == 0);
        assert(text[i] == '"');
        assert(p_str_content(text, i) == Option::Some((Seq::<char>::empty(), i + 1)));
        assert(v =~= Seq::<char>::empty());
    } else {
        lemma_enc_chars_first(v);
        let e = esc_char(v[0]);
        let r = enc_chars(v.drop_first());
        assert(enc_chars(v).len() == e.len() + r.len());
        lemma_split_at(text, i, e, r);
        let i2 = i + e.len();
        assert(text[i2 + r.len()] == '"');
        let c = v[0];
        if c == '"' {
            assert(e == seq!['\\', '"']);
            lemma_index_of_subrange(text, i, e, 0);
            lemma_index_of_subrange(text, i, e, 1);
            assert(text[i] == '\\');
            assert(text[i + 1] == '"');
            lemma_rt_content(text, i + 2, v.drop_first());
            assert(seq![text[i + 1]] + v.drop_first() =~= v);
        } else if c == '\\' {
            assert(e == seq!['\\', '\\']);
            lemma_index_of_subrange(text, i, e, 0);
            lemma_index_of_subrange(text, i, e, 1);
            assert(text[i] == '\\');
            assert(text[i + 1] == '\\');
            lemma_rt_content(text, i + 2, v.drop_first());
            assert(seq![text[i + 1]] + v.drop_first() =~= v);
        } else if (c as u32) < 32 {
            let hi = c as u32 as int / 16;
            let lo = c as u32 as int % 16;
            assert(e == seq!['\\', 'u', '0', '0', hex_char(hi), hex_char(lo)]);
            lemma_index_of_subrange(text, i, e, 0);
            lemma_index_of_subrange(text, i, e, 1);
            lemma_index_of_subrange(text, i, e, 2);
            lemma_index_of_subrange(text, i, e, 3);
            lemma_index_of_subrange(text, i, e, 4);
            lemma_index_of_subrange(text, i, e, 5);
            assert(text[i] == '\\');
            assert(text[i + 1] == 'u');
            assert(text[i + 2] == '0');
            assert(text[i + 3] == '0');
            assert(text[i + 4] == hex_char(hi));
            assert(text[i + 5] == hex_char(lo));
            lemma_hex_inverse(hi);
            lemma_hex_inverse(lo);
            assert(hex_val(text[i + 4]) * 16 + hex_val(text[i + 5]) == c as u32);
            lemma_rt_content(text, i + 6, v.drop_first());
            lemma_ctl_char_cast(c);
            assert((((c as u32) as u8) as char) == c);
            assert(seq![((hex_val(text[i + 4]) * 16 + hex_val(text[i + 5])) as u8) as char]
                + v.drop_first() =~= v);
        } else {
            assert(e == seq![c]);
            lemma_index_of_subrange(text, i, e, 0);
            assert(text[i + 0] == e[0]);
            assert(text[i] == c);
            lemma_rt_content(text, i + 1, v.drop_first());
            assert(seq![text[i]] + v.drop_first() =~= v);
        }
    }
}

/// The parser reads back exactly the quoted string the encoder wrote.
proof fn lemma_rt_string(text: Seq<char>, i: int, v: Seq<char>)
    requires
        0 <= i,
        i + enc_string(v).len() <= text.len(),
        text.subrange(i, i + enc_string(v).len()) == enc_string(v),
    ensures
        p_string(text, i) == Option::Some((v, i + enc_string(v).len())),
{
    let e = enc_string(v);
    let n = enc_chars(v).len() as int;
    assert(e.len() == n + 2);
    lemma_index_of_subrange(text, i, e, 0);
    assert(e[0] == '"');
    assert(text[i + 0] == '"');
    assert(text[i] == '"');
    assert forall|k: int| 0 <= k < n implies #[trigger] text.subrange(i + 1, i + 1 + n)[k]
        == enc_chars(v)[k] by {
        assert(text.subrange(i, i + e.len())[1 + k] == e[1 + k]);
        assert(e[1 + k] == enc_chars(v)[k]);
    }
    assert(text.subrange(i + 1, i + 1 + n) =~= enc_chars(v));
    lemma_index_of_subrange(text, i, e, n + 1);
    assert(e[n + 1] == '"');
    assert(text[i + n + 1] == '"');
    lemma_rt_content(text, i + 1, v);
}

/// Every character the decimal encoder writes is a digit.
proof fn lemma_dec_digits_are_digits(n: int)
    requires
        n >= 0,
    ensures
        forall|k: int| 0 <= k < dec_digits(n).len() ==> is_digit(#[trigger] dec_digits(n)[k]),
        dec_digits(n).len() >= 1,
    decreases n,
{
    if n < 10 {
        lemma_digit_inverse(n);
    } else {
        lemma_dec_digits_are_digits(n / 10);
        lemma_digit_inverse(n % 10);
    }
}

/// Reading the digits of `n` back, most significant first, yields `n`.
proof fn lemma_val_of_dec_digits(n: int)
    requires
        n >= 0,
    ensures
        val_of_digits(dec_digits(n)) == n,
    decreases n,
{
    if n < 10 {
        lemma_digit_inverse(n);
        let ds = dec_digits(n);
        assert(ds == seq![digit_char(n)]);
        assert(ds.len() == 1);
        assert(ds.last() == digit_char(n));
        assert(ds.drop_last() =~= Seq::<char>::empty());
        assert(val_of_digits(Seq::<char>::empty()) == 0);
        assert(val_of_digits(ds) == 0 * 10 + digit_val(digit_char(n)));
        assert(digit_val(digit_char(n)) == n);
    } else {
        lemma_val_of_dec_digits(n / 10);
        lemma_digit_inverse(n % 10);
        let ds = dec_digits(n);
        assert(ds == dec_digits(n / 10) + seq![digit_char(n % 10)]);
        assert(ds.len() >= 1);
        assert(ds.drop_last() =~= dec_digits(n / 10));
        assert(ds.last() == digit_char(n % 10));
        assert(val_of_digits(ds) == val_of_digits(ds.drop_last()) * 10 + digit_val(ds.last()));
        assert(val_of_digits(ds) == (n / 10) * 10 + n % 10);
        assert(n == 10 * (n / 10) + n % 10);
    }
}

/// The parser reads back exactly the number the encoder wrote, when the next
/// character is not a digit.
proof fn lemma_rt_u32(text: Seq<char>, i: int, n: u32)
    requires
        0 <= i,
        i + enc_u32(n).len() <= text.len(),
        text.subrange(i, i + enc_u32(n).len()) == enc_u32(n),
        i + enc_u32(n).len() == text.len() || !is_digit(text[i + enc_u32(n).len()]),
    ensures
        p_u32(text, i) == Option::Some((n, i + enc_u32(n).len())),
{
    let e = enc_u32(n);
    let j = i + e.len();
    lemma_dec_digits_are_digits(n as int);
    assert forall|k: int| i <= k < j implies is_digit(text[k]) by {
        assert(text.subrange(i, j)[k - i] == e[k - i]);
    }
    crate::dec::lemma_digit_run(text, i, j);
    assert(text.subrange(i, j) == e);
    lemma_val_of_dec_digits(n as int);
    assert(val_of_digits(e) == n);
}

/// The parser reads back exactly the optional string the encoder wrote.
proof fn lemma_rt_opt_string(text: Seq<char>, i: int, o: Option<Seq<char>>)
    requires
        0 <= i,
        i + enc_opt_string(o).len() <= text.len(),
        text.subrange(i, i + enc_opt_string(o).len()) == enc_opt_string(o),
    ensures
        p_opt_string(text, i) == Option::Some((o, i + enc_opt_string(o).len())),
{
    let e = enc_opt_string(o);
    match o {
        Option::None => {
            reveal_strlit("null");
            assert(e == "null"@);
            assert(e.len() == 4);
            lemma_index_of_subrange(text, i, e, 0);
            assert(text[i + 0] == 'n');
            assert(text[i] == 'n');
        },
        Option::Some(v) => {
            assert(e == enc_string(v));
            lemma_index_of_subrange(text, i, e, 0);
            assert(e[0] == '"');
            assert(text[i + 0] == '"');
            assert(text[i] == '"');
            lemma_rt_string(text, i, v);
        },
    }
}

/// Unfold the encoded elements of a non-empty string array at the first element.
proof fn lemma_enc_str_items_first(l: Seq<Seq<char>>)
    requires
        l.len() >= 1,
    ensures
        enc_str_items(l) == enc_string(l[0]) + (if l.len() == 1 {
            Seq::<char>::empty()
        } else {
            seq![','] + enc_str_items(l.drop_first())
        }),
    decreases l.len(),
{
    if l.len() == 1 {
        assert(enc_str_items(l) =~= enc_string(l[0]) + Seq::<char>::empty());
    } else {
        lemma_enc_str_items_first(l.drop_last());
        assert(l.drop_last()[0] == l[0]);
        if l.len() == 2 {
            assert(l.drop_first().len() == 1);
            assert(l.drop_first()[0] == l.last());
            assert(enc_str_items(l) =~= enc_string(l[0]) + (seq![','] + enc_str_items(
                l.drop_first(),
            )));
        } else {
            assert(l.drop_last().drop_first() =~= l.drop_first().drop_last());
            assert(l.drop_first().last() == l.last());
            assert(l.drop_first().len() >= 2);
            assert(enc_str_items(l) =~= enc_string(l[0]) + (seq![','] + enc_str_items(
                l.drop_first(),
            )));
        }
    }
}

/// The parser reads back exactly the string elements the encoder wrote,
/// through the closing bracket.
proof fn lemma_rt_str_items(text: Seq<char>, i: int, l: Seq<Seq<char>>)
    requires
        l.len() >= 1,
        0 <= i,
        i + enc_str_items(l).len() + 1 <= text.len(),
        text.subrange(i, i + enc_str_items(l).len()) == enc_str_items(l),
        text[i + enc_str_items(l).len()] == ']',
    ensures
        p_str_items(text, i) == Option::Some((l, i + enc_str_items(l).len() + 1)),
    decreases l.len(),
{
    lemma_enc_str_items_first(l);
    let e0 = enc_string(l[0]);
    if l.len() == 1 {
        assert(enc_str_items(l) =~= e0);
        lemma_rt_string(text, i, l[0]);
        assert(text[i + e0.len()] == ']');
        assert(seq![l[0]] =~= l);
    } else {
        let rr = enc_str_items(l.drop_first());
        let r = seq![','] + rr;
        assert(enc_str_items(l) =~= e0 + r);
        assert(enc_str_items(l).len() == e0.len() + r.len());
        lemma_split_at(text, i, e0, r);
        lemma_rt_string(text, i, l[0]);
        let j = i + e0.len() as int;
        lemma_index_of_subrange(text, j, r, 0);
        assert(text[j + 0] == ',');
        assert(text[j] == ',');
        lemma_split_at(text, j, seq![','], rr);
        lemma_rt_str_items(text, j + 1, l.drop_first());
        assert(e0.len() >= 2);
        assert(seq![l[0]] + l.drop_first() =~= l);
    }
}

/// The parser reads back exactly the string array the encoder wrote.
proof fn lemma_rt_str_list(text: Seq<char>, i: int, l: Seq<Seq<char>>)
    requires
        0 <= i,
        i + enc_str_list(l).len() <= text.len(),
        text.subrange(i, i + enc_str_list(l).len()) == enc_str_list(l),
    ensures
        p_str_list(text, i) == Option::Some((l, i + enc_str_list(l).len())),
{
    let e = enc_str_list(l);
    let its = enc_str_items(l);
    assert(e.len() == its.len() + 2);
    lemma_index_of_subrange(text, i, e, 0);
    assert(e[0] == '[');
    assert(text[i + 0] == '[');
    assert(text[i] == '[');
    if l.len() == 0 {
        assert(its.len() == 0);
        lemma_index_of_subrange(text, i, e, 1);
        assert(e[1] == ']');
        assert(text[i + 1] == ']');
        assert(l =~= Seq::<Seq<char>>::empty());
    } else {
        assert forall|k: int| 0 <= k < its.len() implies #[trigger] text.subrange(
            i + 1,
            i + 1 + its.len(),
        )[k] == its[k] by {
            assert(text.subrange(i, i + e.len())[1 + k] == e[1 + k]);
            assert(e[1 + k] == its[k]);
        }
        assert(text.subrange(i + 1, i + 1 + its.len()) =~= its);
        lemma_index_of_subrange(text, i, e, its.len() as int + 1);
        assert(e[its.len() as int + 1] == ']');
        assert(text[i + its.len() + 1] == ']');
        lemma_enc_str_items_first(l);
        assert(its[0] == enc_string(l[0])[0]);
        assert(its[0] == '"');
        assert(text[i + 1] == its[0]) by {
            assert(text.subrange(i + 1, i + 1 + its.len())[0] == its[0]);
        }
        lemma_rt_str_items(text, i + 1, l);
    }
}

/// The parser reads back exactly the alliance object the encoder wrote.
proof fn lemma_rt_alliance(text: Seq<char>, i: int, a: AllianceV)
    requires
        0 <= i,
        i + enc_alliance(a).len() <= text.len(),
        text.subrange(i, i + enc_alliance(a).len()) == enc_alliance(a),
    ensures
        p_alliance(text, i) == Option::Some((a, i + enc_alliance(a).len())),
{
    let l1 = "{\"team_keys\":"@;
    let p1 = enc_str_list(a.team_keys);
    let l2 = seq!['}'];
    assert(enc_alliance(a) =~= l1 + (p1 + l2));
    lemma_split_at(text, i, l1, p1 + l2);
    let j = i + l1.len() as int;
    lemma_split_at(text, j, p1, l2);
    lemma_rt_str_list(text, j, a.team_keys);
    let k = j + p1.len() as int;
    reveal_strlit("}");
    assert("}"@ =~= seq!['}']);
    assert(text.subrange(k, k + 1) == "}"@);
}

/// The parser reads back exactly the alliance pair the encoder wrote.
proof fn lemma_rt_alliances(text: Seq<char>, i: int, a: AlliancesV)
    requires
        0 <= i,
        i + enc_alliances(a).len() <= text.len(),
        text.subrange(i, i + enc_alliances(a).len()) == enc_alliances(a),
    ensures
        p_alliances(text, i) == Option::Some((a, i + enc_alliances(a).len())),
{
    let l1 = "{\"red\":"@;
    let p1 = enc_alliance(a.red);
    let l2 = ",\"blue\":"@;
    let p2 = enc_alliance(a.blue);
    let l3 = seq!['}'];
    assert(enc_alliances(a) =~= l1 + (p1 + (l2 + (p2 + l3))));
    lemma_split_at(text, i, l1, p1 + (l2 + (p2 + l3)));
    let j = i + l1.len() as int;
    lemma_split_at(text, j, p1, l2 + (p2 + l3));
    lemma_rt_alliance(text, j, a.red);
    let k = j + p1.len() as int;
    lemma_split_at(text, k, l2, p2 + l3);
    let m = k + l2.len() as int;
    lemma_split_at(text, m, p2, l3);
    lemma_rt_alliance(text, m, a.blue);
    let e = m + p2.len() as int;
    reveal_strlit("}");
    assert("}"@ =~= seq!['}']);
    assert(text.subrange(e, e + 1) == "}"@);
}

/// The parser reads back exactly the team object the encoder wrote.
proof fn lemma_rt_team(text: Seq<char>, i: int, t: TbaTeamV)
    requires
        0 <= i,
        i + enc_team(t).len() <= text.len(),
        text.subrange(i, i + enc_team(t).len()) == enc_team(t),
    ensures
        p_team(text, i) == Option::Some((t, i + enc_team(t).len())),
{
    let l1 = "{\"key\":"@;
    let p1 = enc_string(t.key);
    let l2 = ",\"team_number\":"@;
    let p2 = enc_u32(t.team_number);
    let l3 = ",\"nickname\":"@;
    let p3 = enc_opt_string(t.nickname);
    let l4 = seq!['}'];
    assert(enc_team(t) =~= l1 + (p1 + (l2 + (p2 + (l3 + (p3 + l4))))));
    lemma_split_at(text, i, l1, p1 + (l2 + (p2 + (l3 + (p3 + l4)))));
    let j = i + l1.len() as int;
    lemma_split_at(text, j, p1, l2 + (p2 + (l3 + (p3 + l4))));
    lemma_rt_string(text, j, t.key);
    let k = j + p1.len() as int;
    lemma_split_at(text, k, l2, p2 + (l3 + (p3 + l4)));
    let m = k + l2.len() as int;
    lemma_split_at(text, m, p2, l3 + (p3 + l4));
    let q = m + p2.len() as int;
    reveal_strlit(",\"nickname\":");
    lemma_index_of_subrange(text, q, l3 + (p3 + l4), 0);
    assert((l3 + (p3 + l4))[0] == ',');
    assert(text[q + 0] == ',');
    assert(text[q] == ',');
    assert(!is_digit(','));
    lemma_rt_u32(text, m, t.team_number);
    lemma_split_at(text, q, l3, p3 + l4);
    let u = q + l3.len() as int;
    lemma_split_at(text, u, p3, l4);
    lemma_rt_opt_string(text, u, t.nickname);
    let e = u + p3.len() as int;
    reveal_strlit("}");
    assert("}"@ =~= seq!['}']);
    assert(text.subrange(e, e + 1) == "}"@);
}

/// The parser reads back exactly the match object the encoder wrote.
proof fn lemma_rt_match(text: Seq<char>, i: int, m: TbaMatchV)
    requires
        0 <= i,
        i + enc_match(m).len() <= text.len(),
        text.subrange(i, i + enc_match(m).len()) == enc_match(m),
    ensures
        p_match(text, i) == Option::Some((m, i + enc_match(m).len())),
{
    let l1 = "{\"key\":"@;
    let p1 = enc_string(m.key);
    let l2 = ",\"comp_level\":"@;
    let p2 = enc_string(m.comp_level);
    let l3 = ",\"match_number\":"@;
    let p3 = enc_u32(m.match_number);
    let l4 = ",\"alliances\":"@;
    let p4 = enc_alliances(m.alliances);
    let l5 = seq!['}'];
    assert(enc_match(m) =~= l1 + (p1 + (l2 + (p2 + (l3 + (p3 + (l4 + (p4 + l5))))))));
    lemma_split_at(text, i, l1, p1 + (l2 + (p2 + (l3 + (p3 + (l4 + (p4 + l5)))))));
    let j = i + l1.len() as int;
    lemma_split_at(text, j, p1, l2 + (p2 + (l3 + (p3 + (l4 + (p4 + l5))))));
    lemma_rt_string(text, j, m.key);
    let k = j + p1.len() as int;
    lemma_split_at(text, k, l2, p2 + (l3 + (p3 + (l4 + (p4 + l5)))));
    let q = k + l2.len() as int;
    lemma_split_at(text, q, p2, l3 + (p3 + (l4 + (p4 + l5))));
    lemma_rt_string(text, q, m.comp_level);
    let u = q + p2.len() as int;
    lemma_split_at(text, u, l3, p3 + (l4 + (p4 + l5)));
    let w = u + l3.len() as int;
    lemma_split_at(text, w, p3, l4 + (p4 + l5));
    let x = w + p3.len() as int;
    reveal_strlit(",\"alliances\":");
    lemma_index_of_subrange(text, x, l4 + (p4 + l5), 0);
    assert((l4 + (p4 + l5))[0] == ',');
    assert(text[x + 0] == ',');
    assert(text[x] == ',');
    assert(!is_digit(','));
    lemma_rt_u32(text, w, m.match_number);
    lemma_split_at(text, x, l4, p4 + l5);
    let y = x + l4.len() as int;
    lemma_split_at(text, y, p4, l5);
    lemma_rt_alliances(text, y, m.alliances);
    let e = y + p4.len() as int;
    reveal_strlit("}");
    assert("}"@ =~= seq!['}']);
    assert(text.subrange(e, e + 1) == "}"@);
}

/// Unfold the encoded elements of a non-empty team array at the first element.
proof fn lemma_enc_team_items_first(l: Seq<TbaTeamV>)
    requires
        l.len() >= 1,
    ensures
        enc_team_items(l) == enc_team(l[0]) + (if l.len() == 1 {
            Seq::<char>::empty()
        } else {
            seq![','] + enc_team_items(l.drop_first())
        }),
    decreases l.len(),
{
    if l.len() == 1 {
        assert(enc_team_items(l) =~= enc_team(l[0]) + Seq::<char>::empty());
    } else {
        lemma_enc_team_items_first(l.drop_last());
        assert(l.drop_last()[0] == l[0]);
        if l.len() == 2 {
            assert(l.drop_first().len() == 1);
            assert(l.drop_first()[0] == l.last());
            assert(enc_team_items(l) =~= enc_team(l[0]) + (seq![','] + enc_team_items(
                l.drop_first(),
            )));
        } else {
            assert(l.drop_last().drop_first() =~= l.drop_first().drop_last());
            assert(l.drop_first().last() == l.last());
            assert(l.drop_first().len() >= 2);
            assert(enc_team_items(l) =~= enc_team(l[0]) + (seq![','] + enc_team_items(
                l.drop_first(),
            )));
        }
    }
}

/// The parser reads back exactly the team elements the encoder wrote,
/// through the closing bracket.
proof fn lemma_rt_team_items(text: Seq<char>, i: int, l: Seq<TbaTeamV>)
    requires
        l.len() >= 1,
        0 <= i,
        i + enc_team_items(l).len() + 1 <= text.len(),
        text.subrange(i, i + enc_team_items(l).len()) == enc_team_items(l),
        text[i + enc_team_items(l).len()] == ']',
    ensures
        p_team_items(text, i) == Option::Some((l, i + enc_team_items(l).len() + 1)),
    decreases l.len(),
{
    lemma_enc_team_items_first(l);
    let e0 = enc_team(l[0]);
    if l.len() == 1 {
        assert(enc_team_items(l) =~= e0);
        lemma_rt_team(text, i, l[0]);
        assert(text[i + e0.len()] == ']');
        assert(seq![l[0]] =~= l);
    } else {
        let rr = enc_team_items(l.drop_first());
        let r = seq![','] + rr;
        assert(enc_team_items(l) =~= e0 + r);
        assert(enc_team_items(l).len() == e0.len() + r.len());
        lemma_split_at(text, i, e0, r);
        lemma_rt_team(text, i, l[0]);
        let j = i + e0.len() as int;
        lemma_index_of_subrange(text, j, r, 0);
        assert(text[j + 0] == ',');
        assert(text[j] == ',');
        lemma_split_at(text, j, seq![','], rr);
        lemma_rt_team_items(text, j + 1, l.drop_first());
        assert(e0.len() >= 2);
        assert(seq![l[0]] + l.drop_first() =~= l);
    }
}

/// The parser reads back exactly the team array the encoder wrote.
proof fn lemma_rt_team_list(text: Seq<char>, i: int, l: Seq<TbaTeamV>)
    requires
        0 <= i,
        i + enc_team_list(l).len() <= text.len(),
        text.subrange(i, i + enc_team_list(l).len()) == enc_team_list(l),
    ensures
        p_team_list(text, i) == Option::Some((l, i + enc_team_list(l).len())),
{
    let e = enc_team_list(l);
    let its = enc_team_items(l);
    assert(e.len() == its.len() + 2);
    lemma_index_of_subrange(text, i, e, 0);
    assert(e[0] == '[');
    assert(text[i + 0] == '[');
    assert(text[i] == '[');
    if l.len() == 0 {
        assert(its.len() == 0);
        lemma_index_of_subrange(text, i, e, 1);
        assert(e[1] == ']');
        assert(text[i + 1] == ']');
        assert(l =~= Seq::<TbaTeamV>::empty());
    } else {
        assert forall|k: int| 0 <= k < its.len() implies #[trigger] text.subrange(
            i + 1,
            i + 1 + its.len(),
        )[k] == its[k] by {
            assert(text.subrange(i, i + e.len())[1 + k] == e[1 + k]);
            assert(e[1 + k] == its[k]);
        }
        assert(text.subrange(i + 1, i + 1 + its.len()) =~= its);
        lemma_index_of_subrange(text, i, e, its.len() as int + 1);
        assert(e[its.len() as int + 1] == ']');
        assert(text[i + its.len() + 1] == ']');
        lemma_enc_team_items_first(l);
        reveal_strlit("{\"key\":");
        assert(its[0] == enc_team(l[0])[0]);
        assert(enc_team(l[0])[0] == "{\"key\":"@[0]);
        assert(its[0] == '{');
        assert(text[i + 1] == its[0]) by {
            assert(text.subrange(i + 1, i + 1 + its.len())[0] == its[0]);
        }
        lemma_rt_team_items(text, i + 1, l);
    }
}

/// Unfold the encoded elements of a non-empty match array at the first element.
proof fn lemma_enc_match_items_first(l: Seq<TbaMatchV>)
    requires
        l.len() >= 1,
    ensures
        enc_match_items(l) == enc_match(l[0]) + (if l.len() == 1 {
            Seq::<char>::empty()
        } else {
            seq![','] + enc_match_items(l.drop_first())
        }),
    decreases l.len(),
{
    if l.len() == 1 {
        assert(enc_match_items(l) =~= enc_match(l[0]) + Seq::<char>::empty());
    } else {
        lemma_enc_match_items_first(l.drop_last());
        assert(l.drop_last()[0] == l[0]);
        if l.len() == 2 {
            assert(l.drop_first().len() == 1);
            assert(l.drop_first()[0] == l.last());
            assert(enc_match_items(l) =~= enc_match(l[0]) + (seq![','] + enc_match_items(
                l.drop_first(),
            )));
        } else {
            assert(l.drop_last().drop_first() =~= l.drop_first().drop_last());
            assert(l.drop_first().last() == l.last());
            assert(l.drop_first().len() >= 2);
            assert(enc_match_items(l) =~= enc_match(l[0]) + (seq![','] + enc_match_items(
                l.drop_first(),
            )));
        }
    }
}

/// The parser reads back exactly the match elements the encoder wrote,
/// through the closing bracket.
proof fn lemma_rt_match_items(text: Seq<char>, i: int, l: Seq<TbaMatchV>)
    requires
        l.len() >= 1,
        0 <= i,
        i + enc_match_items(l).len() + 1 <= text.len(),
        text.subrange(i, i + enc_match_items(l).len()) == enc_match_items(l),
        text[i + enc_match_items(l).len()] == ']',
    ensures
        p_match_items(text, i) == Option::Some((l, i + enc_match_items(l).len() + 1)),
    decreases l.len(),
{
    lemma_enc_match_items_first(l);
    let e0 = enc_match(l[0]);
    if l.len() == 1 {
        assert(enc_match_items(l) =~= e0);
        lemma_rt_match(text, i, l[0]);
        assert(text[i + e0.len()] == ']');
        assert(seq![l[0]] =~= l);
    } else {
        let rr = enc_match_items(l.drop_first());
        let r = seq![','] + rr;
        assert(enc_match_items(l) =~= e0 + r);
        assert(enc_match_items(l).len() == e0.len() + r.len());
        lemma_split_at(text, i, e0, r);
        lemma_rt_match(text, i, l[0]);
        let j = i + e0.len() as int;
        lemma_index_of_subrange(text, j, r, 0);
        assert(text[j + 0] == ',');
        assert(text[j] == ',');
        lemma_split_at(text, j, seq![','], rr);
        lemma_rt_match_items(text, j + 1, l.drop_first());
        assert(e0.len() >= 2);
        assert(seq![l[0]] + l.drop_first() =~= l);
    }
}

/// The parser reads back exactly the match array the encoder wrote.
proof fn lemma_rt_match_list(text: Seq<char>, i: int, l: Seq<TbaMatchV>)
    requires
        0 <= i,
        i + enc_match_list(l).len() <= text.len(),
        text.subrange(i, i + enc_match_list(l).len()) == enc_match_list(l),
    ensures
        p_match_list(text, i) == Option::Some((l, i + enc_match_list(l).len())),
{
    let e = enc_match_list(l);
    let its = enc_match_items(l);
    assert(e.len() == its.len() + 2);
    lemma_index_of_subrange(text, i, e, 0);
    assert(e[0] == '[');
    assert(text[i + 0] == '[');
    assert(text[i] == '[');
    if l.len() == 0 {
        assert(its.len() == 0);
        lemma_index_of_subrange(text, i, e, 1);
        assert(e[1] == ']');
        assert(text[i + 1] == ']');
        assert(l =~= Seq::<TbaMatchV>::empty());
    } else {
        assert forall|k: int| 0 <= k < its.len() implies #[trigger] text.subrange(
            i + 1,
            i + 1 + its.len(),
        )[k] == its[k] by {
            assert(text.subrange(i, i + e.len())[1 + k] == e[1 + k]);
            assert(e[1 + k] == its[k]);
        }
        assert(text.subrange(i + 1, i + 1 + its.len()) =~= its);
        lemma_index_of_subrange(text, i, e, its.len() as int + 1);
        assert(e[its.len() as int + 1] == ']');
        assert(text[i + its.len() + 1] == ']');
        lemma_enc_match_items_first(l);
        reveal_strlit("{\"key\":");
        assert(its[0] == enc_match(l[0])[0]);
        assert(enc_match(l[0])[0] == "{\"key\":"@[0]);
        assert(its[0] == '{');
        assert(text[i + 1] == its[0]) by {
            assert(text.subrange(i + 1, i + 1 + its.len())[0] == its[0]);
        }
        lemma_rt_match_items(text, i + 1, l);
    }
}

/// The parser reads back exactly the snapshot document the encoder wrote.
#[verifier::rlimit(60)]
proof fn lemma_rt_snapshot(text: Seq<char>, i: int, d: EventDataV)
    requires
        0 <= i,
        i + enc_snapshot(d).len() <= text.len(),
        text.subrange(i, i + enc_snapshot(d).len()) == enc_snapshot(d),
    ensures
        p_snapshot(text, i) == Option::Some((d, i + enc_snapshot(d).len())),
{
    let l1 = "{\"matches\":"@;
    let p1 = enc_match_list(d.matches);
    let l2 = ",\"teams\":"@;
    let p2 = enc_team_list(d.teams);
    let l3 = ",\"team_keys\":"@;
    let p3 = enc_str_list(d.team_keys);
    let l4 = seq!['}'];
    assert(enc_snapshot(d) =~= l1 + (p1 + (l2 + (p2 + (l3 + (p3 + l4))))));
    lemma_split_at(text, i, l1, p1 + (l2 + (p2 + (l3 + (p3 + l4)))));
    let j = i + l1.len() as int;
    lemma_split_at(text, j, p1, l2 + (p2 + (l3 + (p3 + l4))));
    lemma_rt_match_list(text, j, d.matches);
    let k = j + p1.len() as int;
    lemma_split_at(text, k, l2, p2 + (l3 + (p3 + l4)));
    let m = k + l2.len() as int;
    lemma_split_at(text, m, p2, l3 + (p3 + l4));
    lemma_rt_team_list(text, m, d.teams);
    let q = m + p2.len() as int;
    lemma_split_at(text, q, l3, p3 + l4);
    let u = q + l3.len() as int;
    lemma_split_at(text, u, p3, l4);
    lemma_rt_str_list(text, u, d.team_keys);
    let e = u + p3.len() as int;
    reveal_strlit("}");
    assert("}"@ =~= seq!['}']);
    assert(text.subrange(e, e + 1) == "}"@);
}

/// Round trip: decoding a canonically encoded snapshot always yields that
/// snapshot back, for every snapshot value.
pub proof fn lemma_snapshot_round_trip(d: EventDataV)
    ensures
        spec_decode_snapshot(enc_snapshot(d)) == Option::Some(d),
{
    let text = enc_snapshot(d);
    assert(text.subrange(0, text.len() as int) =~= text);
    lemma_rt_snapshot(text, 0, d);
}

} // verus!
