//! The persisted wire format: the collection as a pretty-printed JSON
//! array, defined character by character, with a verified encoder, a
//! specification-level parser, and the round-trip law between them.

use vstd::prelude::*;

use crate::model::{Pokemon, PokemonType, PokemonView};

verus! {

// ---------------------------------------------------------------------
// Encoding, in specification
// ---------------------------------------------------------------------

/// The decimal digit character for a value in [0, 9].
pub open spec fn dec_digit(v: int) -> char {
    if v == 0 {
        '0'
    } else if v == 1 {
        '1'
    } else if v == 2 {
        '2'
    } else if v == 3 {
        '3'
    } else if v == 4 {
        '4'
    } else if v == 5 {
        '5'
    } else if v == 6 {
        '6'
    } else if v == 7 {
        '7'
    } else if v == 8 {
        '8'
    } else {
        '9'
    }
}

/// The lowercase hexadecimal digit character for a value in [0, 15].
pub open spec fn hex_digit(v: int) -> char {
    if v < 10 {
        dec_digit(v)
    } else if v == 10 {
        'a'
    } else if v == 11 {
        'b'
    } else if v == 12 {
        'c'
    } else if v == 13 {
        'd'
    } else if v == 14 {
        'e'
    } else {
        'f'
    }
}

/// The decimal digits of `n`, most significant first, no leading zeros
/// (a single `'0'` for zero).
pub open spec fn dec_of(n: nat) -> Seq<char>
    decreases n,
{
    if n < 10 {
        seq![dec_digit(n as int)]
    } else {
        dec_of(n / 10).push(dec_digit((n % 10) as int))
    }
}

/// How one character appears inside a JSON string: itself when plain,
/// backslash-escaped for the quote and the backslash, and as a `\u00XX`
/// escape for control characters.
pub open spec fn esc_char(c: char) -> Seq<char> {
    if c == '"' {
        seq!['\\', '"']
    } else if c == '\\' {
        seq!['\\', '\\']
    } else if (c as u32) < 32 {
        let hi = hex_digit(((c as u32) / 16) as int);
        let lo = hex_digit(((c as u32) % 16) as int);
        seq!['\\', 'u', '0', '0', hi, lo]
    } else {
        seq![c]
    }
}

/// A character sequence escaped for a JSON string body.
pub open spec fn esc(s: Seq<char>) -> Seq<char>
    decreases s.len(),
{
    if s.len() == 0 {
        Seq::empty()
    } else {
        esc_char(s[0]) + esc(s.drop_first())
    }
}

/// A JSON string: quoted, escaped text.
pub open spec fn jstr(s: Seq<char>) -> Seq<char> {
    seq!['"'] + esc(s) + seq!['"']
}

/// The tag the wire format uses for each species; the `Phantom` variant is
/// written with its traditional tag.
pub open spec fn tag_of(t: PokemonType) -> Seq<char> {
    match t {
        PokemonType::Normal => "Normal"@,
        PokemonType::Fire => "Fire"@,
        PokemonType::Water => "Water"@,
        PokemonType::Electric => "Electric"@,
        PokemonType::Grass => "Grass"@,
        PokemonType::Ice => "Ice"@,
        PokemonType::Fighting => "Fighting"@,
        PokemonType::Poison => "Poison"@,
        PokemonType::Ground => "Ground"@,
        PokemonType::Flying => "Flying"@,
        PokemonType::Psychic => "Psychic"@,
        PokemonType::Bug => "Bug"@,
        PokemonType::Rock => "Rock"@,
        PokemonType::Phantom => "Ghost"@,
        PokemonType::Dragon => "Dragon"@,
    }
}

/// One record as a pretty-printed JSON object, its fields in fixed order,
/// indented for a two-space array level.
pub open spec fn enc_record(p: PokemonView) -> Seq<char> {
    "{\n    \"id\": "@ + dec_of(p.id as nat) + ",\n    \"name\": "@ + jstr(p.name)
        + ",\n    \"types\": \""@ + tag_of(p.types) + "\""@ + ",\n    \"attack\": "@ + dec_of(
        p.attack as nat,
    ) + ",\n    \"defense\": "@ + dec_of(p.defense as nat) + ",\n    \"health\": "@ + dec_of(
        p.health as nat,
    ) + ",\n    \"birthday\": "@ + jstr(p.birthday) + "\n  }"@
}

/// A non-empty run of records, comma-separated at the array level.
/// Meaningful only when `s` is non-empty.
pub open spec fn enc_records(s: Seq<PokemonView>) -> Seq<char>
    decreases s.len(),
{
    if s.len() <= 1 {
        enc_record(s[0])
    } else {
        enc_record(s[0]) + ",\n  "@ + enc_records(s.drop_first())
    }
}

/// The whole collection as a pretty-printed JSON array: exactly the text
/// the store persists.
pub open spec fn spec_encode(s: Seq<PokemonView>) -> Seq<char> {
    if s.len() == 0 {
        "[]"@
    } else {
        "[\n  "@ + enc_records(s) + "\n]"@
    }
}

// ---------------------------------------------------------------------
// The encoder
// ---------------------------------------------------------------------

/// Appends the characters of `s` to `out`.
fn push_lit(out: &mut Vec<char>, s: &str)
    ensures
        final(out)@ == old(out)@ + s@,
{
    let n = s.unicode_len();
    let mut j: usize = 0;
    while j < n
        invariant
            n == s@.len(),
            j <= n,
            out@ == old(out)@ + s@.take(j as int),
        decreases n - j,
    {
        out.push(s.get_char(j));
        proof {
            assert(out@ =~= old(out)@ + s@.take(j as int + 1));
        }
        j += 1;
    }
    proof {
        assert(old(out)@ + s@.take(n as int) =~= old(out)@ + s@);
    }
}

/// The decimal digit character for `v`.
fn dec_digit_char(v: u8) -> (c: char)
    requires
        v < 10,
    ensures
        c == dec_digit(v as int),
{
    match v {
        0 => '0',
        1 => '1',
        2 => '2',
        3 => '3',
        4 => '4',
        5 => '5',
        6 => '6',
        7 => '7',
        8 => '8',
        _ => '9',
    }
}

/// The lowercase hexadecimal digit character for `v`.
fn hex_digit_char(v: u8) -> (c: char)
    requires
        v < 16,
    ensures
        c == hex_digit(v as int),
{
    if v < 10 {
        dec_digit_char(v)
    } else {
        match v {
            10 => 'a',
            11 => 'b',
            12 => 'c',
            13 => 'd',
            14 => 'e',
            _ => 'f',
        }
    }
}

/// Appends the decimal digits of `n` to `out`.
fn push_dec(out: &mut Vec<char>, n: u64)
    ensures
        final(out)@ == old(out)@ + dec_of(n as nat),
    decreases n,
{
    if n >= 10 {
        push_dec(out, n / 10);
    }
    let d = dec_digit_char((n % 10) as u8);
    out.push(d);
    proof {
        if n < 10 {
            assert(out@ =~= old(out)@ + dec_of(n as nat));
        } else {
            assert(out@ =~= old(out)@ + dec_of(n as nat));
        }
    }
}

/// `esc` distributes over concatenation.
pub proof fn lemma_esc_append(a: Seq<char>, b: Seq<char>)
    ensures
        esc(a + b) == esc(a) + esc(b),
    decreases a.len(),
{
    if a.len() == 0 {
        assert(a + b =~= b);
        assert(esc(a) + esc(b) =~= esc(b));
    } else {
        assert((a + b).drop_first() =~= a.drop_first() + b);
        lemma_esc_append(a.drop_first(), b);
        assert(esc(a + b) =~= esc(a) + esc(b));
    }
}

/// `esc` of a single character is that character's escape.
pub proof fn lemma_esc_singleton(c: char)
    ensures
        esc(seq![c]) == esc_char(c),
{
    assert(seq![c].drop_first() =~= Seq::<char>::empty());
    assert(esc(Seq::<char>::empty()) == Seq::<char>::empty());
    assert(esc(seq![c]) =~= esc_char(c));
}

/// Appends the escaped form of one character to `out`.
fn push_esc_char(out: &mut Vec<char>, c: char)
    ensures
        final(out)@ == old(out)@ + esc_char(c),
{
    if c == '"' {
        out.push('\\');
        out.push('"');
    } else if c == '\\' {
        out.push('\\');
        out.push('\\');
    } else if (c as u32) < 32 {
        let v = c as u32;
        out.push('\\');
        out.push('u');
        out.push('0');
        out.push('0');
        out.push(hex_digit_char((v / 16) as u8));
        out.push(hex_digit_char((v % 16) as u8));
    } else {
        out.push(c);
    }
    proof {
        assert(out@ =~= old(out)@ + esc_char(c));
    }
}

/// Appends `s` as a JSON string, quotes and escapes included, to `out`.
fn push_jstr(out: &mut Vec<char>, s: &str)
    ensures
        final(out)@ == old(out)@ + jstr(s@),
{
    out.push('"');
    let n = s.unicode_len();
    let mut j: usize = 0;
    while j < n
        invariant
            n == s@.len(),
            j <= n,
            out@ == old(out)@ + seq!['"'] + esc(s@.take(j as int)),
        decreases n - j,
    {
        let ghost done = s@.take(j as int);
        push_esc_char(out, s.get_char(j));
        proof {
            assert(s@.take(j as int + 1) =~= done + seq![s@[j as int]]);
            lemma_esc_append(done, seq![s@[j as int]]);
            lemma_esc_singleton(s@[j as int]);
            assert(out@ =~= old(out)@ + seq!['"'] + esc(s@.take(j as int + 1)));
        }
        j += 1;
    }
    out.push('"');
    proof {
        assert(s@.take(n as int) =~= s@);
        assert(out@ =~= old(out)@ + jstr(s@));
    }
}

/// The `&str` literal carrying the wire tag of `t`.
fn tag_lit(t: PokemonType) -> (r: &'static str)
    ensures
        r@ == tag_of(t),
{
    match t {
        PokemonType::Normal => "Normal",
        PokemonType::Fire => "Fire",
        PokemonType::Water => "Water",
        PokemonType::Electric => "Electric",
        PokemonType::Grass => "Grass",
        PokemonType::Ice => "Ice",
        PokemonType::Fighting => "Fighting",
        PokemonType::Poison => "Poison",
        PokemonType::Ground => "Ground",
        PokemonType::Flying => "Flying",
        PokemonType::Psychic => "Psychic",
        PokemonType::Bug => "Bug",
        PokemonType::Rock => "Rock",
        PokemonType::Phantom => "Ghost",
        PokemonType::Dragon => "Dragon",
    }
}

/// Appends one record, in the exact shape `enc_record` gives, to `out`.
#[verifier::rlimit(50)]
fn push_record(out: &mut Vec<char>, p: &Pokemon)
    ensures
        final(out)@ == old(out)@ + enc_record(p@),
{
    push_lit(out, "{\n    \"id\": ");
    push_dec(out, p.id);
    push_lit(out, ",\n    \"name\": ");
    push_jstr(out, p.name.as_str());
    push_lit(out, ",\n    \"types\": \"");
    push_lit(out, tag_lit(p.types));
    push_lit(out, "\"");
    push_lit(out, ",\n    \"attack\": ");
    push_dec(out, p.attack as u64);
    push_lit(out, ",\n    \"defense\": ");
    push_dec(out, p.defense as u64);
    push_lit(out, ",\n    \"health\": ");
    push_dec(out, p.health as u64);
    push_lit(out, ",\n    \"birthday\": ");
    push_jstr(out, p.birthday.as_str());
    push_lit(out, "\n  }");
    proof {
        assert(out@ =~= old(out)@ + enc_record(p@));
    }
}

/// `enc_records` grows by a separator and one record when a record is
/// appended to a non-empty run.
pub proof fn lemma_enc_records_snoc(s: Seq<PokemonView>, p: PokemonView)
    requires
        s.len() >= 1,
    ensures
        enc_records(s.push(p)) == enc_records(s) + ",\n  "@ + enc_record(p),
    decreases s.len(),
{
    if s.len() == 1 {
        assert(s.push(p).drop_first() =~= seq![p]);
        assert(enc_records(seq![p]) == enc_record(p));
    } else {
        assert(s.push(p).drop_first() =~= s.drop_first().push(p));
        lemma_enc_records_snoc(s.drop_first(), p);
    }
}

/// Encodes the collection to the exact text `spec_encode` describes: the
/// pretty-printed JSON array the store persists.
pub fn encode(records: &Vec<Pokemon>) -> (r: Vec<char>)
    ensures
        r@ == spec_encode(records.deep_view()),
{
    let ghost dv = records.deep_view();
    let mut out: Vec<char> = Vec::new();
    let n = records.len();
    if n == 0 {
        push_lit(&mut out, "[]");
        proof {
            assert(out@ =~= spec_encode(dv));
        }
        return out;
    }
    push_lit(&mut out, "[\n  ");
    let mut j: usize = 0;
    while j < n
        invariant
            1 <= n == records@.len(),
            n == dv.len(),
            dv == records.deep_view(),
            j <= n,
            j == 0 ==> out@ == Seq::<char>::empty() + "[\n  "@,
            j >= 1 ==> out@ == Seq::<char>::empty() + "[\n  "@ + enc_records(dv.take(j as int)),
        decreases n - j,
    {
        if j > 0 {
            push_lit(&mut out, ",\n  ");
        }
        push_record(&mut out, &records[j]);
        proof {
            assert(records[j as int]@ == dv[j as int]);
            if j == 0 {
                assert(dv.take(1) =~= seq![dv[0]]);
                assert(enc_records(seq![dv[0]]) == enc_record(dv[0]));
                assert(out@ =~= Seq::<char>::empty() + "[\n  "@ + enc_records(dv.take(1)));
            } else {
                assert(dv.take(j as int + 1) =~= dv.take(j as int).push(dv[j as int]));
                lemma_enc_records_snoc(dv.take(j as int), dv[j as int]);
                assert(out@ =~= Seq::<char>::empty() + "[\n  "@ + enc_records(
                    dv.take(j as int + 1),
                ));
            }
        }
        j += 1;
    }
    push_lit(&mut out, "\n]");
    proof {
        assert(dv.take(n as int) =~= dv);
        assert(out@ =~= spec_encode(dv));
    }
    out
}


// ---------------------------------------------------------------------
// Decoding, in specification
// ---------------------------------------------------------------------

/// The value of a decimal digit character, 10 for any other character.
pub open spec fn dec_val(c: char) -> int {
    if c == '0' {
        0
    } else if c == '1' {
        1
    } else if c == '2' {
        2
    } else if c == '3' {
        3
    } else if c == '4' {
        4
    } else if c == '5' {
        5
    } else if c == '6' {
        6
    } else if c == '7' {
        7
    } else if c == '8' {
        8
    } else if c == '9' {
        9
    } else {
        10
    }
}

/// True of a decimal digit character.
pub open spec fn is_dec(c: char) -> bool {
    dec_val(c) < 10
}

/// The value of a lowercase hexadecimal digit character, 16 for any other
/// character.
pub open spec fn hex_val(c: char) -> int {
    if dec_val(c) < 10 {
        dec_val(c)
    } else if c == 'a' {
        10
    } else if c == 'b' {
        11
    } else if c == 'c' {
        12
    } else if c == 'd' {
        13
    } else if c == 'e' {
        14
    } else if c == 'f' {
        15
    } else {
        16
    }
}

/// Consumes the exact text `lit` from the front of `t`, or fails.
pub open spec fn strip_lit(t: Seq<char>, lit: Seq<char>) -> Option<Seq<char>> {
    if lit.len() <= t.len() && t.take(lit.len() as int) == lit {
        Some(t.skip(lit.len() as int))
    } else {
        None
    }
}

/// A run of decimal digits folded into a value, most significant first.
pub open spec fn dec_run(t: Seq<char>, acc: nat) -> (nat, Seq<char>)
    decreases t.len(),
{
    if t.len() > 0 && is_dec(t[0]) {
        dec_run(t.drop_first(), acc * 10 + dec_val(t[0]) as nat)
    } else {
        (acc, t)
    }
}

/// A decimal number: at least one digit, read greedily.
pub open spec fn parse_dec(t: Seq<char>) -> Option<(nat, Seq<char>)> {
    if t.len() > 0 && is_dec(t[0]) {
        Some(dec_run(t, 0))
    } else {
        None
    }
}

/// The body of a JSON string after the opening quote: literal characters,
/// the two backslash escapes, and `\uXXXX` escapes, up to the closing
/// quote.
pub open spec fn parse_jstr_body(t: Seq<char>) -> Option<(Seq<char>, Seq<char>)>
    decreases t.len(),
{
    if t.len() == 0 {
        None
    } else if t[0] == '"' {
        Some((Seq::empty(), t.drop_first()))
    } else if t[0] == '\\' {
        if t.len() < 2 {
            None
        } else if t[1] == '"' || t[1] == '\\' {
            match parse_jstr_body(t.skip(2)) {
                Some(p) => Some((seq![t[1]] + p.0, p.1)),
                None => None,
            }
        } else if t[1] == 'u' {
            if t.len() < 6 {
                None
            } else {
                let v = ((hex_val(t[2]) * 16 + hex_val(t[3])) * 16 + hex_val(t[4])) * 16 + hex_val(
                    t[5],
                );
                if hex_val(t[2]) < 16 && hex_val(t[3]) < 16 && hex_val(t[4]) < 16 && hex_val(t[5])
                    < 16 && v < 0xd800 {
                    match parse_jstr_body(t.skip(6)) {
                        Some(p) => Some((seq![(v as u32) as char] + p.0, p.1)),
                        None => None,
                    }
                } else {
                    None
                }
            }
        } else {
            None
        }
    } else {
        match parse_jstr_body(t.drop_first()) {
            Some(p) => Some((seq![t[0]] + p.0, p.1)),
            None => None,
        }
    }
}

/// A whole JSON string, opening quote included.
pub open spec fn parse_jstr(t: Seq<char>) -> Option<(Seq<char>, Seq<char>)> {
    match strip_lit(t, "\""@) {
        Some(r) => parse_jstr_body(r),
        None => None,
    }
}

/// One attempt at reading the tag of `tp`, closing quote included.
pub open spec fn tag_try(t: Seq<char>, tp: PokemonType) -> Option<(PokemonType, Seq<char>)> {
    match strip_lit(t, tag_of(tp) + "\""@) {
        Some(r) => Some((tp, r)),
        None => None,
    }
}

/// A species tag followed by its closing quote. The first characters pick
/// the only candidate; the whole tag is still checked.
pub open spec fn parse_tag(t: Seq<char>) -> Option<(PokemonType, Seq<char>)> {
    if t.len() == 0 {
        None
    } else if t[0] == 'N' {
        tag_try(t, PokemonType::Normal)
    } else if t[0] == 'W' {
        tag_try(t, PokemonType::Water)
    } else if t[0] == 'E' {
        tag_try(t, PokemonType::Electric)
    } else if t[0] == 'I' {
        tag_try(t, PokemonType::Ice)
    } else if t[0] == 'B' {
        tag_try(t, PokemonType::Bug)
    } else if t[0] == 'R' {
        tag_try(t, PokemonType::Rock)
    } else if t[0] == 'D' {
        tag_try(t, PokemonType::Dragon)
    } else if t[0] == 'F' {
        if t.len() >= 3 && t[1] == 'i' && t[2] == 'r' {
            tag_try(t, PokemonType::Fire)
        } else if t.len() >= 2 && t[1] == 'i' {
            tag_try(t, PokemonType::Fighting)
        } else {
            tag_try(t, PokemonType::Flying)
        }
    } else if t[0] == 'G' {
        if t.len() >= 3 && t[1] == 'r' && t[2] == 'a' {
            tag_try(t, PokemonType::Grass)
        } else if t.len() >= 2 && t[1] == 'r' {
            tag_try(t, PokemonType::Ground)
        } else {
            tag_try(t, PokemonType::Phantom)
        }
    } else if t[0] == 'P' {
        if t.len() >= 2 && t[1] == 'o' {
            tag_try(t, PokemonType::Poison)
        } else {
            tag_try(t, PokemonType::Psychic)
        }
    } else {
        None
    }
}

/// One record, in exactly the shape `enc_record` writes.
#[verifier::opaque]
pub open spec fn parse_record(t: Seq<char>) -> Option<(PokemonView, Seq<char>)> {
    match strip_lit(t, "{\n    \"id\": "@) {
        None => None,
        Some(t1) => match parse_dec(t1) {
            None => None,
            Some((id, t2)) => if id > u64::MAX as nat {
                None
            } else {
                match strip_lit(t2, ",\n    \"name\": "@) {
                    None => None,
                    Some(t3) => match parse_jstr(t3) {
                        None => None,
                        Some((name, t4)) => match strip_lit(t4, ",\n    \"types\": \""@) {
                            None => None,
                            Some(t5) => match parse_tag(t5) {
                                None => None,
                                Some((tp, t6)) => match strip_lit(t6, ",\n    \"attack\": "@) {
                                    None => None,
                                    Some(t7) => match parse_dec(t7) {
                                        None => None,
                                        Some((atk, t8)) => if atk > u16::MAX as nat {
                                            None
                                        } else {
                                            match strip_lit(t8, ",\n    \"defense\": "@) {
                                                None => None,
                                                Some(t9) => match parse_dec(t9) {
                                                    None => None,
                                                    Some((def, t10)) => if def > u16::MAX as nat {
                                                        None
                                                    } else {
                                                        parse_record_tail(
                                                            id as u64,
                                                            name,
                                                            tp,
                                                            atk as u16,
                                                            def as u16,
                                                            t10,
                                                        )
                                                    },
                                                },
                                            }
                                        },
                                    },
                                },
                            },
                        },
                    },
                }
            },
        },
    }
}

/// The rest of one record, from the health field on.
#[verifier::opaque]
pub open spec fn parse_record_tail(
    id: u64,
    name: Seq<char>,
    tp: PokemonType,
    atk: u16,
    def: u16,
    t: Seq<char>,
) -> Option<(PokemonView, Seq<char>)> {
    match strip_lit(t, ",\n    \"health\": "@) {
        None => None,
        Some(t1) => match parse_dec(t1) {
            None => None,
            Some((hp, t2)) => if hp > u16::MAX as nat {
                None
            } else {
                match strip_lit(t2, ",\n    \"birthday\": "@) {
                    None => None,
                    Some(t3) => match parse_jstr(t3) {
                        None => None,
                        Some((bday, t4)) => match strip_lit(t4, "\n  }"@) {
                            None => None,
                            Some(t5) => Some(
                                (
                                    PokemonView {
                                        id,
                                        name,
                                        types: tp,
                                        attack: atk,
                                        defense: def,
                                        health: hp as u16,
                                        birthday: bday,
                                    },
                                    t5,
                                ),
                            ),
                        },
                    },
                }
            },
        },
    }
}

/// A non-empty run of records with their separators, then the closing
/// bracket. `fuel` only bounds the recursion.
pub open spec fn parse_items(t: Seq<char>, fuel: nat) -> Option<(Seq<PokemonView>, Seq<char>)>
    decreases fuel,
{
    if fuel == 0 {
        None
    } else {
        match parse_record(t) {
            None => None,
            Some((p, r)) => match strip_lit(r, ",\n  "@) {
                Some(r2) => match parse_items(r2, (fuel - 1) as nat) {
                    Some((ps, r3)) => Some((seq![p] + ps, r3)),
                    None => None,
                },
                None => match strip_lit(r, "\n]"@) {
                    Some(r2) => Some((seq![p], r2)),
                    None => None,
                },
            },
        }
    }
}

/// The whole persisted text read back as a collection: the inverse of
/// `spec_encode` on its image, `None` on any other text.
pub open spec fn spec_decode(t: Seq<char>) -> Option<Seq<PokemonView>> {
    if t == "[]"@ {
        Some(Seq::empty())
    } else {
        match strip_lit(t, "[\n  "@) {
            None => None,
            Some(r) => match parse_items(r, r.len() + 1) {
                Some((ps, r2)) => if r2.len() == 0 {
                    Some(ps)
                } else {
                    None
                },
                None => None,
            },
        }
    }
}


// ---------------------------------------------------------------------
// Round trip: what the encoder writes, the parser reads back
// ---------------------------------------------------------------------

/// `strip_lit` consumes exactly the text it is asked for.
pub proof fn lemma_strip_lit_prefix(lit: Seq<char>, rest: Seq<char>)
    ensures
        strip_lit(lit + rest, lit) == Some(rest),
{
    assert((lit + rest).take(lit.len() as int) =~= lit);
    assert((lit + rest).skip(lit.len() as int) =~= rest);
}

/// Powers of ten.
pub open spec fn pow10(k: nat) -> nat
    decreases k,
{
    if k == 0 {
        1
    } else {
        10 * pow10((k - 1) as nat)
    }
}

/// Reading the digits of `n` folds them back into `n`, scaled under
/// whatever the accumulator already holds.
proof fn lemma_dec_run_of(n: nat, acc: nat, rest: Seq<char>)
    ensures
        dec_run(dec_of(n) + rest, acc) == dec_run(rest, acc * pow10(dec_of(n).len()) + n),
    decreases n,
{
    if n < 10 {
        let t = dec_of(n) + rest;
        assert(t[0] == dec_digit(n as int));
        assert(is_dec(dec_digit(n as int)) && dec_val(dec_digit(n as int)) == n);
        assert(t.drop_first() =~= rest);
        assert(pow10(1) == 10 * pow10(0));
        assert(dec_run(t, acc) == dec_run(rest, acc * 10 + n));
    } else {
        let hd = dec_of(n / 10);
        let d = dec_digit((n % 10) as int);
        assert(dec_of(n) + rest =~= hd + (seq![d] + rest));
        lemma_dec_run_of(n / 10, acc, seq![d] + rest);
        let l1 = hd.len();
        let acc1 = acc * pow10(l1) + n / 10;
        assert(dec_run(hd + (seq![d] + rest), acc) == dec_run(seq![d] + rest, acc1));
        assert(is_dec(d) && dec_val(d) == n % 10);
        assert((seq![d] + rest)[0] == d);
        assert((seq![d] + rest).drop_first() =~= rest);
        assert(dec_run(seq![d] + rest, acc1) == dec_run(rest, acc1 * 10 + (n % 10)));
        assert(dec_of(n).len() == l1 + 1);
        assert(pow10(l1 + 1) == 10 * pow10(l1));
        assert(acc1 * 10 + (n % 10) == acc * (10 * pow10(l1)) + ((n / 10) * 10 + n % 10)) by (nonlinear_arith)
            requires
                acc1 == acc * pow10(l1) + n / 10,
        {}
        assert((n / 10) * 10 + n % 10 == n) by (nonlinear_arith);
    }
}

/// Parsing the decimal text of `n` yields `n` and stops at the first
/// non-digit.
proof fn lemma_parse_dec_of(n: nat, rest: Seq<char>)
    requires
        rest.len() == 0 || !is_dec(rest[0]),
    ensures
        parse_dec(dec_of(n) + rest) == Some((n, rest)),
    decreases n,
{
    let t = dec_of(n) + rest;
    assert(dec_of(n).len() >= 1);
    if n < 10 {
        assert(t[0] == dec_digit(n as int));
        assert(is_dec(t[0]));
    } else {
        lemma_dec_of_first(n);
        assert(t[0] == dec_of(n)[0]);
        assert(is_dec(t[0]));
    }
    lemma_dec_run_of(n, 0, rest);
    assert(0 * pow10(dec_of(n).len()) == 0) by (nonlinear_arith);
    assert(dec_run(rest, n) == (n, rest));
    assert(parse_dec(t) == Some((n, rest)));
}

/// The first digit character of `dec_of` is a digit.
proof fn lemma_dec_of_first(n: nat)
    ensures
        dec_of(n).len() >= 1,
        is_dec(dec_of(n)[0]),
    decreases n,
{
    if n < 10 {
        assert(dec_of(n)[0] == dec_digit(n as int));
    } else {
        lemma_dec_of_first(n / 10);
        assert(dec_of(n)[0] == dec_of(n / 10)[0]);
    }
}

/// Reading an escaped string body recovers the text and stops after the
/// closing quote.
proof fn lemma_parse_jstr_body(s: Seq<char>, rest: Seq<char>)
    ensures
        parse_jstr_body(esc(s) + seq!['"'] + rest) == Some((s, rest)),
    decreases s.len(),
{
    if s.len() == 0 {
        let t = esc(s) + seq!['"'] + rest;
        assert(t =~= seq!['"'] + rest);
        assert(t[0] == '"');
        assert(t.drop_first() =~= rest);
        assert(parse_jstr_body(t) == Some((Seq::<char>::empty(), rest)));
        assert(s =~= Seq::<char>::empty());
    } else {
        let c = s[0];
        let tail = s.drop_first();
        let inner = esc(tail) + seq!['"'] + rest;
        let t = esc(s) + seq!['"'] + rest;
        assert(t =~= esc_char(c) + inner);
        lemma_parse_jstr_body(tail, rest);
        if c == '"' {
            assert(t[0] == '\\' && t[1] == '"');
            assert(t.skip(2) =~= inner);
            assert(seq![t[1]] + tail =~= s);
        } else if c == '\\' {
            assert(t[0] == '\\' && t[1] == '\\');
            assert(t.skip(2) =~= inner);
            assert(seq![t[1]] + tail =~= s);
        } else if (c as u32) < 32 {
            let v0 = c as u32;
            let hi = hex_digit((v0 / 16) as int);
            let lo = hex_digit((v0 % 16) as int);
            assert(t[0] == '\\' && t[1] == 'u' && t[2] == '0' && t[3] == '0' && t[4] == hi && t[5]
                == lo);
            assert(t[1] != '"' && t[1] != '\\');
            assert(hex_val('0') == 0);
            assert(v0 / 16 < 2);
            assert(hex_val(hi) == v0 / 16);
            assert(hex_val(lo) == v0 % 16);
            let v = ((hex_val(t[2]) * 16 + hex_val(t[3])) * 16 + hex_val(t[4])) * 16 + hex_val(
                t[5],
            );
            assert(v == (v0 / 16) * 16 + v0 % 16);
            assert((v0 / 16) * 16 + v0 % 16 == v0);
            assert(v < 0xd800);
            assert(t.skip(6) =~= inner);
            vstd::utf8::char_u32_cast(c, v0);
            assert((v as u32) as char == c);
            assert(seq![(v as u32) as char] + tail =~= s);
        } else {
            assert(esc_char(c) =~= seq![c]);
            assert(t[0] == c);
            assert(c != '"' && c != '\\');
            assert(t.drop_first() =~= inner);
            assert(seq![t[0]] + tail =~= s);
        }
    }
}

/// Reading a whole JSON string recovers the text.
proof fn lemma_parse_jstr(s: Seq<char>, rest: Seq<char>)
    ensures
        parse_jstr(jstr(s) + rest) == Some((s, rest)),
{
    let t = jstr(s) + rest;
    reveal_strlit("\"");
    assert("\""@ =~= seq!['"']);
    assert(t =~= "\""@ + (esc(s) + seq!['"'] + rest));
    lemma_strip_lit_prefix("\""@, esc(s) + seq!['"'] + rest);
    lemma_parse_jstr_body(s, rest);
}


/// Reading a written species tag recovers the species.
proof fn lemma_parse_tag(tp: PokemonType, rest: Seq<char>)
    ensures
        parse_tag(tag_of(tp) + "\""@ + rest) == Some((tp, rest)),
{
    let lit = tag_of(tp) + "\""@;
    let t = lit + rest;
    assert(t =~= tag_of(tp) + ("\""@ + rest));
    lemma_strip_lit_prefix(lit, rest);
    match tp {
        PokemonType::Normal => {
            reveal_strlit("Normal");
            assert(t[0] == 'N');
        },
        PokemonType::Fire => {
            reveal_strlit("Fire");
            assert(t[0] == 'F' && t[1] == 'i' && t[2] == 'r');
        },
        PokemonType::Water => {
            reveal_strlit("Water");
            assert(t[0] == 'W');
        },
        PokemonType::Electric => {
            reveal_strlit("Electric");
            assert(t[0] == 'E');
        },
        PokemonType::Grass => {
            reveal_strlit("Grass");
            assert(t[0] == 'G' && t[1] == 'r' && t[2] == 'a');
        },
        PokemonType::Ice => {
            reveal_strlit("Ice");
            assert(t[0] == 'I');
        },
        PokemonType::Fighting => {
            reveal_strlit("Fighting");
            assert(t[0] == 'F' && t[1] == 'i' && t[2] == 'g');
        },
        PokemonType::Poison => {
            reveal_strlit("Poison");
            assert(t[0] == 'P' && t[1] == 'o');
        },
        PokemonType::Ground => {
            reveal_strlit("Ground");
            assert(t[0] == 'G' && t[1] == 'r' && t[2] == 'o');
        },
        PokemonType::Flying => {
            reveal_strlit("Flying");
            assert(t[0] == 'F' && t[1] == 'l');
        },
        PokemonType::Psychic => {
            reveal_strlit("Psychic");
            assert(t[0] == 'P' && t[1] == 's');
        },
        PokemonType::Bug => {
            reveal_strlit("Bug");
            assert(t[0] == 'B');
        },
        PokemonType::Rock => {
            reveal_strlit("Rock");
            assert(t[0] == 'R');
        },
        PokemonType::Phantom => {
            reveal_strlit("Ghost");
            assert(t[0] == 'G' && t[1] == 'h');
        },
        PokemonType::Dragon => {
            reveal_strlit("Dragon");
            assert(t[0] == 'D');
        },
    }
    assert(parse_tag(t) == Some((tp, rest)));
}

/// Concatenation of sequences associates.
proof fn seq_assoc(a: Seq<char>, b: Seq<char>, c: Seq<char>)
    ensures
        (a + b) + c == a + (b + c),
{
    assert((a + b) + c =~= a + (b + c));
}

/// Reading the written tail of a record, from the health field on,
/// recovers the record.
proof fn lemma_parse_record_tail(p: PokemonView, rest: Seq<char>)
    ensures
        parse_record_tail(
            p.id,
            p.name,
            p.types,
            p.attack,
            p.defense,
            ",\n    \"health\": "@ + (dec_of(p.health as nat) + (",\n    \"birthday\": "@ + (jstr(
                p.birthday,
            ) + ("\n  }"@ + rest)))),
        ) == Some((p, rest)),
{
    reveal(parse_record_tail);
    let l6 = ",\n    \"health\": "@;
    let l7 = ",\n    \"birthday\": "@;
    let l8 = "\n  }"@;
    let s8 = l8 + rest;
    let s7b = jstr(p.birthday) + s8;
    let s7 = l7 + s7b;
    let s6b = dec_of(p.health as nat) + s7;
    lemma_strip_lit_prefix(l6, s6b);
    reveal_strlit(",\n    \"birthday\": ");
    assert(s7[0] == ',');
    lemma_parse_dec_of(p.health as nat, s7);
    lemma_strip_lit_prefix(l7, s7b);
    lemma_parse_jstr(p.birthday, s8);
    lemma_strip_lit_prefix(l8, rest);
}

/// Reading a written record recovers it, whatever follows it.
#[verifier::rlimit(100)]
proof fn lemma_parse_record(p: PokemonView, rest: Seq<char>)
    ensures
        parse_record(enc_record(p) + rest) == Some((p, rest)),
{
    reveal(parse_record);
    let l1 = "{\n    \"id\": "@;
    let a1 = dec_of(p.id as nat);
    let l2 = ",\n    \"name\": "@;
    let a2 = jstr(p.name);
    let l3 = ",\n    \"types\": \""@;
    let a3 = tag_of(p.types);
    let q = "\""@;
    let l4 = ",\n    \"attack\": "@;
    let a4 = dec_of(p.attack as nat);
    let l5 = ",\n    \"defense\": "@;
    let a5 = dec_of(p.defense as nat);
    let l6 = ",\n    \"health\": "@;
    let a6 = dec_of(p.health as nat);
    let l7 = ",\n    \"birthday\": "@;
    let a7 = jstr(p.birthday);
    let l8 = "\n  }"@;
    let t = enc_record(p) + rest;
    let r16 = l8 + rest;
    let r15 = a7 + r16;
    let r14 = l7 + r15;
    let r13 = a6 + r14;
    let r12 = l6 + r13;
    let r11 = a5 + r12;
    let r10 = l5 + r11;
    let r9 = a4 + r10;
    let r8 = l4 + r9;
    let r7 = q + r8;
    let r6 = a3 + r7;
    let r5 = l3 + r6;
    let r4 = a2 + r5;
    let r3 = l2 + r4;
    let r2 = a1 + r3;
    assert(enc_record(p) == l1 + a1 + l2 + a2 + l3 + a3 + q + l4 + a4 + l5 + a5 + l6 + a6 + l7 + a7
        + l8);
    seq_assoc(l1 + a1 + l2 + a2 + l3 + a3 + q + l4 + a4 + l5 + a5 + l6 + a6 + l7 + a7, l8, rest);
    seq_assoc(l1 + a1 + l2 + a2 + l3 + a3 + q + l4 + a4 + l5 + a5 + l6 + a6 + l7, a7, r16);
    seq_assoc(l1 + a1 + l2 + a2 + l3 + a3 + q + l4 + a4 + l5 + a5 + l6 + a6, l7, r15);
    seq_assoc(l1 + a1 + l2 + a2 + l3 + a3 + q + l4 + a4 + l5 + a5 + l6, a6, r14);
    seq_assoc(l1 + a1 + l2 + a2 + l3 + a3 + q + l4 + a4 + l5 + a5, l6, r13);
    seq_assoc(l1 + a1 + l2 + a2 + l3 + a3 + q + l4 + a4 + l5, a5, r12);
    seq_assoc(l1 + a1 + l2 + a2 + l3 + a3 + q + l4 + a4, l5, r11);
    seq_assoc(l1 + a1 + l2 + a2 + l3 + a3 + q + l4, a4, r10);
    seq_assoc(l1 + a1 + l2 + a2 + l3 + a3 + q, l4, r9);
    seq_assoc(l1 + a1 + l2 + a2 + l3 + a3, q, r8);
    seq_assoc(l1 + a1 + l2 + a2 + l3, a3, r7);
    seq_assoc(l1 + a1 + l2 + a2, l3, r6);
    seq_assoc(l1 + a1 + l2, a2, r5);
    seq_assoc(l1 + a1, l2, r4);
    seq_assoc(l1, a1, r3);
    assert(t == l1 + r2);
    lemma_strip_lit_prefix(l1, r2);
    assert(strip_lit(t, l1) == Some(r2));
    reveal_strlit(",\n    \"name\": ");
    assert(r3[0] == ',');
    lemma_parse_dec_of(p.id as nat, r3);
    assert(parse_dec(r2) == Some((p.id as nat, r3)));
    lemma_strip_lit_prefix(l2, r4);
    lemma_parse_jstr(p.name, r5);
    lemma_strip_lit_prefix(l3, r6);
    seq_assoc(a3, q, r8);
    lemma_parse_tag(p.types, r8);
    assert(parse_tag(r6) == Some((p.types, r8)));
    lemma_strip_lit_prefix(l4, r9);
    reveal_strlit(",\n    \"defense\": ");
    assert(r10[0] == ',');
    lemma_parse_dec_of(p.attack as nat, r10);
    lemma_strip_lit_prefix(l5, r11);
    reveal_strlit(",\n    \"health\": ");
    assert(r12[0] == ',');
    lemma_parse_dec_of(p.defense as nat, r12);
    lemma_parse_record_tail(p, rest);
    assert(parse_record_tail(p.id, p.name, p.types, p.attack, p.defense, r12) == Some((p, rest)));
    assert(parse_record(t) == Some((p, rest)));
}

/// Each written record takes at least one character.
proof fn lemma_enc_records_len(s: Seq<PokemonView>)
    requires
        s.len() >= 1,
    ensures
        enc_records(s).len() >= s.len(),
    decreases s.len(),
{
    reveal_strlit("{\n    \"id\": ");
    assert(enc_record(s[0]).len() >= 1);
    if s.len() > 1 {
        lemma_enc_records_len(s.drop_first());
    }
}

/// Reading a written run of records recovers them all, up to the closing
/// bracket.
proof fn lemma_parse_items(s: Seq<PokemonView>, fuel: nat)
    requires
        1 <= s.len() <= fuel,
    ensures
        parse_items(enc_records(s) + "\n]"@, fuel) == Some((s, Seq::<char>::empty())),
    decreases s.len(),
{
    let t = enc_records(s) + "\n]"@;
    if s.len() == 1 {
        lemma_parse_record(s[0], "\n]"@);
        reveal_strlit("\n]");
        reveal_strlit(",\n  ");
        assert(strip_lit("\n]"@, ",\n  "@) is None);
        assert("\n]"@ + Seq::<char>::empty() =~= "\n]"@);
        lemma_strip_lit_prefix("\n]"@, Seq::<char>::empty());
        assert(strip_lit("\n]"@, "\n]"@) == Some(Seq::<char>::empty()));
        assert(seq![s[0]] =~= s);
    } else {
        let tail = s.drop_first();
        let after = ",\n  "@ + (enc_records(tail) + "\n]"@);
        assert(t =~= enc_record(s[0]) + after);
        lemma_parse_record(s[0], after);
        lemma_strip_lit_prefix(",\n  "@, enc_records(tail) + "\n]"@);
        lemma_parse_items(tail, (fuel - 1) as nat);
        assert(seq![s[0]] + tail =~= s);
    }
}

/// Persistence fidelity: reading back the exact text the encoder writes
/// for a collection yields that collection again.
pub proof fn lemma_decode_encode(s: Seq<PokemonView>)
    ensures
        spec_decode(spec_encode(s)) == Some(s),
{
    if s.len() == 0 {
        assert(spec_encode(s) == "[]"@);
        assert(spec_decode("[]"@) == Some(Seq::<PokemonView>::empty()));
        assert(s =~= Seq::<PokemonView>::empty());
    } else {
        let t = spec_encode(s);
        let r = enc_records(s) + "\n]"@;
        assert(t =~= "[\n  "@ + r);
        lemma_enc_records_len(s);
        reveal_strlit("[]");
        reveal_strlit("[\n  ");
        reveal_strlit("\n]");
        assert(t.len() >= 4 + s.len() + 2);
        assert(t != "[]"@);
        lemma_strip_lit_prefix("[\n  "@, r);
        assert(r.len() >= s.len());
        lemma_parse_items(s, r.len() + 1);
        assert(spec_decode(t) == Some(s));
    }
}


impl crate::store::PokemonStore {
    /// The persisted image of the store: its whole collection as the
    /// pretty-printed JSON text `spec_encode` describes.
    pub fn to_json(&self) -> (r: Vec<char>)
        ensures
            r@ == spec_encode(self@),
    {
        let snapshot = self.list();
        encode(&snapshot)
    }
}


// ---------------------------------------------------------------------
// The decoder
// ---------------------------------------------------------------------

/// A successful `strip_lit` leaves exactly the text after the literal.
proof fn lemma_strip_lit_len(t: Seq<char>, lit: Seq<char>)
    requires
        strip_lit(t, lit) is Some,
    ensures
        strip_lit(t, lit)->Some_0.len() == t.len() - lit.len(),
{
}

/// A digit run never grows the remaining text.
proof fn lemma_dec_run_len(t: Seq<char>, acc: nat)
    ensures
        dec_run(t, acc).1.len() <= t.len(),
    decreases t.len(),
{
    if t.len() > 0 && is_dec(t[0]) {
        lemma_dec_run_len(t.drop_first(), acc * 10 + dec_val(t[0]) as nat)
    }
}

/// A parsed string body consumes at least its closing quote.
proof fn lemma_parse_jstr_body_len(t: Seq<char>)
    requires
        parse_jstr_body(t) is Some,
    ensures
        parse_jstr_body(t)->Some_0.1.len() < t.len(),
    decreases t.len(),
{
    if t.len() == 0 {
    } else if t[0] == '"' {
    } else if t[0] == '\\' {
        if t.len() >= 2 && (t[1] == '"' || t[1] == '\\') {
            lemma_parse_jstr_body_len(t.skip(2));
        } else if t.len() >= 6 && t[1] == 'u' {
            lemma_parse_jstr_body_len(t.skip(6));
        }
    } else {
        lemma_parse_jstr_body_len(t.drop_first());
    }
}

/// A parsed record consumes at least one character.
proof fn lemma_parse_record_len(t: Seq<char>)
    requires
        parse_record(t) is Some,
    ensures
        parse_record(t)->Some_0.1.len() < t.len(),
{
    reveal(parse_record);
    reveal(parse_record_tail);
    reveal_strlit("{\n    \"id\": ");
    reveal_strlit("\"");
    let t1 = strip_lit(t, "{\n    \"id\": "@)->Some_0;
    lemma_strip_lit_len(t, "{\n    \"id\": "@);
    let (_, t2) = parse_dec(t1)->Some_0;
    lemma_dec_run_len(t1, 0);
    let t3 = strip_lit(t2, ",\n    \"name\": "@)->Some_0;
    lemma_strip_lit_len(t2, ",\n    \"name\": "@);
    let t3b = strip_lit(t3, "\""@)->Some_0;
    lemma_strip_lit_len(t3, "\""@);
    let (_, t4) = parse_jstr_body(t3b)->Some_0;
    lemma_parse_jstr_body_len(t3b);
    let t5 = strip_lit(t4, ",\n    \"types\": \""@)->Some_0;
    lemma_strip_lit_len(t4, ",\n    \"types\": \""@);
    let (tp, t6) = parse_tag(t5)->Some_0;
    assert(t6.len() <= t5.len()) by {
        lemma_parse_tag_len(t5);
    }
    let t7 = strip_lit(t6, ",\n    \"attack\": "@)->Some_0;
    lemma_strip_lit_len(t6, ",\n    \"attack\": "@);
    let (_, t8) = parse_dec(t7)->Some_0;
    lemma_dec_run_len(t7, 0);
    let t9 = strip_lit(t8, ",\n    \"defense\": "@)->Some_0;
    lemma_strip_lit_len(t8, ",\n    \"defense\": "@);
    let (_, t10) = parse_dec(t9)->Some_0;
    lemma_dec_run_len(t9, 0);
    let t11 = strip_lit(t10, ",\n    \"health\": "@)->Some_0;
    lemma_strip_lit_len(t10, ",\n    \"health\": "@);
    let (_, t12) = parse_dec(t11)->Some_0;
    lemma_dec_run_len(t11, 0);
    let t13 = strip_lit(t12, ",\n    \"birthday\": "@)->Some_0;
    lemma_strip_lit_len(t12, ",\n    \"birthday\": "@);
    let t13b = strip_lit(t13, "\""@)->Some_0;
    lemma_strip_lit_len(t13, "\""@);
    let (_, t14) = parse_jstr_body(t13b)->Some_0;
    lemma_parse_jstr_body_len(t13b);
    let t15 = strip_lit(t14, "\n  }"@)->Some_0;
    lemma_strip_lit_len(t14, "\n  }"@);
}

/// A parsed species tag consumes at least its closing quote.
proof fn lemma_parse_tag_len(t: Seq<char>)
    requires
        parse_tag(t) is Some,
    ensures
        parse_tag(t)->Some_0.1.len() < t.len(),
{
    reveal_strlit("\"");
    assert forall|tp: PokemonType| #[trigger] tag_try(t, tp) is Some implies tag_try(
        t,
        tp,
    )->Some_0.1.len() < t.len() by {
        let lit = tag_of(tp) + "\""@;
        lemma_strip_lit_len(t, lit);
    }
}


/// The decimal value of a digit character, 10 for any other character.
fn dec_val_char(c: char) -> (v: u8)
    ensures
        v as int == dec_val(c),
{
    match c {
        '0' => 0,
        '1' => 1,
        '2' => 2,
        '3' => 3,
        '4' => 4,
        '5' => 5,
        '6' => 6,
        '7' => 7,
        '8' => 8,
        '9' => 9,
        _ => 10,
    }
}

/// The hexadecimal value of a lowercase digit character, 16 for any other
/// character.
fn hex_val_char(c: char) -> (v: u8)
    ensures
        v as int == hex_val(c),
{
    let d = dec_val_char(c);
    if d < 10 {
        d
    } else {
        match c {
            'a' => 10,
            'b' => 11,
            'c' => 12,
            'd' => 13,
            'e' => 14,
            'f' => 15,
            _ => 16,
        }
    }
}

/// Relies on `String::from_iter`: the string holds exactly the given
/// characters, in order.
#[verifier::external_body]
fn chars_to_string(v: Vec<char>) -> (r: String)
    ensures
        r@ == v@,
{
    String::from_iter(v.into_iter())
}

/// Relies on `char::from_u32`: a value outside the surrogate range and no
/// larger than the last code point names the character with that value;
/// anything else yields nothing.
#[verifier::external_body]
fn char_from_u32(v: u32) -> (r: Option<char>)
    ensures
        r is Some <==> (v < 0xd800 || (0xe000 <= v && v <= 0x10ffff)),
        r matches Some(c) ==> c as u32 == v,
{
    char::from_u32(v)
}

/// Consumes the literal `lit` at position `i` of `text`, as `strip_lit`
/// does on the remaining text.
fn eat_lit(text: &Vec<char>, i: usize, lit: &str) -> (r: Option<usize>)
    requires
        i <= text@.len(),
    ensures
        match r {
            Some(j) => i <= j <= text@.len() && strip_lit(text@.skip(i as int), lit@) == Some(
                text@.skip(j as int),
            ),
            None => strip_lit(text@.skip(i as int), lit@) is None,
        },
{
    let ghost t = text@.skip(i as int);
    let tlen = text.len();
    let n = lit.unicode_len();
    if n > tlen - i {
        return None;
    }
    let mut k: usize = 0;
    while k < n
        invariant
            tlen == text@.len(),
            i + n <= tlen,
            n == lit@.len(),
            k <= n,
            t == text@.skip(i as int),
            forall|m: int| 0 <= m < k ==> t[m] == lit@[m],
        decreases n - k,
    {
        if text[i + k] != lit.get_char(k) {
            proof {
                assert(t[k as int] == text@[i + k as int]);
                if t.take(n as int) == lit@ {
                    assert(t.take(n as int)[k as int] == t[k as int]);
                    assert(false);
                }
            }
            return None;
        }
        proof {
            assert(t[k as int] == text@[i + k as int]);
        }
        k += 1;
    }
    proof {
        assert(t.take(n as int) =~= lit@);
        assert(t.skip(n as int) =~= text@.skip(i + n as int));
    }
    Some(i + n)
}

/// Reads a decimal number at position `i`, as `parse_dec` does; a value
/// beyond `u64` is reported as a failure.
fn read_dec(text: &Vec<char>, i: usize) -> (r: Option<(u64, usize)>)
    requires
        i <= text@.len(),
    ensures
        match r {
            Some((v, j)) => i <= j <= text@.len() && parse_dec(text@.skip(i as int)) == Some(
                ((v as nat), text@.skip(j as int)),
            ),
            None => parse_dec(text@.skip(i as int)) is None || parse_dec(
                text@.skip(i as int),
            )->Some_0.0 > u64::MAX as nat,
        },
{
    let ghost t = text@.skip(i as int);
    if i == text.len() {
        return None;
    }
    if dec_val_char(text[i]) >= 10 {
        proof {
            assert(t[0] == text@[i as int]);
        }
        return None;
    }
    let mut pos: usize = i;
    let mut val: u64 = 0;
    let mut over: bool = false;
    let ghost mut acc: nat = 0nat;
    while pos < text.len() && dec_val_char(text[pos]) < 10
        invariant
            i <= pos <= text@.len(),
            t == text@.skip(i as int),
            dec_run(t, 0) == dec_run(text@.skip(pos as int), acc),
            over <==> acc > u64::MAX as nat,
            !over ==> val as nat == acc,
        decreases text@.len() - pos,
    {
        let d = dec_val_char(text[pos]);
        let ghost tp = text@.skip(pos as int);
        proof {
            assert(tp[0] == text@[pos as int]);
            assert(tp.drop_first() =~= text@.skip(pos as int + 1));
            assert(dec_run(tp, acc) == dec_run(text@.skip(pos as int + 1), acc * 10 + dec_val(
                tp[0],
            ) as nat));
        }
        let dd = d as u64;
        if over || val > (u64::MAX - dd) / 10 {
            proof {
                let acc2 = acc * 10 + dd as nat;
                if over {
                    assert(acc2 > u64::MAX as nat) by (nonlinear_arith)
                        requires
                            acc > u64::MAX as nat,
                            acc2 == acc * 10 + dd as nat,
                    {}
                } else {
                    let x = (u64::MAX - dd) as nat;
                    assert(acc * 10 > x) by (nonlinear_arith)
                        requires
                            acc == val as nat,
                            val as nat > x / 10,
                            x == 10 * (x / 10) + x % 10,
                            x % 10 < 10,
                    {}
                    assert(acc2 > u64::MAX as nat);
                }
                acc = acc2;
            }
            over = true;
        } else {
            proof {
                let x = (u64::MAX - dd) as nat;
                assert((val as nat) * 10 + dd as nat <= u64::MAX as nat) by (nonlinear_arith)
                    requires
                        val as nat <= x / 10,
                        x == 10 * (x / 10) + x % 10,
                        x + dd as nat == u64::MAX as nat,
                {}
                acc = acc * 10 + dd as nat;
            }
            val = val * 10 + dd;
        }
        pos += 1;
    }
    proof {
        let tp = text@.skip(pos as int);
        if pos < text@.len() {
            assert(tp[0] == text@[pos as int]);
            assert(!is_dec(tp[0]));
        }
        assert(dec_run(tp, acc) == (acc, tp));
        assert(t[0] == text@[i as int]);
        assert(parse_dec(t) == Some((acc, tp)));
    }
    if over {
        None
    } else {
        Some((val, pos))
    }
}


/// Reads a JSON string body at position `i`, as `parse_jstr_body` does on
/// the remaining text.
fn read_jstr_body(text: &Vec<char>, i: usize) -> (r: Option<(Vec<char>, usize)>)
    requires
        i <= text@.len(),
    ensures
        match r {
            Some((s, j)) => i <= j <= text@.len() && parse_jstr_body(text@.skip(i as int))
                == Some((s@, text@.skip(j as int))),
            None => parse_jstr_body(text@.skip(i as int)) is None,
        },
    decreases text@.len() - i,
{
    let ghost t = text@.skip(i as int);
    let tlen = text.len();
    if i == tlen {
        return None;
    }
    let c = text[i];
    proof {
        assert(t[0] == text@[i as int]);
    }
    if c == '"' {
        proof {
            assert(t.drop_first() =~= text@.skip(i as int + 1));
        }
        let empty: Vec<char> = Vec::new();
        proof {
            assert(empty@ =~= Seq::<char>::empty());
        }
        return Some((empty, i + 1));
    }
    if c == '\\' {
        if tlen - i < 2 {
            return None;
        }
        let c2 = text[i + 1];
        proof {
            assert(t[1] == text@[i as int + 1]);
        }
        if c2 == '"' || c2 == '\\' {
            proof {
                assert(t.skip(2) =~= text@.skip(i as int + 2));
            }
            match read_jstr_body(text, i + 2) {
                None => None,
                Some((s, j)) => {
                    let ghost s0 = s@;
                    let mut s = s;
                    s.insert(0, c2);
                    proof {
                        assert(s@ =~= seq![t[1]] + s0);
                    }
                    Some((s, j))
                },
            }
        } else if c2 == 'u' {
            if tlen - i < 6 {
                return None;
            }
            let h1 = hex_val_char(text[i + 2]);
            let h2 = hex_val_char(text[i + 3]);
            let h3 = hex_val_char(text[i + 4]);
            let h4 = hex_val_char(text[i + 5]);
            proof {
                assert(t[2] == text@[i as int + 2]);
                assert(t[3] == text@[i as int + 3]);
                assert(t[4] == text@[i as int + 4]);
                assert(t[5] == text@[i as int + 5]);
            }
            if h1 < 16 && h2 < 16 && h3 < 16 && h4 < 16 {
                let v: u32 = ((h1 as u32 * 16 + h2 as u32) * 16 + h3 as u32) * 16 + h4 as u32;
                if v < 0xd800 {
                    match char_from_u32(v) {
                        None => {
                            proof {
                                assert(false);
                            }
                            None
                        },
                        Some(ch) => {
                            proof {
                                vstd::utf8::char_u32_cast(ch, v);
                                assert(t.skip(6) =~= text@.skip(i as int + 6));
                            }
                            match read_jstr_body(text, i + 6) {
                                None => None,
                                Some((s, j)) => {
                                    let ghost s0 = s@;
                                    let mut s = s;
                                    s.insert(0, ch);
                                    proof {
                                        let sv = ((hex_val(t[2]) * 16 + hex_val(t[3])) * 16
                                            + hex_val(t[4])) * 16 + hex_val(t[5]);
                                        assert(sv == v as int);
                                        assert((sv as u32) as char == ch);
                                        assert(s@ =~= seq![(sv as u32) as char] + s0);
                                    }
                                    Some((s, j))
                                },
                            }
                        },
                    }
                } else {
                    None
                }
            } else {
                None
            }
        } else {
            None
        }
    } else {
        proof {
            assert(t.drop_first() =~= text@.skip(i as int + 1));
        }
        match read_jstr_body(text, i + 1) {
            None => None,
            Some((s, j)) => {
                let ghost s0 = s@;
                let mut s = s;
                s.insert(0, c);
                proof {
                    assert(s@ =~= seq![t[0]] + s0);
                }
                Some((s, j))
            },
        }
    }
}

/// Reads the tag of the one species `lit` spells, closing quote included.
fn try_tag(text: &Vec<char>, i: usize, tp: PokemonType, lit: &str) -> (r: Option<
    (PokemonType, usize),
>)
    requires
        i <= text@.len(),
        lit@ == tag_of(tp) + "\""@,
    ensures
        match r {
            Some((tp2, j)) => tp2 == tp && i <= j <= text@.len() && tag_try(
                text@.skip(i as int),
                tp,
            ) == Some((tp, text@.skip(j as int))),
            None => tag_try(text@.skip(i as int), tp) is None,
        },
{
    match eat_lit(text, i, lit) {
        Some(j) => Some((tp, j)),
        None => None,
    }
}

/// Reads a species tag at position `i`, as `parse_tag` does.
#[verifier::rlimit(100)]
fn read_tag(text: &Vec<char>, i: usize) -> (r: Option<(PokemonType, usize)>)
    requires
        i <= text@.len(),
    ensures
        match r {
            Some((tp, j)) => i <= j <= text@.len() && parse_tag(text@.skip(i as int)) == Some(
                (tp, text@.skip(j as int)),
            ),
            None => parse_tag(text@.skip(i as int)) is None,
        },
{
    let ghost t = text@.skip(i as int);
    let tlen = text.len();
    if i == tlen {
        return None;
    }
    let c = text[i];
    proof {
        assert(t[0] == text@[i as int]);
        reveal_strlit("\"");
        if i + 1 < tlen {
            assert(t[1] == text@[i as int + 1]);
        }
        if i + 2 < tlen {
            assert(t[2] == text@[i as int + 2]);
        }
    }
    if c == 'N' {
        proof {
            reveal_strlit("Normal");
            reveal_strlit("Normal\"");
            assert("Normal\""@ =~= tag_of(PokemonType::Normal) + "\""@);
        }
        try_tag(text, i, PokemonType::Normal, "Normal\"")
    } else if c == 'W' {
        proof {
            reveal_strlit("Water");
            reveal_strlit("Water\"");
            assert("Water\""@ =~= tag_of(PokemonType::Water) + "\""@);
        }
        try_tag(text, i, PokemonType::Water, "Water\"")
    } else if c == 'E' {
        proof {
            reveal_strlit("Electric");
            reveal_strlit("Electric\"");
            assert("Electric\""@ =~= tag_of(PokemonType::Electric) + "\""@);
        }
        try_tag(text, i, PokemonType::Electric, "Electric\"")
    } else if c == 'I' {
        proof {
            reveal_strlit("Ice");
            reveal_strlit("Ice\"");
            assert("Ice\""@ =~= tag_of(PokemonType::Ice) + "\""@);
        }
        try_tag(text, i, PokemonType::Ice, "Ice\"")
    } else if c == 'B' {
        proof {
            reveal_strlit("Bug");
            reveal_strlit("Bug\"");
            assert("Bug\""@ =~= tag_of(PokemonType::Bug) + "\""@);
        }
        try_tag(text, i, PokemonType::Bug, "Bug\"")
    } else if c == 'R' {
        proof {
            reveal_strlit("Rock");
            reveal_strlit("Rock\"");
            assert("Rock\""@ =~= tag_of(PokemonType::Rock) + "\""@);
        }
        try_tag(text, i, PokemonType::Rock, "Rock\"")
    } else if c == 'D' {
        proof {
            reveal_strlit("Dragon");
            reveal_strlit("Dragon\"");
            assert("Dragon\""@ =~= tag_of(PokemonType::Dragon) + "\""@);
        }
        try_tag(text, i, PokemonType::Dragon, "Dragon\"")
    } else if c == 'F' {
        if tlen - i >= 3 && text[i + 1] == 'i' && text[i + 2] == 'r' {
            proof {
                reveal_strlit("Fire");
                reveal_strlit("Fire\"");
                assert("Fire\""@ =~= tag_of(PokemonType::Fire) + "\""@);
            }
            try_tag(text, i, PokemonType::Fire, "Fire\"")
        } else if tlen - i >= 2 && text[i + 1] == 'i' {
            proof {
                reveal_strlit("Fighting");
                reveal_strlit("Fighting\"");
                assert("Fighting\""@ =~= tag_of(PokemonType::Fighting) + "\""@);
            }
            try_tag(text, i, PokemonType::Fighting, "Fighting\"")
        } else {
            proof {
                reveal_strlit("Flying");
                reveal_strlit("Flying\"");
                assert("Flying\""@ =~= tag_of(PokemonType::Flying) + "\""@);
            }
            try_tag(text, i, PokemonType::Flying, "Flying\"")
        }
    } else if c == 'G' {
        if tlen - i >= 3 && text[i + 1] == 'r' && text[i + 2] == 'a' {
            proof {
                reveal_strlit("Grass");
                reveal_strlit("Grass\"");
                assert("Grass\""@ =~= tag_of(PokemonType::Grass) + "\""@);
            }
            try_tag(text, i, PokemonType::Grass, "Grass\"")
        } else if tlen - i >= 2 && text[i + 1] == 'r' {
            proof {
                reveal_strlit("Ground");
                reveal_strlit("Ground\"");
                assert("Ground\""@ =~= tag_of(PokemonType::Ground) + "\""@);
            }
            try_tag(text, i, PokemonType::Ground, "Ground\"")
        } else {
            proof {
                reveal_strlit("Ghost");
                reveal_strlit("Ghost\"");
                assert("Ghost\""@ =~= tag_of(PokemonType::Phantom) + "\""@);
            }
            try_tag(text, i, PokemonType::Phantom, "Ghost\"")
        }
    } else if c == 'P' {
        if tlen - i >= 2 && text[i + 1] == 'o' {
            proof {
                reveal_strlit("Poison");
                reveal_strlit("Poison\"");
                assert("Poison\""@ =~= tag_of(PokemonType::Poison) + "\""@);
            }
            try_tag(text, i, PokemonType::Poison, "Poison\"")
        } else {
            proof {
                reveal_strlit("Psychic");
                reveal_strlit("Psychic\"");
                assert("Psychic\""@ =~= tag_of(PokemonType::Psychic) + "\""@);
            }
            try_tag(text, i, PokemonType::Psychic, "Psychic\"")
        }
    } else {
        None
    }
}


/// Reads one record at position `i`, as `parse_record` does.
#[verifier::rlimit(100)]
fn read_record(text: &Vec<char>, i: usize) -> (r: Option<(Pokemon, usize)>)
    requires
        i <= text@.len(),
    ensures
        match r {
            Some((p, j)) => i <= j <= text@.len() && parse_record(text@.skip(i as int)) == Some(
                (p@, text@.skip(j as int)),
            ),
            None => parse_record(text@.skip(i as int)) is None,
        },
{
    proof {
        reveal(parse_record);
        reveal(parse_record_tail);
    }
    let ghost t = text@.skip(i as int);
    let j1 = match eat_lit(text, i, "{\n    \"id\": ") {
        None => {
            return None;
        },
        Some(j) => j,
    };
    let (id, j2) = match read_dec(text, j1) {
        None => {
            return None;
        },
        Some(p) => p,
    };
    let j3 = match eat_lit(text, j2, ",\n    \"name\": ") {
        None => {
            return None;
        },
        Some(j) => j,
    };
    let j3b = match eat_lit(text, j3, "\"") {
        None => {
            return None;
        },
        Some(j) => j,
    };
    let (name, j4) = match read_jstr_body(text, j3b) {
        None => {
            return None;
        },
        Some(p) => p,
    };
    let j5 = match eat_lit(text, j4, ",\n    \"types\": \"") {
        None => {
            return None;
        },
        Some(j) => j,
    };
    let (tp, j6) = match read_tag(text, j5) {
        None => {
            return None;
        },
        Some(p) => p,
    };
    let j7 = match eat_lit(text, j6, ",\n    \"attack\": ") {
        None => {
            return None;
        },
        Some(j) => j,
    };
    let (atk, j8) = match read_dec(text, j7) {
        None => {
            return None;
        },
        Some(p) => p,
    };
    if atk > 65535 {
        return None;
    }
    let j9 = match eat_lit(text, j8, ",\n    \"defense\": ") {
        None => {
            return None;
        },
        Some(j) => j,
    };
    let (def, j10) = match read_dec(text, j9) {
        None => {
            return None;
        },
        Some(p) => p,
    };
    if def > 65535 {
        return None;
    }
    let j11 = match eat_lit(text, j10, ",\n    \"health\": ") {
        None => {
            return None;
        },
        Some(j) => j,
    };
    let (hp, j12) = match read_dec(text, j11) {
        None => {
            return None;
        },
        Some(p) => p,
    };
    if hp > 65535 {
        return None;
    }
    let j13 = match eat_lit(text, j12, ",\n    \"birthday\": ") {
        None => {
            return None;
        },
        Some(j) => j,
    };
    let j13b = match eat_lit(text, j13, "\"") {
        None => {
            return None;
        },
        Some(j) => j,
    };
    let (bday, j14) = match read_jstr_body(text, j13b) {
        None => {
            return None;
        },
        Some(p) => p,
    };
    let j15 = match eat_lit(text, j14, "\n  }") {
        None => {
            return None;
        },
        Some(j) => j,
    };
    let record = Pokemon {
        id,
        name: chars_to_string(name),
        types: tp,
        attack: atk as u16,
        defense: def as u16,
        health: hp as u16,
        birthday: chars_to_string(bday),
    };
    Some((record, j15))
}

/// Reads a run of records with their separators and the closing bracket,
/// as `parse_items` does with the given fuel.
fn read_items(text: &Vec<char>, i: usize, fuel: Ghost<nat>) -> (r: Option<(Vec<Pokemon>, usize)>)
    requires
        i <= text@.len(),
        fuel@ > text@.len() - i,
    ensures
        match r {
            Some((v, j)) => i <= j <= text@.len() && parse_items(text@.skip(i as int), fuel@)
                == Some((v.deep_view(), text@.skip(j as int))),
            None => parse_items(text@.skip(i as int), fuel@) is None,
        },
    decreases text@.len() - i,
{
    let ghost t = text@.skip(i as int);
    match read_record(text, i) {
        None => None,
        Some((p, j)) => {
            proof {
                lemma_parse_record_len(t);
            }
            match eat_lit(text, j, ",\n  ") {
                Some(j2) => {
                    proof {
                        lemma_strip_lit_len(text@.skip(j as int), ",\n  "@);
                        reveal_strlit(",\n  ");
                    }
                    match read_items(text, j2, Ghost((fuel@ - 1) as nat)) {
                        None => None,
                        Some((ps, j3)) => {
                            let ghost dv0 = ps.deep_view();
                            let mut ps = ps;
                            ps.insert(0, p);
                            proof {
                                assert(ps.deep_view() =~= seq![p@] + dv0);
                            }
                            Some((ps, j3))
                        },
                    }
                },
                None => {
                    match eat_lit(text, j, "\n]") {
                        Some(j2) => {
                            let mut one: Vec<Pokemon> = Vec::new();
                            one.push(p);
                            proof {
                                assert(one.deep_view() =~= seq![p@]);
                            }
                            Some((one, j2))
                        },
                        None => None,
                    }
                },
            }
        },
    }
}

/// Reads the persisted text back into a collection: exactly the records
/// `spec_decode` gives, and failure exactly where it gives none.
pub fn decode(text: &Vec<char>) -> (r: Option<Vec<Pokemon>>)
    ensures
        match r {
            Some(v) => spec_decode(text@) == Some(v.deep_view()),
            None => spec_decode(text@) is None,
        },
{
    proof {
        reveal_strlit("[]");
    }
    if text.len() == 2 && text[0] == '[' && text[1] == ']' {
        proof {
            assert(text@ =~= "[]"@);
        }
        let none: Vec<Pokemon> = Vec::new();
        proof {
            assert(none.deep_view() =~= Seq::<PokemonView>::empty());
        }
        return Some(none);
    }
    proof {
        assert(text@ != "[]"@) by {
            if text@ == "[]"@ {
                assert(text@.len() == 2);
                assert(text@[0] == '[');
                assert(text@[1] == ']');
            }
        }
        assert(text@.skip(0) =~= text@);
    }
    match eat_lit(text, 0, "[\n  ") {
        None => None,
        Some(j) => {
            match read_items(text, j, Ghost((text@.len() - j + 1) as nat)) {
                None => None,
                Some((v, j2)) => {
                    if j2 == text.len() {
                        proof {
                            assert(text@.skip(j2 as int).len() == 0);
                        }
                        Some(v)
                    } else {
                        None
                    }
                },
            }
        },
    }
}

} // verus!
