//! The response-body grammar: a JSON document holding an object whose
//! members are scanned for the two counter fields.
//!
//! The grammar is modelled by spec functions over the raw byte sequence;
//! the executable decoder is proved to return exactly what the model says.

use vstd::prelude::*;

verus! {

/// Spec-level model of a decoded JSON value.
///
/// Numbers keep only what the decoder needs: a number that is a plain
/// non-negative integer fitting `u64` is `UInt`; every other well-formed
/// number (negative, fractional, exponent, too large) is `OtherNum`.
/// Decoded strings are byte sequences (escapes resolved to UTF-8 bytes).
pub enum Json {
    Null,
    Bool(bool),
    UInt(u64),
    OtherNum,
    JStr(Seq<u8>),
    Arr(Seq<Json>),
    Obj(Seq<(Seq<u8>, Json)>),
}

/// JSON insignificant whitespace.
pub open spec fn is_ws(c: u8) -> bool {
    c == 0x20 || c == 0x09 || c == 0x0a || c == 0x0d
}

/// Position of the first non-whitespace byte at or after `i`.
pub open spec fn sp_ws(s: Seq<u8>, i: int) -> int
    decreases s.len() - i,
{
    if 0 <= i < s.len() && is_ws(s[i]) {
        sp_ws(s, i + 1)
    } else {
        i
    }
}

/// The byte produced by a single-character escape, if it is one.
pub open spec fn esc_byte(c: u8) -> Option<u8> {
    if c == 0x22 {
        Some(0x22u8)
    } else if c == 0x5c {
        Some(0x5cu8)
    } else if c == 0x2f {
        Some(0x2fu8)
    } else if c == 0x62 {
        Some(0x08u8)
    } else if c == 0x66 {
        Some(0x0cu8)
    } else if c == 0x6e {
        Some(0x0au8)
    } else if c == 0x72 {
        Some(0x0du8)
    } else if c == 0x74 {
        Some(0x09u8)
    } else {
        None
    }
}

/// Value of one hexadecimal digit.
pub open spec fn hex_val(c: u8) -> Option<u8> {
    if 0x30 <= c <= 0x39 {
        Some((c - 0x30) as u8)
    } else if 0x41 <= c <= 0x46 {
        Some((c - 0x41 + 10) as u8)
    } else if 0x61 <= c <= 0x66 {
        Some((c - 0x61 + 10) as u8)
    } else {
        None
    }
}

/// Value of the four hexadecimal digits at `i`, if they are there.
#[verifier::opaque]
pub open spec fn hex4(s: Seq<u8>, i: int) -> Option<int> {
    if i + 4 <= s.len() && 0 <= i && hex_val(s[i]) is Some && hex_val(s[i + 1]) is Some && hex_val(
        s[i + 2],
    ) is Some && hex_val(s[i + 3]) is Some {
        Some(
            hex_val(s[i]).unwrap() * 0x1000 + hex_val(s[i + 1]).unwrap() * 0x100 + hex_val(
                s[i + 2],
            ).unwrap() * 0x10 + hex_val(s[i + 3]).unwrap(),
        )
    } else {
        None
    }
}

/// UTF-8 encoding of a code point below 0x110000.
#[verifier::opaque]
pub open spec fn utf8_bytes(cp: int) -> Seq<u8> {
    if cp < 0x80 {
        seq![cp as u8]
    } else if cp < 0x800 {
        seq![(0xc0 + cp / 0x40) as u8, (0x80 + cp % 0x40) as u8]
    } else if cp < 0x10000 {
        seq![(0xe0 + cp / 0x1000) as u8, (0x80 + (cp / 0x40) % 0x40) as u8, (0x80 + cp % 0x40) as u8]
    } else {
        seq![
            (0xf0 + cp / 0x40000) as u8,
            (0x80 + (cp / 0x1000) % 0x40) as u8,
            (0x80 + (cp / 0x40) % 0x40) as u8,
            (0x80 + cp % 0x40) as u8,
        ]
    }
}

/// Is `c` a UTF-8 continuation byte?
pub open spec fn is_cont(c: u8) -> bool {
    0x80 <= c <= 0xbf
}

/// Decodes the interior of a string literal starting at `i` (just after the
/// opening quote), accumulating decoded bytes in `acc`; returns the decoded
/// content and the position just after the closing quote. Unescaped
/// content must be well-formed UTF-8 (no overlong forms, no surrogates).
pub open spec fn sp_string(s: Seq<u8>, i: int, acc: Seq<u8>) -> Option<(Seq<u8>, int)>
    decreases s.len() - i,
{
    if i < 0 || i >= s.len() {
        None
    } else if s[i] == 0x22 {
        Some((acc, i + 1))
    } else if s[i] == 0x5c {
        if i + 1 >= s.len() {
            None
        } else if s[i + 1] == 0x75 {
            match hex4(s, i + 2) {
                None => None,
                Some(c1) => {
                    if 0xd800 <= c1 < 0xdc00 {
                        // leading surrogate: a trailing surrogate escape must follow
                        if s.len() >= 12 && i <= s.len() - 12 && s[i + 6] == 0x5c && s[i + 7] == 0x75 {
                            match hex4(s, i + 8) {
                                None => None,
                                Some(c2) => {
                                    if 0xdc00 <= c2 < 0xe000 {
                                        sp_string(
                                            s,
                                            i + 12,
                                            acc + utf8_bytes(
                                                0x10000 + (c1 - 0xd800) * 0x400 + (c2 - 0xdc00),
                                            ),
                                        )
                                    } else {
                                        None
                                    }
                                },
                            }
                        } else {
                            None
                        }
                    } else if 0xdc00 <= c1 < 0xe000 {
                        // lone trailing surrogate
                        None
                    } else if i + 6 <= s.len() {
                        sp_string(s, i + 6, acc + utf8_bytes(c1))
                    } else {
                        None
                    }
                },
            }
        } else {
            match esc_byte(s[i + 1]) {
                None => None,
                Some(b) => sp_string(s, i + 2, acc.push(b)),
            }
        }
    } else if s[i] < 0x20 {
        None
    } else if s[i] < 0x80 {
        sp_string(s, i + 1, acc.push(s[i]))
    } else if 0xc2 <= s[i] <= 0xdf {
        if i + 2 <= s.len() && is_cont(s[i + 1]) {
            sp_string(s, i + 2, acc.push(s[i]).push(s[i + 1]))
        } else {
            None
        }
    } else if s[i] == 0xe0 {
        if i + 3 <= s.len() && 0xa0 <= s[i + 1] <= 0xbf && is_cont(s[i + 2]) {
            sp_string(s, i + 3, acc.push(s[i]).push(s[i + 1]).push(s[i + 2]))
        } else {
            None
        }
    } else if (0xe1 <= s[i] <= 0xec) || s[i] == 0xee || s[i] == 0xef {
        if i + 3 <= s.len() && is_cont(s[i + 1]) && is_cont(s[i + 2]) {
            sp_string(s, i + 3, acc.push(s[i]).push(s[i + 1]).push(s[i + 2]))
        } else {
            None
        }
    } else if s[i] == 0xed {
        if i + 3 <= s.len() && 0x80 <= s[i + 1] <= 0x9f && is_cont(s[i + 2]) {
            sp_string(s, i + 3, acc.push(s[i]).push(s[i + 1]).push(s[i + 2]))
        } else {
            None
        }
    } else if s[i] == 0xf0 {
        if i + 4 <= s.len() && 0x90 <= s[i + 1] <= 0xbf && is_cont(s[i + 2]) && is_cont(s[i + 3]) {
            sp_string(s, i + 4, acc.push(s[i]).push(s[i + 1]).push(s[i + 2]).push(s[i + 3]))
        } else {
            None
        }
    } else if 0xf1 <= s[i] <= 0xf3 {
        if i + 4 <= s.len() && is_cont(s[i + 1]) && is_cont(s[i + 2]) && is_cont(s[i + 3]) {
            sp_string(s, i + 4, acc.push(s[i]).push(s[i + 1]).push(s[i + 2]).push(s[i + 3]))
        } else {
            None
        }
    } else if s[i] == 0xf4 {
        if i + 4 <= s.len() && 0x80 <= s[i + 1] <= 0x8f && is_cont(s[i + 2]) && is_cont(s[i + 3]) {
            sp_string(s, i + 4, acc.push(s[i]).push(s[i + 1]).push(s[i + 2]).push(s[i + 3]))
        } else {
            None
        }
    } else {
        None
    }
}

/// Is `c` an ASCII decimal digit?
pub open spec fn is_digit(c: u8) -> bool {
    0x30 <= c <= 0x39
}

/// Position just after the run of decimal digits starting at `i`.
pub open spec fn sp_digits_end(s: Seq<u8>, i: int) -> int
    decreases s.len() - i,
{
    if 0 <= i < s.len() && is_digit(s[i]) {
        sp_digits_end(s, i + 1)
    } else {
        i
    }
}

/// Value of the digits in `[i, j)` on top of `acc`, or `None` on `u64`
/// overflow (a `None` accumulator stays `None`).
pub open spec fn sp_digits_val(s: Seq<u8>, i: int, j: int, acc: Option<u64>) -> Option<u64>
    decreases j - i,
{
    if i < 0 || i >= j || j > s.len() {
        acc
    } else {
        match acc {
            None => sp_digits_val(s, i + 1, j, None),
            Some(a) => {
                let v = a * 10 + (s[i] - 0x30);
                if v > 0xffff_ffff_ffff_ffff {
                    sp_digits_val(s, i + 1, j, None)
                } else {
                    sp_digits_val(s, i + 1, j, Some(v as u64))
                }
            },
        }
    }
}

/// Parses a JSON number starting at `i`: optional minus, integer part
/// without a superfluous leading zero, optional fraction and exponent.
/// A plain integer that fits `u64` becomes `UInt`, every other
/// well-formed number `OtherNum`.
pub open spec fn sp_number(s: Seq<u8>, i: int) -> Option<(Json, int)> {
    let neg = 0 <= i < s.len() && s[i] == 0x2d;
    let p0 = if neg {
        i + 1
    } else {
        i
    };
    if !(0 <= p0 < s.len() && is_digit(s[p0])) {
        None
    } else {
        let p1 = sp_digits_end(s, p0);
        if s[p0] == 0x30 && p1 > p0 + 1 {
            None
        } else {
            let has_frac = p1 < s.len() && s[p1] == 0x2e;
            let p2 = if has_frac {
                sp_digits_end(s, p1 + 1)
            } else {
                p1
            };
            if has_frac && p2 == p1 + 1 {
                None
            } else {
                let has_exp = p2 < s.len() && (s[p2] == 0x65 || s[p2] == 0x45);
                if has_exp {
                    let p3 = if p2 + 1 < s.len() && (s[p2 + 1] == 0x2b || s[p2 + 1] == 0x2d) {
                        p2 + 2
                    } else {
                        p2 + 1
                    };
                    let p4 = sp_digits_end(s, p3);
                    if p4 == p3 {
                        None
                    } else {
                        Some((Json::OtherNum, p4))
                    }
                } else if neg || has_frac {
                    Some((Json::OtherNum, p2))
                } else {
                    match sp_digits_val(s, p0, p1, Some(0u64)) {
                        Some(v) => Some((Json::UInt(v), p1)),
                        None => Some((Json::OtherNum, p1)),
                    }
                }
            }
        }
    }
}

/// Clamps a continuation position into `[lo, s.len()]`; the parsers only
/// ever produce positions already in that range, so this is the identity
/// wherever it is applied, and it makes termination of the mutually
/// recursive grammar functions evident.
pub open spec fn pos_in(s: Seq<u8>, lo: int, p: int) -> int {
    if p > s.len() {
        s.len() as int
    } else if p < lo {
        lo
    } else {
        p
    }
}

/// Parses one JSON value starting exactly at `i`. `d` is the remaining
/// container-nesting budget: entering an object or array with none left
/// fails the parse.
pub open spec fn sp_value(s: Seq<u8>, i: int, d: int) -> Option<(Json, int)>
    decreases s.len() - i, 0int,
{
    if i < 0 || i >= s.len() {
        None
    } else {
        let c = s[i];
        if c == 0x22 {
            match sp_string(s, i + 1, Seq::empty()) {
                None => None,
                Some((cs, n)) => Some((Json::JStr(cs), n)),
            }
        } else if c == 0x7b {
            if d <= 0 {
                None
            } else {
                sp_obj_body(s, i + 1, d - 1)
            }
        } else if c == 0x5b {
            if d <= 0 {
                None
            } else {
                sp_arr_body(s, i + 1, d - 1)
            }
        } else if c == 0x74 {
            if i + 4 <= s.len() && s[i + 1] == 0x72 && s[i + 2] == 0x75 && s[i + 3] == 0x65 {
                Some((Json::Bool(true), i + 4))
            } else {
                None
            }
        } else if c == 0x66 {
            if i + 5 <= s.len() && s[i + 1] == 0x61 && s[i + 2] == 0x6c && s[i + 3] == 0x73 && s[i
                + 4] == 0x65 {
                Some((Json::Bool(false), i + 5))
            } else {
                None
            }
        } else if c == 0x6e {
            if i + 4 <= s.len() && s[i + 1] == 0x75 && s[i + 2] == 0x6c && s[i + 3] == 0x6c {
                Some((Json::Null, i + 4))
            } else {
                None
            }
        } else if c == 0x2d || is_digit(c) {
            sp_number(s, i)
        } else {
            None
        }
    }
}

/// Parses the interior of an object, `i` pointing just after `{`.
pub open spec fn sp_obj_body(s: Seq<u8>, i: int, d: int) -> Option<(Json, int)>
    decreases s.len() - i, 2int,
{
    if i < 0 || i > s.len() {
        None
    } else {
        let j = pos_in(s, i, sp_ws(s, i));
        if j < s.len() && s[j] == 0x7d {
            Some((Json::Obj(Seq::empty()), j + 1))
        } else {
            match sp_members(s, j, d) {
                None => None,
                Some((ms, n)) => Some((Json::Obj(ms), n)),
            }
        }
    }
}

/// Parses one or more `"key": value` members starting exactly at `i`,
/// up to and including the closing `}`.
pub open spec fn sp_members(s: Seq<u8>, i: int, d: int) -> Option<(Seq<(Seq<u8>, Json)>, int)>
    decreases s.len() - i, 1int,
{
    if i < 0 || i >= s.len() || s[i] != 0x22 {
        None
    } else {
        match sp_string(s, i + 1, Seq::empty()) {
            None => None,
            Some((key, p)) => {
                let q = sp_ws(s, p);
                if q < s.len() && s[q] == 0x3a {
                    let r = pos_in(s, i + 1, sp_ws(s, q + 1));
                    match sp_value(s, r, d) {
                        None => None,
                        Some((v, t)) => {
                            let u = sp_ws(s, t);
                            if u < s.len() && s[u] == 0x2c {
                                let w = pos_in(s, i + 1, sp_ws(s, u + 1));
                                match sp_members(s, w, d) {
                                    None => None,
                                    Some((rest, fin)) => Some((seq![(key, v)] + rest, fin)),
                                }
                            } else if u < s.len() && s[u] == 0x7d {
                                Some((seq![(key, v)], u + 1))
                            } else {
                                None
                            }
                        },
                    }
                } else {
                    None
                }
            },
        }
    }
}

/// Parses the interior of an array, `i` pointing just after `[`.
pub open spec fn sp_arr_body(s: Seq<u8>, i: int, d: int) -> Option<(Json, int)>
    decreases s.len() - i, 2int,
{
    if i < 0 || i > s.len() {
        None
    } else {
        let j = pos_in(s, i, sp_ws(s, i));
        if j < s.len() && s[j] == 0x5d {
            Some((Json::Arr(Seq::empty()), j + 1))
        } else {
            match sp_elems(s, j, d) {
                None => None,
                Some((es, n)) => Some((Json::Arr(es), n)),
            }
        }
    }
}

/// Parses one or more array elements starting exactly at `i`, up to and
/// including the closing `]`.
pub open spec fn sp_elems(s: Seq<u8>, i: int, d: int) -> Option<(Seq<Json>, int)>
    decreases s.len() - i, 1int,
{
    if i < 0 || i >= s.len() {
        None
    } else {
        match sp_value(s, i, d) {
            None => None,
            Some((v, t)) => {
                let u = sp_ws(s, t);
                if u < s.len() && s[u] == 0x2c {
                    let w = pos_in(s, i + 1, sp_ws(s, u + 1));
                    match sp_elems(s, w, d) {
                        None => None,
                        Some((rest, fin)) => Some((seq![v] + rest, fin)),
                    }
                } else if u < s.len() && s[u] == 0x5d {
                    Some((seq![v], u + 1))
                } else {
                    None
                }
            },
        }
    }
}

/// Parses a whole document: one value surrounded by whitespace only,
/// with at most 128 levels of container nesting.
pub open spec fn sp_doc(s: Seq<u8>) -> Option<Json> {
    match sp_value(s, sp_ws(s, 0), 128) {
        None => None,
        Some((v, n)) => {
            if sp_ws(s, n) == s.len() {
                Some(v)
            } else {
                None
            }
        },
    }
}

/// The bytes of the key `stargazers_count`.
pub open spec fn key_stars() -> Seq<u8> {
    seq![
        115u8,
        116u8,
        97u8,
        114u8,
        103u8,
        97u8,
        122u8,
        101u8,
        114u8,
        115u8,
        95u8,
        99u8,
        111u8,
        117u8,
        110u8,
        116u8,
    ]
}

/// The bytes of the key `open_issues_count`.
pub open spec fn key_issues() -> Seq<u8> {
    seq![
        111u8,
        112u8,
        101u8,
        110u8,
        95u8,
        105u8,
        115u8,
        115u8,
        117u8,
        101u8,
        115u8,
        95u8,
        99u8,
        111u8,
        117u8,
        110u8,
        116u8,
    ]
}

/// What the scan knows about one required field: not seen yet, seen once
/// with a `u64` value, or ruled out (duplicate or non-integer value).
#[derive(Clone, Copy, Debug, PartialEq, Eq, Structural)]
pub enum FieldSt {
    Missing,
    Found(u64),
    Invalid,
}

/// One sighting of a required key updates its state: a first `UInt` value
/// records it, anything else (wrong type, or any second sighting) rules
/// the whole record out.
pub open spec fn field_upd(st: FieldSt, v: Json) -> FieldSt {
    match st {
        FieldSt::Missing => match v {
            Json::UInt(n) => FieldSt::Found(n),
            _ => FieldSt::Invalid,
        },
        _ => FieldSt::Invalid,
    }
}

/// Effect of one object member on the pair of field states
/// `(stargazers, open issues)`; members under other keys are ignored.
pub open spec fn member_step(st: (FieldSt, FieldSt), m: (Seq<u8>, Json)) -> (FieldSt, FieldSt) {
    if m.0 == key_stars() {
        (field_upd(st.0, m.1), st.1)
    } else if m.0 == key_issues() {
        (st.0, field_upd(st.1, m.1))
    } else {
        st
    }
}

/// Folds `member_step` over the members in order.
pub open spec fn scan_members(ms: Seq<(Seq<u8>, Json)>, st: (FieldSt, FieldSt)) -> (FieldSt, FieldSt)
    decreases ms.len(),
{
    if ms.len() == 0 {
        st
    } else {
        scan_members(ms.drop_first(), member_step(st, ms[0]))
    }
}

/// The two counters held by a decoded document, as
/// `(stargazers_count, open_issues_count)`: the document must be an
/// object in which each required key is bound exactly once to a plain
/// non-negative integer fitting `u64`.
pub open spec fn counts_of(j: Json) -> Option<(u64, u64)> {
    match j {
        Json::Obj(ms) => {
            let st = scan_members(ms, (FieldSt::Missing, FieldSt::Missing));
            match st.0 {
                FieldSt::Found(sc) => match st.1 {
                    FieldSt::Found(ic) => Some((sc, ic)),
                    _ => None,
                },
                _ => None,
            }
        },
        _ => None,
    }
}

/// The whole decode: parse the body as a JSON document, then read the two
/// counters out of it; `None` on any syntax or schema mismatch.
pub open spec fn spec_decode(s: Seq<u8>) -> Option<(u64, u64)> {
    match sp_doc(s) {
        None => None,
        Some(j) => counts_of(j),
    }
}

/// Advances over insignificant whitespace.
fn skip_ws(s: &[u8], start: usize) -> (r: usize)
    requires
        start <= s@.len(),
    ensures
        r as int == sp_ws(s@, start as int),
        start <= r <= s@.len(),
{
    let mut i: usize = start;
    while i < s.len() && (s[i] == 0x20 || s[i] == 0x09 || s[i] == 0x0a || s[i] == 0x0d)
        invariant
            start <= i <= s@.len(),
            sp_ws(s@, start as int) == sp_ws(s@, i as int),
        decreases s@.len() - i,
    {
        i = i + 1;
    }
    i
}

/// Mirrors `esc_byte`.
fn esc_b(e: u8) -> (r: Option<u8>)
    ensures
        r == esc_byte(e),
{
    if e == 0x22 {
        Some(0x22u8)
    } else if e == 0x5c {
        Some(0x5cu8)
    } else if e == 0x2f {
        Some(0x2fu8)
    } else if e == 0x62 {
        Some(0x08u8)
    } else if e == 0x66 {
        Some(0x0cu8)
    } else if e == 0x6e {
        Some(0x0au8)
    } else if e == 0x72 {
        Some(0x0du8)
    } else if e == 0x74 {
        Some(0x09u8)
    } else {
        None
    }
}

/// Mirrors `hex_val`.
fn hex_v(c: u8) -> (r: Option<u8>)
    ensures
        r == hex_val(c),
{
    if 0x30 <= c && c <= 0x39 {
        Some(c - 0x30)
    } else if 0x41 <= c && c <= 0x46 {
        Some(c - 0x41 + 10)
    } else if 0x61 <= c && c <= 0x66 {
        Some(c - 0x61 + 10)
    } else {
        None
    }
}

/// Reads the four hexadecimal digits at `j`, mirroring `hex4`.
fn hex4_at(s: &[u8], j: usize) -> (r: Option<u32>)
    requires
        j <= s@.len(),
    ensures
        match r {
            None => hex4(s@, j as int) is None,
            Some(v) => hex4(s@, j as int) == Some(v as int) && v < 0x10000 && j + 4
                <= s@.len(),
        },
{
    proof {
        reveal(hex4);
    }
    if s.len() < 4 || j > s.len() - 4 {
        return None;
    }
    let h0 = hex_v(s[j]);
    let h1 = hex_v(s[j + 1]);
    let h2 = hex_v(s[j + 2]);
    let h3 = hex_v(s[j + 3]);
    match (h0, h1, h2, h3) {
        (Some(a), Some(b), Some(c), Some(d)) => Some(
            (a as u32) * 0x1000 + (b as u32) * 0x100 + (c as u32) * 0x10 + (d as u32),
        ),
        _ => None,
    }
}

/// Appends the UTF-8 encoding of `cp` to `acc`.
fn push_utf8(acc: &mut Vec<u8>, cp: u32)
    requires
        cp < 0x110000,
    ensures
        final(acc)@ == old(acc)@ + utf8_bytes(cp as int),
{
    proof {
        reveal(utf8_bytes);
    }
    if cp < 0x80 {
        acc.push(cp as u8);
    } else if cp < 0x800 {
        acc.push((0xc0 + cp / 0x40) as u8);
        acc.push((0x80 + cp % 0x40) as u8);
    } else if cp < 0x10000 {
        acc.push((0xe0 + cp / 0x1000) as u8);
        acc.push((0x80 + (cp / 0x40) % 0x40) as u8);
        acc.push((0x80 + cp % 0x40) as u8);
    } else {
        acc.push((0xf0 + cp / 0x40000) as u8);
        acc.push((0x80 + (cp / 0x1000) % 0x40) as u8);
        acc.push((0x80 + (cp / 0x40) % 0x40) as u8);
        acc.push((0x80 + cp % 0x40) as u8);
    }
    proof {
        assert(acc@ =~= old(acc)@ + utf8_bytes(cp as int));
    }
}

/// Handles one backslash escape, `i` pointing at the backslash; appends
/// the decoded bytes to `acc` and returns the position after the escape.
#[verifier::rlimit(100)]
fn parse_escape(s: &[u8], i: usize, acc: &mut Vec<u8>) -> (r: Option<usize>)
    requires
        i < s@.len(),
        s@[i as int] == 0x5c,
    ensures
        match r {
            None => sp_string(s@, i as int, old(acc)@) is None,
            Some(n) => i < n <= s@.len() && sp_string(s@, i as int, old(acc)@) == sp_string(
                s@,
                n as int,
                final(acc)@,
            ),
        },
{
    if s.len() - i < 2 {
        return None;
    }
    let e = s[i + 1];
    if e == 0x75 {
        match hex4_at(s, i + 2) {
            None => None,
            Some(c1) => {
                if 0xd800 <= c1 && c1 < 0xdc00 {
                    if s.len() >= 12 && i <= s.len() - 12 && s[i + 6] == 0x5c && s[i + 7] == 0x75 {
                        match hex4_at(s, i + 8) {
                            None => None,
                            Some(c2) => {
                                if 0xdc00 <= c2 && c2 < 0xe000 {
                                    let cp: u32 = 0x10000 + (c1 - 0xd800) * 0x400 + (c2 - 0xdc00);
                                    push_utf8(acc, cp);
                                    Some(i + 12)
                                } else {
                                    None
                                }
                            },
                        }
                    } else {
                        None
                    }
                } else if 0xdc00 <= c1 && c1 < 0xe000 {
                    None
                } else {
                    push_utf8(acc, c1);
                    Some(i + 6)
                }
            },
        }
    } else {
        match esc_b(e) {
            None => None,
            Some(b) => {
                acc.push(b);
                Some(i + 2)
            },
        }
    }
}

/// Handles one unescaped UTF-8 encoded scalar, `i` pointing at its first
/// byte; appends its bytes to `acc` and returns the following position.
#[verifier::rlimit(100)]
fn parse_raw(s: &[u8], i: usize, acc: &mut Vec<u8>) -> (r: Option<usize>)
    requires
        i < s@.len(),
        s@[i as int] != 0x22,
        s@[i as int] != 0x5c,
        0x20 <= s@[i as int],
    ensures
        match r {
            None => sp_string(s@, i as int, old(acc)@) is None,
            Some(n) => i < n <= s@.len() && sp_string(s@, i as int, old(acc)@) == sp_string(
                s@,
                n as int,
                final(acc)@,
            ),
        },
{
    let c = s[i];
    if c < 0x80 {
        acc.push(c);
        Some(i + 1)
    } else if 0xc2 <= c && c <= 0xdf {
        if s.len() - i >= 2 && 0x80 <= s[i + 1] && s[i + 1] <= 0xbf {
            acc.push(c);
            acc.push(s[i + 1]);
            Some(i + 2)
        } else {
            None
        }
    } else if c == 0xe0 {
        if s.len() - i >= 3 && 0xa0 <= s[i + 1] && s[i + 1] <= 0xbf && 0x80 <= s[i + 2] && s[i + 2]
            <= 0xbf {
            acc.push(c);
            acc.push(s[i + 1]);
            acc.push(s[i + 2]);
            Some(i + 3)
        } else {
            None
        }
    } else if (0xe1 <= c && c <= 0xec) || c == 0xee || c == 0xef {
        if s.len() - i >= 3 && 0x80 <= s[i + 1] && s[i + 1] <= 0xbf && 0x80 <= s[i + 2] && s[i + 2]
            <= 0xbf {
            acc.push(c);
            acc.push(s[i + 1]);
            acc.push(s[i + 2]);
            Some(i + 3)
        } else {
            None
        }
    } else if c == 0xed {
        if s.len() - i >= 3 && 0x80 <= s[i + 1] && s[i + 1] <= 0x9f && 0x80 <= s[i + 2] && s[i + 2]
            <= 0xbf {
            acc.push(c);
            acc.push(s[i + 1]);
            acc.push(s[i + 2]);
            Some(i + 3)
        } else {
            None
        }
    } else if c == 0xf0 {
        if s.len() - i >= 4 && 0x90 <= s[i + 1] && s[i + 1] <= 0xbf && 0x80 <= s[i + 2] && s[i + 2]
            <= 0xbf && 0x80 <= s[i + 3] && s[i + 3] <= 0xbf {
            acc.push(c);
            acc.push(s[i + 1]);
            acc.push(s[i + 2]);
            acc.push(s[i + 3]);
            Some(i + 4)
        } else {
            None
        }
    } else if 0xf1 <= c && c <= 0xf3 {
        if s.len() - i >= 4 && 0x80 <= s[i + 1] && s[i + 1] <= 0xbf && 0x80 <= s[i + 2] && s[i + 2]
            <= 0xbf && 0x80 <= s[i + 3] && s[i + 3] <= 0xbf {
            acc.push(c);
            acc.push(s[i + 1]);
            acc.push(s[i + 2]);
            acc.push(s[i + 3]);
            Some(i + 4)
        } else {
            None
        }
    } else if c == 0xf4 {
        if s.len() - i >= 4 && 0x80 <= s[i + 1] && s[i + 1] <= 0x8f && 0x80 <= s[i + 2] && s[i + 2]
            <= 0xbf && 0x80 <= s[i + 3] && s[i + 3] <= 0xbf {
            acc.push(c);
            acc.push(s[i + 1]);
            acc.push(s[i + 2]);
            acc.push(s[i + 3]);
            Some(i + 4)
        } else {
            None
        }
    } else {
        None
    }
}

/// Decodes a string literal's interior, `start` pointing just after the
/// opening quote; returns the decoded bytes and the position just after
/// the closing quote.
fn parse_string(s: &[u8], start: usize) -> (r: Option<(Vec<u8>, usize)>)
    requires
        start <= s@.len(),
    ensures
        match r {
            None => sp_string(s@, start as int, Seq::empty()) is None,
            Some(p) => sp_string(s@, start as int, Seq::empty()) == Some((p.0@, p.1 as int))
                && start < p.1 <= s@.len(),
        },
{
    let mut i: usize = start;
    let mut acc: Vec<u8> = Vec::new();
    loop
        invariant
            start <= i <= s@.len(),
            sp_string(s@, start as int, Seq::empty()) == sp_string(s@, i as int, acc@),
        decreases s@.len() - i,
    {
        if i >= s.len() {
            return None;
        }
        let c = s[i];
        if c == 0x22 {
            return Some((acc, i + 1));
        }
        if c == 0x5c {
            match parse_escape(s, i, &mut acc) {
                None => {
                    return None;
                },
                Some(n) => {
                    i = n;
                },
            }
        } else if c < 0x20 {
            return None;
        } else {
            match parse_raw(s, i, &mut acc) {
                None => {
                    return None;
                },
                Some(n) => {
                    i = n;
                },
            }
        }
    }
}

/// Advances over a run of decimal digits.
fn scan_digits(s: &[u8], start: usize) -> (r: usize)
    requires
        start <= s@.len(),
    ensures
        r as int == sp_digits_end(s@, start as int),
        start <= r <= s@.len(),
        forall|k: int| start <= k < r ==> is_digit(s@[k]),
        start < s@.len() && is_digit(s@[start as int]) ==> r > start,
{
    let mut i: usize = start;
    while i < s.len() && 0x30 <= s[i] && s[i] <= 0x39
        invariant
            start <= i <= s@.len(),
            sp_digits_end(s@, start as int) == sp_digits_end(s@, i as int),
            forall|k: int| start <= k < i ==> is_digit(s@[k]),
        decreases s@.len() - i,
    {
        i = i + 1;
    }
    i
}

/// Value of the digit run `[i, j)`, `None` on `u64` overflow.
fn digits_value(s: &[u8], i: usize, j: usize) -> (r: Option<u64>)
    requires
        i <= j <= s@.len(),
        forall|k: int| i <= k < j ==> is_digit(s@[k]),
    ensures
        r == sp_digits_val(s@, i as int, j as int, Some(0u64)),
{
    let mut cur: usize = i;
    let mut acc: Option<u64> = Some(0u64);
    while cur < j
        invariant
            i <= cur <= j <= s@.len(),
            forall|k: int| i <= k < j ==> is_digit(s@[k]),
            sp_digits_val(s@, i as int, j as int, Some(0u64)) == sp_digits_val(
                s@,
                cur as int,
                j as int,
                acc,
            ),
        decreases j - cur,
    {
        let d: u8 = s[cur] - 0x30;
        acc = match acc {
            None => None,
            Some(a) => match a.checked_mul(10) {
                None => None,
                Some(m) => m.checked_add(d as u64),
            },
        };
        cur = cur + 1;
    }
    acc
}

/// Parses a number starting at `start`, mirroring `sp_number`: the
/// returned flag is the `u64` value for a plain integer and `None` for
/// every other well-formed number.
fn parse_number(s: &[u8], start: usize) -> (r: Option<(Option<u64>, usize)>)
    requires
        start <= s@.len(),
    ensures
        match r {
            None => sp_number(s@, start as int) is None,
            Some(p) => start < p.1 <= s@.len() && (match p.0 {
                Some(v) => sp_number(s@, start as int) == Some((Json::UInt(v), p.1 as int)),
                None => sp_number(s@, start as int) == Some((Json::OtherNum, p.1 as int)),
            }),
        },
{
    let mut p: usize = start;
    let neg = p < s.len() && s[p] == 0x2d;
    if neg {
        p = p + 1;
    }
    if !(p < s.len() && 0x30 <= s[p] && s[p] <= 0x39) {
        return None;
    }
    let p0 = p;
    let p1 = scan_digits(s, p0);
    if s[p0] == 0x30 && p1 > p0 + 1 {
        return None;
    }
    let mut has_frac = false;
    let mut p2 = p1;
    if p1 < s.len() && s[p1] == 0x2e {
        has_frac = true;
        p2 = scan_digits(s, p1 + 1);
        if p2 == p1 + 1 {
            return None;
        }
    }
    if p2 < s.len() && (s[p2] == 0x65 || s[p2] == 0x45) {
        let mut p3 = p2 + 1;
        if p3 < s.len() && (s[p3] == 0x2b || s[p3] == 0x2d) {
            p3 = p3 + 1;
        }
        let p4 = scan_digits(s, p3);
        if p4 == p3 {
            return None;
        }
        return Some((None, p4));
    }
    if neg || has_frac {
        return Some((None, p2));
    }
    let v = digits_value(s, p0, p1);
    Some((v, p1))
}

/// How many members of `ms` are bound to the key `k`.
pub open spec fn occ(ms: Seq<(Seq<u8>, Json)>, k: Seq<u8>) -> nat
    decreases ms.len(),
{
    if ms.len() == 0 {
        0
    } else {
        (if ms[0].0 == k {
            1nat
        } else {
            0nat
        }) + occ(ms.drop_first(), k)
    }
}

/// Value of the first member of `ms` bound to the key `k`.
pub open spec fn first_val(ms: Seq<(Seq<u8>, Json)>, k: Seq<u8>) -> Option<Json>
    decreases ms.len(),
{
    if ms.len() == 0 {
        None
    } else if ms[0].0 == k {
        Some(ms[0].1)
    } else {
        first_val(ms.drop_first(), k)
    }
}

/// Field state after folding only the members bound to `k`, in order.
pub open spec fn field_after(st: FieldSt, ms: Seq<(Seq<u8>, Json)>, k: Seq<u8>) -> FieldSt
    decreases ms.len(),
{
    if ms.len() == 0 {
        st
    } else {
        field_after(
            if ms[0].0 == k {
                field_upd(st, ms[0].1)
            } else {
                st
            },
            ms.drop_first(),
            k,
        )
    }
}

/// The field state that a fresh scan of `ms` reaches for the key `k`:
/// `Found` exactly when `k` is bound exactly once, to a plain
/// non-negative integer fitting `u64`.
pub open spec fn field_outcome(ms: Seq<(Seq<u8>, Json)>, k: Seq<u8>) -> FieldSt {
    match first_val(ms, k) {
        None => FieldSt::Missing,
        Some(v) => if occ(ms, k) == 1 {
            match v {
                Json::UInt(n) => FieldSt::Found(n),
                _ => FieldSt::Invalid,
            }
        } else {
            FieldSt::Invalid
        },
    }
}

/// The member scan treats the two required keys independently.
proof fn lemma_scan_fields(ms: Seq<(Seq<u8>, Json)>, st: (FieldSt, FieldSt))
    ensures
        scan_members(ms, st).0 == field_after(st.0, ms, key_stars()),
        scan_members(ms, st).1 == field_after(st.1, ms, key_issues()),
    decreases ms.len(),
{
    assert(key_stars().len() == 16 && key_issues().len() == 17);
    if ms.len() > 0 {
        lemma_scan_fields(ms.drop_first(), member_step(st, ms[0]));
    }
}

/// `Invalid` is absorbing for the field fold.
proof fn lemma_field_invalid(ms: Seq<(Seq<u8>, Json)>, k: Seq<u8>)
    ensures
        field_after(FieldSt::Invalid, ms, k) == FieldSt::Invalid,
    decreases ms.len(),
{
    if ms.len() > 0 {
        lemma_field_invalid(ms.drop_first(), k);
    }
}

/// A recorded value survives the rest of the fold exactly when the key
/// never appears again.
proof fn lemma_field_found(ms: Seq<(Seq<u8>, Json)>, k: Seq<u8>, b: u64)
    ensures
        field_after(FieldSt::Found(b), ms, k) == if occ(ms, k) == 0 {
            FieldSt::Found(b)
        } else {
            FieldSt::Invalid
        },
    decreases ms.len(),
{
    if ms.len() > 0 {
        if ms[0].0 == k {
            lemma_field_invalid(ms.drop_first(), k);
        } else {
            lemma_field_found(ms.drop_first(), k, b);
        }
    }
}

/// A fresh fold over the members computes exactly `field_outcome`.
proof fn lemma_field_missing(ms: Seq<(Seq<u8>, Json)>, k: Seq<u8>)
    ensures
        field_after(FieldSt::Missing, ms, k) == field_outcome(ms, k),
    decreases ms.len(),
{
    if ms.len() > 0 {
        if ms[0].0 == k {
            match ms[0].1 {
                Json::UInt(b) => {
                    lemma_field_found(ms.drop_first(), k, b);
                },
                _ => {
                    lemma_field_invalid(ms.drop_first(), k);
                },
            }
        } else {
            lemma_field_missing(ms.drop_first(), k);
        }
    }
}

/// A decoded document that is an object binding each required key exactly
/// once to a plain non-negative integer decodes to exactly those two
/// values, untransformed.
pub proof fn lemma_decode_exact(s: Seq<u8>, ms: Seq<(Seq<u8>, Json)>, a: u64, b: u64)
    requires
        sp_doc(s) == Some(Json::Obj(ms)),
        occ(ms, key_stars()) == 1,
        first_val(ms, key_stars()) == Some(Json::UInt(a)),
        occ(ms, key_issues()) == 1,
        first_val(ms, key_issues()) == Some(Json::UInt(b)),
    ensures
        spec_decode(s) == Some((a, b)),
{
    lemma_scan_fields(ms, (FieldSt::Missing, FieldSt::Missing));
    lemma_field_missing(ms, key_stars());
    lemma_field_missing(ms, key_issues());
}

/// A decoded document whose object does not bind some required key
/// exactly once to a plain non-negative integer fails the decode.
pub proof fn lemma_decode_rejects(s: Seq<u8>, ms: Seq<(Seq<u8>, Json)>)
    requires
        sp_doc(s) == Some(Json::Obj(ms)),
        !(field_outcome(ms, key_stars()) is Found) || !(field_outcome(ms, key_issues()) is Found),
    ensures
        spec_decode(s) is None,
{
    lemma_scan_fields(ms, (FieldSt::Missing, FieldSt::Missing));
    lemma_field_missing(ms, key_stars());
    lemma_field_missing(ms, key_issues());
}

/// A decoded document that is not an object at all fails the decode.
pub proof fn lemma_decode_not_object(s: Seq<u8>, j: Json)
    requires
        sp_doc(s) == Some(j),
        !(j is Obj),
    ensures
        spec_decode(s) is None,
{
}

/// What the streaming decoder keeps of one parsed value: its `u64` value
/// if it is a plain non-negative integer, nothing otherwise.
#[derive(Clone, Copy)]
enum ValKind {
    Uint(u64),
    Other,
}

/// A value that does not begin with `{` is never an object.
proof fn lemma_value_shape(s: Seq<u8>, i: int, d: int)
    requires
        !(0 <= i < s.len() && s[i] == 0x7b),
    ensures
        sp_value(s, i, d) matches Some(jn) ==> !(jn.0 is Obj),
{
    if 0 <= i < s.len() {
        let c = s[i];
        if c == 0x5b && d > 0 {
            assert(sp_value(s, i, d) == sp_arr_body(s, i + 1, d - 1));
        }
    }
}

/// Parses one value starting at `start`, keeping only whether it is a
/// plain integer; nested structure is validated and skipped.
fn parse_value(s: &[u8], start: usize, depth: u32) -> (r: Option<(ValKind, usize)>)
    requires
        start <= s@.len(),
    ensures
        r is None ==> sp_value(s@, start as int, depth as int) is None,
        r matches Some(p) ==> {
            &&& start < p.1 <= s@.len()
            &&& sp_value(s@, start as int, depth as int) matches Some(jn)
            &&& sp_value(s@, start as int, depth as int)->Some_0.1 == p.1 as int
            &&& (p.0 matches ValKind::Uint(v) ==> sp_value(s@, start as int, depth as int)->Some_0.0
                == Json::UInt(v))
            &&& (p.0 is Other ==> !(sp_value(s@, start as int, depth as int)->Some_0.0 is UInt))
        },
    decreases s@.len() - start, 0int,
{
    if start >= s.len() {
        return None;
    }
    let c = s[start];
    if c == 0x22 {
        match parse_string(s, start + 1) {
            None => None,
            Some((_content, n)) => Some((ValKind::Other, n)),
        }
    } else if c == 0x7b {
        if depth == 0 {
            return None;
        }
        match skip_object(s, start + 1, depth - 1) {
            None => None,
            Some(n) => Some((ValKind::Other, n)),
        }
    } else if c == 0x5b {
        if depth == 0 {
            return None;
        }
        match skip_array(s, start + 1, depth - 1) {
            None => None,
            Some(n) => Some((ValKind::Other, n)),
        }
    } else if c == 0x74 {
        if s.len() - start >= 4 && s[start + 1] == 0x72 && s[start + 2] == 0x75 && s[start + 3]
            == 0x65 {
            Some((ValKind::Other, start + 4))
        } else {
            None
        }
    } else if c == 0x66 {
        if s.len() - start >= 5 && s[start + 1] == 0x61 && s[start + 2] == 0x6c && s[start + 3]
            == 0x73 && s[start + 4] == 0x65 {
            Some((ValKind::Other, start + 5))
        } else {
            None
        }
    } else if c == 0x6e {
        if s.len() - start >= 4 && s[start + 1] == 0x75 && s[start + 2] == 0x6c && s[start + 3]
            == 0x6c {
            Some((ValKind::Other, start + 4))
        } else {
            None
        }
    } else if c == 0x2d || (0x30 <= c && c <= 0x39) {
        match parse_number(s, start) {
            None => None,
            Some((Some(v), n)) => Some((ValKind::Uint(v), n)),
            Some((None, n)) => Some((ValKind::Other, n)),
        }
    } else {
        None
    }
}

/// Validates and skips an object's interior, `i` pointing just after `{`.
#[verifier::rlimit(100)]
fn skip_object(s: &[u8], i: usize, depth: u32) -> (r: Option<usize>)
    requires
        i <= s@.len(),
    ensures
        r is None ==> sp_obj_body(s@, i as int, depth as int) is None,
        r matches Some(n) ==> {
            &&& i < n <= s@.len()
            &&& sp_obj_body(s@, i as int, depth as int) matches Some(jn)
            &&& sp_obj_body(s@, i as int, depth as int)->Some_0.1 == n as int
            &&& sp_obj_body(s@, i as int, depth as int)->Some_0.0 is Obj
        },
    decreases s@.len() - i, 2int,
{
    let j = skip_ws(s, i);
    if j >= s.len() {
        return None;
    }
    if s[j] == 0x7d {
        return Some(j + 1);
    }
    let mut cur = j;
    loop
        invariant
            i <= cur <= s@.len(),
            sp_members(s@, cur as int, depth as int) is None ==> sp_obj_body(s@, i as int, depth as int) is None,
            sp_members(s@, cur as int, depth as int) matches Some(mn) ==> {
                &&& sp_obj_body(s@, i as int, depth as int) matches Some(jn)
                &&& sp_obj_body(s@, i as int, depth as int)->Some_0.1 == mn.1
                &&& sp_obj_body(s@, i as int, depth as int)->Some_0.0 is Obj
            },
        decreases s@.len() - cur,
    {
        if cur >= s.len() {
            return None;
        }
        if s[cur] != 0x22 {
            return None;
        }
        match parse_string(s, cur + 1) {
            None => {
                return None;
            },
            Some((_key, p)) => {
                let q = skip_ws(s, p);
                if q >= s.len() {
                    return None;
                }
                if s[q] != 0x3a {
                    return None;
                }
                let v0 = skip_ws(s, q + 1);
                match parse_value(s, v0, depth) {
                    None => {
                        return None;
                    },
                    Some((_kind, t)) => {
                        let u = skip_ws(s, t);
                        if u < s.len() && s[u] == 0x2c {
                            let w = skip_ws(s, u + 1);
                            cur = w;
                        } else if u < s.len() && s[u] == 0x7d {
                            return Some(u + 1);
                        } else {
                            return None;
                        }
                    },
                }
            },
        }
    }
}

/// Validates and skips an array's interior, `i` pointing just after `[`.
#[verifier::rlimit(100)]
fn skip_array(s: &[u8], i: usize, depth: u32) -> (r: Option<usize>)
    requires
        i <= s@.len(),
    ensures
        r is None ==> sp_arr_body(s@, i as int, depth as int) is None,
        r matches Some(n) ==> {
            &&& i < n <= s@.len()
            &&& sp_arr_body(s@, i as int, depth as int) matches Some(jn)
            &&& sp_arr_body(s@, i as int, depth as int)->Some_0.1 == n as int
            &&& sp_arr_body(s@, i as int, depth as int)->Some_0.0 is Arr
        },
    decreases s@.len() - i, 2int,
{
    let j = skip_ws(s, i);
    if j >= s.len() {
        return None;
    }
    if s[j] == 0x5d {
        return Some(j + 1);
    }
    let mut cur = j;
    loop
        invariant
            i <= cur <= s@.len(),
            sp_elems(s@, cur as int, depth as int) is None ==> sp_arr_body(s@, i as int, depth as int) is None,
            sp_elems(s@, cur as int, depth as int) matches Some(en) ==> {
                &&& sp_arr_body(s@, i as int, depth as int) matches Some(jn)
                &&& sp_arr_body(s@, i as int, depth as int)->Some_0.1 == en.1
                &&& sp_arr_body(s@, i as int, depth as int)->Some_0.0 is Arr
            },
        decreases s@.len() - cur,
    {
        match parse_value(s, cur, depth) {
            None => {
                return None;
            },
            Some((_kind, t)) => {
                let u = skip_ws(s, t);
                if u < s.len() && s[u] == 0x2c {
                    let w = skip_ws(s, u + 1);
                    cur = w;
                } else if u < s.len() && s[u] == 0x5d {
                    return Some(u + 1);
                } else {
                    return None;
                }
            },
        }
    }
}

/// Is `v` exactly the key `stargazers_count`?
fn key_is_stars(v: &Vec<u8>) -> (r: bool)
    ensures
        r == (v@ == key_stars()),
{
    if v.len() != 16 {
        return false;
    }
    let r = v[0] == 115 && v[1] == 116 && v[2] == 97 && v[3] == 114 && v[4] == 103 && v[5] == 97
        && v[6] == 122 && v[7] == 101 && v[8] == 114 && v[9] == 115 && v[10] == 95 && v[11] == 99
        && v[12] == 111 && v[13] == 117 && v[14] == 110 && v[15] == 116;
    proof {
        if r {
            assert(v@ =~= key_stars());
        }
    }
    r
}

/// Is `v` exactly the key `open_issues_count`?
fn key_is_issues(v: &Vec<u8>) -> (r: bool)
    ensures
        r == (v@ == key_issues()),
{
    if v.len() != 17 {
        return false;
    }
    let r = v[0] == 111 && v[1] == 112 && v[2] == 101 && v[3] == 110 && v[4] == 95 && v[5] == 105
        && v[6] == 115 && v[7] == 115 && v[8] == 117 && v[9] == 101 && v[10] == 115 && v[11] == 95
        && v[12] == 99 && v[13] == 111 && v[14] == 117 && v[15] == 110 && v[16] == 116;
    proof {
        if r {
            assert(v@ =~= key_issues());
        }
    }
    r
}

/// Scanning one more member at the end folds `member_step` once more.
proof fn lemma_scan_snoc(ms: Seq<(Seq<u8>, Json)>, st: (FieldSt, FieldSt), m: (Seq<u8>, Json))
    ensures
        scan_members(ms.push(m), st) == member_step(scan_members(ms, st), m),
    decreases ms.len(),
{
    if ms.len() == 0 {
        assert(ms.push(m)[0] == m);
        assert(ms.push(m).drop_first() =~= Seq::<(Seq<u8>, Json)>::empty());
        assert(scan_members(ms.push(m), st) == scan_members(
            ms.push(m).drop_first(),
            member_step(st, m),
        ));
        assert(scan_members(ms.push(m), st) == member_step(st, m));
        assert(scan_members(ms, st) == st);
    } else {
        assert(ms.push(m)[0] == ms[0]);
        assert(ms.push(m).drop_first() =~= ms.drop_first().push(m));
        assert(scan_members(ms.push(m), st) == scan_members(
            ms.drop_first().push(m),
            member_step(st, ms[0]),
        ));
        lemma_scan_snoc(ms.drop_first(), member_step(st, ms[0]), m);
        assert(scan_members(ms, st) == scan_members(ms.drop_first(), member_step(st, ms[0])));
    }
}

/// Decodes a response body: returns `(stargazers_count, open_issues_count)`
/// exactly when the body is a JSON document holding an object that binds
/// each of the two keys exactly once to a plain non-negative integer
/// fitting `u64`, and `None` otherwise.
#[verifier::rlimit(100)]
pub fn decode_counts(s: &[u8]) -> (r: Option<(u64, u64)>)
    ensures
        r == spec_decode(s@),
{
    let j = skip_ws(s, 0);
    if j >= s.len() {
        return None;
    }
    if s[j] != 0x7b {
        proof {
            lemma_value_shape(s@, j as int, 128);
        }
        return None;
    }
    let body = j + 1;
    let j2 = skip_ws(s, body);
    if j2 >= s.len() {
        return None;
    }
    if s[j2] == 0x7d {
        return None;
    }
    let mut st_s = FieldSt::Missing;
    let mut st_i = FieldSt::Missing;
    let ghost mut done: Seq<(Seq<u8>, Json)> = Seq::empty();
    let mut cur = j2;
    loop
        invariant
            j < s@.len(),
            s@[j as int] == 0x7b,
            j as int == sp_ws(s@, 0),
            body == j + 1,
            body <= cur <= s@.len(),
            scan_members(done, (FieldSt::Missing, FieldSt::Missing)) == (st_s, st_i),
            sp_members(s@, cur as int, 127) is None ==> sp_obj_body(s@, body as int, 127) is None,
            sp_members(s@, cur as int, 127) matches Some(mn) ==> sp_obj_body(s@, body as int, 127) == Some(
                (Json::Obj(done + mn.0), mn.1),
            ),
        decreases s@.len() - cur,
    {
        if cur >= s.len() {
            return None;
        }
        if s[cur] != 0x22 {
            return None;
        }
        match parse_string(s, cur + 1) {
            None => {
                return None;
            },
            Some((key, p)) => {
                let q = skip_ws(s, p);
                if q >= s.len() {
                    return None;
                }
                if s[q] != 0x3a {
                    return None;
                }
                let v0 = skip_ws(s, q + 1);
                match parse_value(s, v0, 127) {
                    None => {
                        return None;
                    },
                    Some((kind, t)) => {
                        let ghost jv = sp_value(s@, v0 as int, 127)->Some_0.0;
                        let ghost done0 = done;
                        let ks = key_is_stars(&key);
                        let ki = key_is_issues(&key);
                        if ks {
                            st_s = match (st_s, kind) {
                                (FieldSt::Missing, ValKind::Uint(v)) => FieldSt::Found(v),
                                _ => FieldSt::Invalid,
                            };
                        } else if ki {
                            st_i = match (st_i, kind) {
                                (FieldSt::Missing, ValKind::Uint(v)) => FieldSt::Found(v),
                                _ => FieldSt::Invalid,
                            };
                        }
                        proof {
                            lemma_scan_snoc(
                                done0,
                                (FieldSt::Missing, FieldSt::Missing),
                                (key@, jv),
                            );
                            done = done0.push((key@, jv));
                        }
                        let u = skip_ws(s, t);
                        if u < s.len() && s[u] == 0x2c {
                            let w = skip_ws(s, u + 1);
                            proof {
                                assert(done0 + (seq![(key@, jv)] + sp_members(
                                    s@,
                                    w as int,
                                    127,
                                )->Some_0.0) =~= done + sp_members(s@, w as int, 127)->Some_0.0);
                            }
                            cur = w;
                        } else if u < s.len() && s[u] == 0x7d {
                            let endpos = u + 1;
                            proof {
                                assert(done0 + seq![(key@, jv)] =~= done);
                            }
                            let e = skip_ws(s, endpos);
                            if e != s.len() {
                                return None;
                            }
                            match (st_s, st_i) {
                                (FieldSt::Found(a), FieldSt::Found(b)) => {
                                    return Some((a, b));
                                },
                                _ => {
                                    return None;
                                },
                            }
                        } else {
                            return None;
                        }
                    },
                }
            },
        }
    }
}

} // verus!
