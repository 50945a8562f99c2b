//! The wire format, as mathematics: what byte sequence each value encodes
//! to, and what value a byte sequence decodes to. The executable encoder and
//! decoder are proved against these functions.
use vstd::prelude::*;
use vstd::utf8::{decode_utf8, encode_utf8, valid_utf8};

use crate::value::{text_bytes, TextModel, ValModel};

verus! {

// Wire tag bytes. A single-byte tag selects a compact form; a multi-byte tag
// is followed by a big-endian length or value field, then the payload.
pub const NIL: u8 = 0xC0;

pub const FALSE: u8 = 0xC2;

pub const TRUE: u8 = 0xC3;

pub const BIN8: u8 = 0xC4;

pub const BIN16: u8 = 0xC5;

pub const BIN32: u8 = 0xC6;

pub const UINT8: u8 = 0xCC;

pub const UINT16: u8 = 0xCD;

pub const UINT32: u8 = 0xCE;

pub const UINT64: u8 = 0xCF;

pub const INT8: u8 = 0xD0;

pub const INT16: u8 = 0xD1;

pub const INT32: u8 = 0xD2;

pub const INT64: u8 = 0xD3;

pub const STR8: u8 = 0xD9;

pub const STR16: u8 = 0xDA;

pub const STR32: u8 = 0xDB;

pub const ARRAY16: u8 = 0xDC;

pub const ARRAY32: u8 = 0xDD;

pub const MAP16: u8 = 0xDE;

pub const MAP32: u8 = 0xDF;

/// Smallest integer of the one-byte compact form.
pub const FIXINT_MIN: i8 = -32;

/// Largest integer of the one-byte compact form.
pub const FIXINT_MAX: i8 = 127;

/// Largest payload length of each size tier.
pub const MAX_FIXSTR: usize = 31;

pub const MAX_STR8: usize = 255;

pub const MAX_STR16: usize = 65535;

pub const MAX_STR32: usize = 0xFFFF_FFFF;

pub const MAX_BIN8: usize = 255;

pub const MAX_BIN16: usize = 65535;

pub const MAX_BIN32: usize = 0xFFFF_FFFF;

pub const MAX_FIXARRAY: usize = 15;

pub const MAX_ARRAY16: usize = 65535;

pub const MAX_ARRAY32: usize = 0xFFFF_FFFF;

pub const MAX_FIXMAP: usize = 15;

pub const MAX_MAP16: usize = 65535;

pub const MAX_MAP32: usize = 0xFFFF_FFFF;

/// The two big-endian bytes of a value below 2^16.
pub open spec fn be2(v: int) -> Seq<u8>
    recommends
        0 <= v < 0x1_0000,
{
    seq![((v / 0x100) % 0x100) as u8, (v % 0x100) as u8]
}

/// The four big-endian bytes of a value below 2^32.
pub open spec fn be4(v: int) -> Seq<u8>
    recommends
        0 <= v < 0x1_0000_0000,
{
    seq![
        ((v / 0x100_0000) % 0x100) as u8,
        ((v / 0x1_0000) % 0x100) as u8,
        ((v / 0x100) % 0x100) as u8,
        (v % 0x100) as u8,
    ]
}

/// The eight big-endian bytes of a value below 2^64.
pub open spec fn be8(v: int) -> Seq<u8>
    recommends
        0 <= v < 0x1_0000_0000_0000_0000,
{
    seq![
        ((v / 0x100_0000_0000_0000) % 0x100) as u8,
        ((v / 0x1_0000_0000_0000) % 0x100) as u8,
        ((v / 0x100_0000_0000) % 0x100) as u8,
        ((v / 0x1_0000_0000) % 0x100) as u8,
        ((v / 0x100_0000) % 0x100) as u8,
        ((v / 0x1_0000) % 0x100) as u8,
        ((v / 0x100) % 0x100) as u8,
        (v % 0x100) as u8,
    ]
}

/// The encoding of a non-negative integer: the unsigned ladder. Each value
/// takes the first tier that covers it — compact form, then unsigned 8, 16,
/// 32, 64-bit; never a signed tag.
pub open spec fn enc_uint(v: int) -> Seq<u8>
    recommends
        0 <= v < 0x1_0000_0000_0000_0000,
{
    if v <= 127 {
        seq![v as u8]
    } else if v <= 0xFF {
        seq![UINT8, v as u8]
    } else if v <= 0xFFFF {
        seq![UINT16] + be2(v)
    } else if v <= 0xFFFF_FFFF {
        seq![UINT32] + be4(v)
    } else {
        seq![UINT64] + be8(v)
    }
}

/// The encoding of a signed integer: the signed ladder. The tiers are
/// scanned in a fixed order — compact form, signed 8, unsigned 8, signed 16,
/// unsigned 16, signed 32, unsigned 32, signed 64 — and the first that
/// covers the value wins, so a non-negative value that fits a smaller signed
/// tag is encoded with the signed tag.
pub open spec fn enc_sint(v: int) -> Seq<u8>
    recommends
        -0x8000_0000_0000_0000 <= v <= 0x7FFF_FFFF_FFFF_FFFF,
{
    if -32 <= v <= 127 {
        seq![(if v >= 0 { v } else { v + 0x100 }) as u8]
    } else if -128 <= v <= 127 {
        seq![INT8, (v + 0x100) as u8]
    } else if 0 <= v <= 0xFF {
        seq![UINT8, v as u8]
    } else if -0x8000 <= v <= 0x7FFF {
        seq![INT16] + be2(if v >= 0 { v } else { v + 0x1_0000 })
    } else if 0 <= v <= 0xFFFF {
        seq![UINT16] + be2(v)
    } else if -0x8000_0000 <= v <= 0x7FFF_FFFF {
        seq![INT32] + be4(if v >= 0 { v } else { v + 0x1_0000_0000 })
    } else if 0 <= v <= 0xFFFF_FFFF {
        seq![UINT32] + be4(v)
    } else {
        seq![INT64] + be8(if v >= 0 { v } else { v + 0x1_0000_0000_0000_0000 })
    }
}

/// The encoding of an integer value: non-negative integers take the
/// unsigned ladder, negative ones the signed ladder.
pub open spec fn enc_int(v: int) -> Seq<u8>
    recommends
        -0x8000_0000_0000_0000 <= v < 0x1_0000_0000_0000_0000,
{
    if v >= 0 {
        enc_uint(v)
    } else {
        enc_sint(v)
    }
}

/// The header of a text payload of `n` bytes: the smallest of the four size
/// tiers that covers `n`.
pub open spec fn str_header(n: int) -> Seq<u8>
    recommends
        0 <= n <= 0xFFFF_FFFF,
{
    if n <= 31 {
        seq![(0xA0 + n) as u8]
    } else if n <= 0xFF {
        seq![STR8, n as u8]
    } else if n <= 0xFFFF {
        seq![STR16] + be2(n)
    } else {
        seq![STR32] + be4(n)
    }
}

/// The header of a binary payload of `n` bytes: 8, 16 or 32-bit length.
pub open spec fn bin_header(n: int) -> Seq<u8>
    recommends
        0 <= n <= 0xFFFF_FFFF,
{
    if n <= 0xFF {
        seq![BIN8, n as u8]
    } else if n <= 0xFFFF {
        seq![BIN16] + be2(n)
    } else {
        seq![BIN32] + be4(n)
    }
}

/// The header of an array of `n` elements.
pub open spec fn arr_header(n: int) -> Seq<u8>
    recommends
        0 <= n <= 0xFFFF_FFFF,
{
    if n <= 15 {
        seq![(0x90 + n) as u8]
    } else if n <= 0xFFFF {
        seq![ARRAY16] + be2(n)
    } else {
        seq![ARRAY32] + be4(n)
    }
}

/// The header of a map of `n` key-value pairs.
pub open spec fn map_header(n: int) -> Seq<u8>
    recommends
        0 <= n <= 0xFFFF_FFFF,
{
    if n <= 15 {
        seq![(0x80 + n) as u8]
    } else if n <= 0xFFFF {
        seq![MAP16] + be2(n)
    } else {
        seq![MAP32] + be4(n)
    }
}

/// True when every text value in `m` is valid UTF-8: the encoder rejects no
/// such value, and only such values can be encoded at all.
pub open spec fn text_ok(m: ValModel) -> bool
    decreases m, 0int,
{
    match m {
        ValModel::Nil => true,
        ValModel::Bool(_) => true,
        ValModel::Int(_) => true,
        ValModel::Text(t) => t is Chars,
        ValModel::Bin(_) => true,
        ValModel::Arr(s) => forall|i: int| 0 <= i < s.len() ==> text_ok(#[trigger] s[i]),
        ValModel::Pairs(ps) => forall|i: int|
            0 <= i < ps.len() ==> text_ok(#[trigger] ps[i].0) && text_ok(ps[i].1),
        ValModel::Ext(_, _) => true,
    }
}

/// True when every payload in `m` fits its largest size tier, so that the
/// encoder succeeds; a payload over 2^32 - 1 bytes or elements makes the
/// encode call fail with `TooBig`.
pub open spec fn size_ok(m: ValModel) -> bool
    decreases m, 0int,
{
    match m {
        ValModel::Nil => true,
        ValModel::Bool(_) => true,
        ValModel::Int(_) => true,
        ValModel::Text(t) => text_bytes(t).len() <= 0xFFFF_FFFF,
        ValModel::Bin(b) => b.len() <= 0xFFFF_FFFF,
        ValModel::Arr(s) => s.len() <= 0xFFFF_FFFF && forall|i: int|
            0 <= i < s.len() ==> size_ok(#[trigger] s[i]),
        ValModel::Pairs(ps) => ps.len() <= 0xFFFF_FFFF && forall|i: int|
            0 <= i < ps.len() ==> size_ok(#[trigger] ps[i].0) && size_ok(ps[i].1),
        ValModel::Ext(_, _) => true,
    }
}

/// The encoding of a value. Nil and extension values encode as the encoder
/// writes them: a 1-element sequence holding `false`, the same shape as an
/// absent optional value.
pub open spec fn enc(m: ValModel) -> Seq<u8>
    recommends
        text_ok(m),
        size_ok(m),
    decreases m, 0int,
{
    match m {
        ValModel::Nil => seq![(0x90 + 1) as u8, FALSE],
        ValModel::Bool(b) => if b {
            seq![TRUE]
        } else {
            seq![FALSE]
        },
        ValModel::Int(i) => enc_int(i),
        ValModel::Text(t) => str_header(text_bytes(t).len() as int) + text_bytes(t),
        ValModel::Bin(b) => bin_header(b.len() as int) + b,
        ValModel::Arr(s) => arr_header(s.len() as int) + enc_list(s, 0),
        ValModel::Pairs(ps) => map_header(ps.len() as int) + enc_pairs(ps, 0),
        ValModel::Ext(_, _) => seq![(0x90 + 1) as u8, FALSE],
    }
}

/// The concatenated encodings of the elements of `s` from index `i` on,
/// in order.
pub open spec fn enc_list(s: Seq<ValModel>, i: int) -> Seq<u8>
    decreases s, s.len() - i,
{
    if i < 0 || i >= s.len() {
        Seq::empty()
    } else {
        enc(s[i]) + enc_list(s, i + 1)
    }
}

/// The concatenated encodings of the pairs of `ps` from index `i` on:
/// each key, then its value, in the order given.
pub open spec fn enc_pairs(ps: Seq<(ValModel, ValModel)>, i: int) -> Seq<u8>
    decreases ps, ps.len() - i,
{
    if i < 0 || i >= ps.len() {
        Seq::empty()
    } else {
        enc(ps[i].0) + enc(ps[i].1) + enc_pairs(ps, i + 1)
    }
}

/// The value of two big-endian bytes.
pub open spec fn from_be2(b: Seq<u8>) -> int
    recommends
        b.len() == 2,
{
    b[0] * 0x100 + b[1]
}

/// The value of four big-endian bytes.
pub open spec fn from_be4(b: Seq<u8>) -> int
    recommends
        b.len() == 4,
{
    b[0] * 0x100_0000 + b[1] * 0x1_0000 + b[2] * 0x100 + b[3]
}

/// The value of eight big-endian bytes.
pub open spec fn from_be8(b: Seq<u8>) -> int
    recommends
        b.len() == 8,
{
    b[0] * 0x100_0000_0000_0000 + b[1] * 0x1_0000_0000_0000 + b[2] * 0x100_0000_0000 + b[3]
        * 0x1_0000_0000 + b[4] * 0x100_0000 + b[5] * 0x1_0000 + b[6] * 0x100 + b[7]
}

/// The signed reading of an unsigned value of `bits` bits: two's complement.
pub open spec fn signed_of(v: int, half: int, full: int) -> int {
    if v < half {
        v
    } else {
        v - full
    }
}

/// The text value decoded from a string payload: valid UTF-8 only; a
/// payload that is not valid UTF-8 makes the whole decode fail.
pub open spec fn dec_text(payload: Seq<u8>) -> Option<ValModel> {
    if valid_utf8(payload) {
        Some(ValModel::Text(TextModel::Chars(decode_utf8(payload))))
    } else {
        None
    }
}

/// Decodes one value from the front of `b`: the decoded value and the
/// number of bytes it occupied, or `None` when `b` does not begin with a
/// well-formed value. Unsupported tags — floats, extension forms and the
/// unused tag 0xC1 — make the decode fail.
#[verifier::opaque]
pub open spec fn dec(b: Seq<u8>) -> Option<(ValModel, int)>
    decreases b.len(), 0int, 0int,
{
    if b.len() == 0 {
        None
    } else {
        let t = b[0];
        if t <= 0x7F {
            Some((ValModel::Int(t as int), 1))
        } else if t >= 0xE0 {
            Some((ValModel::Int(t - 0x100), 1))
        } else if t == NIL {
            Some((ValModel::Nil, 1))
        } else if t == FALSE {
            Some((ValModel::Bool(false), 1))
        } else if t == TRUE {
            Some((ValModel::Bool(true), 1))
        } else if t == UINT8 {
            if b.len() >= 2 {
                Some((ValModel::Int(b[1] as int), 2))
            } else {
                None
            }
        } else if t == UINT16 {
            if b.len() >= 3 {
                Some((ValModel::Int(from_be2(b.subrange(1, 3))), 3))
            } else {
                None
            }
        } else if t == UINT32 {
            if b.len() >= 5 {
                Some((ValModel::Int(from_be4(b.subrange(1, 5))), 5))
            } else {
                None
            }
        } else if t == UINT64 {
            if b.len() >= 9 {
                Some((ValModel::Int(from_be8(b.subrange(1, 9))), 9))
            } else {
                None
            }
        } else if t == INT8 {
            if b.len() >= 2 {
                Some((ValModel::Int(signed_of(b[1] as int, 0x80, 0x100)), 2))
            } else {
                None
            }
        } else if t == INT16 {
            if b.len() >= 3 {
                Some((ValModel::Int(signed_of(from_be2(b.subrange(1, 3)), 0x8000, 0x1_0000)), 3))
            } else {
                None
            }
        } else if t == INT32 {
            if b.len() >= 5 {
                Some(
                    (
                        ValModel::Int(
                            signed_of(from_be4(b.subrange(1, 5)), 0x8000_0000, 0x1_0000_0000),
                        ),
                        5,
                    ),
                )
            } else {
                None
            }
        } else if t == INT64 {
            if b.len() >= 9 {
                Some(
                    (
                        ValModel::Int(
                            signed_of(
                                from_be8(b.subrange(1, 9)),
                                0x8000_0000_0000_0000,
                                0x1_0000_0000_0000_0000,
                            ),
                        ),
                        9,
                    ),
                )
            } else {
                None
            }
        } else if 0xA0 <= t <= 0xBF {
            let l = t - 0xA0;
            if b.len() >= 1 + l {
                match dec_text(b.subrange(1, 1 + l)) {
                    Some(v) => Some((v, 1 + l)),
                    None => None,
                }
            } else {
                None
            }
        } else if t == STR8 {
            if b.len() >= 2 && b.len() >= 2 + b[1] {
                match dec_text(b.subrange(2, 2 + b[1])) {
                    Some(v) => Some((v, 2 + b[1])),
                    None => None,
                }
            } else {
                None
            }
        } else if t == STR16 {
            if b.len() >= 3 && b.len() >= 3 + from_be2(b.subrange(1, 3)) {
                match dec_text(b.subrange(3, 3 + from_be2(b.subrange(1, 3)))) {
                    Some(v) => Some((v, 3 + from_be2(b.subrange(1, 3)))),
                    None => None,
                }
            } else {
                None
            }
        } else if t == STR32 {
            if b.len() >= 5 && b.len() >= 5 + from_be4(b.subrange(1, 5)) {
                match dec_text(b.subrange(5, 5 + from_be4(b.subrange(1, 5)))) {
                    Some(v) => Some((v, 5 + from_be4(b.subrange(1, 5)))),
                    None => None,
                }
            } else {
                None
            }
        } else if t == BIN8 {
            if b.len() >= 2 && b.len() >= 2 + b[1] {
                Some((ValModel::Bin(b.subrange(2, 2 + b[1])), 2 + b[1]))
            } else {
                None
            }
        } else if t == BIN16 {
            if b.len() >= 3 && b.len() >= 3 + from_be2(b.subrange(1, 3)) {
                Some(
                    (
                        ValModel::Bin(b.subrange(3, 3 + from_be2(b.subrange(1, 3)))),
                        3 + from_be2(b.subrange(1, 3)),
                    ),
                )
            } else {
                None
            }
        } else if t == BIN32 {
            if b.len() >= 5 && b.len() >= 5 + from_be4(b.subrange(1, 5)) {
                Some(
                    (
                        ValModel::Bin(b.subrange(5, 5 + from_be4(b.subrange(1, 5)))),
                        5 + from_be4(b.subrange(1, 5)),
                    ),
                )
            } else {
                None
            }
        } else if 0x90 <= t <= 0x9F {
            match dec_list(b.skip(1), t - 0x90) {
                Some((vs, c)) => Some((ValModel::Arr(vs), 1 + c)),
                None => None,
            }
        } else if t == ARRAY16 {
            if b.len() >= 3 {
                match dec_list(b.skip(3), from_be2(b.subrange(1, 3))) {
                    Some((vs, c)) => Some((ValModel::Arr(vs), 3 + c)),
                    None => None,
                }
            } else {
                None
            }
        } else if t == ARRAY32 {
            if b.len() >= 5 {
                match dec_list(b.skip(5), from_be4(b.subrange(1, 5))) {
                    Some((vs, c)) => Some((ValModel::Arr(vs), 5 + c)),
                    None => None,
                }
            } else {
                None
            }
        } else if 0x80 <= t <= 0x8F {
            match dec_pairs(b.skip(1), t - 0x80) {
                Some((ps, c)) => Some((ValModel::Pairs(ps), 1 + c)),
                None => None,
            }
        } else if t == MAP16 {
            if b.len() >= 3 {
                match dec_pairs(b.skip(3), from_be2(b.subrange(1, 3))) {
                    Some((ps, c)) => Some((ValModel::Pairs(ps), 3 + c)),
                    None => None,
                }
            } else {
                None
            }
        } else if t == MAP32 {
            if b.len() >= 5 {
                match dec_pairs(b.skip(5), from_be4(b.subrange(1, 5))) {
                    Some((ps, c)) => Some((ValModel::Pairs(ps), 5 + c)),
                    None => None,
                }
            } else {
                None
            }
        } else {
            None
        }
    }
}

/// Decodes `n` consecutive values from the front of `b`: the values in
/// order and the bytes they occupied together.
pub open spec fn dec_list(b: Seq<u8>, n: int) -> Option<(Seq<ValModel>, int)>
    decreases b.len(), 1int, n,
{
    if n <= 0 {
        Some((Seq::empty(), 0))
    } else {
        match dec(b) {
            None => None,
            Some((v, c)) => {
                if 1 <= c <= b.len() {
                    match dec_list(b.skip(c), n - 1) {
                        None => None,
                        Some((vs, c2)) => Some((seq![v] + vs, c + c2)),
                    }
                } else {
                    None
                }
            },
        }
    }
}

/// Decodes `n` consecutive key-value pairs from the front of `b`.
pub open spec fn dec_pairs(b: Seq<u8>, n: int) -> Option<(Seq<(ValModel, ValModel)>, int)>
    decreases b.len(), 2int, n,
{
    if n <= 0 {
        Some((Seq::empty(), 0))
    } else {
        match dec(b) {
            None => None,
            Some((k, ck)) => {
                if 1 <= ck <= b.len() {
                    match dec(b.skip(ck)) {
                        None => None,
                        Some((v, cv)) => {
                            if 1 <= cv <= b.len() - ck {
                                match dec_pairs(b.skip(ck + cv), n - 1) {
                                    None => None,
                                    Some((ps, c2)) => Some((seq![(k, v)] + ps, ck + cv + c2)),
                                }
                            } else {
                                None
                            }
                        },
                    }
                } else {
                    None
                }
            },
        }
    }
}

/// True of the values the wire format represents losslessly: booleans,
/// integers, valid UTF-8 text, binary, arrays and maps of such values, with
/// every payload inside its largest size tier. Nil and extension values
/// encode as the 1-element `[false]` sequence and so decode to that
/// sequence, not to themselves; text that is not valid UTF-8 cannot be
/// encoded at all.
pub open spec fn round_trip_ok(m: ValModel) -> bool
    decreases m, 0int,
{
    match m {
        ValModel::Nil => false,
        ValModel::Bool(_) => true,
        ValModel::Int(i) => -0x8000_0000_0000_0000 <= i < 0x1_0000_0000_0000_0000,
        ValModel::Text(t) => t is Chars && encode_utf8(t->Chars_0).len() <= 0xFFFF_FFFF,
        ValModel::Bin(b) => b.len() <= 0xFFFF_FFFF,
        ValModel::Arr(s) => s.len() <= 0xFFFF_FFFF && forall|i: int|
            0 <= i < s.len() ==> round_trip_ok(#[trigger] s[i]),
        ValModel::Pairs(ps) => ps.len() <= 0xFFFF_FFFF && forall|i: int|
            0 <= i < ps.len() ==> round_trip_ok(#[trigger] ps[i].0) && round_trip_ok(ps[i].1),
        ValModel::Ext(_, _) => false,
    }
}

/// Every encoding is at least one byte long.
pub proof fn lemma_enc_len_pos(m: ValModel)
    ensures
        enc(m).len() >= 1,
{
}

/// Round trip: decoding the encoding of a representable value, from the
/// front of any byte stream, yields exactly that value and consumes exactly
/// its encoding.
/// Reassembling the eight big-endian bytes of a 64-bit value gives the
/// value back.
proof fn lemma_from_be8_be8(w: u64)
    ensures
        from_be8(be8(w as int)) == w as int,
{
    assert(w / 0x100_0000_0000_0000 % 0x100 * 0x100_0000_0000_0000 + w / 0x1_0000_0000_0000 % 0x100
        * 0x1_0000_0000_0000 + w / 0x100_0000_0000 % 0x100 * 0x100_0000_0000 + w / 0x1_0000_0000
        % 0x100 * 0x1_0000_0000 + w / 0x100_0000 % 0x100 * 0x100_0000 + w / 0x1_0000 % 0x100
        * 0x1_0000 + w / 0x100 % 0x100 * 0x100 + w % 0x100 == w) by (bit_vector);
}

proof fn lemma_dec_fixint_pos(v: int, rest: Seq<u8>)
    requires
        0 <= v <= 127,
    ensures
        dec(seq![v as u8] + rest) == Some((ValModel::Int(v), 1int)),
{
    reveal(dec);
    let b = seq![v as u8] + rest;
    assert(b[0] == v as u8);
}

proof fn lemma_dec_fixint_neg(v: int, rest: Seq<u8>)
    requires
        -32 <= v < 0,
    ensures
        dec(seq![(v + 0x100) as u8] + rest) == Some((ValModel::Int(v), 1int)),
{
    reveal(dec);
    let b = seq![(v + 0x100) as u8] + rest;
    assert(b[0] == (v + 0x100) as u8 >= 0xE0);
}

proof fn lemma_dec_uint8(v: int, rest: Seq<u8>)
    requires
        0x80 <= v <= 0xFF,
    ensures
        dec(seq![UINT8, v as u8] + rest) == Some((ValModel::Int(v), 2int)),
{
    reveal(dec);
    let b = seq![UINT8, v as u8] + rest;
    assert(b[0] == UINT8 && b[1] == v as u8);
}

proof fn lemma_dec_int8(v: int, rest: Seq<u8>)
    requires
        -0x80 <= v < -32,
    ensures
        dec(seq![INT8, (v + 0x100) as u8] + rest) == Some((ValModel::Int(v), 2int)),
{
    reveal(dec);
    let b = seq![INT8, (v + 0x100) as u8] + rest;
    assert(b[0] == INT8 && b[1] == (v + 0x100) as u8);
}

proof fn lemma_dec_uint16(w: int, rest: Seq<u8>)
    requires
        0 <= w < 0x1_0000,
    ensures
        dec(seq![UINT16] + be2(w) + rest) == Some((ValModel::Int(w), 3int)),
{
    reveal(dec);
    let b = seq![UINT16] + be2(w) + rest;
    assert(b[0] == UINT16);
    assert(b.subrange(1, 3) =~= be2(w));
    assert(from_be2(be2(w)) == w);
}

proof fn lemma_dec_int16(w: int, rest: Seq<u8>)
    requires
        0 <= w < 0x1_0000,
    ensures
        dec(seq![INT16] + be2(w) + rest) == Some(
            (ValModel::Int(signed_of(w, 0x8000, 0x1_0000)), 3int),
        ),
{
    reveal(dec);
    let b = seq![INT16] + be2(w) + rest;
    assert(b[0] == INT16);
    assert(b.subrange(1, 3) =~= be2(w));
    assert(from_be2(be2(w)) == w);
}

proof fn lemma_dec_uint32(w: int, rest: Seq<u8>)
    requires
        0 <= w < 0x1_0000_0000,
    ensures
        dec(seq![UINT32] + be4(w) + rest) == Some((ValModel::Int(w), 5int)),
{
    reveal(dec);
    let b = seq![UINT32] + be4(w) + rest;
    assert(b[0] == UINT32);
    assert(b.subrange(1, 5) =~= be4(w));
    assert(from_be4(be4(w)) == w);
}

proof fn lemma_dec_int32(w: int, rest: Seq<u8>)
    requires
        0 <= w < 0x1_0000_0000,
    ensures
        dec(seq![INT32] + be4(w) + rest) == Some(
            (ValModel::Int(signed_of(w, 0x8000_0000, 0x1_0000_0000)), 5int),
        ),
{
    reveal(dec);
    let b = seq![INT32] + be4(w) + rest;
    assert(b[0] == INT32);
    assert(b.subrange(1, 5) =~= be4(w));
    assert(from_be4(be4(w)) == w);
}

proof fn lemma_dec_uint64(w: int, rest: Seq<u8>)
    requires
        0 <= w < 0x1_0000_0000_0000_0000,
    ensures
        dec(seq![UINT64] + be8(w) + rest) == Some((ValModel::Int(w), 9int)),
{
    reveal(dec);
    let b = seq![UINT64] + be8(w) + rest;
    assert(b[0] == UINT64);
    assert(b.subrange(1, 9) =~= be8(w));
    lemma_from_be8_be8(w as u64);
}

proof fn lemma_dec_int64(w: int, rest: Seq<u8>)
    requires
        0 <= w < 0x1_0000_0000_0000_0000,
    ensures
        dec(seq![INT64] + be8(w) + rest) == Some(
            (ValModel::Int(signed_of(w, 0x8000_0000_0000_0000, 0x1_0000_0000_0000_0000)), 9int),
        ),
{
    reveal(dec);
    let b = seq![INT64] + be8(w) + rest;
    assert(b[0] == INT64);
    assert(b.subrange(1, 9) =~= be8(w));
    lemma_from_be8_be8(w as u64);
}

/// Round trip of the unsigned ladder.
pub proof fn lemma_dec_enc_uint(v: int, rest: Seq<u8>)
    requires
        0 <= v < 0x1_0000_0000_0000_0000,
    ensures
        dec(enc_uint(v) + rest) == Some((ValModel::Int(v), enc_uint(v).len() as int)),
{
    if v <= 127 {
        lemma_dec_fixint_pos(v, rest);
        assert(enc_uint(v) + rest =~= seq![v as u8] + rest);
    } else if v <= 0xFF {
        lemma_dec_uint8(v, rest);
        assert(enc_uint(v) + rest =~= seq![UINT8, v as u8] + rest);
    } else if v <= 0xFFFF {
        lemma_dec_uint16(v, rest);
        assert(enc_uint(v) + rest =~= seq![UINT16] + be2(v) + rest);
    } else if v <= 0xFFFF_FFFF {
        lemma_dec_uint32(v, rest);
        assert(enc_uint(v) + rest =~= seq![UINT32] + be4(v) + rest);
    } else {
        lemma_dec_uint64(v, rest);
        assert(enc_uint(v) + rest =~= seq![UINT64] + be8(v) + rest);
    }
}

/// Round trip of the signed ladder on negative values — the only values the
/// value encoder sends down it.
pub proof fn lemma_dec_enc_sint(v: int, rest: Seq<u8>)
    requires
        -0x8000_0000_0000_0000 <= v < 0,
    ensures
        dec(enc_sint(v) + rest) == Some((ValModel::Int(v), enc_sint(v).len() as int)),
{
    if -32 <= v {
        lemma_dec_fixint_neg(v, rest);
        assert(enc_sint(v) + rest =~= seq![(v + 0x100) as u8] + rest);
    } else if -128 <= v {
        lemma_dec_int8(v, rest);
        assert(enc_sint(v) + rest =~= seq![INT8, (v + 0x100) as u8] + rest);
    } else if -0x8000 <= v {
        lemma_dec_int16(v + 0x1_0000, rest);
        assert(enc_sint(v) + rest =~= seq![INT16] + be2(v + 0x1_0000) + rest);
        assert(signed_of(v + 0x1_0000, 0x8000, 0x1_0000) == v);
    } else if -0x8000_0000 <= v {
        lemma_dec_int32(v + 0x1_0000_0000, rest);
        assert(enc_sint(v) + rest =~= seq![INT32] + be4(v + 0x1_0000_0000) + rest);
        assert(signed_of(v + 0x1_0000_0000, 0x8000_0000, 0x1_0000_0000) == v);
    } else {
        lemma_dec_int64(v + 0x1_0000_0000_0000_0000, rest);
        assert(enc_sint(v) + rest =~= seq![INT64] + be8(v + 0x1_0000_0000_0000_0000) + rest);
        let w = v + 0x1_0000_0000_0000_0000;
        assert(signed_of(w, 0x8000_0000_0000_0000, 0x1_0000_0000_0000_0000) == v);
    }
}

/// Round trip of text values.
#[verifier::rlimit(100)]
#[verifier::spinoff_prover]
pub proof fn lemma_dec_enc_text(t: TextModel, rest: Seq<u8>)
    requires
        t is Chars,
        encode_utf8(t->Chars_0).len() <= 0xFFFF_FFFF,
    ensures
        dec(enc(ValModel::Text(t)) + rest) == Some(
            (ValModel::Text(t), enc(ValModel::Text(t)).len() as int),
        ),
{
    let m = ValModel::Text(t);
    let b = enc(m) + rest;
    let cs = t->Chars_0;
    let payload = encode_utf8(cs);
    let l = payload.len() as int;
    vstd::utf8::encode_utf8_valid_utf8(cs);
    vstd::utf8::encode_utf8_decode_utf8(cs);
    if l <= 31 {
        assert(dec(b) == Some((m, enc(m).len() as int))) by {
            reveal(dec);
            assert(b[0] == (0xA0 + l) as u8);
            assert(b.subrange(1, 1 + l) =~= payload);
        }
    } else if l <= 0xFF {
        assert(dec(b) == Some((m, enc(m).len() as int))) by {
            reveal(dec);
            assert(b[0] == STR8 && b[1] == l as u8);
            assert(b.subrange(2, 2 + l) =~= payload);
        }
    } else if l <= 0xFFFF {
        assert(dec(b) == Some((m, enc(m).len() as int))) by {
            reveal(dec);
            assert(b[0] == STR16);
            assert(b.subrange(1, 3) =~= be2(l));
            assert(b.subrange(3, 3 + l) =~= payload);
        }
    } else {
        assert(dec(b) == Some((m, enc(m).len() as int))) by {
            reveal(dec);
            assert(b[0] == STR32);
            assert(b.subrange(1, 5) =~= be4(l));
            assert(b.subrange(5, 5 + l) =~= payload);
        }
    }
}

/// Round trip of binary values.
#[verifier::rlimit(100)]
#[verifier::spinoff_prover]
pub proof fn lemma_dec_enc_bin(bytes: Seq<u8>, rest: Seq<u8>)
    requires
        bytes.len() <= 0xFFFF_FFFF,
    ensures
        dec(enc(ValModel::Bin(bytes)) + rest) == Some(
            (ValModel::Bin(bytes), enc(ValModel::Bin(bytes)).len() as int),
        ),
{
    let b = enc(ValModel::Bin(bytes)) + rest;
    let l = bytes.len() as int;
    let m = ValModel::Bin(bytes);
    if l <= 0xFF {
        assert(dec(b) == Some((m, enc(m).len() as int))) by {
            reveal(dec);
            assert(b[0] == BIN8 && b[1] == l as u8);
            assert(b.subrange(2, 2 + l) =~= bytes);
        }
    } else if l <= 0xFFFF {
        assert(dec(b) == Some((m, enc(m).len() as int))) by {
            reveal(dec);
            assert(b[0] == BIN16);
            assert(b.subrange(1, 3) =~= be2(l));
            assert(b.subrange(3, 3 + l) =~= bytes);
        }
    } else {
        assert(dec(b) == Some((m, enc(m).len() as int))) by {
            reveal(dec);
            assert(b[0] == BIN32);
            assert(b.subrange(1, 5) =~= be4(l));
            assert(b.subrange(5, 5 + l) =~= bytes);
        }
    }
}

/// Round trip: decoding the encoding of a representable value, from the
/// front of any byte stream, yields exactly that value and consumes exactly
/// its encoding.
#[verifier::rlimit(100)]
#[verifier::spinoff_prover]
pub proof fn lemma_dec_enc(m: ValModel, rest: Seq<u8>)
    requires
        round_trip_ok(m),
    ensures
        dec(enc(m) + rest) == Some((m, enc(m).len() as int)),
    decreases m, 0int, 0int,
{
    let b = enc(m) + rest;
    match m {
        ValModel::Nil => {},
        ValModel::Bool(v) => {
            assert(dec(b) == Some((m, 1int))) by {
                reveal(dec);
                assert(b[0] == if v { TRUE } else { FALSE });
            }
        },
        ValModel::Int(i) => {
            if i >= 0 {
                lemma_dec_enc_uint(i, rest);
            } else {
                lemma_dec_enc_sint(i, rest);
            }
        },
        ValModel::Text(t) => {
            lemma_dec_enc_text(t, rest);
        },
        ValModel::Bin(bytes) => {
            lemma_dec_enc_bin(bytes, rest);
        },
        ValModel::Arr(s) => {
            let n = s.len() as int;
            let body = enc_list(s, 0);
            lemma_dec_enc_list(s, 0, rest);
            assert(s.skip(0) =~= s);
            if n <= 15 {
                assert(dec(b) == Some((m, enc(m).len() as int))) by {
                    reveal(dec);
                    assert(b[0] == (0x90 + n) as u8);
                    assert(b.skip(1) =~= body + rest);
                }
            } else if n <= 0xFFFF {
                assert(dec(b) == Some((m, enc(m).len() as int))) by {
                    reveal(dec);
                    assert(b[0] == ARRAY16);
                    assert(b.subrange(1, 3) =~= be2(n));
                    assert(b.skip(3) =~= body + rest);
                }
            } else {
                assert(dec(b) == Some((m, enc(m).len() as int))) by {
                    reveal(dec);
                    assert(b[0] == ARRAY32);
                    assert(b.subrange(1, 5) =~= be4(n));
                    assert(b.skip(5) =~= body + rest);
                }
            }
        },
        ValModel::Pairs(ps) => {
            let n = ps.len() as int;
            let body = enc_pairs(ps, 0);
            lemma_dec_enc_pairs(ps, 0, rest);
            assert(ps.skip(0) =~= ps);
            if n <= 15 {
                assert(dec(b) == Some((m, enc(m).len() as int))) by {
                    reveal(dec);
                    assert(b[0] == (0x80 + n) as u8);
                    assert(b.skip(1) =~= body + rest);
                }
            } else if n <= 0xFFFF {
                assert(dec(b) == Some((m, enc(m).len() as int))) by {
                    reveal(dec);
                    assert(b[0] == MAP16);
                    assert(b.subrange(1, 3) =~= be2(n));
                    assert(b.skip(3) =~= body + rest);
                }
            } else {
                assert(dec(b) == Some((m, enc(m).len() as int))) by {
                    reveal(dec);
                    assert(b[0] == MAP32);
                    assert(b.subrange(1, 5) =~= be4(n));
                    assert(b.skip(5) =~= body + rest);
                }
            }
        },
        ValModel::Ext(_, _) => {},
    }
}

/// Round trip of element sequences: decoding the concatenated encodings of
/// the elements of `s` from `i` on yields those elements in order.
#[verifier::rlimit(100)]
#[verifier::spinoff_prover]
pub proof fn lemma_dec_enc_list(s: Seq<ValModel>, i: int, rest: Seq<u8>)
    requires
        0 <= i <= s.len(),
        forall|j: int| i <= j < s.len() ==> round_trip_ok(#[trigger] s[j]),
    ensures
        dec_list(enc_list(s, i) + rest, s.len() - i) == Some(
            (s.skip(i), enc_list(s, i).len() as int),
        ),
    decreases s, 1int, s.len() - i,
{
    reveal(dec);
    if i >= s.len() {
        assert(enc_list(s, i) + rest =~= rest);
        assert(s.skip(i) =~= Seq::<ValModel>::empty());
    } else {
        let e = enc(s[i]);
        let tail = enc_list(s, i + 1);
        let b = enc_list(s, i) + rest;
        assert(b =~= e + (tail + rest));
        lemma_dec_enc(s[i], tail + rest);
        lemma_enc_len_pos(s[i]);
        let c = e.len() as int;
        assert(b.skip(c) =~= tail + rest);
        lemma_dec_enc_list(s, i + 1, rest);
        assert(seq![s[i]] + s.skip(i + 1) =~= s.skip(i));
    }
}

/// Round trip of pair sequences: decoding the concatenated encodings of the
/// pairs of `ps` from `i` on yields those pairs in order.
#[verifier::rlimit(100)]
#[verifier::spinoff_prover]
pub proof fn lemma_dec_enc_pairs(ps: Seq<(ValModel, ValModel)>, i: int, rest: Seq<u8>)
    requires
        0 <= i <= ps.len(),
        forall|j: int|
            i <= j < ps.len() ==> round_trip_ok(#[trigger] ps[j].0) && round_trip_ok(ps[j].1),
    ensures
        dec_pairs(enc_pairs(ps, i) + rest, ps.len() - i) == Some(
            (ps.skip(i), enc_pairs(ps, i).len() as int),
        ),
    decreases ps, 1int, ps.len() - i,
{
    reveal(dec);
    if i >= ps.len() {
        assert(enc_pairs(ps, i) + rest =~= rest);
        assert(ps.skip(i) =~= Seq::<(ValModel, ValModel)>::empty());
    } else {
        let ek = enc(ps[i].0);
        let ev = enc(ps[i].1);
        let tail = enc_pairs(ps, i + 1);
        let b = enc_pairs(ps, i) + rest;
        assert(b =~= ek + (ev + (tail + rest)));
        lemma_dec_enc(ps[i].0, ev + (tail + rest));
        lemma_enc_len_pos(ps[i].0);
        let ck = ek.len() as int;
        assert(b.skip(ck) =~= ev + (tail + rest));
        lemma_dec_enc(ps[i].1, tail + rest);
        lemma_enc_len_pos(ps[i].1);
        let cv = ev.len() as int;
        assert(b.skip(ck + cv) =~= tail + rest);
        lemma_dec_enc_pairs(ps, i + 1, rest);
        assert(seq![ps[i]] + ps.skip(i + 1) =~= ps.skip(i));
    }
}

/// A successful decode of `n` values consumes at least `n` and at most all
/// of the bytes.
pub proof fn lemma_dec_list_bound(b: Seq<u8>, n: int)
    ensures
        dec_list(b, n) matches Some((vs, c)) ==> vs.len() == (if n >= 0 { n } else { 0 }) && (if n
            >= 0 { n } else { 0 }) <= c <= b.len(),
    decreases b.len(), 1int, n,
{
    reveal(dec);
    if n <= 0 {
    } else {
        match dec(b) {
            None => {},
            Some((v, c)) => {
                if 1 <= c <= b.len() {
                    lemma_dec_list_bound(b.skip(c), n - 1);
                }
            },
        }
    }
}

/// A successful decode of `n` key-value pairs consumes at least `n` and at
/// most all of the bytes.
pub proof fn lemma_dec_pairs_bound(b: Seq<u8>, n: int)
    ensures
        dec_pairs(b, n) matches Some((ps, c)) ==> ps.len() == (if n >= 0 { n } else { 0 }) && (if n
            >= 0 { n } else { 0 }) <= c <= b.len(),
    decreases b.len(), 2int, n,
{
    reveal(dec);
    if n <= 0 {
    } else {
        match dec(b) {
            None => {},
            Some((k, ck)) => {
                if 1 <= ck <= b.len() {
                    match dec(b.skip(ck)) {
                        None => {},
                        Some((v, cv)) => {
                            if 1 <= cv <= b.len() - ck {
                                lemma_dec_pairs_bound(b.skip(ck + cv), n - 1);
                                assert(b.skip(ck).skip(cv) =~= b.skip(ck + cv));
                            }
                        },
                    }
                }
            },
        }
    }
}

/// Each element of a text-valid array value is text-valid.
pub proof fn lemma_text_ok_arr_elem(s: Seq<ValModel>, i: int)
    requires
        text_ok(ValModel::Arr(s)),
        0 <= i < s.len(),
    ensures
        text_ok(s[i]),
{
    let m = ValModel::Arr(s);
    assert(m->Arr_0 == s);
    assert(0 <= i < m->Arr_0.len());
    assert(text_ok(m->Arr_0[i]));
}

/// Each pair of a text-valid map value is text-valid.
pub proof fn lemma_text_ok_pairs_elem(ps: Seq<(ValModel, ValModel)>, i: int)
    requires
        text_ok(ValModel::Pairs(ps)),
        0 <= i < ps.len(),
    ensures
        text_ok(ps[i].0),
        text_ok(ps[i].1),
{
    let m = ValModel::Pairs(ps);
    assert(m->Pairs_0 == ps);
    assert(0 <= i < m->Pairs_0.len());
    assert(text_ok(m->Pairs_0[i].0) && text_ok(m->Pairs_0[i].1));
}

/// An array value whose elements are all text-valid is text-valid.
pub proof fn lemma_text_ok_arr_intro(s: Seq<ValModel>)
    requires
        forall|i: int| 0 <= i < s.len() ==> text_ok(#[trigger] s[i]),
    ensures
        text_ok(ValModel::Arr(s)),
{
    let m = ValModel::Arr(s);
    assert(m->Arr_0 == s);
    assert forall|i: int| 0 <= i < m->Arr_0.len() implies text_ok(#[trigger] m->Arr_0[i]) by {
        assert(m->Arr_0[i] == s[i]);
    }
}

/// A map value whose pairs are all text-valid is text-valid.
pub proof fn lemma_text_ok_pairs_intro(ps: Seq<(ValModel, ValModel)>)
    requires
        forall|i: int|
            0 <= i < ps.len() ==> text_ok(#[trigger] ps[i].0) && text_ok(ps[i].1),
    ensures
        text_ok(ValModel::Pairs(ps)),
{
    let m = ValModel::Pairs(ps);
    assert(m->Pairs_0 == ps);
    assert forall|i: int| 0 <= i < m->Pairs_0.len() implies text_ok(
        #[trigger] m->Pairs_0[i].0,
    ) && text_ok(m->Pairs_0[i].1) by {
        assert(m->Pairs_0[i] == ps[i]);
    }
}

} // verus!
