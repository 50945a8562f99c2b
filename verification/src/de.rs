//! The executable decoder: reads one self-describing value from a byte
//! buffer, proved to agree with the wire-format decode function in both the
//! success and the failure case.
use vstd::prelude::*;

use crate::value::{
    pairs_view, seq_view, string_from_utf8, Integer, Utf8String, ValModel, Value,
};
use crate::wire::{
    dec, dec_list, dec_pairs, from_be2, from_be4, from_be8, signed_of, ARRAY16, ARRAY32, BIN16,
    BIN32, BIN8, FALSE, INT16, INT32, INT64, INT8, MAP16, MAP32, NIL, STR16, STR32, STR8, TRUE,
    UINT16, UINT32, UINT64, UINT8,
};

verus! {

/// Reads two big-endian bytes as a 16-bit value.
fn read_be2(bytes: &[u8], i: usize) -> (r: u16)
    requires
        i + 2 <= bytes@.len(),
    ensures
        r as int == from_be2(bytes@.subrange(i as int, i + 2)),
{
    let r = (bytes[i] as u16) * 0x100 + (bytes[i + 1] as u16);
    proof {
        let sub = bytes@.subrange(i as int, i + 2);
        assert(sub[0] == bytes@[i as int] && sub[1] == bytes@[i + 1]);
    }
    r
}

/// Reads four big-endian bytes as a 32-bit value.
fn read_be4(bytes: &[u8], i: usize) -> (r: u32)
    requires
        i + 4 <= bytes@.len(),
    ensures
        r as int == from_be4(bytes@.subrange(i as int, i + 4)),
{
    let r = (bytes[i] as u32) * 0x100_0000 + (bytes[i + 1] as u32) * 0x1_0000 + (bytes[i + 2]
        as u32) * 0x100 + (bytes[i + 3] as u32);
    proof {
        let sub = bytes@.subrange(i as int, i + 4);
        assert(sub[0] == bytes@[i as int] && sub[1] == bytes@[i + 1] && sub[2] == bytes@[i + 2]
            && sub[3] == bytes@[i + 3]);
    }
    r
}

/// Reads eight big-endian bytes as a 64-bit value.
fn read_be8(bytes: &[u8], i: usize) -> (r: u64)
    requires
        i + 8 <= bytes@.len(),
    ensures
        r as int == from_be8(bytes@.subrange(i as int, i + 8)),
{
    let r = (bytes[i] as u64) * 0x100_0000_0000_0000 + (bytes[i + 1] as u64) * 0x1_0000_0000_0000
        + (bytes[i + 2] as u64) * 0x100_0000_0000 + (bytes[i + 3] as u64) * 0x1_0000_0000 + (
    bytes[i + 4] as u64) * 0x100_0000 + (bytes[i + 5] as u64) * 0x1_0000 + (bytes[i + 6] as u64)
        * 0x100 + (bytes[i + 7] as u64);
    proof {
        let sub = bytes@.subrange(i as int, i + 8);
        assert(sub[0] == bytes@[i as int] && sub[1] == bytes@[i + 1] && sub[2] == bytes@[i + 2]
            && sub[3] == bytes@[i + 3] && sub[4] == bytes@[i + 4] && sub[5] == bytes@[i + 5]
            && sub[6] == bytes@[i + 6] && sub[7] == bytes@[i + 7]);
    }
    r
}

/// Copies `l` bytes starting at `start` into an owned vector.
fn take_bytes(bytes: &[u8], start: usize, l: usize) -> (r: Vec<u8>)
    requires
        start + l <= bytes@.len(),
    ensures
        r@ == bytes@.subrange(start as int, start + l),
{
    let total = bytes.len();
    proof {
        assert(start + l <= total);
    }
    let sub = vstd::slice::slice_subrange(bytes, start, start + l);
    vstd::slice::slice_to_vec(sub)
}

/// Decodes one value starting at `pos`: the value and the position just
/// after it, in exact agreement with the wire-format decode function — on
/// the bytes from `pos` on — in both the success and the failure case.
#[verifier::rlimit(100)]
#[verifier::spinoff_prover]
pub fn decode_value(bytes: &[u8], pos: usize) -> (r: Option<(Value, usize)>)
    requires
        pos <= bytes@.len(),
    ensures
        match r {
            Some((v, end)) => pos < end <= bytes@.len() && dec(bytes@.skip(pos as int)) == Some(
                (v@, end - pos),
            ),
            None => dec(bytes@.skip(pos as int)) is None,
        },
    decreases bytes@.len() - pos, 1int,
{
    let ghost s = bytes@.skip(pos as int);
    if pos >= bytes.len() {
        proof {
            reveal(dec);
        }
        return None;
    }
    let t = bytes[pos];
    proof {
        assert(s[0] == t && s.len() == bytes@.len() - pos);
    }
    let avail = bytes.len() - pos;
    if t <= 0x7F {
        let v = Value::Integer(Integer::of_u64(t as u64));
        proof {
            assert(dec(s) == Some((ValModel::Int(t as int), 1int))) by {
                reveal(dec);
            }
        }
        Some((v, pos + 1))
    } else if t >= 0xE0 {
        let v = Value::Integer(Integer::of_i64(t as i64 - 0x100));
        proof {
            assert(dec(s) == Some((ValModel::Int(t - 0x100), 1int))) by {
                reveal(dec);
            }
        }
        Some((v, pos + 1))
    } else if t == NIL {
        proof {
            assert(dec(s) == Some((ValModel::Nil, 1int))) by {
                reveal(dec);
            }
        }
        Some((Value::Nil, pos + 1))
    } else if t == FALSE {
        proof {
            assert(dec(s) == Some((ValModel::Bool(false), 1int))) by {
                reveal(dec);
            }
        }
        Some((Value::Boolean(false), pos + 1))
    } else if t == TRUE {
        proof {
            assert(dec(s) == Some((ValModel::Bool(true), 1int))) by {
                reveal(dec);
            }
        }
        Some((Value::Boolean(true), pos + 1))
    } else if t == UINT8 {
        if avail < 2 {
            proof {
                reveal(dec);
            }
            return None;
        }
        let b1 = bytes[pos + 1];
        let v = Value::Integer(Integer::of_u64(b1 as u64));
        proof {
            assert(dec(s) == Some((ValModel::Int(b1 as int), 2int))) by {
                reveal(dec);
                assert(s[1] == b1);
            }
        }
        Some((v, pos + 2))
    } else if t == UINT16 {
        if avail < 3 {
            proof {
                reveal(dec);
            }
            return None;
        }
        let w = read_be2(bytes, pos + 1);
        let v = Value::Integer(Integer::of_u64(w as u64));
        proof {
            assert(dec(s) == Some((ValModel::Int(w as int), 3int))) by {
                reveal(dec);
                assert(s.subrange(1, 3) =~= bytes@.subrange(pos + 1, pos + 3));
            }
        }
        Some((v, pos + 3))
    } else if t == UINT32 {
        if avail < 5 {
            proof {
                reveal(dec);
            }
            return None;
        }
        let w = read_be4(bytes, pos + 1);
        let v = Value::Integer(Integer::of_u64(w as u64));
        proof {
            assert(dec(s) == Some((ValModel::Int(w as int), 5int))) by {
                reveal(dec);
                assert(s.subrange(1, 5) =~= bytes@.subrange(pos + 1, pos + 5));
            }
        }
        Some((v, pos + 5))
    } else if t == UINT64 {
        if avail < 9 {
            proof {
                reveal(dec);
            }
            return None;
        }
        let w = read_be8(bytes, pos + 1);
        let v = Value::Integer(Integer::of_u64(w));
        proof {
            assert(dec(s) == Some((ValModel::Int(w as int), 9int))) by {
                reveal(dec);
                assert(s.subrange(1, 9) =~= bytes@.subrange(pos + 1, pos + 9));
            }
        }
        Some((v, pos + 9))
    } else if t == INT8 {
        if avail < 2 {
            proof {
                reveal(dec);
            }
            return None;
        }
        let b1 = bytes[pos + 1];
        let n: i64 = if b1 < 0x80 {
            b1 as i64
        } else {
            b1 as i64 - 0x100
        };
        let v = Value::Integer(Integer::of_i64(n));
        proof {
            assert(dec(s) == Some((ValModel::Int(signed_of(b1 as int, 0x80, 0x100)), 2int))) by {
                reveal(dec);
                assert(s[1] == b1);
            }
        }
        Some((v, pos + 2))
    } else if t == INT16 {
        if avail < 3 {
            proof {
                reveal(dec);
            }
            return None;
        }
        let w = read_be2(bytes, pos + 1);
        let n: i64 = if w < 0x8000 {
            w as i64
        } else {
            w as i64 - 0x1_0000
        };
        let v = Value::Integer(Integer::of_i64(n));
        proof {
            assert(dec(s) == Some(
                (ValModel::Int(signed_of(w as int, 0x8000, 0x1_0000)), 3int),
            )) by {
                reveal(dec);
                assert(s.subrange(1, 3) =~= bytes@.subrange(pos + 1, pos + 3));
            }
        }
        Some((v, pos + 3))
    } else if t == INT32 {
        if avail < 5 {
            proof {
                reveal(dec);
            }
            return None;
        }
        let w = read_be4(bytes, pos + 1);
        let n: i64 = if w < 0x8000_0000 {
            w as i64
        } else {
            w as i64 - 0x1_0000_0000
        };
        let v = Value::Integer(Integer::of_i64(n));
        proof {
            assert(dec(s) == Some(
                (ValModel::Int(signed_of(w as int, 0x8000_0000, 0x1_0000_0000)), 5int),
            )) by {
                reveal(dec);
                assert(s.subrange(1, 5) =~= bytes@.subrange(pos + 1, pos + 5));
            }
        }
        Some((v, pos + 5))
    } else if t == INT64 {
        if avail < 9 {
            proof {
                reveal(dec);
            }
            return None;
        }
        let w = read_be8(bytes, pos + 1);
        let n: i64 = if w < 0x8000_0000_0000_0000 {
            w as i64
        } else {
            #[verifier::truncate] (w as i64)
        };
        proof {
            if w >= 0x8000_0000_0000_0000 {
                assert(w as i64 == w - 0x1_0000_0000_0000_0000) by (bit_vector)
                    requires
                        w >= 0x8000_0000_0000_0000,
                ;
            }
        }
        let v = Value::Integer(Integer::of_i64(n));
        proof {
            assert(dec(s) == Some(
                (
                    ValModel::Int(
                        signed_of(w as int, 0x8000_0000_0000_0000, 0x1_0000_0000_0000_0000),
                    ),
                    9int,
                ),
            )) by {
                reveal(dec);
                assert(s.subrange(1, 9) =~= bytes@.subrange(pos + 1, pos + 9));
            }
        }
        Some((v, pos + 9))
    } else if 0xA0 <= t && t <= 0xBF {
        let l = (t - 0xA0) as usize;
        if l > avail - 1 {
            proof {
                reveal(dec);
            }
            return None;
        }
        proof {
            reveal(dec);
        }
        decode_str_payload(bytes, pos, pos + 1, l)
    } else if t == STR8 {
        if avail < 2 {
            proof {
                reveal(dec);
            }
            return None;
        }
        let l = bytes[pos + 1] as usize;
        proof {
            assert(s[1] == bytes@[pos + 1]);
        }
        if l > avail - 2 {
            proof {
                reveal(dec);
            }
            return None;
        }
        proof {
            reveal(dec);
        }
        decode_str_payload(bytes, pos, pos + 2, l)
    } else if t == STR16 {
        if avail < 3 {
            proof {
                reveal(dec);
            }
            return None;
        }
        let l = read_be2(bytes, pos + 1) as usize;
        proof {
            assert(s.subrange(1, 3) =~= bytes@.subrange(pos + 1, pos + 3));
        }
        if l > avail - 3 {
            proof {
                reveal(dec);
            }
            return None;
        }
        proof {
            reveal(dec);
        }
        decode_str_payload(bytes, pos, pos + 3, l)
    } else if t == STR32 {
        if avail < 5 {
            proof {
                reveal(dec);
            }
            return None;
        }
        let l32 = read_be4(bytes, pos + 1);
        proof {
            assert(s.subrange(1, 5) =~= bytes@.subrange(pos + 1, pos + 5));
        }
        if l32 as u64 > (avail as u64) - 5 {
            proof {
                reveal(dec);
            }
            return None;
        }
        let l = l32 as usize;
        proof {
            reveal(dec);
        }
        decode_str_payload(bytes, pos, pos + 5, l)
    } else if t == BIN8 {
        if avail < 2 {
            proof {
                reveal(dec);
            }
            return None;
        }
        let l = bytes[pos + 1] as usize;
        proof {
            assert(s[1] == bytes@[pos + 1]);
        }
        if l > avail - 2 {
            proof {
                reveal(dec);
            }
            return None;
        }
        proof {
            reveal(dec);
        }
        decode_bin_payload(bytes, pos, pos + 2, l)
    } else if t == BIN16 {
        if avail < 3 {
            proof {
                reveal(dec);
            }
            return None;
        }
        let l = read_be2(bytes, pos + 1) as usize;
        proof {
            assert(s.subrange(1, 3) =~= bytes@.subrange(pos + 1, pos + 3));
        }
        if l > avail - 3 {
            proof {
                reveal(dec);
            }
            return None;
        }
        proof {
            reveal(dec);
        }
        decode_bin_payload(bytes, pos, pos + 3, l)
    } else if t == BIN32 {
        if avail < 5 {
            proof {
                reveal(dec);
            }
            return None;
        }
        let l32 = read_be4(bytes, pos + 1);
        proof {
            assert(s.subrange(1, 5) =~= bytes@.subrange(pos + 1, pos + 5));
        }
        if l32 as u64 > (avail as u64) - 5 {
            proof {
                reveal(dec);
            }
            return None;
        }
        let l = l32 as usize;
        proof {
            reveal(dec);
        }
        decode_bin_payload(bytes, pos, pos + 5, l)
    } else if 0x90 <= t && t <= 0x9F {
        let n = (t - 0x90) as usize;
        proof {
            reveal(dec);
            assert(s.skip(1) =~= bytes@.skip(pos + 1));
        }
        decode_list(bytes, pos, pos + 1, n)
    } else if t == ARRAY16 {
        if avail < 3 {
            proof {
                reveal(dec);
            }
            return None;
        }
        let n = read_be2(bytes, pos + 1) as usize;
        proof {
            assert(s.subrange(1, 3) =~= bytes@.subrange(pos + 1, pos + 3));
        }
        proof {
            reveal(dec);
            assert(s.skip(3) =~= bytes@.skip(pos + 3));
        }
        decode_list(bytes, pos, pos + 3, n)
    } else if t == ARRAY32 {
        if avail < 5 {
            proof {
                reveal(dec);
            }
            return None;
        }
        let n32 = read_be4(bytes, pos + 1);
        proof {
            assert(s.subrange(1, 5) =~= bytes@.subrange(pos + 1, pos + 5));
        }
        if n32 as u64 > (avail as u64) - 5 {
            proof {
                reveal(dec);
                assert(s.skip(5) =~= bytes@.skip(pos + 5));
                crate::wire::lemma_dec_list_bound(bytes@.skip(pos + 5), n32 as int);
            }
            return None;
        }
        proof {
            reveal(dec);
            assert(s.skip(5) =~= bytes@.skip(pos + 5));
        }
        decode_list(bytes, pos, pos + 5, n32 as usize)
    } else if 0x80 <= t && t <= 0x8F {
        let n = (t - 0x80) as usize;
        proof {
            reveal(dec);
            assert(s.skip(1) =~= bytes@.skip(pos + 1));
        }
        decode_pairs(bytes, pos, pos + 1, n)
    } else if t == MAP16 {
        if avail < 3 {
            proof {
                reveal(dec);
            }
            return None;
        }
        let n = read_be2(bytes, pos + 1) as usize;
        proof {
            assert(s.subrange(1, 3) =~= bytes@.subrange(pos + 1, pos + 3));
        }
        proof {
            reveal(dec);
            assert(s.skip(3) =~= bytes@.skip(pos + 3));
        }
        decode_pairs(bytes, pos, pos + 3, n)
    } else if t == MAP32 {
        if avail < 5 {
            proof {
                reveal(dec);
            }
            return None;
        }
        let n32 = read_be4(bytes, pos + 1);
        proof {
            assert(s.subrange(1, 5) =~= bytes@.subrange(pos + 1, pos + 5));
        }
        if n32 as u64 > (avail as u64) - 5 {
            proof {
                reveal(dec);
                assert(s.skip(5) =~= bytes@.skip(pos + 5));
                crate::wire::lemma_dec_pairs_bound(bytes@.skip(pos + 5), n32 as int);
            }
            return None;
        }
        proof {
            reveal(dec);
            assert(s.skip(5) =~= bytes@.skip(pos + 5));
        }
        decode_pairs(bytes, pos, pos + 5, n32 as usize)
    } else {
        proof {
            reveal(dec);
        }
        None
    }
}

/// Decodes a text payload of `l` bytes at `body`: the payload must be valid
/// UTF-8, or the decode fails.
fn decode_str_payload(bytes: &[u8], pos: usize, body: usize, l: usize) -> (r: Option<
    (Value, usize),
>)
    requires
        pos < body,
        body + l <= bytes@.len(),
        ({
            let s = bytes@.skip(pos as int);
            dec(s) == match crate::wire::dec_text(s.subrange(body - pos, body - pos + l)) {
                Some(v) => Some((v, body - pos + l)),
                None => None::<(ValModel, int)>,
            }
        }),
    ensures
        match r {
            Some((v, end)) => pos < end <= bytes@.len() && dec(bytes@.skip(pos as int)) == Some(
                (v@, end - pos),
            ),
            None => dec(bytes@.skip(pos as int)) is None,
        },
{
    let ghost s = bytes@.skip(pos as int);
    let total = bytes.len();
    proof {
        assert(body + l <= total);
        assert(s.subrange(body - pos, body - pos + l) =~= bytes@.subrange(
            body as int,
            body + l,
        ));
    }
    let payload = take_bytes(bytes, body, l);
    match string_from_utf8(payload) {
        Some(st) => {
            proof {
                vstd::utf8::encode_utf8_decode_utf8(st@);
                vstd::utf8::encode_utf8_valid_utf8(st@);
            }
            let v = Value::String(Utf8String::from(st));
            Some((v, body + l))
        },
        None => None,
    }
}

/// Decodes a binary payload of `l` bytes at `body`.
fn decode_bin_payload(bytes: &[u8], pos: usize, body: usize, l: usize) -> (r: Option<
    (Value, usize),
>)
    requires
        pos < body,
        body + l <= bytes@.len(),
        ({
            let s = bytes@.skip(pos as int);
            dec(s) == Some((ValModel::Bin(s.subrange(body - pos, body - pos + l)), body - pos + l))
        }),
    ensures
        match r {
            Some((v, end)) => pos < end <= bytes@.len() && dec(bytes@.skip(pos as int)) == Some(
                (v@, end - pos),
            ),
            None => dec(bytes@.skip(pos as int)) is None,
        },
{
    let ghost s = bytes@.skip(pos as int);
    let total = bytes.len();
    proof {
        assert(body + l <= total);
        assert(s.subrange(body - pos, body - pos + l) =~= bytes@.subrange(
            body as int,
            body + l,
        ));
    }
    let payload = take_bytes(bytes, body, l);
    Some((Value::Binary(payload), body + l))
}

/// Decodes the `n` elements of an array whose header ends at `body`.
#[verifier::rlimit(100)]
#[verifier::spinoff_prover]
fn decode_list(bytes: &[u8], pos: usize, body: usize, n: usize) -> (r: Option<(Value, usize)>)
    requires
        pos < body <= bytes@.len(),
        ({
            let s = bytes@.skip(pos as int);
            dec(s) == match dec_list(bytes@.skip(body as int), n as int) {
                Some((vs, c)) => Some((ValModel::Arr(vs), body - pos + c)),
                None => None::<(ValModel, int)>,
            }
        }),
    ensures
        match r {
            Some((v, end)) => pos < end <= bytes@.len() && dec(bytes@.skip(pos as int)) == Some(
                (v@, end - pos),
            ),
            None => dec(bytes@.skip(pos as int)) is None,
        },
    decreases bytes@.len() - pos, 0int,
{
    let mut items: Vec<Value> = Vec::new();
    let mut j: usize = body;
    let mut k: usize = 0;
    while k < n
        invariant
            body <= j <= bytes@.len(),
            k <= n,
            items@.len() == k as int,
            dec_list(bytes@.skip(body as int), n as int) == (match dec_list(
                bytes@.skip(j as int),
                n - k,
            ) {
                Some((vs, c)) => Some((seq_view(items@) + vs, (j - body) + c)),
                None => None::<(Seq<ValModel>, int)>,
            }),
        decreases n - k,
    {
        proof {
            reveal(dec);
        }
        match decode_value(bytes, j) {
            Some((v, end)) => {
                proof {
                    let ghost prev = items@;
                    assert(dec_list(bytes@.skip(j as int), n - k) == (match dec_list(
                        bytes@.skip(end as int),
                        n - k - 1,
                    ) {
                        Some((vs2, c2)) => Some((seq![v@] + vs2, (end - j) + c2)),
                        None => None::<(Seq<ValModel>, int)>,
                    })) by {
                        assert(bytes@.skip(j as int).skip(end - j) =~= bytes@.skip(end as int));
                    }
                }
                items.push(v);
                proof {
                    assert(seq_view(items@) =~= seq_view(items@.drop_last()) + seq![v@]);
                    assert forall|vs2: Seq<ValModel>|
                        true implies seq_view(items@.drop_last()) + (seq![v@] + vs2) == seq_view(
                        items@,
                    ) + vs2 by {
                        assert(seq_view(items@.drop_last()) + (seq![v@] + vs2) =~= seq_view(
                            items@,
                        ) + vs2);
                    }
                }
                j = end;
                k = k + 1;
            },
            None => {
                proof {
                    assert(dec_list(bytes@.skip(j as int), n - k) is None);
                }
                return None;
            },
        }
    }
    proof {
        assert(dec_list(bytes@.skip(j as int), 0int) == Some((Seq::<ValModel>::empty(), 0int)));
        assert(seq_view(items@) + Seq::<ValModel>::empty() =~= seq_view(items@));
        crate::value::Value::lemma_view_arr(items);
    }
    Some((Value::Array(items), j))
}

/// Decodes the `n` key-value pairs of a map whose header ends at `body`.
#[verifier::rlimit(100)]
#[verifier::spinoff_prover]
fn decode_pairs(bytes: &[u8], pos: usize, body: usize, n: usize) -> (r: Option<(Value, usize)>)
    requires
        pos < body <= bytes@.len(),
        ({
            let s = bytes@.skip(pos as int);
            dec(s) == match dec_pairs(bytes@.skip(body as int), n as int) {
                Some((ps, c)) => Some((ValModel::Pairs(ps), body - pos + c)),
                None => None::<(ValModel, int)>,
            }
        }),
    ensures
        match r {
            Some((v, end)) => pos < end <= bytes@.len() && dec(bytes@.skip(pos as int)) == Some(
                (v@, end - pos),
            ),
            None => dec(bytes@.skip(pos as int)) is None,
        },
    decreases bytes@.len() - pos, 0int,
{
    let mut items: Vec<(Value, Value)> = Vec::new();
    let mut j: usize = body;
    let mut k: usize = 0;
    while k < n
        invariant
            body <= j <= bytes@.len(),
            k <= n,
            items@.len() == k as int,
            dec_pairs(bytes@.skip(body as int), n as int) == (match dec_pairs(
                bytes@.skip(j as int),
                n - k,
            ) {
                Some((ps, c)) => Some((pairs_view(items@) + ps, (j - body) + c)),
                None => None::<(Seq<(ValModel, ValModel)>, int)>,
            }),
        decreases n - k,
    {
        proof {
            reveal(dec);
        }
        let key = match decode_value(bytes, j) {
            Some(kv) => kv,
            None => {
                proof {
                    assert(dec_pairs(bytes@.skip(j as int), n - k) is None);
                }
                return None;
            },
        };
        let val = match decode_value(bytes, key.1) {
            Some(vv) => vv,
            None => {
                proof {
                    assert(bytes@.skip(j as int).skip(key.1 - j) =~= bytes@.skip(key.1 as int));
                    assert(dec_pairs(bytes@.skip(j as int), n - k) is None);
                }
                return None;
            },
        };
        let end = val.1;
        proof {
            assert(bytes@.skip(j as int).skip(key.1 - j) =~= bytes@.skip(key.1 as int));
            assert(dec_pairs(bytes@.skip(j as int), n - k) == (match dec_pairs(
                bytes@.skip(end as int),
                n - k - 1,
            ) {
                Some((ps2, c2)) => Some((seq![(key.0@, val.0@)] + ps2, (end - j) + c2)),
                None => None::<(Seq<(ValModel, ValModel)>, int)>,
            })) by {
                assert(bytes@.skip(j as int).skip(end - j) =~= bytes@.skip(end as int));
            }
        }
        items.push((key.0, val.0));
        proof {
            let ghost p = (items@.last().0@, items@.last().1@);
            assert forall|ps2: Seq<(ValModel, ValModel)>|
                true implies pairs_view(items@.drop_last()) + (seq![p] + ps2) == pairs_view(
                items@,
            ) + ps2 by {
                assert(pairs_view(items@.drop_last()) + (seq![p] + ps2) =~= pairs_view(items@)
                    + ps2);
            }
        }
        j = end;
        k = k + 1;
    }
    proof {
        assert(dec_pairs(bytes@.skip(j as int), 0int) == Some(
            (Seq::<(ValModel, ValModel)>::empty(), 0int),
        ));
        assert(pairs_view(items@) + Seq::<(ValModel, ValModel)>::empty() =~= pairs_view(items@));
        crate::value::Value::lemma_view_map(items);
    }
    Some((Value::Mapping(items), j))
}

/// Decodes a whole byte buffer as one value. Succeeds exactly when the
/// buffer holds one well-formed value and nothing after it.
pub fn deserialize(bytes: &[u8]) -> (r: Option<Value>)
    ensures
        match r {
            Some(v) => dec(bytes@) == Some((v@, bytes@.len() as int)),
            None => !(dec(bytes@) matches Some((m, c)) && c == bytes@.len()),
        },
{
    proof {
        assert(bytes@.skip(0) =~= bytes@);
    }
    match decode_value(bytes, 0) {
        Some((v, end)) => {
            if end == bytes.len() {
                Some(v)
            } else {
                None
            }
        },
        None => None,
    }
}

} // verus!
