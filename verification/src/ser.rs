//! The executable encoder: serializes values into an append-only byte
//! buffer, emitting a self-describing tag for every value, in the smallest
//! wire form that round-trips the value exactly.
use vstd::prelude::*;
use vstd::string::StringSliceAdditionalSpecFns;

use crate::value::{pairs_view, seq_view, ValModel, Value};
use crate::wire::{
    arr_header, be2, be4, be8, bin_header, enc, enc_list, enc_pairs, enc_sint, enc_uint,
    map_header, size_ok, str_header, text_ok, ARRAY16, ARRAY32, BIN16, BIN32, BIN8, FALSE,
    FIXINT_MAX, FIXINT_MIN, INT16, INT32, INT64, INT8, MAP16, MAP32, MAX_ARRAY16, MAX_ARRAY32,
    MAX_BIN16, MAX_BIN32, MAX_BIN8, MAX_FIXARRAY, MAX_FIXMAP, MAX_FIXSTR, MAX_MAP16, MAX_MAP32,
    MAX_STR16, MAX_STR32, MAX_STR8, NIL, STR16, STR32, STR8, TRUE, UINT16, UINT32, UINT64, UINT8,
};
use crate::Error;

verus! {

/// The encoder. It owns its output buffer exclusively; every serialize call
/// appends the encoding of one value to `output`.
pub struct Serializer {
    pub output: Vec<u8>,
}

impl Serializer {
    /// Creates an encoder with an empty output buffer.
    pub fn new() -> (r: Serializer)
        ensures
            r.output@ == Seq::<u8>::empty(),
    {
        Serializer { output: Vec::new() }
    }

    /// Appends the two big-endian bytes of a 16-bit value.
    fn push_be2(&mut self, v: u16)
        ensures
            final(self).output@ == old(self).output@ + be2(v as int),
    {
        self.output.push((v / 0x100) as u8);
        self.output.push((v % 0x100) as u8);
        proof {
            assert(self.output@ =~= old(self).output@ + be2(v as int));
        }
    }

    /// Appends the four big-endian bytes of a 32-bit value.
    fn push_be4(&mut self, v: u32)
        ensures
            final(self).output@ == old(self).output@ + be4(v as int),
    {
        self.output.push((v / 0x100_0000) as u8);
        self.output.push(((v / 0x1_0000) % 0x100) as u8);
        self.output.push(((v / 0x100) % 0x100) as u8);
        self.output.push((v % 0x100) as u8);
        proof {
            assert(self.output@ =~= old(self).output@ + be4(v as int));
        }
    }

    /// Appends the eight big-endian bytes of a 64-bit value.
    fn push_be8(&mut self, v: u64)
        ensures
            final(self).output@ == old(self).output@ + be8(v as int),
    {
        self.output.push((v / 0x100_0000_0000_0000) as u8);
        self.output.push(((v / 0x1_0000_0000_0000) % 0x100) as u8);
        self.output.push(((v / 0x100_0000_0000) % 0x100) as u8);
        self.output.push(((v / 0x1_0000_0000) % 0x100) as u8);
        self.output.push(((v / 0x100_0000) % 0x100) as u8);
        self.output.push(((v / 0x1_0000) % 0x100) as u8);
        self.output.push(((v / 0x100) % 0x100) as u8);
        self.output.push((v % 0x100) as u8);
        proof {
            assert(self.output@ =~= old(self).output@ + be8(v as int));
        }
    }

    /// Encodes a signed integer in the smallest tier of the signed ladder.
    pub fn serialize_signed(&mut self, value: i64) -> (r: Result<(), Error>)
        ensures
            r is Ok,
            final(self).output@ == old(self).output@ + enc_sint(value as int),
    {
        if value >= FIXINT_MIN as i64 && value <= FIXINT_MAX as i64 {
            let b: u8 = if value >= 0 {
                value as u8
            } else {
                (value + 0x100) as u8
            };
            self.output.push(b);
            proof {
                assert(self.output@ =~= old(self).output@ + enc_sint(value as int));
            }
        } else if value >= i8::MIN as i64 && value <= i8::MAX as i64 {
            self.output.push(INT8);
            self.output.push((value + 0x100) as u8);
            proof {
                assert(self.output@ =~= old(self).output@ + enc_sint(value as int));
            }
        } else if value >= 0 && value <= u8::MAX as i64 {
            self.output.push(UINT8);
            self.output.push(value as u8);
            proof {
                assert(self.output@ =~= old(self).output@ + enc_sint(value as int));
            }
        } else if value >= i16::MIN as i64 && value <= i16::MAX as i64 {
            self.output.push(INT16);
            let w: u16 = if value >= 0 {
                value as u16
            } else {
                (value + 0x1_0000) as u16
            };
            self.push_be2(w);
            proof {
                assert(self.output@ =~= old(self).output@ + enc_sint(value as int));
            }
        } else if value >= 0 && value <= u16::MAX as i64 {
            self.output.push(UINT16);
            self.push_be2(value as u16);
            proof {
                assert(self.output@ =~= old(self).output@ + enc_sint(value as int));
            }
        } else if value >= i32::MIN as i64 && value <= i32::MAX as i64 {
            self.output.push(INT32);
            let w: u32 = if value >= 0 {
                value as u32
            } else {
                (value + 0x1_0000_0000) as u32
            };
            self.push_be4(w);
            proof {
                assert(self.output@ =~= old(self).output@ + enc_sint(value as int));
            }
        } else if value >= 0 && value <= u32::MAX as i64 {
            self.output.push(UINT32);
            self.push_be4(value as u32);
            proof {
                assert(self.output@ =~= old(self).output@ + enc_sint(value as int));
            }
        } else {
            self.output.push(INT64);
            let w: u64 = if value >= 0 {
                value as u64
            } else {
                #[verifier::truncate] (value as u64)
            };
            proof {
                if value < 0 {
                    assert(value as u64 == value + 0x1_0000_0000_0000_0000) by (bit_vector)
                        requires
                            value < 0,
                    ;
                }
            }
            self.push_be8(w);
            proof {
                assert(self.output@ =~= old(self).output@ + enc_sint(value as int));
            }
        }
        Ok(())
    }

    /// Encodes a non-negative integer in the smallest tier of the unsigned
    /// ladder.
    pub fn serialize_unsigned(&mut self, value: u64) -> (r: Result<(), Error>)
        ensures
            r is Ok,
            final(self).output@ == old(self).output@ + enc_uint(value as int),
    {
        if value <= FIXINT_MAX as u64 {
            self.output.push(value as u8);
            proof {
                assert(self.output@ =~= old(self).output@ + enc_uint(value as int));
            }
        } else if value <= u8::MAX as u64 {
            self.output.push(UINT8);
            self.output.push(value as u8);
            proof {
                assert(self.output@ =~= old(self).output@ + enc_uint(value as int));
            }
        } else if value <= u16::MAX as u64 {
            self.output.push(UINT16);
            self.push_be2(value as u16);
            proof {
                assert(self.output@ =~= old(self).output@ + enc_uint(value as int));
            }
        } else if value <= u32::MAX as u64 {
            self.output.push(UINT32);
            self.push_be4(value as u32);
            proof {
                assert(self.output@ =~= old(self).output@ + enc_uint(value as int));
            }
        } else {
            self.output.push(UINT64);
            self.push_be8(value);
            proof {
                assert(self.output@ =~= old(self).output@ + enc_uint(value as int));
            }
        }
        Ok(())
    }

    /// Encodes a boolean as its single tag byte.
    pub fn serialize_bool(&mut self, value: bool) -> (r: Result<(), Error>)
        ensures
            r is Ok,
            final(self).output@ == old(self).output@ + (if value {
                seq![TRUE]
            } else {
                seq![FALSE]
            }),
    {
        if value {
            self.output.push(TRUE);
        } else {
            self.output.push(FALSE);
        }
        Ok(())
    }

    /// Encodes a byte string: the smallest binary size tier, then the bytes.
    pub fn serialize_bytes(&mut self, value: &[u8]) -> (r: Result<(), Error>)
        ensures
            match r {
                Ok(()) => value@.len() <= MAX_BIN32 && final(self).output@ == old(self).output@
                    + bin_header(value@.len() as int) + value@,
                Err(e) => e == Error::TooBig && value@.len() > MAX_BIN32 && final(self).output@
                    == old(self).output@,
            },
    {
        if value.len() <= MAX_BIN8 {
            self.output.push(BIN8);
            self.output.push(value.len() as u8);
        } else if value.len() <= MAX_BIN16 {
            self.output.push(BIN16);
            self.push_be2(value.len() as u16);
        } else if value.len() <= MAX_BIN32 {
            self.output.push(BIN32);
            self.push_be4(value.len() as u32);
        } else {
            return Err(Error::TooBig);
        }
        let mut tail = vstd::slice::slice_to_vec(value);
        self.output.append(&mut tail);
        proof {
            assert(self.output@ =~= old(self).output@ + bin_header(value@.len() as int)
                + value@);
        }
        Ok(())
    }

    /// Encodes a string: the smallest text size tier for its UTF-8 byte
    /// length, then the UTF-8 bytes.
    pub fn serialize_str(&mut self, value: &str) -> (r: Result<(), Error>)
        ensures
            match r {
                Ok(()) => value.spec_bytes().len() <= MAX_STR32 && final(self).output@ == old(self).output@ + str_header(value.spec_bytes().len() as int) + value.spec_bytes(),
                Err(e) => e == Error::TooBig && value.spec_bytes().len() > MAX_STR32 && final(self).output@ == old(self).output@,
            },
    {
        let bytes = value.as_bytes();
        if bytes.len() <= MAX_FIXSTR {
            self.output.push(0xA0 + bytes.len() as u8);
        } else if bytes.len() <= MAX_STR8 {
            self.output.push(STR8);
            self.output.push(bytes.len() as u8);
        } else if bytes.len() <= MAX_STR16 {
            self.output.push(STR16);
            self.push_be2(bytes.len() as u16);
        } else if bytes.len() <= MAX_STR32 {
            self.output.push(STR32);
            self.push_be4(bytes.len() as u32);
        } else {
            return Err(Error::TooBig);
        }
        let mut tail = vstd::slice::slice_to_vec(bytes);
        self.output.append(&mut tail);
        proof {
            assert(self.output@ =~= old(self).output@ + str_header(
                value.spec_bytes().len() as int,
            ) + value.spec_bytes());
        }
        Ok(())
    }

    /// Encodes the unit value as the nil tag.
    pub fn serialize_unit(&mut self) -> (r: Result<(), Error>)
        ensures
            r is Ok,
            final(self).output@ == old(self).output@ + seq![NIL],
    {
        self.output.push(NIL);
        proof {
            assert(self.output@ =~= old(self).output@ + seq![NIL]);
        }
        Ok(())
    }

    /// Starts an enumerated variant: a 2-element sequence header followed by
    /// the variant index; the caller then encodes the payload.
    pub fn serialize_variant(&mut self, variant_index: u32) -> (r: Result<(), Error>)
        ensures
            r is Ok,
            final(self).output@ == old(self).output@ + seq![(0x90 + 2) as u8] + enc_uint(
                variant_index as int,
            ),
    {
        self.output.push(0x90 + 2);
        let r = self.serialize_unsigned(variant_index as u64);
        proof {
            assert(self.output@ =~= old(self).output@ + seq![(0x90 + 2) as u8] + enc_uint(
                variant_index as int,
            ));
        }
        r
    }

    /// Writes the header of a map of `size` pairs in the smallest tier.
    pub fn output_map_header(&mut self, size: usize) -> (r: Result<(), Error>)
        ensures
            match r {
                Ok(()) => size <= MAX_MAP32 && final(self).output@ == old(self).output@
                    + map_header(size as int),
                Err(e) => e == Error::TooBig && size > MAX_MAP32 && final(self).output@ == old(self).output@,
            },
    {
        if size <= MAX_FIXMAP {
            self.output.push(0x80 + size as u8);
        } else if size <= MAX_MAP16 {
            self.output.push(MAP16);
            self.push_be2(size as u16);
        } else if size <= MAX_MAP32 {
            self.output.push(MAP32);
            self.push_be4(size as u32);
        } else {
            return Err(Error::TooBig);
        }
        proof {
            assert(self.output@ =~= old(self).output@ + map_header(size as int));
        }
        Ok(())
    }

    /// Writes the header of a sequence of `size` elements in the smallest tier.
    pub fn output_seq_header(&mut self, size: usize) -> (r: Result<(), Error>)
        ensures
            match r {
                Ok(()) => size <= MAX_ARRAY32 && final(self).output@ == old(self).output@
                    + arr_header(size as int),
                Err(e) => e == Error::TooBig && size > MAX_ARRAY32 && final(self).output@ == old(self).output@,
            },
    {
        if size <= MAX_FIXARRAY {
            self.output.push(0x90 + size as u8);
        } else if size <= MAX_ARRAY16 {
            self.output.push(ARRAY16);
            self.push_be2(size as u16);
        } else if size <= MAX_ARRAY32 {
            self.output.push(ARRAY32);
            self.push_be4(size as u32);
        } else {
            return Err(Error::TooBig);
        }
        proof {
            assert(self.output@ =~= old(self).output@ + arr_header(size as int));
        }
        Ok(())
    }

    /// Starts a sequence. The element count must be known before any element
    /// is written: the wire format is header-prefixed, so an unknown length
    /// fails with `BadLength`.
    pub fn serialize_seq(&mut self, size: Option<usize>) -> (r: Result<(), Error>)
        ensures
            match r {
                Ok(()) => size matches Some(n) && n <= MAX_ARRAY32 && final(self).output@ == old(self).output@ + arr_header(n as int),
                Err(Error::TooBig) => size matches Some(n) && n > MAX_ARRAY32 && final(self).output@ == old(self).output@,
                Err(Error::BadLength) => size is None && final(self).output@ == old(self).output@,
            },
    {
        if let Some(size) = size {
            self.output_seq_header(size)
        } else {
            Err(Error::BadLength)
        }
    }

    /// Starts a map. The pair count must be known before any pair is
    /// written; an unknown length fails with `BadLength`.
    pub fn serialize_map(&mut self, size: Option<usize>) -> (r: Result<(), Error>)
        ensures
            match r {
                Ok(()) => size matches Some(n) && n <= MAX_MAP32 && final(self).output@ == old(self).output@ + map_header(n as int),
                Err(Error::TooBig) => size matches Some(n) && n > MAX_MAP32 && final(self).output@
                    == old(self).output@,
                Err(Error::BadLength) => size is None && final(self).output@ == old(self).output@,
            },
    {
        if let Some(size) = size {
            self.output_map_header(size)
        } else {
            Err(Error::BadLength)
        }
    }

    /// Encodes an absent optional value: a 1-element sequence holding `false`.
    pub fn serialize_none(&mut self) -> (r: Result<(), Error>)
        ensures
            r is Ok,
            final(self).output@ == old(self).output@ + seq![(0x90 + 1) as u8, FALSE],
    {
        self.output.push(0x90 + 1);
        self.output.push(FALSE);
        proof {
            assert(self.output@ =~= old(self).output@ + seq![(0x90 + 1) as u8, FALSE]);
        }
        Ok(())
    }

    /// Encodes a present optional value: a 2-element sequence holding `true`
    /// and the value itself.
    pub fn serialize_some(&mut self, value: &Value) -> (r: Result<(), Error>)
        requires
            text_ok(value@),
        ensures
            match r {
                Ok(()) => size_ok(value@) && final(self).output@ == old(self).output@ + seq![
                    (0x90 + 2) as u8,
                    TRUE,
                ] + enc(value@),
                Err(e) => e == Error::TooBig && !size_ok(value@),
            },
    {
        self.output.push(0x90 + 2);
        self.output.push(TRUE);
        let r = self.serialize_value(value);
        proof {
            if r is Ok {
                assert(self.output@ =~= old(self).output@ + seq![(0x90 + 2) as u8, TRUE]
                    + enc(value@));
            }
        }
        r
    }

    /// Encodes a value: its self-describing tag, then its payload, with
    /// every nested value encoded in order. Succeeds exactly when every
    /// payload fits its largest size tier.
    #[verifier::rlimit(100)]
    #[verifier::spinoff_prover]
    pub fn serialize_value(&mut self, value: &Value) -> (r: Result<(), Error>)
        requires
            text_ok(value@),
        ensures
            match r {
                Ok(()) => size_ok(value@) && final(self).output@ == old(self).output@ + enc(
                    value@,
                ),
                Err(e) => e == Error::TooBig && !size_ok(value@),
            },
        decreases *value,
    {
        match value {
            Value::Nil => self.serialize_none(),
            Value::Boolean(b) => self.serialize_bool(*b),
            Value::Integer(i) => {
                proof {
                    i.lemma_in_range();
                }
                if i.is_u64() {
                    self.serialize_unsigned(i.as_u64().unwrap())
                } else {
                    self.serialize_signed(i.as_i64().unwrap())
                }
            },
            Value::String(s) => {
                let st = s.as_str().unwrap();
                self.serialize_str(st)
            },
            Value::Binary(b) => self.serialize_bytes(b.as_slice()),
            Value::Array(a) => {
                proof {
                    crate::value::Value::lemma_view_arr(*a);
                    assert(decreases_to!(*value => *a)) by {
                        assert(*value is Array);
                    }
                }
                self.serialize_array(a)
            },
            Value::Mapping(m) => {
                proof {
                    crate::value::Value::lemma_view_map(*m);
                    assert(decreases_to!(*value => *m)) by {
                        assert(*value is Mapping);
                    }
                }
                self.serialize_mapping(m)
            },
            Value::Ext(_, _) => self.serialize_none(),
        }
    }

    /// Encodes a character as a one-character text value: its UTF-8 bytes
    /// under a compact text header.
    pub fn serialize_char(&mut self, v: char) -> (r: Result<(), Error>)
        ensures
            r is Ok,
            final(self).output@ == old(self).output@ + enc(
                ValModel::Text(crate::value::TextModel::Chars(seq![v])),
            ),
    {
        let mut buf: Vec<u8> = Vec::new();
        crate::value::push_char_utf8(&mut buf, v);
        proof {
            crate::value::lemma_encode_utf8_push(Seq::empty(), v);
            assert(Seq::<char>::empty().push(v) =~= seq![v]);
            assert(vstd::utf8::encode_utf8(Seq::<char>::empty())
                + vstd::utf8::encode_scalar(v as u32) =~= vstd::utf8::encode_scalar(v as u32));
            vstd::utf8::char_is_scalar(v);
        }
        self.output.push(0xA0 + buf.len() as u8);
        let mut tail = buf;
        self.output.append(&mut tail);
        proof {
            let cs = seq![v];
            let payload = vstd::utf8::encode_utf8(cs);
            assert(self.output@ =~= old(self).output@ + str_header(payload.len() as int)
                + payload);
        }
        Ok(())
    }

    /// Encodes an array value: the element-count header, then each element
    /// in order.
    #[verifier::rlimit(100)]
    #[verifier::spinoff_prover]
    fn serialize_array(&mut self, a: &Vec<Value>) -> (r: Result<(), Error>)
        requires
            text_ok(ValModel::Arr(seq_view(a@))),
        ensures
            match r {
                Ok(()) => size_ok(ValModel::Arr(seq_view(a@))) && final(self).output@ == old(
                    self,
                ).output@ + enc(ValModel::Arr(seq_view(a@))),
                Err(e) => e == Error::TooBig && !size_ok(ValModel::Arr(seq_view(a@))),
            },
        decreases *a,
    {
        proof {
            crate::value::Value::lemma_view_arr(*a);
        }
        match self.output_seq_header(a.len()) {
            Ok(()) => {},
            Err(e) => {
                return Err(e);
            },
        }
        let ghost base = self.output@;
        let ghost s = seq_view(a@);
        let mut k: usize = 0;
        while k < a.len()
            invariant
                k <= a.len(),
                self.output@ + enc_list(s, k as int) == base + enc_list(s, 0),
                forall|j: int| 0 <= j < k ==> size_ok(#[trigger] s[j]),
            decreases a.len() - k,
        {
            proof {
                assert(decreases_to!(*a => a@[k as int])) by {
                    assert(decreases_to!(*a => a@));
                    assert(decreases_to!(a@ => a@[k as int]));
                }
                crate::wire::lemma_text_ok_arr_elem(s, k as int);
            }
            match self.serialize_value(&a[k]) {
                Ok(()) => {},
                Err(e) => {
                    return Err(e);
                },
            }
            proof {
                assert(self.output@ + enc_list(s, k + 1 as int) =~= base + enc_list(
                    s,
                    0,
                )) by {
                    assert(enc_list(s, k as int) == enc(s[k as int]) + enc_list(
                        s,
                        k + 1 as int,
                    ));
                }
            }
            k = k + 1;
        }
        proof {
            assert(enc_list(s, a.len() as int) == Seq::<u8>::empty());
            assert(self.output@ =~= base + enc_list(s, 0));
            assert(self.output@ =~= old(self).output@ + enc(ValModel::Arr(seq_view(a@))));
        }
        Ok(())
    }

    /// Encodes a map value: the pair-count header, then each key and value
    /// in the order given.
    #[verifier::rlimit(100)]
    #[verifier::spinoff_prover]
    fn serialize_mapping(&mut self, m: &Vec<(Value, Value)>) -> (r: Result<(), Error>)
        requires
            text_ok(ValModel::Pairs(pairs_view(m@))),
        ensures
            match r {
                Ok(()) => size_ok(ValModel::Pairs(pairs_view(m@))) && final(self).output@ == old(
                    self,
                ).output@ + enc(ValModel::Pairs(pairs_view(m@))),
                Err(e) => e == Error::TooBig && !size_ok(ValModel::Pairs(pairs_view(m@))),
            },
        decreases *m,
    {
        proof {
            crate::value::Value::lemma_view_map(*m);
        }
        match self.output_map_header(m.len()) {
            Ok(()) => {},
            Err(e) => {
                return Err(e);
            },
        }
        let ghost base = self.output@;
        let ghost ps = pairs_view(m@);
        let mut k: usize = 0;
        while k < m.len()
            invariant
                k <= m.len(),
                self.output@ + enc_pairs(ps, k as int) == base + enc_pairs(ps, 0),
                forall|j: int|
                    0 <= j < k ==> size_ok(#[trigger] ps[j].0) && size_ok(ps[j].1),
            decreases m.len() - k,
        {
            proof {
                assert(decreases_to!(*m => m@[k as int].0) && decreases_to!(
                    *m => m@[k as int].1
                )) by {
                                                assert(decreases_to!(*m => m@));
                    assert(decreases_to!(m@ => m@[k as int]));
                    assert(decreases_to!(m@[k as int] => m@[k as int].0));
                    assert(decreases_to!(m@[k as int] => m@[k as int].1));
                }
            }
            proof {
                crate::wire::lemma_text_ok_pairs_elem(ps, k as int);
            }
            let pair = &m[k];
            match self.serialize_value(&pair.0) {
                Ok(()) => {},
                Err(e) => {
                    return Err(e);
                },
            }
            match self.serialize_value(&pair.1) {
                Ok(()) => {},
                Err(e) => {
                    return Err(e);
                },
            }
            proof {
                assert(self.output@ + enc_pairs(ps, k + 1 as int) =~= base + enc_pairs(
                    ps,
                    0,
                )) by {
                    assert(enc_pairs(ps, k as int) == enc(ps[k as int].0) + enc(
                        ps[k as int].1,
                    ) + enc_pairs(ps, k + 1 as int));
                }
            }
            k = k + 1;
        }
        proof {
            assert(enc_pairs(ps, m.len() as int) == Seq::<u8>::empty());
            assert(self.output@ =~= base + enc_pairs(ps, 0));
            assert(self.output@ =~= old(self).output@ + enc(ValModel::Pairs(pairs_view(m@))));
        }
        Ok(())
    }
}

/// Encodes a value into a fresh byte buffer. The caller guarantees that
/// every payload fits its size tier; `Serializer::serialize_value` reports
/// an oversized payload as an error instead.
pub fn serialize(value: &Value) -> (r: Vec<u8>)
    requires
        text_ok(value@),
        size_ok(value@),
    ensures
        r@ == enc(value@),
{
    let mut ser = Serializer::new();
    let res = ser.serialize_value(value);
    proof {
        assert(res is Ok);
    }
    ser.output
}

} // verus!
