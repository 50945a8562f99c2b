//! The laws of the codec, stated once, in one place: the round trip, the
//! smallest-form rule for integers, the shape of optional values, and the
//! preservation of map order.
use vstd::prelude::*;

use crate::value::ValModel;
use crate::wire::{
    dec, enc, enc_list, enc_pairs, enc_sint, enc_uint, lemma_dec_enc, map_header, round_trip_ok,
    FALSE, TRUE,
};

verus! {

/// Round trip: for every representable value — booleans, integers, valid
/// UTF-8 text, binary, arrays and maps of such values within the size
/// tiers — decoding the encoding yields exactly that value and consumes the
/// whole encoding.
pub proof fn round_trip(m: ValModel)
    requires
        round_trip_ok(m),
    ensures
        dec(enc(m)) == Some((m, enc(m).len() as int)),
{
    lemma_dec_enc(m, Seq::empty());
    assert(enc(m) + Seq::<u8>::empty() =~= enc(m));
}

/// Smallest form, signed ladder: the byte length of a signed integer's
/// encoding is that of the first tier that covers the value in the fixed
/// scan order — compact, signed 8, unsigned 8, signed 16, unsigned 16,
/// signed 32, unsigned 32, signed 64 — never a larger one.
pub proof fn smallest_form_signed(v: int)
    requires
        -0x8000_0000_0000_0000 <= v <= 0x7FFF_FFFF_FFFF_FFFF,
    ensures
        enc_sint(v).len() == (if -32 <= v <= 127 {
            1int
        } else if -128 <= v <= 0xFF {
            2int
        } else if -0x8000 <= v <= 0xFFFF {
            3int
        } else if -0x8000_0000 <= v <= 0xFFFF_FFFF {
            5int
        } else {
            9int
        }),
{
}

/// Smallest form, unsigned ladder: the byte length of a non-negative
/// integer's encoding is that of the smallest unsigned tier that covers the
/// value — compact, then 8, 16, 32, 64-bit.
pub proof fn smallest_form_unsigned(v: int)
    requires
        0 <= v < 0x1_0000_0000_0000_0000,
    ensures
        enc_uint(v).len() == (if v <= 127 {
            1int
        } else if v <= 0xFF {
            2int
        } else if v <= 0xFFFF {
            3int
        } else if v <= 0xFFFF_FFFF {
            5int
        } else {
            9int
        }),
{
}

/// Optional shape: an absent optional value always encodes as the
/// 1-element sequence holding `false`; a present one always encodes as the
/// 2-element sequence holding `true` and then the value's own encoding.
pub proof fn optional_shape(x: ValModel)
    ensures
        enc(ValModel::Arr(seq![ValModel::Bool(false)])) =~= seq![0x91u8, FALSE],
        enc(ValModel::Arr(seq![ValModel::Bool(true), x])) =~= seq![0x92u8, TRUE] + enc(x),
{
    reveal_with_fuel(enc_list, 3);
    let none_body = seq![ValModel::Bool(false)];
    assert(enc_list(none_body, 0) =~= enc(ValModel::Bool(false)));
    let some_body = seq![ValModel::Bool(true), x];
    assert(enc_list(some_body, 1) =~= enc(x));
    assert(enc_list(some_body, 0) =~= enc(ValModel::Bool(true)) + enc(x));
}

/// Map order: a map's pairs are encoded in exactly the order given — the
/// engine never sorts or deduplicates them — and decoding returns the same
/// pairs in the same order.
pub proof fn map_order(ps: Seq<(ValModel, ValModel)>)
    requires
        round_trip_ok(ValModel::Pairs(ps)),
    ensures
        enc(ValModel::Pairs(ps)) == map_header(ps.len() as int) + enc_pairs(ps, 0),
        dec(enc(ValModel::Pairs(ps))) == Some(
            (ValModel::Pairs(ps), enc(ValModel::Pairs(ps)).len() as int),
        ),
{
    round_trip(ValModel::Pairs(ps));
}

} // verus!
