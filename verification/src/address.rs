//! The 8-byte account identifier and its two checksummed textual formats:
//! a 20-character short form (letters and decimal digits) and an
//! 18-character long form (hex digits), selected by the two high bits of
//! the address's first byte.
use vstd::prelude::*;
use vstd::string::StringSliceAdditionalSpecFns;
use vstd::utf8::{encode_utf8, valid_utf8};

use crate::value::ValModel;

verus! {

/// An 8-byte account identifier. The two most-significant bits of byte 0
/// discriminate the textual format; the wire encoder treats the address as
/// an opaque 8-byte binary string.
#[derive(Copy, Clone, Debug, PartialEq, Eq, Hash)]
pub struct Address {
    bytes: [u8; 8],
}

impl View for Address {
    type V = Seq<u8>;

    closed spec fn view(&self) -> Seq<u8> {
        self.bytes@
    }
}

impl DeepView for Address {
    type V = Seq<u8>;

    closed spec fn deep_view(&self) -> Seq<u8> {
        self.bytes@
    }
}

impl Address {
    /// The deep view of an address is its view: the eight bytes.
    pub proof fn lemma_views(self)
        ensures
            self.deep_view() == self@,
    {
    }

    /// Builds the address from its eight bytes.
    pub fn from_slice(v: &[u8]) -> (r: Address)
        requires
            v@.len() == 8,
        ensures
            r@ == v@,
    {
        let bytes: [u8; 8] = [v[0], v[1], v[2], v[3], v[4], v[5], v[6], v[7]];
        proof {
            assert(bytes@ =~= v@);
        }
        Address { bytes }
    }

    /// The eight bytes of the address.
    pub fn as_bytes(&self) -> (r: &[u8])
        ensures
            r@ == self@,
    {
        self.bytes.as_slice()
    }

    /// The byte at the given position.
    pub fn byte(&self, i: usize) -> (r: u8)
        requires
            i < 8,
        ensures
            r == self@[i as int],
    {
        self.bytes[i]
    }
}

/// The CRC-32-IEEE checksum of a byte sequence, as the `crc` crate
/// computes it: a function of the bytes alone.
pub uninterp spec fn crc32_of(bytes: Seq<u8>) -> u32;

/// Relies on `crc::crc32::checksum_ieee`: the CRC-32-IEEE checksum of the
/// bytes, deterministic in the bytes alone.
#[verifier::external_body]
fn crc32(bytes: &[u8]) -> (r: u32)
    ensures
        r == crc32_of(bytes@),
{
    crc::crc32::checksum_ieee(bytes)
}

/// A decimal digit byte.
pub open spec fn dec_digit(b: u8) -> bool {
    48 <= b <= 57
}

/// An upper-case letter byte.
pub open spec fn upper_letter(b: u8) -> bool {
    65 <= b <= 90
}

/// A hexadecimal digit byte, either case.
pub open spec fn hex_digit(b: u8) -> bool {
    48 <= b <= 57 || 65 <= b <= 70 || 97 <= b <= 102
}

/// The value of a hexadecimal digit byte.
pub open spec fn hex_digit_val(b: u8) -> int {
    if b <= 57 {
        b - 48
    } else if b <= 70 {
        b - 55
    } else {
        b - 87
    }
}

/// The value of the decimal digits `b[lo..hi]`.
pub open spec fn num_val(b: Seq<u8>, lo: int, hi: int) -> int
    decreases hi - lo,
{
    if hi <= lo {
        0
    } else {
        num_val(b, lo, hi - 1) * 10 + (b[hi - 1] - 48)
    }
}

/// The value of the hexadecimal digits `b[lo..hi]`.
pub open spec fn hex_val(b: Seq<u8>, lo: int, hi: int) -> int
    decreases hi - lo,
{
    if hi <= lo {
        0
    } else {
        hex_val(b, lo, hi - 1) * 16 + hex_digit_val(b[hi - 1])
    }
}

/// `base` to the power `n`.
pub open spec fn base_pow(base: int, n: int) -> int
    decreases n,
{
    if n <= 0 {
        1
    } else {
        base * base_pow(base, n - 1)
    }
}

/// A decimal number of `hi - lo` digits lies below `10^(hi - lo)`.
proof fn lemma_num_val_bound(b: Seq<u8>, lo: int, hi: int)
    requires
        0 <= lo <= hi <= b.len(),
        forall|i: int| lo <= i < hi ==> dec_digit(#[trigger] b[i]),
    ensures
        0 <= num_val(b, lo, hi) < base_pow(10, hi - lo),
    decreases hi - lo,
{
    if hi > lo {
        lemma_num_val_bound(b, lo, hi - 1);
    }
}

/// A hexadecimal number of `hi - lo` digits lies below `16^(hi - lo)`.
proof fn lemma_hex_val_bound(b: Seq<u8>, lo: int, hi: int)
    requires
        0 <= lo <= hi <= b.len(),
        forall|i: int| lo <= i < hi ==> hex_digit(#[trigger] b[i]),
    ensures
        0 <= hex_val(b, lo, hi) < base_pow(16, hi - lo),
    decreases hi - lo,
{
    if hi > lo {
        lemma_hex_val_bound(b, lo, hi - 1);
    }
}

/// The value of a digit run depends only on the bytes in the run.
proof fn lemma_num_val_congr(b: Seq<u8>, b2: Seq<u8>, lo: int, hi: int)
    requires
        0 <= lo <= hi,
        hi <= b.len() && hi <= b2.len(),
        forall|i: int| lo <= i < hi ==> b[i] == b2[i],
    ensures
        num_val(b, lo, hi) == num_val(b2, lo, hi),
    decreases hi - lo,
{
    if hi > lo {
        lemma_num_val_congr(b, b2, lo, hi - 1);
    }
}

/// The value of a hex digit run depends only on the bytes in the run.
proof fn lemma_hex_val_congr(b: Seq<u8>, b2: Seq<u8>, lo: int, hi: int)
    requires
        0 <= lo <= hi,
        hi <= b.len() && hi <= b2.len(),
        forall|i: int| lo <= i < hi ==> b[i] == b2[i],
    ensures
        hex_val(b, lo, hi) == hex_val(b2, lo, hi),
    decreases hi - lo,
{
    if hi > lo {
        lemma_hex_val_congr(b, b2, lo, hi - 1);
    }
}

/// Parses the decimal digits `b[lo..hi]` as a number.
fn parse_dec(b: &[u8], lo: usize, hi: usize) -> (r: u64)
    requires
        lo <= hi <= b@.len(),
        hi - lo <= 14,
        forall|i: int| lo <= i < hi ==> dec_digit(#[trigger] b@[i]),
    ensures
        r == num_val(b@, lo as int, hi as int),
{
    proof {
        reveal_with_fuel(base_pow, 16);
    }
    let mut acc: u64 = 0;
    let mut k: usize = lo;
    while k < hi
        invariant
            lo <= k <= hi,
            acc == num_val(b@, lo as int, k as int),
        decreases hi - k,
    {
        proof {
            lemma_num_val_bound(b@, lo as int, k as int);
            assert(base_pow(10, k - lo) <= base_pow(10, 14)) by {
                lemma_base_pow_mono(10, k - lo, 14);
            }
        }
        acc = acc * 10 + (b[k] - 48) as u64;
        k = k + 1;
    }
    acc
}

/// Parses the hexadecimal digits `b[lo..hi]` as a number.
fn parse_hex(b: &[u8], lo: usize, hi: usize) -> (r: u64)
    requires
        lo <= hi <= b@.len(),
        hi - lo <= 16,
        forall|i: int| lo <= i < hi ==> hex_digit(#[trigger] b@[i]),
    ensures
        r == hex_val(b@, lo as int, hi as int),
{
    proof {
        reveal_with_fuel(base_pow, 17);
    }
    let mut acc: u64 = 0;
    let mut k: usize = lo;
    while k < hi
        invariant
            lo <= k <= hi,
            acc == hex_val(b@, lo as int, k as int),
        decreases hi - k,
    {
        proof {
            lemma_hex_val_bound(b@, lo as int, k as int);
            assert(base_pow(16, k - lo) <= base_pow(16, 15)) by {
                lemma_base_pow_mono(16, k - lo, 15);
            }
        }
        let d = b[k];
        let dv: u64 = if d <= 57 {
            (d - 48) as u64
        } else if d <= 70 {
            (d - 55) as u64
        } else {
            (d - 87) as u64
        };
        acc = acc * 16 + dv;
        k = k + 1;
    }
    acc
}

/// Powers of a positive base grow with the exponent.
proof fn lemma_base_pow_mono(base: int, m: int, n: int)
    requires
        base >= 1,
        m <= n,
    ensures
        base_pow(base, m) <= base_pow(base, n),
    decreases n - m,
{
    if m < n && n > 0 {
        lemma_base_pow_mono(base, m, n - 1);
        lemma_base_pow_pos(base, n - 1);
        assert(base_pow(base, n) == base * base_pow(base, n - 1));
        assert(base * base_pow(base, n - 1) >= 1 * base_pow(base, n - 1)) by (nonlinear_arith)
            requires
                base >= 1,
                base_pow(base, n - 1) >= 0,
        ;
    }
}

/// Powers of a positive base are positive.
proof fn lemma_base_pow_pos(base: int, n: int)
    requires
        base >= 1,
    ensures
        base_pow(base, n) >= 1,
    decreases n,
{
    if n > 0 {
        lemma_base_pow_pos(base, n - 1);
        assert(base * base_pow(base, n - 1) >= 1) by (nonlinear_arith)
            requires
                base >= 1,
                base_pow(base, n - 1) >= 1,
        ;
    }
}

/// The digit byte rendering the value `d` in the given base: letters for
/// base 26, decimal digits then capital letters otherwise.
pub open spec fn digit_byte(base: int, d: int) -> u8 {
    if base == 26 {
        (65 + d) as u8
    } else if d < 10 {
        (48 + d) as u8
    } else {
        (55 + d) as u8
    }
}

/// The fixed-width rendering of `num` in the given base: exactly `width`
/// digit bytes, zero-padded at the front.
pub open spec fn render(base: int, num: int, width: int) -> Seq<u8>
    decreases width,
{
    if width <= 0 {
        Seq::empty()
    } else {
        render(base, num / base, width - 1) + seq![digit_byte(base, num % base)]
    }
}

/// Renders `num` in the given base as exactly `size` digit bytes.
fn pad(base: u64, num: u64, size: usize) -> (r: Vec<u8>)
    requires
        base == 10 || base == 16 || base == 26,
        size <= 16,
        num < base_pow(base as int, size as int),
    ensures
        r@ == render(base as int, num as int, size as int),
    decreases size,
{
    if size == 0 {
        Vec::new()
    } else {
        proof {
            assert(num / base < base_pow(base as int, size - 1)) by (nonlinear_arith)
                requires
                    base >= 1,
                    num < base * base_pow(base as int, size - 1),
                    num >= 0,
            ;
        }
        let mut v = pad(base, num / base, size - 1);
        let d = num % base;
        let byte: u8 = if base == 26 {
            (65 + d) as u8
        } else if d < 10 {
            (48 + d) as u8
        } else {
            (55 + d) as u8
        };
        v.push(byte);
        proof {
            assert(v@ =~= render(base as int, num as int, size as int));
        }
        v
    }
}

/// Every rendered digit byte is ASCII.
proof fn lemma_render_ascii(base: int, num: int, width: int)
    requires
        base == 10 || base == 16 || base == 26,
        num >= 0,
    ensures
        forall|i: int|
            0 <= i < render(base, num, width).len() ==> #[trigger] render(base, num, width)[i]
                < 0x80,
        render(base, num, width).len() == (if width >= 0 {
            width
        } else {
            0
        }),
    decreases width,
{
    if width > 0 {
        lemma_render_ascii(base, num / base, width - 1);
        assert(0 <= num % base < base);
    }
}

/// Rendering the parsed value of a decimal digit run gives the run back.
proof fn lemma_render_num_val(b: Seq<u8>, lo: int, hi: int)
    requires
        0 <= lo <= hi <= b.len(),
        forall|i: int| lo <= i < hi ==> dec_digit(#[trigger] b[i]),
    ensures
        render(10, num_val(b, lo, hi), hi - lo) =~= b.subrange(lo, hi),
    decreases hi - lo,
{
    if hi > lo {
        lemma_render_num_val(b, lo, hi - 1);
        lemma_num_val_bound(b, lo, hi - 1);
        let n = num_val(b, lo, hi);
        let d = b[hi - 1] - 48;
        assert(n == num_val(b, lo, hi - 1) * 10 + d);
        assert(n / 10 == num_val(b, lo, hi - 1) && n % 10 == d) by (nonlinear_arith)
            requires
                n == num_val(b, lo, hi - 1) * 10 + d,
                0 <= d < 10,
                num_val(b, lo, hi - 1) >= 0,
        ;
        assert(render(10, n, hi - lo) =~= b.subrange(lo, hi));
    }
}

/// Rendering the parsed value of an upper-case hexadecimal digit run gives
/// the run back; lower-case digits re-render upper-case and are excluded.
proof fn lemma_render_hex_val(b: Seq<u8>, lo: int, hi: int)
    requires
        0 <= lo <= hi <= b.len(),
        forall|i: int| lo <= i < hi ==> dec_digit(#[trigger] b[i]) || 65 <= b[i] <= 70,
    ensures
        render(16, hex_val(b, lo, hi), hi - lo) =~= b.subrange(lo, hi),
    decreases hi - lo,
{
    if hi > lo {
        lemma_render_hex_val(b, lo, hi - 1);
        lemma_hex_val_bound(b, lo, hi - 1);
        let n = hex_val(b, lo, hi);
        let d = hex_digit_val(b[hi - 1]);
        assert(n == hex_val(b, lo, hi - 1) * 16 + d);
        assert(n / 16 == hex_val(b, lo, hi - 1) && n % 16 == d) by (nonlinear_arith)
            requires
                n == hex_val(b, lo, hi - 1) * 16 + d,
                0 <= d < 16,
                hex_val(b, lo, hi - 1) >= 0,
        ;
        assert(render(16, n, hi - lo) =~= b.subrange(lo, hi));
    }
}

/// A run of fixed-width digits splits at any point: high digits render the
/// quotient, low digits the remainder.
proof fn lemma_render_split(base: int, num: int, w1: int, w2: int)
    requires
        base >= 1,
        num >= 0,
        w1 >= 0,
        w2 >= 0,
    ensures
        render(base, num, w1 + w2) =~= render(base, num / base_pow(base, w2), w1) + render(
            base,
            num % base_pow(base, w2),
            w2,
        ),
    decreases w2,
{
    lemma_base_pow_pos(base, w2);
    if w2 == 0 {
        assert(base_pow(base, 0) == 1);
        assert(render(base, num % 1, 0) =~= Seq::<u8>::empty());
    } else {
        let p = base_pow(base, w2);
        let p1 = base_pow(base, w2 - 1);
        lemma_base_pow_pos(base, w2 - 1);
        assert((num / base) / p1 == num / p && (num / base) % p1 == (num % p) / base && (num % p)
            % base == num % base) by (nonlinear_arith)
            requires
                base >= 1,
                p1 >= 1,
                num >= 0,
                p == base * p1,
        ;
        lemma_render_split(base, num / base, w1, w2 - 1);
        assert(render(base, num, w1 + w2) =~= render(base, num / p, w1) + render(
            base,
            num % p,
            w2,
        ));
    }
}

/// A byte sequence of ASCII bytes is valid UTF-8.
proof fn lemma_ascii_valid(b: Seq<u8>)
    requires
        forall|i: int| 0 <= i < b.len() ==> #[trigger] b[i] < 0x80,
    ensures
        valid_utf8(b),
{
    assert(b.subrange(0, 0) =~= Seq::<u8>::empty());
    vstd::utf8::partial_valid_utf8_extend_ascii_block(b, 0, b.len() as int);
    assert(b.subrange(0, b.len() as int) =~= b);
}

/// The shape of the 20-character short form: two letters, two decimal
/// digits, fourteen decimal digits, and a two-digit checksum.
pub open spec fn short_ok(bs: Seq<u8>) -> bool {
    bs.len() == 20 && upper_letter(bs[0]) && upper_letter(bs[1]) && forall|i: int|
        2 <= i < 20 ==> dec_digit(#[trigger] bs[i])
}

/// The shape of the 18-character long form: sixteen hex digits and a
/// two-hex-digit checksum.
pub open spec fn long_ok(bs: Seq<u8>) -> bool {
    bs.len() == 18 && forall|i: int| 0 <= i < 18 ==> hex_digit(#[trigger] bs[i])
}

/// The short form's group number — letters and two digits combined —
/// shifted left by five for packing.
pub open spec fn short_group(bs: Seq<u8>) -> u64
    recommends
        short_ok(bs),
{
    (((((bs[0] - 65) * 26 + (bs[1] - 65)) * 100 + num_val(bs, 2, 4))) as u64) << 5
}

/// The short form's 14-digit number.
pub open spec fn short_i(bs: Seq<u8>) -> u64
    recommends
        short_ok(bs),
{
    num_val(bs, 4, 18) as u64
}

/// The block part of the 14-digit number: its high bits.
pub open spec fn short_block(bs: Seq<u8>) -> u64 {
    short_i(bs) >> 24
}

/// The wallet part of the 14-digit number: its low 24 bits.
pub open spec fn short_wallet(bs: Seq<u8>) -> u64 {
    short_i(bs) & 0xffffff
}

/// The short form's bit packing: group in the high bits of bytes 0-2 with
/// the short-form marker forced into byte 0's top bit, block in the low
/// bits of bytes 2-4, wallet in bytes 5-7.
pub open spec fn short_pack(group: u64, block: u64, wallet: u64) -> Seq<u8> {
    seq![
        ((group >> 16) & 0x1f | 0x80) as u8,
        ((group >> 8) & 0xff) as u8,
        (group & 0xff | ((block >> 16) & 0x1f)) as u8,
        ((block >> 8) & 0xff) as u8,
        (block & 0xff) as u8,
        ((wallet >> 16) & 0xff) as u8,
        ((wallet >> 8) & 0xff) as u8,
        (wallet & 0xff) as u8,
    ]
}

/// The address bytes a well-formed short-form string packs into.
pub open spec fn short_addr(bs: Seq<u8>) -> Seq<u8> {
    short_pack(short_group(bs), short_block(bs), short_wallet(bs))
}

/// The 64-bit value of the long form's sixteen hex digits.
pub open spec fn long_v(bs: Seq<u8>) -> u64
    recommends
        long_ok(bs),
{
    hex_val(bs, 0, 16) as u64
}

/// The long form's packing: the value big-endian, the long-form marker
/// bits OR'd into the top byte.
pub open spec fn long_pack(a: u64) -> Seq<u8> {
    seq![
        ((a >> 56) & 0xff | 0xa0) as u8,
        ((a >> 48) & 0xff) as u8,
        ((a >> 40) & 0xff) as u8,
        ((a >> 32) & 0xff) as u8,
        ((a >> 24) & 0xff) as u8,
        ((a >> 16) & 0xff) as u8,
        ((a >> 8) & 0xff) as u8,
        (a & 0xff) as u8,
    ]
}

/// The address bytes a well-formed long-form string packs into.
pub open spec fn long_addr(bs: Seq<u8>) -> Seq<u8> {
    long_pack(long_v(bs))
}

/// A short-form string decodes when it is well-shaped and its trailing two
/// digits equal the CRC-32-IEEE checksum of the packed bytes, modulo 100.
pub open spec fn short_decodes(bs: Seq<u8>) -> bool {
    short_ok(bs) && num_val(bs, 18, 20) == crc32_of(short_addr(bs)) % 100
}

/// A long-form string decodes when it is well-shaped and its trailing two
/// hex digits equal the checksum of the packed bytes, modulo 256.
pub open spec fn long_decodes(bs: Seq<u8>) -> bool {
    long_ok(bs) && hex_val(bs, 16, 18) == crc32_of(long_addr(bs)) % 256
}

/// The wallet stored in an address's bytes 5-7.
pub open spec fn addr_wallet(a: Seq<u8>) -> u64
    recommends
        a.len() == 8,
{
    (a[7] as u64) | ((a[6] as u64) << 8) | ((a[5] as u64) << 16)
}

/// The block a long-form address stores in bytes 1-4 and the low five bits
/// of byte 0.
pub open spec fn addr_block_long(a: Seq<u8>) -> int
    recommends
        a.len() == 8,
{
    (((a[4] as u64) | ((a[3] as u64) << 8) | ((a[2] as u64) << 16) | ((a[1] as u64) << 24)) as int)
        + ((0x1f & (a[0] as u64)) as int) * 0x1_0000_0000
}

/// The block a short-form address stores in bytes 3-4 and the low five
/// bits of byte 2.
pub open spec fn addr_block_short(a: Seq<u8>) -> u64
    recommends
        a.len() == 8,
{
    (a[4] as u64) | ((a[3] as u64) << 8) | ((0x1f & (a[2] as u64)) << 16)
}

/// The group a short-form address stores in the high bits of bytes 0-2.
pub open spec fn addr_group_short(a: Seq<u8>) -> u64
    recommends
        a.len() == 8,
{
    ((a[2] as u64) | ((a[1] as u64) << 8) | ((0x1f & (a[0] as u64)) << 16)) >> 5
}

/// The textual rendering of an address: the long form when byte 0 carries
/// the long-form marker bit, else the short form; each numeric component
/// zero-padded in its own base and width.
pub open spec fn addr_render(a: Seq<u8>) -> Seq<u8>
    recommends
        a.len() == 8,
{
    if a[0] & 0x20 > 0 {
        render(16, addr_block_long(a), 10) + render(16, addr_wallet(a) as int, 6) + render(
            16,
            (crc32_of(a) % 256) as int,
            2,
        )
    } else {
        render(26, addr_group_short(a) as int / 100, 2) + render(
            10,
            addr_group_short(a) as int % 100,
            2,
        ) + render(10, addr_wallet(a) as int + addr_block_short(a) as int * 0x100_0000, 14)
            + render(10, (crc32_of(a) % 100) as int, 2)
    }
}

/// Decodes an address from one of the two checksummed textual forms,
/// auto-selected by length. A malformed character class or a checksum
/// mismatch yields `None`; no input aborts.
pub fn string_to_address(address: &str) -> (r: Option<Address>)
    ensures
        match r {
            Some(a) => (short_decodes(address.spec_bytes()) && a@ == short_addr(
                address.spec_bytes(),
            )) || (long_decodes(address.spec_bytes()) && a@ == long_addr(address.spec_bytes())),
            None => !short_decodes(address.spec_bytes()) && !long_decodes(address.spec_bytes()),
        },
{
    let b = address.as_bytes();
    if b.len() == 20 {
        if b[0] < 65 || b[0] > 90 || b[1] < 65 || b[1] > 90 {
            return None;
        }
        let mut k: usize = 2;
        while k < 20
            invariant
                2 <= k <= 20,
                b@.len() == 20,
                forall|i: int| 2 <= i < k ==> dec_digit(#[trigger] b@[i]),
            decreases 20 - k,
        {
            if b[k] < 48 || b[k] > 57 {
                return None;
            }
            k = k + 1;
        }
        let g1 = (b[0] - 65) as u64;
        let g2 = (b[1] - 65) as u64;
        let gr = parse_dec(b, 2, 4);
        let i14 = parse_dec(b, 4, 18);
        let c = parse_dec(b, 18, 20);
        proof {
            lemma_num_val_bound(b@, 2, 4);
            lemma_num_val_bound(b@, 4, 18);
            lemma_num_val_bound(b@, 18, 20);
            reveal_with_fuel(base_pow, 16);
        }
        let group = ((g1 * 26 + g2) * 100 + gr) << 5u64;
        let block = i14 >> 24u64;
        let wallet = i14 & 0xffffff;
        proof {
            assert((group >> 16) & 0x1f | 0x80 < 256 && (group >> 8) & 0xff < 256 && group & 0xff
                | ((block >> 16) & 0x1f) < 256 && (block >> 8) & 0xff < 256 && block & 0xff < 256
                && (wallet >> 16) & 0xff < 256 && (wallet >> 8) & 0xff < 256 && wallet & 0xff
                < 256) by (bit_vector);
        }
        let mut v: Vec<u8> = Vec::new();
        v.push(((group >> 16) & 0x1f | 0x80) as u8);
        v.push(((group >> 8) & 0xff) as u8);
        v.push((group & 0xff | ((block >> 16) & 0x1f)) as u8);
        v.push(((block >> 8) & 0xff) as u8);
        v.push((block & 0xff) as u8);
        v.push(((wallet >> 16) & 0xff) as u8);
        v.push(((wallet >> 8) & 0xff) as u8);
        v.push((wallet & 0xff) as u8);
        proof {
            assert(v@ =~= short_pack(group, block, wallet));
            assert(group == short_group(b@) && block == short_block(b@) && wallet == short_wallet(
                b@,
            ));
        }
        let cc = (crc32(v.as_slice()) % 100) as u64;
        if c == cc {
            Some(Address::from_slice(v.as_slice()))
        } else {
            None
        }
    } else if b.len() == 18 {
        let mut k: usize = 0;
        while k < 18
            invariant
                k <= 18,
                b@.len() == 18,
                forall|i: int| 0 <= i < k ==> hex_digit(#[trigger] b@[i]),
            decreases 18 - k,
        {
            let d = b[k];
            if !(48 <= d && d <= 57 || 65 <= d && d <= 70 || 97 <= d && d <= 102) {
                return None;
            }
            k = k + 1;
        }
        let a = parse_hex(b, 0, 16);
        let c = parse_hex(b, 16, 18);
        proof {
            lemma_hex_val_bound(b@, 0, 16);
            lemma_hex_val_bound(b@, 16, 18);
            reveal_with_fuel(base_pow, 17);
            assert((a >> 56) & 0xff | 0xa0 < 256 && (a >> 48) & 0xff < 256 && (a >> 40) & 0xff
                < 256 && (a >> 32) & 0xff < 256 && (a >> 24) & 0xff < 256 && (a >> 16) & 0xff < 256
                && (a >> 8) & 0xff < 256 && a & 0xff < 256) by (bit_vector);
        }
        let mut v: Vec<u8> = Vec::new();
        v.push(((a >> 56) & 0xff | 0xa0) as u8);
        v.push(((a >> 48) & 0xff) as u8);
        v.push(((a >> 40) & 0xff) as u8);
        v.push(((a >> 32) & 0xff) as u8);
        v.push(((a >> 24) & 0xff) as u8);
        v.push(((a >> 16) & 0xff) as u8);
        v.push(((a >> 8) & 0xff) as u8);
        v.push((a & 0xff) as u8);
        proof {
            assert(v@ =~= long_pack(a));
            assert(a == long_v(b@));
        }
        let csum = crc32(v.as_slice());
        let cc = (csum & 0xff) as u64;
        proof {
            assert(csum & 0xff == csum % 256) by (bit_vector);
        }
        if c == cc {
            Some(Address::from_slice(v.as_slice()))
        } else {
            None
        }
    } else {
        None
    }
}

/// Encodes an address in its textual form, selected by the format marker
/// in its first byte: every byte of the result is an ASCII digit or letter.
pub fn address_to_string(address: &Address) -> (r: String)
    ensures
        encode_utf8(r@) == addr_render(address@),
{
    let a0 = address.byte(0);
    let a1 = address.byte(1);
    let a2 = address.byte(2);
    let a3 = address.byte(3);
    let a4 = address.byte(4);
    let a5 = address.byte(5);
    let a6 = address.byte(6);
    let a7 = address.byte(7);
    let wallet: u64 = (a7 as u64) | ((a6 as u64) << 8u64) | ((a5 as u64) << 16u64);
    proof {
        assert(wallet < 0x100_0000) by (bit_vector)
            requires
                wallet == (a7 as u64) | ((a6 as u64) << 8u64) | ((a5 as u64) << 16u64),
        ;
        reveal_with_fuel(base_pow, 17);
    }
    let checksum = crc32(address.as_bytes());
    let mut out: Vec<u8>;
    if a0 & 0x20 > 0 {
        proof {
            assert(((a4 as u64) | ((a3 as u64) << 8u64) | ((a2 as u64) << 16u64) | ((a1 as u64)
                << 24u64)) < 0x1_0000_0000 && (0x1f & (a0 as u64)) < 0x20) by (bit_vector);
        }
        let block: u64 = ((a4 as u64) | ((a3 as u64) << 8u64) | ((a2 as u64) << 16u64) | ((
        a1 as u64) << 24u64)) + ((0x1f & (a0 as u64)) * 0x1_0000_0000);
        out = pad(16, block, 10);
        let mut p2 = pad(16, wallet, 6);
        out.append(&mut p2);
        let mut p3 = pad(16, (checksum % 256) as u64, 2);
        out.append(&mut p3);
        proof {
            lemma_render_ascii(16, addr_block_long(address@), 10);
            lemma_render_ascii(16, wallet as int, 6);
            lemma_render_ascii(16, (crc32_of(address@) % 256) as int, 2);
            assert(out@ =~= addr_render(address@));
        }
    } else {
        let group: u64 = ((a2 as u64) | ((a1 as u64) << 8u64) | ((0x1f & (a0 as u64))
            << 16u64)) >> 5u64;
        let block: u64 = (a4 as u64) | ((a3 as u64) << 8u64) | ((0x1f & (a2 as u64)) << 16u64);
        proof {
            assert(group < 0x1_0000 && block < 0x20_0000) by (bit_vector)
                requires
                    group == ((a2 as u64) | ((a1 as u64) << 8u64) | ((0x1f & (a0 as u64))
                        << 16u64)) >> 5u64,
                    block == (a4 as u64) | ((a3 as u64) << 8u64) | ((0x1f & (a2 as u64))
                        << 16u64),
            ;
        }
        let int_part: u64 = wallet + block * 0x100_0000;
        out = pad(26, group / 100, 2);
        let mut p2 = pad(10, group % 100, 2);
        out.append(&mut p2);
        let mut p3 = pad(10, int_part, 14);
        out.append(&mut p3);
        let mut p4 = pad(10, (checksum % 100) as u64, 2);
        out.append(&mut p4);
        proof {
            lemma_render_ascii(26, group as int / 100, 2);
            lemma_render_ascii(10, group as int % 100, 2);
            lemma_render_ascii(10, int_part as int, 14);
            lemma_render_ascii(10, (crc32_of(address@) % 100) as int, 2);
            assert(out@ =~= addr_render(address@));
        }
    }
    proof {
        lemma_ascii_valid(out@);
    }
    match crate::value::string_from_utf8(out) {
        Some(s) => s,
        None => {
            proof {
                assert(false);
            }
            String::new()
        },
    }
}

/// The group number of a short-form string before the packing shift.
pub open spec fn short_raw(bs: Seq<u8>) -> int
    recommends
        short_ok(bs),
{
    ((bs[0] - 65) * 26 + (bs[1] - 65)) * 100 + num_val(bs, 2, 4)
}

/// Address round trip, short form: re-encoding a decoded short-form string
/// gives the string back. The group and block must fit the bit fields that
/// the packing keeps — 16 bits of group, 45 bits of the 14-digit number —
/// a larger value is truncated by the packing itself and cannot return.
#[verifier::rlimit(100)]
pub proof fn lemma_address_round_trip_short(bs: Seq<u8>)
    requires
        short_decodes(bs),
        short_raw(bs) < 0x1_0000,
        num_val(bs, 4, 18) < 0x2000_0000_0000,
    ensures
        addr_render(short_addr(bs)) == bs,
{
    reveal_with_fuel(base_pow, 16);
    let raw = short_raw(bs);
    let gr = num_val(bs, 2, 4);
    lemma_num_val_bound(bs, 2, 4);
    lemma_num_val_bound(bs, 4, 18);
    lemma_num_val_bound(bs, 18, 20);
    let raw64 = raw as u64;
    let group = short_group(bs);
    assert(group == raw64 << 5);
    let iv = short_i(bs);
    let block = short_block(bs);
    let wallet = short_wallet(bs);
    let a = short_pack(group, block, wallet);
    assert(a[0] == ((group >> 16) & 0x1f | 0x80) as u8 && a[1] == ((group >> 8) & 0xff) as u8
        && a[2] == (group & 0xff | ((block >> 16) & 0x1f)) as u8 && a[3] == ((block >> 8)
        & 0xff) as u8 && a[4] == (block & 0xff) as u8 && a[5] == ((wallet >> 16) & 0xff) as u8
        && a[6] == ((wallet >> 8) & 0xff) as u8 && a[7] == (wallet & 0xff) as u8);
    let b0 = a[0];
    let b1 = a[1];
    let b2 = a[2];
    let b3 = a[3];
    let b4 = a[4];
    let b5 = a[5];
    let b6 = a[6];
    let b7 = a[7];
    assert(b0 & 0x20 == 0 && (((b2 as u64) | ((b1 as u64) << 8) | ((0x1f & (b0 as u64)) << 16))
        >> 5) == raw64 && ((b4 as u64) | ((b3 as u64) << 8) | ((0x1f & (b2 as u64)) << 16))
        == iv >> 24 && ((b7 as u64) | ((b6 as u64) << 8) | ((b5 as u64) << 16)) == iv & 0xffffff
        && (iv & 0xffffff) + (iv >> 24) * 0x100_0000 == iv) by (bit_vector)
        requires
            raw64 < 0x1_0000,
            iv < 0x2000_0000_0000,
            group == raw64 << 5,
            block == iv >> 24,
            wallet == iv & 0xffffff,
            b0 == ((group >> 16) & 0x1f | 0x80) as u8,
            b1 == ((group >> 8) & 0xff) as u8,
            b2 == (group & 0xff | ((block >> 16) & 0x1f)) as u8,
            b3 == ((block >> 8) & 0xff) as u8,
            b4 == (block & 0xff) as u8,
            b5 == ((wallet >> 16) & 0xff) as u8,
            b6 == ((wallet >> 8) & 0xff) as u8,
            b7 == (wallet & 0xff) as u8,
    ;
    assert(addr_group_short(a) == raw64 && addr_block_short(a) as int == iv >> 24 && addr_wallet(a)
        == iv & 0xffffff);
    assert(addr_wallet(a) as int + addr_block_short(a) as int * 0x100_0000 == iv);
    // the four rendered fields are the four fields of the string
    let q = (bs[0] - 65) * 26 + (bs[1] - 65);
    assert(raw == q * 100 + gr);
    assert(raw / 100 == q && raw % 100 == gr) by (nonlinear_arith)
        requires
            raw == q * 100 + gr,
            0 <= gr < 100,
            q >= 0,
    ;
    assert(q / 26 == bs[0] - 65 && q % 26 == bs[1] - 65) by (nonlinear_arith)
        requires
            q == (bs[0] - 65) * 26 + (bs[1] - 65),
            0 <= bs[1] - 65 < 26,
            bs[0] - 65 >= 0,
    ;
    assert(render(26, raw / 100, 2) =~= bs.subrange(0, 2)) by {
        reveal_with_fuel(render, 3);
    }
    lemma_render_num_val(bs, 2, 4);
    assert(render(10, raw % 100, 2) =~= bs.subrange(2, 4));
    lemma_render_num_val(bs, 4, 18);
    lemma_render_num_val(bs, 18, 20);
    assert(render(10, (crc32_of(a) % 100) as int, 2) =~= bs.subrange(18, 20));
    assert(addr_render(a) =~= bs);
}

/// Address round trip, long form: re-encoding a decoded long-form string
/// gives the string back. The hex digits must be the canonical upper-case
/// ones — a lower-case digit re-renders upper-case — and the value must fit
/// the 61 bits that the packing keeps.
#[verifier::rlimit(100)]
pub proof fn lemma_address_round_trip_long(bs: Seq<u8>)
    requires
        long_decodes(bs),
        forall|i: int| 0 <= i < 18 ==> !(97 <= #[trigger] bs[i] <= 102),
        hex_val(bs, 0, 16) < 0x2000_0000_0000_0000,
    ensures
        addr_render(long_addr(bs)) == bs,
{
    reveal_with_fuel(base_pow, 17);
    lemma_hex_val_bound(bs, 0, 16);
    lemma_hex_val_bound(bs, 16, 18);
    let v = long_v(bs);
    let a = long_pack(v);
    assert(a[0] == ((v >> 56) & 0xff | 0xa0) as u8 && a[1] == ((v >> 48) & 0xff) as u8 && a[2] == ((
    v >> 40) & 0xff) as u8 && a[3] == ((v >> 32) & 0xff) as u8 && a[4] == ((v >> 24) & 0xff) as u8
        && a[5] == ((v >> 16) & 0xff) as u8 && a[6] == ((v >> 8) & 0xff) as u8 && a[7] == (v
        & 0xff) as u8);
    let b0 = a[0];
    let b1 = a[1];
    let b2 = a[2];
    let b3 = a[3];
    let b4 = a[4];
    let b5 = a[5];
    let b6 = a[6];
    let b7 = a[7];
    assert(b0 & 0x20 > 0 && ((b4 as u64) | ((b3 as u64) << 8) | ((b2 as u64) << 16) | ((b1 as u64)
        << 24)) == (v >> 24) & 0xffff_ffff && (0x1f & (b0 as u64)) == v >> 56 && ((v >> 24)
        & 0xffff_ffff) + (v >> 56) * 0x1_0000_0000 == v >> 24 && ((b7 as u64) | ((b6 as u64) << 8)
        | ((b5 as u64) << 16)) == v & 0xffffff && v / 0x100_0000 == v >> 24 && v % 0x100_0000 == v
        & 0xffffff) by (bit_vector)
        requires
            v < 0x2000_0000_0000_0000,
            b0 == ((v >> 56) & 0xff | 0xa0) as u8,
            b1 == ((v >> 48) & 0xff) as u8,
            b2 == ((v >> 40) & 0xff) as u8,
            b3 == ((v >> 32) & 0xff) as u8,
            b4 == ((v >> 24) & 0xff) as u8,
            b5 == ((v >> 16) & 0xff) as u8,
            b6 == ((v >> 8) & 0xff) as u8,
            b7 == (v & 0xff) as u8,
    ;
    assert(addr_block_long(a) == (v >> 24) as int && addr_wallet(a) == v & 0xffffff);
    lemma_render_hex_val(bs, 0, 16);
    lemma_render_split(16, hex_val(bs, 0, 16), 10, 6);
    assert(base_pow(16, 6) == 0x100_0000);
    assert(render(16, addr_block_long(a), 10) + render(16, addr_wallet(a) as int, 6)
        =~= bs.subrange(0, 16));
    lemma_render_hex_val(bs, 16, 18);
    assert(render(16, (crc32_of(a) % 256) as int, 2) =~= bs.subrange(16, 18));
    assert(addr_render(a) =~= bs);
}

/// Checksum rejection, short form: changing either checksum digit of a
/// valid short-form string to a different digit makes decoding fail.
pub proof fn lemma_checksum_rejection_short(bs: Seq<u8>, bs2: Seq<u8>, p: int)
    requires
        short_decodes(bs),
        bs2.len() == 20,
        18 <= p < 20,
        forall|i: int| 0 <= i < 20 && i != p ==> #[trigger] bs2[i] == bs[i],
        dec_digit(bs2[p]),
        bs2[p] != bs[p],
    ensures
        !short_decodes(bs2),
        !long_decodes(bs2),
{
    assert(short_ok(bs2));
    lemma_num_val_congr(bs, bs2, 2, 4);
    lemma_num_val_congr(bs, bs2, 4, 18);
    assert(short_addr(bs2) =~= short_addr(bs));
    reveal_with_fuel(num_val, 3);
    let c = num_val(bs, 18, 20);
    let c2 = num_val(bs2, 18, 20);
    assert(c == (bs[18] - 48) * 10 + (bs[19] - 48));
    assert(c2 == (bs2[18] - 48) * 10 + (bs2[19] - 48));
    assert(c != c2);
}

/// Checksum rejection, long form: changing either checksum digit of a
/// valid long-form string to a hex digit of a different value makes
/// decoding fail.
pub proof fn lemma_checksum_rejection_long(bs: Seq<u8>, bs2: Seq<u8>, p: int)
    requires
        long_decodes(bs),
        bs2.len() == 18,
        16 <= p < 18,
        forall|i: int| 0 <= i < 18 && i != p ==> #[trigger] bs2[i] == bs[i],
        hex_digit(bs2[p]),
        hex_digit_val(bs2[p]) != hex_digit_val(bs[p]),
    ensures
        !short_decodes(bs2),
        !long_decodes(bs2),
{
    assert(long_ok(bs2));
    lemma_hex_val_congr(bs, bs2, 0, 16);
    assert(long_addr(bs2) =~= long_addr(bs));
    reveal_with_fuel(hex_val, 3);
    let c = hex_val(bs, 16, 18);
    let c2 = hex_val(bs2, 16, 18);
    assert(c == hex_digit_val(bs[16]) * 16 + hex_digit_val(bs[17]));
    assert(c2 == hex_digit_val(bs2[16]) * 16 + hex_digit_val(bs2[17]));
    assert(c != c2);
}

} // verus!
