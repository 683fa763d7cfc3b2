//! The variable-length integer: its wire format, encoder and decoder.
use crate::big_endian::{
    be_bytes, be_value, get_uint_be, lemma_be_bytes_first, lemma_be_bytes_len,
    lemma_be_value_of_bytes, put_uint_be, radix,
};
use crate::error::{DecodeError, EncodeError};
use vstd::arithmetic::div_mod::{lemma_hoist_over_denominator, lemma_mod_multiples_vanish, lemma_small_mod};
use vstd::arithmetic::power2::{lemma2_to64, lemma2_to64_rest, pow2};
use vstd::prelude::*;

verus! {

/// The largest value that a width of `w` bytes carries is `2^(8w - 2) - 1`.
/// One byte: 63.
pub const MAX_INT_1: u64 = 0b00111111;

/// Two bytes: 16383.
pub const MAX_INT_2: u64 = 0b00111111_11111111;

/// Four bytes: 1073741823.
pub const MAX_INT_4: u64 = 0b00111111_11111111_11111111_11111111;

/// Eight bytes: the largest value that the encoding carries at all.
pub const MAX_INT_8: u64 =
    0b00111111_11111111_11111111_11111111_11111111_11111111_11111111_11111111;

/// The width tags, stored in the two top bits of the first byte.
const INT_1_FLAG: u8 = 0b00;

const INT_2_FLAG: u8 = 0b01;

const INT_4_FLAG: u8 = 0b10;

const INT_8_FLAG: u8 = 0b11;

/// Whether `w` is one of the four widths of the encoding.
pub open spec fn is_width(w: nat) -> bool {
    w == 1 || w == 2 || w == 4 || w == 8
}

/// Whether `v` fits in the payload of width `w`, that is in `8w - 2` bits.
pub open spec fn fits(v: nat, w: nat) -> bool {
    v < pow2((8 * w - 2) as nat)
}

/// The width that the encoder picks for `v`: the smallest one that holds it.
pub open spec fn width_of(v: nat) -> nat {
    if v <= MAX_INT_1 {
        1
    } else if v <= MAX_INT_2 {
        2
    } else if v <= MAX_INT_4 {
        4
    } else {
        8
    }
}

/// The tag that announces width `w`.
pub open spec fn tag_of(w: nat) -> nat {
    if w == 1 {
        0
    } else if w == 2 {
        1
    } else if w == 4 {
        2
    } else {
        3
    }
}

/// The width that tag `t` announces.
pub open spec fn width_of_tag(t: nat) -> nat {
    if t == 0 {
        1
    } else if t == 1 {
        2
    } else if t == 2 {
        4
    } else {
        8
    }
}

/// The bytes that encode `v`: `v` in `w` big-endian bytes, with the tag of
/// `w` in the two top bits of the first byte.
pub open spec fn encoding(v: nat) -> Seq<u8> {
    let w = width_of(v);
    be_bytes(tag_of(w) * pow2((8 * w - 2) as nat) + v, w)
}

/// What decoding the front of `s` yields: the value and the number of bytes
/// it takes, or `None` where `s` is shorter than the width that its first
/// byte announces (or is empty). Bytes after that width are not read, and
/// an encoding wider than its value needs is accepted.
pub open spec fn decoded(s: Seq<u8>) -> Option<(nat, nat)> {
    if s.len() == 0 {
        None
    } else {
        let w = width_of_tag(s[0] as nat / 64);
        if s.len() < w {
            None
        } else {
            Some((be_value(s.take(w as int)) % pow2((8 * w - 2) as nat), w))
        }
    }
}

/// A value of the encoding. Only values up to `MAX_INT_8` can be encoded.
#[derive(Debug, Default, PartialEq, Eq, Structural)]
pub struct VarInt(pub u64);

impl From<u64> for VarInt {
    fn from(v: u64) -> (r: VarInt)
        ensures
            r.0 == v,
    {
        VarInt(v)
    }
}

impl vstd::std_specs::convert::FromSpecImpl<u64> for VarInt {
    open spec fn obeys_from_spec() -> bool {
        true
    }

    open spec fn from_spec(v: u64) -> VarInt {
        VarInt(v)
    }
}

/// The payload limits of the four widths, and the powers of 256 up to 8.
pub proof fn lemma_limits()
    ensures
        pow2(6) == MAX_INT_1 + 1,
        pow2(14) == MAX_INT_2 + 1,
        pow2(30) == MAX_INT_4 + 1,
        pow2(62) == MAX_INT_8 + 1,
        radix(0) == 1,
        radix(1) == 0x100,
        radix(2) == 0x1_0000,
        radix(3) == 0x100_0000,
        radix(4) == 0x1_0000_0000,
        radix(7) == 0x100_0000_0000_0000,
        radix(8) == 0x1_0000_0000_0000_0000,
{
    lemma2_to64();
    lemma2_to64_rest();
    reveal_with_fuel(radix, 9);
}

impl VarInt {
    /// Appends the encoding of the value to `dst` and returns the number of
    /// bytes written, or fails, writing nothing, where the value is too
    /// large to encode.
    pub fn encode(&self, dst: &mut Vec<u8>) -> (r: Result<usize, EncodeError>)
        ensures
            self.0 <= MAX_INT_8 ==> r == Ok::<usize, EncodeError>(width_of(self.0 as nat) as usize)
                && final(dst)@ == old(dst)@ + encoding(self.0 as nat),
            self.0 > MAX_INT_8 ==> r == Err::<usize, EncodeError>(EncodeError::ValueTooLarge)
                && final(dst)@ == old(dst)@,
    {
        let v = self.0;
        proof {
            lemma_limits();
        }
        if v <= MAX_INT_1 {
            let flag = INT_1_FLAG;
            assert(v | ((flag as u64) << 6u64) == v) by (bit_vector)
                requires
                    v <= 0x3f,
                    flag == 0,
            ;
            put_uint_be(dst, v | ((flag as u64) << 6u64), 1);
            assert(encoding(v as nat) == be_bytes(v as nat, 1));
            Ok(1)
        } else if v <= MAX_INT_2 {
            let flag = INT_2_FLAG;
            assert(v | ((flag as u64) << 14u64) == v + 0x4000) by (bit_vector)
                requires
                    v <= 0x3fff,
                    flag == 1,
            ;
            put_uint_be(dst, v | ((flag as u64) << 14u64), 2);
            assert(encoding(v as nat) == be_bytes((v + 0x4000) as nat, 2));
            Ok(2)
        } else if v <= MAX_INT_4 {
            let flag = INT_4_FLAG;
            assert(v | ((flag as u64) << 30u64) == v + 0x8000_0000) by (bit_vector)
                requires
                    v <= 0x3fff_ffff,
                    flag == 2,
            ;
            put_uint_be(dst, v | ((flag as u64) << 30u64), 4);
            assert(encoding(v as nat) == be_bytes((v + 0x8000_0000) as nat, 4));
            Ok(4)
        } else if v <= MAX_INT_8 {
            let flag = INT_8_FLAG;
            assert(v | ((flag as u64) << 62u64) == v + 0xc000_0000_0000_0000) by (bit_vector)
                requires
                    v <= 0x3fff_ffff_ffff_ffff,
                    flag == 3,
            ;
            put_uint_be(dst, v | ((flag as u64) << 62u64), 8);
            assert(encoding(v as nat) == be_bytes((v + 0xc000_0000_0000_0000) as nat, 8));
            Ok(8)
        } else {
            Err(EncodeError::ValueTooLarge)
        }
    }

    /// Reads one encoded value from the front of `src`, stores it in `self`
    /// and returns the number of bytes it took. Where `src` is empty or
    /// shorter than the width that its first byte announces, fails and
    /// leaves `self` as it was.
    pub fn decode(&mut self, src: &[u8]) -> (r: Result<usize, DecodeError>)
        ensures
            match r {
                Ok(n) => decoded(src@) == Some((final(self).0 as nat, n as nat)),
                Err(e) => e == DecodeError::InsufficientData && decoded(src@) is None
                    && *final(self) == *old(self),
            },
    {
        if src.len() == 0 {
            return Err(DecodeError::InsufficientData);
        }
        let first = src[0];
        let tag = first >> 6u8;
        assert(tag == first / 64) by (bit_vector)
            requires
                tag == first >> 6u8,
        ;
        let (n, mask): (usize, u64) = if tag == INT_1_FLAG {
            (1, MAX_INT_1)
        } else if tag == INT_2_FLAG {
            (2, MAX_INT_2)
        } else if tag == INT_4_FLAG {
            (4, MAX_INT_4)
        } else {
            (8, MAX_INT_8)
        };
        if src.len() < n {
            return Err(DecodeError::InsufficientData);
        }
        let raw = get_uint_be(src, n);
        let v = raw & mask;
        proof {
            lemma_limits();
            if n == 1 {
                assert(raw & 0x3f == raw % 0x40) by (bit_vector);
            } else if n == 2 {
                assert(raw & 0x3fff == raw % 0x4000) by (bit_vector);
            } else if n == 4 {
                assert(raw & 0x3fff_ffff == raw % 0x4000_0000) by (bit_vector);
            } else {
                assert(raw & 0x3fff_ffff_ffff_ffff == raw % 0x4000_0000_0000_0000) by (bit_vector);
            }
        }
        self.0 = v;
        Ok(n)
    }
}

/// The width that the encoder picks for a value it can encode is one of the
/// four widths, holds the value, and is the smallest width that does.
pub proof fn lemma_width_minimal(v: nat)
    requires
        v <= MAX_INT_8,
    ensures
        is_width(width_of(v)),
        fits(v, width_of(v)),
        forall|w: nat| is_width(w) && #[trigger] fits(v, w) ==> width_of(v) <= w,
{
    lemma_limits();
}

/// Decoding the bytes that the encoder writes for `v` yields `v` again and
/// takes exactly the width that was written.
pub proof fn lemma_round_trip(v: nat)
    requires
        v <= MAX_INT_8,
    ensures
        decoded(encoding(v)) == Some((v, width_of(v))),
{
    let w = width_of(v);
    let base = pow2((8 * w - 2) as nat);
    let n = tag_of(w) * base + v;
    let s = encoding(v);
    lemma_limits();
    lemma_be_bytes_len(n, w);
    lemma_be_bytes_first(n, w);
    lemma_be_value_of_bytes(n, w);
    assert(s.take(w as int) =~= s);
    let top = radix((w - 1) as nat);
    let t = tag_of(w);
    assert(base == 64 * top && t <= 3);
    assert(n == v + (64 * t) * top) by (nonlinear_arith)
        requires
            n == t * base + v,
            base == 64 * top,
    ;
    lemma_hoist_over_denominator(v as int, (64 * t) as int, top);
    assert(v / top < 64) by (nonlinear_arith)
        requires
            v < 64 * top,
            top > 0,
    ;
    assert(s[0] as nat / 64 == t);
    assert(width_of_tag(t) == w);
    lemma_small_mod(n, radix(w));
    lemma_mod_multiples_vanish(t as int, v as int, base as int);
    lemma_small_mod(v, base);
    assert(n == base * t + v) by (nonlinear_arith)
        requires
            n == t * base + v,
    ;
}

/// Decoding fails exactly where the input is empty or shorter than the width
/// that the tag in its first byte announces.
pub proof fn lemma_insufficient_data(s: Seq<u8>)
    ensures
        decoded(s) is None <==> (s.len() == 0 || s.len() < width_of_tag(s[0] as nat / 64)),
{
}

} // verus!
