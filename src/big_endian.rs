//! Big-endian packing of unsigned integers into a fixed number of bytes.
use vstd::arithmetic::div_mod::{lemma_div_denominator, lemma_mod_breakdown};
use vstd::prelude::*;

verus! {

/// `256^w`: the number of distinct values that `w` bytes can hold.
pub open spec fn radix(w: nat) -> nat
    decreases w,
{
    if w == 0 {
        1
    } else {
        256 * radix((w - 1) as nat)
    }
}

/// The number that the bytes `s` denote, most significant byte first.
pub open spec fn be_value(s: Seq<u8>) -> nat
    decreases s.len(),
{
    if s.len() == 0 {
        0
    } else {
        be_value(s.drop_last()) * 256 + s.last() as nat
    }
}

/// The `w` low-order bytes of `n`, most significant byte first.
pub open spec fn be_bytes(n: nat, w: nat) -> Seq<u8>
    decreases w,
{
    if w == 0 {
        Seq::empty()
    } else {
        be_bytes(n / 256, (w - 1) as nat).push((n % 256) as u8)
    }
}

pub proof fn lemma_radix_monotonic(a: nat, b: nat)
    requires
        a <= b,
    ensures
        1 <= radix(a) <= radix(b),
    decreases b,
{
    if b > a {
        lemma_radix_monotonic(a, (b - 1) as nat);
    } else if a > 0 {
        lemma_radix_monotonic((a - 1) as nat, (a - 1) as nat);
    }
}

pub proof fn lemma_be_bytes_len(n: nat, w: nat)
    ensures
        be_bytes(n, w).len() == w,
    decreases w,
{
    if w > 0 {
        lemma_be_bytes_len(n / 256, (w - 1) as nat);
    }
}

pub proof fn lemma_be_value_of_bytes(n: nat, w: nat)
    ensures
        be_value(be_bytes(n, w)) == n % radix(w),
    decreases w,
{
    if w > 0 {
        let r = radix((w - 1) as nat);
        lemma_be_value_of_bytes(n / 256, (w - 1) as nat);
        lemma_radix_monotonic((w - 1) as nat, (w - 1) as nat);
        assert(be_bytes(n, w).drop_last() =~= be_bytes(n / 256, (w - 1) as nat));
        lemma_mod_breakdown(n as int, 256, r as int);
        assert(256 * ((n / 256) % r) == ((n / 256) % r) * 256) by (nonlinear_arith);
    }
}

/// The first of the `w` bytes of `n` is the digit in position `w - 1`.
pub proof fn lemma_be_bytes_first(n: nat, w: nat)
    requires
        w > 0,
    ensures
        be_bytes(n, w)[0] == (n / radix((w - 1) as nat)) % 256,
    decreases w,
{
    lemma_be_bytes_len(n, w);
    if w > 1 {
        lemma_be_bytes_len(n / 256, (w - 1) as nat);
        lemma_be_bytes_first(n / 256, (w - 1) as nat);
        lemma_radix_monotonic((w - 2) as nat, (w - 2) as nat);
        lemma_div_denominator(n as int, 256, radix((w - 2) as nat) as int);
        assert(be_bytes(n, w)[0] == be_bytes(n / 256, (w - 1) as nat)[0]);
    } else {
        assert(radix(0) == 1);
        assert(be_bytes(n, 1)[0] == (n % 256) as u8);
    }
}

/// Appends the `nbytes` low-order bytes of `n` to `dst`, most significant
/// byte first.
pub fn put_uint_be(dst: &mut Vec<u8>, n: u64, nbytes: usize)
    ensures
        final(dst)@ == old(dst)@ + be_bytes(n as nat, nbytes as nat),
    decreases nbytes,
{
    if nbytes > 0 {
        put_uint_be(dst, n / 256, nbytes - 1);
        dst.push((n % 256) as u8);
        assert(dst@ =~= old(dst)@ + be_bytes(n as nat, nbytes as nat));
    } else {
        assert(dst@ =~= old(dst)@ + be_bytes(n as nat, nbytes as nat));
    }
}

/// Reads the first `nbytes` bytes of `src` as one number, most significant
/// byte first.
pub fn get_uint_be(src: &[u8], nbytes: usize) -> (r: u64)
    requires
        nbytes <= 8,
        nbytes <= src@.len(),
    ensures
        r == be_value(src@.take(nbytes as int)),
{
    let mut acc: u64 = 0;
    let mut i: usize = 0;
    while i < nbytes
        invariant
            i <= nbytes <= 8,
            nbytes <= src@.len(),
            acc == be_value(src@.take(i as int)),
            acc < radix(i as nat),
        decreases nbytes - i,
    {
        proof {
            lemma_radix_monotonic(i as nat, 7);
            reveal_with_fuel(radix, 8);
            assert(src@.take(i + 1).drop_last() =~= src@.take(i as int));
            assert(acc * 256 + src@[i as int] < radix((i + 1) as nat)) by (nonlinear_arith)
                requires
                    acc < radix(i as nat),
                    src@[i as int] < 256,
                    radix((i + 1) as nat) == 256 * radix(i as nat),
            ;
        }
        acc = acc * 256 + src[i] as u64;
        i = i + 1;
    }
    acc
}

} // verus!
