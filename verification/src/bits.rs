//! Bit-level spec functions and lemmas shared by the bitmap and table code.

use vstd::prelude::*;

verus! {

/// Whether bit `i` of `w` is set.
pub open spec fn bit64(w: u64, i: u64) -> bool {
    i < 64 && (w >> i) & 1 == 1
}

/// A power of two: exactly one bit set.
pub open spec fn is_pow2_u64(m: u64) -> bool {
    m > 0 && m & ((m - 1) as u64) == 0
}

/// The exponent of a power of two: a `k < 64` with `m == 1 << k`.
pub proof fn lemma_pow2_log(m: u64) -> (k: u64)
    requires
        is_pow2_u64(m),
    ensures
        k < 64,
        m == 1u64 << k,
    decreases m,
{
    if m == 1 {
        assert(1u64 == 1u64 << 0u64) by (bit_vector);
        0
    } else {
        assert(m / 2 > 0 && (m / 2) & (((m / 2) - 1) as u64) == 0 && m / 2 < m) by (bit_vector)
            requires
                m > 1,
                m & ((m - 1) as u64) == 0,
        ;
        let k1 = lemma_pow2_log(m / 2);
        let k = (k1 + 1) as u64;
        assert(k1 < 63 && m == 1u64 << ((k1 + 1) as u64)) by (bit_vector)
            requires
                m > 1,
                m & ((m - 1) as u64) == 0,
                k1 < 64,
                m / 2 == 1u64 << k1,
        ;
        k
    }
}

/// For a power of two `m`, masking with `m - 1` is reduction modulo `m`.
pub proof fn lemma_pow2_mask_mod(a: u64, m: u64)
    requires
        is_pow2_u64(m),
    ensures
        a & ((m - 1) as u64) == a % m,
{
    let k = lemma_pow2_log(m);
    vstd::bits::lemma_u64_pow2_no_overflow(k as nat);
    vstd::bits::lemma_u64_shl_is_mul(1u64, k);
    vstd::bits::lemma_u64_low_bits_mask_is_mod(a, k as nat);
}

/// A bit of a nonzero word: a `j < 64` with bit `j` of `w` set.
pub proof fn lemma_nonzero_bit(w: u64) -> (j: u64)
    requires
        w != 0,
    ensures
        bit64(w, j),
    decreases w,
{
    if w & 1 == 1 {
        assert((w >> 0u64) & 1 == 1) by (bit_vector)
            requires
                w & 1 == 1,
        ;
        0
    } else {
        assert(w >> 1u64 != 0 && w >> 1u64 < w) by (bit_vector)
            requires
                w != 0,
                w & 1 != 1,
        ;
        let j1 = lemma_nonzero_bit(w >> 1u64);
        let j = (j1 + 1) as u64;
        assert(j1 < 63 && (w >> ((j1 + 1) as u64)) & 1 == 1) by (bit_vector)
            requires
                j1 < 64,
                ((w >> 1u64) >> j1) & 1 == 1,
        ;
        j
    }
}

/// A word is zero exactly when none of its bits is set.
pub proof fn lemma_bit64_zero(w: u64)
    ensures
        (w == 0) == (forall|j: u64| !bit64(w, j)),
{
    if w == 0 {
        assert forall|j: u64| !bit64(0u64, j) by {
            if j < 64 {
                assert((0u64 >> j) & 1 == 0) by (bit_vector);
            }
        }
    } else {
        let j = lemma_nonzero_bit(w);
    }
}

/// Reading bit `k` of `w`.
pub fn get_bit64(w: u64, k: u64) -> (r: bool)
    requires
        k < 64,
    ensures
        r == bit64(w, k),
{
    (w >> k) & 1 == 1
}

/// `w` with bit `k` set.
pub fn set_bit64(w: u64, k: u64) -> (r: u64)
    requires
        k < 64,
    ensures
        forall|j: u64| #[trigger] bit64(r, j) == (j == k || bit64(w, j)),
        r != 0,
{
    let r = w | (1u64 << k);
    proof {
        assert forall|j: u64| #[trigger] bit64(r, j) == (j == k || bit64(w, j)) by {
            if j < 64 {
                assert((((w | (1u64 << k)) >> j) & 1 == 1) == (j == k || (w >> j) & 1 == 1))
                    by (bit_vector)
                    requires
                        k < 64,
                        j < 64,
                ;
            }
        }
        assert(w | (1u64 << k) != 0) by (bit_vector)
            requires
                k < 64,
        ;
    }
    r
}

/// `w` with bit `k` cleared.
pub fn clear_bit64(w: u64, k: u64) -> (r: u64)
    requires
        k < 64,
    ensures
        forall|j: u64| #[trigger] bit64(r, j) == (j != k && bit64(w, j)),
{
    let r = w & !(1u64 << k);
    proof {
        assert forall|j: u64| #[trigger] bit64(r, j) == (j != k && bit64(w, j)) by {
            if j < 64 {
                assert((((w & !(1u64 << k)) >> j) & 1 == 1) == (j != k && (w >> j) & 1 == 1))
                    by (bit_vector)
                    requires
                        k < 64,
                        j < 64,
                ;
            }
        }
    }
    r
}

} // verus!
