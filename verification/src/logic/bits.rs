//! Single bits of a minterm and how masks speak of them.

use vstd::prelude::*;

use crate::logic::qm::{full_mask, in_space, Cube};

verus! {

/// Bit `i` of `x` is set.
pub open spec fn bit_at(x: u32, i: u32) -> bool {
    (x >> i) & 1 == 1
}

pub proof fn lemma_set_bit(x: u32, i: u32, j: u32)
    by (bit_vector)
    requires
        i < 32,
        j < 32,
    ensures
        bit_at(x | (1u32 << i), j) == (bit_at(x, j) || i == j),
{
}

proof fn lemma_mask_bits(m: u32, mask: u32, j: u32)
    by (bit_vector)
    requires
        j < 32,
    ensures
        bit_at(m & mask, j) == (bit_at(m, j) && bit_at(mask, j)),
        bit_at(m ^ mask, j) == (bit_at(m, j) != bit_at(mask, j)),
        !bit_at(0, j),
{
}

/// The minterms over `n` variables are the numbers below `2^n`.
pub proof fn lemma_space(m: u32, n: u32)
    by (bit_vector)
    requires
        n <= 31,
    ensures
        m < 1u32 << n <==> m & (((1u32 << n) - 1) as u32) == m,
        (1u32 << n) >= 1,
{
}

pub proof fn lemma_space_size(n: u32)
    by (bit_vector)
    requires
        n <= 16,
    ensures
        1 <= 1u32 << n <= 65536,
{
}

proof fn lemma_shrink(x: u32, n: u32)
    by (bit_vector)
    requires
        n < 31,
        x & (((1u32 << ((n + 1) as u32)) - 1) as u32) == x,
        !bit_at(x, n),
    ensures
        x & (((1u32 << n) - 1) as u32) == x,
{
}

proof fn lemma_grow(x: u32, i: u32)
    by (bit_vector)
    requires
        i < 31,
        x & (((1u32 << i) - 1) as u32) == x,
    ensures
        (x | (1u32 << i)) & (((1u32 << ((i + 1) as u32)) - 1) as u32) == x | (1u32 << i),
        x & (((1u32 << ((i + 1) as u32)) - 1) as u32) == x,
        !bit_at(x, i),
{
}

/// Masks stay within the variables seen so far.
pub proof fn lemma_space_grows(x: u32, i: u32)
    requires
        i < 31,
        in_space(x, full_mask(i as nat)),
    ensures
        in_space(x | (1u32 << i), full_mask((i + 1) as nat)),
        in_space(x, full_mask((i + 1) as nat)),
        !bit_at(x, i),
{
    lemma_full_mask(i);
    lemma_full_mask((i + 1) as u32);
    lemma_grow(x, i);
}

pub proof fn lemma_full_mask(n: u32)
    requires
        n <= 31,
    ensures
        full_mask(n as nat) == ((1u32 << n) - 1) as u32,
        (1u32 << n) >= 1,
{
    assert(1u32 << 0u32 == 1) by (bit_vector);
    lemma_space(0, n);
    assert(1u32 << (n as nat) == 1u32 << n);
}

/// A nonzero number over `n` variables has one of the first `n` bits set.
proof fn lemma_some_bit(x: u32, n: u32) -> (i: u32)
    requires
        n <= 31,
        x != 0,
        in_space(x, full_mask(n as nat)),
    ensures
        i < n,
        bit_at(x, i),
    decreases n,
{
    lemma_full_mask(n);
    if n == 0 {
        assert(x & 0u32 == 0) by (bit_vector);
        0
    } else {
        let k = (n - 1) as u32;
        if bit_at(x, k) {
            k
        } else {
            lemma_shrink(x, k);
            lemma_full_mask(k);
            lemma_some_bit(x, k)
        }
    }
}

/// The cube's specified variables agree with the minterm's bits.
pub open spec fn bits_agree(c: Cube, m: u32, n: nat) -> bool {
    forall|i: u32| i < n && #[trigger] bit_at(c.mask, i) ==> bit_at(m, i) == bit_at(c.bits, i)
}

/// A cube matches a minterm exactly when they agree on every specified variable.
pub proof fn lemma_matches_bits(c: Cube, m: u32, n: u32)
    requires
        n <= 31,
        c.wf(full_mask(n as nat)),
    ensures
        c.matches(m) <==> bits_agree(c, m, n as nat),
{
    let full = full_mask(n as nat);
    if c.matches(m) {
        assert forall|i: u32| i < n && #[trigger] bit_at(c.mask, i) implies bit_at(m, i) == bit_at(c.bits, i) by {
            lemma_mask_bits(m, c.mask, i);
        }
    } else {
        let x = (m & c.mask) ^ c.bits;
        let mask = c.mask;
        let bits = c.bits;
        assert(x != 0 && x & full == x && x & mask == x) by (bit_vector)
            requires
                x == (m & mask) ^ bits,
                m & mask != bits,
                mask & full == mask,
                bits & mask == bits,
        ;
        let i = lemma_some_bit(x, n);
        lemma_mask_bits(m & mask, bits, i);
        lemma_mask_bits(m, mask, i);
        lemma_mask_bits(x, mask, i);
        assert(bit_at(c.mask, i));
    }
}

/// Bits that are set only where the mask is set lie within the mask.
pub proof fn lemma_bits_within(bits: u32, mask: u32, n: u32)
    requires
        n <= 31,
        in_space(bits, full_mask(n as nat)),
        forall|i: u32| i < n && #[trigger] bit_at(bits, i) ==> bit_at(mask, i),
    ensures
        bits & mask == bits,
{
    if bits & mask != bits {
        let full = full_mask(n as nat);
        let x = bits ^ (bits & mask);
        assert(x != 0 && x & full == x) by (bit_vector)
            requires
                x == bits ^ (bits & mask),
                bits & mask != bits,
                bits & full == bits,
        ;
        let i = lemma_some_bit(x, n);
        lemma_mask_bits(bits, bits & mask, i);
        lemma_mask_bits(bits, mask, i);
    }
}

} // verus!
