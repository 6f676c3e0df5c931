//! Positions in a ring of slots.

use vstd::arithmetic::div_mod::lemma_fundamental_div_mod;
use vstd::arithmetic::power::{lemma_pow_positive, pow};
use vstd::arithmetic::power2::{
    is_pow2, is_pow2_equiv, is_pow2_exists, lemma2_to64, lemma2_to64_rest, lemma_pow2_pos,
    lemma_pow2_strictly_increases, lemma_pow2_unfold, pow2,
};
use vstd::bits::lemma_usize_low_bits_mask_is_mod;
use vstd::prelude::*;

verus! {

/// The smallest power of two that is at least `n`.
pub open spec fn ring_size(n: nat) -> nat
    decreases n,
{
    if n <= 1 {
        1
    } else {
        2 * ring_size(((n + 1) / 2) as nat)
    }
}

/// `ring_size(n)` is a power of two, is at least `n`, and is the smallest such number.
pub proof fn lemma_ring_size(n: nat)
    ensures
        is_pow2(ring_size(n) as int),
        n <= ring_size(n),
        ring_size(n) > 0,
        forall|p: int| #[trigger] is_pow2(p) && n <= p ==> ring_size(n) <= p,
    decreases n,
{
    reveal(is_pow2);
    if n > 1 {
        let half = ((n + 1) / 2) as nat;
        lemma_ring_size(half);
        assert forall|p: int| #[trigger] is_pow2(p) && n <= p implies ring_size(n) <= p by {
            assert(p % 2 == 0 && is_pow2(p / 2));
            assert(half <= p / 2);
        }
    }
}

/// A ring has at most one slot more than twice as many as it has to have.
pub proof fn lemma_ring_size_bound(n: nat)
    ensures
        ring_size(n) <= 2 * n + 1,
        n > 0 ==> ring_size(n) < 2 * n,
    decreases n,
{
    if n > 1 {
        lemma_ring_size_bound(((n + 1) / 2) as nat);
    }
}

/// The only power of two that is at least `n` and no greater than any other such is
/// `ring_size(n)`.
pub proof fn lemma_ring_size_unique(n: nat, size: int)
    requires
        is_pow2(size),
        n <= size,
        forall|p: int| #[trigger] is_pow2(p) && n <= p ==> size <= p,
    ensures
        size == ring_size(n),
{
    lemma_ring_size(n);
}

/// Masking with one less than a power of two is the remainder of dividing by it.
pub proof fn lemma_mask_is_remainder(cursor: usize, size: usize)
    requires
        is_pow2(size as int),
    ensures
        size > 0,
        cursor & ((size - 1) as usize) == cursor % size,
{
    is_pow2_equiv(size as int);
    assert(is_pow2_exists(size as int));
    let e = choose|e: nat| pow(2, e) == size as int;
    assert(pow2(e) == size);
    lemma_pow2_pos(e);
    assert(e < usize::BITS) by {
        if e >= usize::BITS {
            lemma_pow2_bits();
            if e > usize::BITS {
                lemma_pow2_strictly_increases(usize::BITS as nat, e);
            }
        }
    }
    lemma_usize_low_bits_mask_is_mod(cursor, e);
}

/// One more than the largest `usize` is two to the number of its bits.
proof fn lemma_pow2_bits()
    ensures
        pow2(usize::BITS as nat) == usize::MAX + 1,
{
    lemma2_to64();
    lemma2_to64_rest();
}

/// The number of slots fits in a `usize` for a capacity of up to half the range of a `usize`, and
/// for no greater one.
pub proof fn lemma_ring_size_fits(n: nat)
    ensures
        ring_size(n) <= usize::MAX <==> n <= usize::MAX / 2 + 1,
{
    lemma_ring_size(n);
    lemma_pow2_bits();
    let bits = usize::BITS as nat;
    let half = (bits - 1) as nat;
    lemma_pow2_unfold(bits);
    assert(pow2(half) == usize::MAX / 2 + 1);
    lemma_pow2_pos(half);
    assert(is_pow2(pow2(half) as int)) by {
        is_pow2_equiv(pow2(half) as int);
        assert(pow(2, half) == pow2(half) as int) by {
            lemma_pow_positive(2, half);
        }
        assert(is_pow2_exists(pow2(half) as int));
    }
    if n > pow2(half) {
        is_pow2_equiv(ring_size(n) as int);
        assert(is_pow2_exists(ring_size(n) as int));
        let e = choose|e: nat| pow(2, e) == ring_size(n) as int;
        assert(pow2(e) == ring_size(n));
        if e < half {
            lemma_pow2_strictly_increases(e, half);
        }
        assert(e > half);
        if e > bits {
            lemma_pow2_strictly_increases(bits, e);
        }
    }
}

/// Two cursors less than a whole ring apart are in different slots.
pub proof fn lemma_distinct_slots(a: nat, b: nat, size: nat)
    requires
        a < b < a + size,
    ensures
        a % size != b % size,
{
    if a % size == b % size {
        lemma_fundamental_div_mod(a as int, size as int);
        lemma_fundamental_div_mod(b as int, size as int);
        let q = b / size - a / size;
        assert(b - a == size * q) by (nonlinear_arith)
            requires
                a == size * (a / size) + a % size,
                b == size * (b / size) + b % size,
                a % size == b % size,
                q == b / size - a / size,
        ;
        assert(false) by (nonlinear_arith)
            requires
                0 < b - a < size,
                b - a == size * q,
        ;
    }
}

/// `usize::next_power_of_two` of `std`: the smallest power of two that is at least `n`, where
/// that number fits in a `usize`.
pub assume_specification[ usize::next_power_of_two ](n: usize) -> (power: usize)
    requires
        exists|p: int| #[trigger] is_pow2(p) && n <= p <= usize::MAX,
    ensures
        is_pow2(power as int),
        n <= power,
        forall|p: int| #[trigger] is_pow2(p) && n <= p ==> power <= p,
;

} // verus!
