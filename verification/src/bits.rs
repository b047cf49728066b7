//! Bit-level vocabulary for 64-bit square sets.

use vstd::prelude::*;
use vstd::std_specs::bits::{axiom_u64_trailing_zeros, u64_trailing_zeros};

verus! {

/// Bit `k` of `b`, for a bit position that is already a machine integer.
pub open spec fn bit64(b: u64, k: u64) -> bool {
    (b >> k) & 1 == 1
}

/// Square `k` is a member of the square set `b`. False outside `0..64`.
pub open spec fn bit(b: u64, k: int) -> bool {
    0 <= k < 64 && bit64(b, k as u64)
}

/// The set holding exactly square `k`.
pub open spec fn single(k: int) -> u64 {
    1u64 << (k as u64)
}

/// How the bits of a union, an intersection, a difference and a complement come
/// from the bits of the sets.
pub proof fn lemma_bit64_ops(x: u64, y: u64, k: u64)
    by (bit_vector)
    requires
        k < 64,
    ensures
        bit64(x | y, k) == (bit64(x, k) || bit64(y, k)),
        bit64(x & y, k) == (bit64(x, k) && bit64(y, k)),
        bit64(x ^ y, k) == (bit64(x, k) != bit64(y, k)),
        bit64(!x, k) == !bit64(x, k),
        !bit64(0u64, k),
        (x ^ y == 0) == (x == y),
        (x & y == 0) ==> !(bit64(x, k) && bit64(y, k)),
{
}

/// The set of one square has that square as its only member.
pub proof fn lemma_bit64_single(t: u64, k: u64)
    by (bit_vector)
    requires
        t < 64,
        k < 64,
    ensures
        bit64(1u64 << t, k) == (k == t),
        (1u64 << t) != 0,
{
}

/// A square is in a union if it is in one of the sets.
pub broadcast proof fn lemma_bit_or(x: u64, y: u64, k: int)
    ensures
        #[trigger] bit(x | y, k) == (bit(x, k) || bit(y, k)),
{
    if 0 <= k < 64 {
        lemma_bit64_ops(x, y, k as u64);
    }
}

/// A square is in an intersection if it is in both sets.
pub broadcast proof fn lemma_bit_and(x: u64, y: u64, k: int)
    ensures
        #[trigger] bit(x & y, k) == (bit(x, k) && bit(y, k)),
{
    if 0 <= k < 64 {
        lemma_bit64_ops(x, y, k as u64);
    }
}

/// A square is in a symmetric difference if it is in exactly one of the sets.
pub broadcast proof fn lemma_bit_xor(x: u64, y: u64, k: int)
    ensures
        #[trigger] bit(x ^ y, k) == (bit(x, k) != bit(y, k)),
{
    if 0 <= k < 64 {
        lemma_bit64_ops(x, y, k as u64);
    }
}

/// A square of the board is in a complement if it is not in the set.
pub broadcast proof fn lemma_bit_not(x: u64, k: int)
    ensures
        #[trigger] bit(!x, k) == (0 <= k < 64 && !bit(x, k)),
{
    if 0 <= k < 64 {
        lemma_bit64_ops(x, x, k as u64);
    }
}

/// The empty set has no member.
pub broadcast proof fn lemma_bit_zero(k: int)
    ensures
        !#[trigger] bit(0u64, k),
{
    if 0 <= k < 64 {
        lemma_bit64_ops(0, 0, k as u64);
    }
}

/// The set of one square has that square as its only member.
pub broadcast proof fn lemma_bit_single(t: int, k: int)
    requires
        0 <= t < 64,
    ensures
        #[trigger] bit(single(t), k) == (k == t),
{
    if 0 <= k < 64 {
        lemma_bit64_single(t as u64, k as u64);
    }
}

pub broadcast group group_bits {
    lemma_bit_or,
    lemma_bit_and,
    lemma_bit_xor,
    lemma_bit_not,
    lemma_bit_zero,
    lemma_bit_single,
}

/// Two square sets with the same members are the same set.
pub proof fn lemma_bits_equal(x: u64, y: u64)
    requires
        forall|k: int| 0 <= k < 64 ==> bit(x, k) == bit(y, k),
    ensures
        x == y,
{
    let d = x ^ y;
    if d != 0 {
        axiom_u64_trailing_zeros(d);
        let t = u64_trailing_zeros(d);
        assert(bit64(d, t as u64));
        lemma_bit64_ops(x, y, t as u64);
        assert(bit(x, t as int) == bit(y, t as int));
    }
    lemma_bit64_ops(x, y, 0);
}

/// A set without members is the empty set.
pub proof fn lemma_no_bits_is_zero(x: u64)
    requires
        forall|k: int| 0 <= k < 64 ==> !bit(x, k),
    ensures
        x == 0,
{
    broadcast use group_bits;

    lemma_bits_equal(x, 0);
}

/// The lowest member of a non-empty set is found by counting trailing zeros.
pub proof fn lemma_lowest_bit(x: u64)
    requires
        x != 0,
    ensures
        0 <= u64_trailing_zeros(x) < 64,
        bit(x, u64_trailing_zeros(x) as int),
        forall|j: int| 0 <= j < u64_trailing_zeros(x) ==> !bit(x, j),
{
    axiom_u64_trailing_zeros(x);
    let t = u64_trailing_zeros(x);
    assert forall|j: int| 0 <= j < t implies !bit(x, j) by {
        let ju = j as u64;
        assert((x >> ju) & 1u64 == 0u64);
    }
}

/// Number of members of `b` among the squares below `n`.
pub open spec fn count_below(b: u64, n: int) -> nat
    decreases n,
{
    if n <= 0 {
        0
    } else {
        count_below(b, n - 1) + if bit(b, n - 1) {
            1nat
        } else {
            0nat
        }
    }
}

/// Number of members of `b`.
pub open spec fn popcount(b: u64) -> nat {
    count_below(b, 64)
}

/// A set has no more members below `n` than there are squares below `n`.
pub proof fn lemma_count_below_bound(b: u64, n: int)
    requires
        0 <= n,
    ensures
        count_below(b, n) <= n,
    decreases n,
{
    if n > 0 {
        lemma_count_below_bound(b, n - 1);
    }
}

/// Removing a member lowers the count by one; members at or above `n` do not count.
pub proof fn lemma_count_below_remove(b: u64, t: int, n: int)
    requires
        0 <= t < 64,
        0 <= n <= 64,
        bit(b, t),
    ensures
        count_below(b & !single(t), n) + (if t < n { 1nat } else { 0nat }) == count_below(b, n),
    decreases n,
{
    broadcast use group_bits;

    if n > 0 {
        lemma_count_below_remove(b, t, n - 1);
    }
}

/// The empty set has no members to count.
pub proof fn lemma_count_below_zero(n: int)
    ensures
        count_below(0, n) == 0,
    decreases n,
{
    broadcast use group_bits;

    if n > 0 {
        lemma_count_below_zero(n - 1);
    }
}

/// The index of the lowest member of a non-empty set.
pub fn lowest_square(b: u64) -> (t: u8)
    requires
        b != 0,
    ensures
        t < 64,
        bit(b, t as int),
        forall|j: int| 0 <= j < t ==> !bit(b, j),
{
    proof {
        lemma_lowest_bit(b);
    }
    b.trailing_zeros() as u8
}

/// The set with exactly square `k`.
pub fn single_mask(k: u8) -> (m: u64)
    requires
        k < 64,
    ensures
        m == single(k as int),
{
    1u64 << (k as u64)
}

/// Whether square `k` is a member of `b`.
pub fn has_bit(b: u64, k: u8) -> (r: bool)
    requires
        k < 64,
    ensures
        r == bit(b, k as int),
{
    (b >> (k as u64)) & 1 == 1
}

/// `b` without square `k`.
pub fn without(b: u64, k: u8) -> (r: u64)
    requires
        k < 64,
    ensures
        r == b & !single(k as int),
        forall|j: int| bit(r, j) == (bit(b, j) && j != k),
{
    broadcast use group_bits;

    b & !(1u64 << (k as u64))
}

/// Number of members of `b`.
pub fn count_ones(b: u64) -> (n: u32)
    ensures
        n == popcount(b),
        n <= 64,
{
    let mut rest: u64 = b;
    let mut n: u32 = 0;
    proof {
        lemma_count_below_bound(b, 64);
    }
    while rest != 0
        invariant
            n + count_below(rest, 64) == count_below(b, 64),
            count_below(b, 64) <= 64,
        decreases count_below(rest, 64),
    {
        let t: u8 = lowest_square(rest);
        proof {
            lemma_count_below_remove(rest, t as int, 64);
        }
        rest = without(rest, t);
        n = n + 1;
    }
    proof {
        lemma_count_below_zero(64);
    }
    n
}

} // verus!
