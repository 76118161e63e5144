//! Ring capacities: powers of two, so that a position's slot is found with a bit mask.
use vstd::arithmetic::power2::lemma_pow2_pos;
use vstd::arithmetic::power2::lemma_pow2_strictly_increases;
use vstd::arithmetic::power2::lemma_pow2_unfold;
use vstd::arithmetic::power2::pow2;
use vstd::prelude::*;

verus! {

/// `n` is a power of two.
pub open spec fn is_power_of_two(n: int) -> bool {
    exists|k: nat| n == #[trigger] pow2(k)
}

/// The smallest power of two that is at least `n` (1 for `n == 0`).
pub open spec fn power_at_least(n: nat) -> nat
    decreases n,
{
    if n <= 1 {
        1
    } else {
        2 * power_at_least(((n + 1) / 2) as nat)
    }
}

/// The largest number whose next power of two still fits a `usize`.
pub open spec fn capacity_limit() -> int {
    usize::MAX / 2 + 1
}

/// `power_at_least(n)` is a power of two, is at least `n`, and no smaller power of two is.
pub proof fn lemma_power_at_least(n: nat)
    ensures
        is_power_of_two(power_at_least(n) as int),
        n <= power_at_least(n),
        power_at_least(n) >= 1,
        forall|m: nat| is_power_of_two(m as int) && n <= m ==> power_at_least(n) <= m,
    decreases n,
{
    lemma_power_bounds(n);
    assert forall|m: nat| is_power_of_two(m as int) && n <= m implies power_at_least(n) <= m by {
        let k = choose|k: nat| m as int == pow2(k);
        let j = choose|j: nat| power_at_least(n) as int == pow2(j);
        lemma_pow2_pos(k);
        if k < j {
            lemma_pow2_unfold(j);
            if k < j - 1 {
                lemma_pow2_strictly_increases(k, (j - 1) as nat);
            }
        } else if j < k {
            lemma_pow2_strictly_increases(j, k);
        }
    }
}

/// The power of two is less than twice the number, unless it is 1.
pub proof fn lemma_power_bounds(n: nat)
    ensures
        is_power_of_two(power_at_least(n) as int),
        n <= power_at_least(n),
        power_at_least(n) == 1 || power_at_least(n) < 2 * n,
        power_at_least(n) >= 1,
    decreases n,
{
    if n <= 1 {
        vstd::arithmetic::power2::lemma2_to64();
        assert(pow2(0) == 1);
    } else {
        let half = ((n + 1) / 2) as nat;
        lemma_power_bounds(half);
        let k = choose|k: nat| power_at_least(half) as int == #[trigger] pow2(k);
        lemma_pow2_unfold(k + 1);
        assert(power_at_least(n) == pow2(k + 1));
        if power_at_least(half) < 2 * half {
            // A power of two below `n + 1` that is even stays below `2 * n` when doubled.
            if k == 0 {
                vstd::arithmetic::power2::lemma2_to64();
            } else {
                lemma_pow2_unfold(k);
            }
        }
    }
}

proof fn lemma_power_unique(n: nat, p: nat)
    requires
        is_power_of_two(p as int),
        n <= p,
        p == 1 || p < 2 * n,
    ensures
        p == power_at_least(n),
{
    lemma_power_bounds(n);
    let k = choose|k: nat| p as int == #[trigger] pow2(k);
    let j = choose|j: nat| power_at_least(n) as int == #[trigger] pow2(j);
    lemma_pow2_pos(k);
    lemma_pow2_pos(j);
    if k < j {
        lemma_pow2_unfold(j);
        if k < j - 1 {
            lemma_pow2_strictly_increases(k, (j - 1) as nat);
        }
    } else if j < k {
        lemma_pow2_unfold(k);
        if j < k - 1 {
            lemma_pow2_strictly_increases(j, (k - 1) as nat);
        }
    }
}

/// The smallest power of two that is at least `n`.
pub fn next_power_of_two(n: usize) -> (r: usize)
    requires
        n <= capacity_limit(),
    ensures
        r == power_at_least(n as nat),
{
    let mut p: usize = 1;
    proof {
        vstd::arithmetic::power2::lemma2_to64();
        assert(pow2(0) == 1);
    }
    while p < n
        invariant
            n <= capacity_limit(),
            1 <= p,
            is_power_of_two(p as int),
            p == 1 || p < 2 * n,
        decreases 2 * n - p,
    {
        proof {
            let k = choose|k: nat| p as int == #[trigger] pow2(k);
            lemma_pow2_unfold(k + 1);
            assert(2 * p == pow2(k + 1));
        }
        p = p * 2;
    }
    proof {
        lemma_power_unique(n as nat, p as nat);
    }
    p
}

/// With a capacity that is a power of two, masking a position with `capacity - 1` gives the
/// same slot as the remainder by the capacity.
pub proof fn lemma_mask_is_remainder(pos: u64, capacity: u64)
    requires
        is_power_of_two(capacity as int),
    ensures
        (pos & ((capacity - 1) as u64)) as int == pos as int % capacity as int,
{
    let k = choose|k: nat| capacity as int == #[trigger] pow2(k);
    if k >= 64 {
        vstd::arithmetic::power2::lemma2_to64_rest();
        if k > 64 {
            lemma_pow2_strictly_increases(64, k);
        }
    }
    lemma_pow2_pos(k);
    vstd::bits::lemma_u64_low_bits_mask_is_mod(pos, k);
}

/// Masking never gives more than the mask.
pub proof fn lemma_mask_bounds(pos: u64, mask: u64)
    ensures
        pos & mask <= mask,
{
    assert(pos & mask <= mask) by (bit_vector);
}

} // verus!
