use vstd::prelude::*;

verus! {

/// Bit `j` (0 is the least significant) of `x` is set.
pub open spec fn bit(x: u64, j: u64) -> bool {
    (x >> j) & 1u64 == 1u64
}

/// A word whose `n` most significant bits are set and all others clear.
pub open spec fn mask_of(n: nat) -> u64 {
    if n == 0 {
        0u64
    } else {
        0xffff_ffff_ffff_ffffu64 << ((64 - n) as u64)
    }
}

/// The number of set bits among bits `0..k` of `x`.
pub open spec fn count_low_bits(x: u64, k: nat) -> nat
    decreases k,
{
    if k == 0 {
        0
    } else {
        count_low_bits(x, (k - 1) as nat) + if bit(x, (k - 1) as u64) { 1nat } else { 0nat }
    }
}

/// The number of set bits of `x`.
pub open spec fn popcount(x: u64) -> nat {
    count_low_bits(x, 64)
}

/// Bit `j` of `mask_of(n) >> off` is set exactly when `j` lies in
/// `[64 - off - n, 64 - off)`.
pub proof fn lemma_window_bits(n: nat, off: nat)
    requires
        n <= 64,
        off < 64,
        off + n <= 64,
    ensures
        forall|j: u64|
            j < 64 ==> (#[trigger] bit(mask_of(n) >> (off as u64), j) <==> 64 - off - n <= j < 64 - off),
{
    let o: u64 = off as u64;
    if n == 0 {
        assert forall|j: u64| j < 64 implies !#[trigger] bit(mask_of(n) >> o, j) by {
            assert(((0u64 >> o) >> j) & 1u64 != 1u64) by (bit_vector);
        }
    } else {
        let s: u64 = (64 - n) as u64;
        assert forall|j: u64|
            j < 64 implies (#[trigger] bit(mask_of(n) >> o, j) <==> 64 - off - n <= j < 64 - off) by {
            assert(((((0xffff_ffff_ffff_ffffu64 << s) >> o) >> j) & 1u64 == 1u64) <==> (s <= (j + o) as u64
                && j < (64 - o) as u64)) by (bit_vector)
                requires
                    s < 64,
                    o < 64,
                    j < 64,
            ;
        }
    }
}

/// At most `k` of the low `k` bits are set.
pub proof fn lemma_count_bounded(x: u64, k: nat)
    ensures
        count_low_bits(x, k) <= k,
    decreases k,
{
    if k > 0 {
        lemma_count_bounded(x, (k - 1) as nat);
    }
}

/// The set bits of two disjoint words add up in their union.
pub proof fn lemma_count_disjoint_union(a: u64, b: u64, k: nat)
    requires
        a & b == 0,
        k <= 64,
    ensures
        count_low_bits(a | b, k) == count_low_bits(a, k) + count_low_bits(b, k),
    decreases k,
{
    if k > 0 {
        lemma_count_disjoint_union(a, b, (k - 1) as nat);
        let j: u64 = (k - 1) as u64;
        assert(bit(a | b, j) == (bit(a, j) || bit(b, j))) by (bit_vector);
        assert(!(bit(a, j) && bit(b, j))) by (bit_vector)
            requires
                a & b == 0,
        ;
    }
}

/// How many of `0..k` lie in `[lo, hi)`, where `lo <= hi`.
pub open spec fn overlap_below(lo: int, hi: int, k: int) -> int {
    if k <= lo {
        0
    } else if k <= hi {
        k - lo
    } else {
        hi - lo
    }
}

proof fn lemma_count_window_low(n: nat, off: nat, k: nat)
    requires
        n <= 64,
        off < 64,
        off + n <= 64,
        k <= 64,
    ensures
        count_low_bits(mask_of(n) >> (off as u64), k) == overlap_below(64 - off - n, 64 - off, k as int),
    decreases k,
{
    if k > 0 {
        lemma_count_window_low(n, off, (k - 1) as nat);
        lemma_window_bits(n, off);
        let j: u64 = (k - 1) as u64;
        assert(bit(mask_of(n) >> (off as u64), j) <==> 64 - off - n <= j < 64 - off);
    }
}

/// `mask_of(n) >> off` has exactly `n` set bits when the window fits.
pub proof fn lemma_popcount_window(n: nat, off: nat)
    requires
        n <= 64,
        off < 64,
        off + n <= 64,
    ensures
        popcount(mask_of(n) >> (off as u64)) == n,
{
    lemma_count_window_low(n, off, 64);
}

/// `mask_of(n)` has exactly `n` set bits, and they are the `n` most
/// significant ones.
pub proof fn lemma_mask_left_justified(n: nat)
    requires
        n <= 64,
    ensures
        popcount(mask_of(n)) == n,
        forall|j: u64| j < 64 ==> (#[trigger] bit(mask_of(n), j) <==> 64 - n <= j),
{
    lemma_window_bits(n, 0);
    lemma_popcount_window(n, 0);
    let m: u64 = mask_of(n);
    assert(m >> 0u64 == m) by (bit_vector);
}

} // verus!
