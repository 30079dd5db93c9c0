//! Position arithmetic of a Merkle mountain range (MMR).
//!
//! Nodes are numbered from 0 in the order in which they are appended: a leaf,
//! then every parent that the leaf completes. A mountain of height `h` holds
//! `2^(h+1) - 1` nodes, an all-ones number; an MMR is a row of mountains of
//! strictly decreasing height.

use vstd::prelude::*;
use vstd::std_specs::bits::*;

verus! {

/// Number of one bits in `x`.
pub open spec fn popcount(x: u64) -> nat
    decreases x,
{
    if x == 0 {
        0
    } else {
        (x % 2) as nat + popcount(x / 2)
    }
}

/// The all-ones number with as many bits as `x` has: the size of the smallest
/// mountain that holds at least `x` nodes.
pub open spec fn cover(x: u64) -> u64
    decreases x,
{
    if x == 0 {
        0
    } else {
        (2 * cover(x / 2) + 1) as u64
    }
}

/// Whether `p` is `2^k - 1` for some `k`: a mountain's size, or 0.
pub open spec fn all_ones(p: u64) -> bool
    decreases p,
{
    p == 0 || (p % 2 == 1 && all_ones(p / 2))
}

/// What is left of `pos` after taking away, from the largest mountain size
/// `peak_size` down, every size that still fits, each at most once.
pub open spec fn remainder_from(pos: u64, peak_size: u64) -> u64
    decreases peak_size,
{
    if peak_size == 0 {
        pos
    } else if pos >= peak_size {
        remainder_from((pos - peak_size) as u64, peak_size / 2)
    } else {
        remainder_from(pos, peak_size / 2)
    }
}

/// The mountains taken by the same descent, as a bitmap: a mountain of size
/// `2^(k+1) - 1` sets bit `k`, the number of its leaves.
pub open spec fn peak_map_from(pos: u64, peak_size: u64) -> nat
    decreases peak_size,
{
    if peak_size == 0 {
        0
    } else if pos >= peak_size {
        ((peak_size + 1) / 2) as nat + peak_map_from((pos - peak_size) as u64, peak_size / 2)
    } else {
        peak_map_from(pos, peak_size / 2)
    }
}

/// The positions of the peaks of the mountains taken by the same descent,
/// where `base` nodes lie to the left.
pub open spec fn peaks_from(pos: u64, peak_size: u64, base: u64) -> Seq<u64>
    decreases peak_size,
{
    if peak_size == 0 {
        Seq::empty()
    } else if pos >= peak_size {
        seq![(base + peak_size - 1) as u64] + peaks_from(
            (pos - peak_size) as u64,
            peak_size / 2,
            (base + peak_size) as u64,
        )
    } else {
        peaks_from(pos, peak_size / 2, base)
    }
}

/// Number of nodes in an MMR of `leaves` leaves.
pub open spec fn mmr_size_of(leaves: nat) -> int
    recommends
        leaves <= u64::MAX,
{
    2 * leaves - popcount(leaves as u64)
}

/// `u64::count_ones` returns the number of ones in the binary representation
/// of its argument.
pub assume_specification[ u64::count_ones ](i: u64) -> (r: u32)
    ensures
        r == popcount(i),
;

/// `popcount(x)` is at most `x`, and at most 64.
pub proof fn lemma_popcount_bound(x: u64)
    ensures
        popcount(x) <= x,
        popcount(x) <= 64,
{
    vstd::arithmetic::power2::lemma2_to64();
    lemma_popcount_below(x, 64);
}

/// A number below `2^k` has at most `k` one bits, and no more than its value.
proof fn lemma_popcount_below(x: u64, k: nat)
    requires
        k <= 64,
        x as int <= vstd::arithmetic::power2::pow2(k) - 1,
    ensures
        popcount(x) <= k,
        popcount(x) <= x,
    decreases k,
{
    vstd::arithmetic::power2::lemma2_to64();
    if x == 0 {
    } else if k == 0 {
    } else {
        vstd::arithmetic::power2::lemma_pow2_unfold(k);
        lemma_popcount_below(x / 2, (k - 1) as nat);
    }
}

/// The lowest one bit of an odd number is bit 0; that of an even number lies
/// one above that of its half.
proof fn lemma_trailing_zeros_step(x: u64)
    requires
        x != 0,
    ensures
        x % 2 == 1 ==> u64_trailing_zeros(x) == 0,
        x % 2 == 0 ==> u64_trailing_zeros(x) == u64_trailing_zeros(x / 2) + 1,
{
    axiom_u64_trailing_zeros(x);
    let t = u64_trailing_zeros(x) as u64;
    assert(x >> 0 == x) by (bit_vector);
    assert(x & 1 == x % 2) by (bit_vector);
    if x % 2 == 1 {
        if t > 0 {
            assert((x >> 0u64) & 1u64 == 0u64);
        }
    } else {
        let h: u64 = x / 2;
        axiom_u64_trailing_zeros(h);
        let t2 = u64_trailing_zeros(h) as u64;
        assert(t >= 1);
        assert(t < 64 && t >= 1 ==> (x / 2) >> ((t - 1) as u64) == x >> t) by (bit_vector);
        assert(t2 < 63 ==> (x / 2) >> t2 == x >> ((t2 + 1) as u64)) by (bit_vector);
        if t - 1 < t2 {
            assert((h >> ((t - 1) as u64)) & 1u64 == 0u64);
        } else if t - 1 > t2 {
            assert((x >> ((t2 + 1) as u64)) & 1u64 == 0u64);
        }
    }
}

/// Going from `n - 1` to `n` clears the trailing ones of `n - 1` and sets the
/// bit above them.
pub proof fn lemma_popcount_successor(n: u64)
    requires
        n >= 1,
    ensures
        popcount(n) + u64_trailing_zeros(n) == popcount((n - 1) as u64) + 1,
    decreases n,
{
    lemma_trailing_zeros_step(n);
    if n % 2 == 1 {
        assert((n - 1) / 2 == n / 2);
        if n == 1 {
            assert(popcount(0) == 0);
            assert(popcount(1) == 1 + popcount(0));
        }
    } else {
        lemma_popcount_successor(n / 2);
        assert((n - 1) / 2 == n / 2 - 1);
    }
}

/// `cover(x)` is all ones, holds `x`, and is what shifting `u64::MAX` right by
/// the leading zeros of `x` gives.
pub proof fn lemma_cover(x: u64)
    ensures
        all_ones(cover(x)),
        x <= cover(x),
        x != 0 ==> cover(x) == u64::MAX >> (u64_leading_zeros(x) as u64),
        x != 0 ==> 0 <= u64_leading_zeros(x) < 64,
        cover(x) as int == 2 * cover(x / 2) + if x == 0 { 0int } else { 1int },
    decreases x,
{
    reveal(u64_leading_zeros);
    axiom_u64_leading_zeros(x);
    if x != 0 {
        lemma_cover(x / 2);
        axiom_u64_leading_zeros(x / 2);
        let s = u64_leading_zeros(x / 2) as u64;
        if x / 2 == 0 {
            assert(u64::MAX >> 63 == 1) by (bit_vector);
        } else {
            assert(1 <= s < 64 ==> (u64::MAX >> ((s - 1) as u64)) == 2 * (u64::MAX >> s) + 1)
                by (bit_vector);
        }
    }
}

/// What the descent leaves over is at most the number of sizes it tried.
proof fn lemma_remainder_bound(pos: u64, peak_size: u64, k: nat)
    requires
        all_ones(peak_size),
        k <= 64,
        peak_size as int <= vstd::arithmetic::power2::pow2((64 - k) as nat) - 1,
        pos <= 2 * peak_size + k,
    ensures
        remainder_from(pos, peak_size) <= 64,
    decreases peak_size,
{
    vstd::arithmetic::power2::lemma2_to64();
    if peak_size != 0 {
        if k == 64 {
            assert(vstd::arithmetic::power2::pow2(0) == 1);
        } else {
            vstd::arithmetic::power2::lemma_pow2_unfold((64 - k) as nat);
            if pos >= peak_size {
                lemma_remainder_bound((pos - peak_size) as u64, peak_size / 2, k + 1);
            } else {
                lemma_remainder_bound(pos, peak_size / 2, k + 1);
            }
        }
    }
}

/// The bitmap of a descent that starts at mountain size `peak_size` is at
/// most `peak_size`.
proof fn lemma_peak_map_bound(pos: u64, peak_size: u64)
    requires
        all_ones(peak_size),
    ensures
        peak_map_from(pos, peak_size) <= peak_size,
    decreases peak_size,
{
    if peak_size != 0 {
        if pos >= peak_size {
            lemma_peak_map_bound((pos - peak_size) as u64, peak_size / 2);
        } else {
            lemma_peak_map_bound(pos, peak_size / 2);
        }
    }
}

/// Setting the bit above a number adds one to its one bits.
proof fn lemma_popcount_top(p: u64, m: u64)
    requires
        all_ones(p),
        p >= 1,
        m <= p / 2,
    ensures
        popcount(((p + 1) / 2 + m) as u64) == 1 + popcount(m),
    decreases p,
{
    if p == 1 {
        assert(popcount(1) == 1 + popcount(0));
    } else {
        let q: u64 = p / 2;
        assert(all_ones(q) && q >= 1);
        lemma_popcount_top(q, m / 2);
        let x: u64 = ((p + 1) / 2 + m) as u64;
        assert(x / 2 == (q + 1) / 2 + m / 2);
        assert(x % 2 == m % 2);
    }
}

/// A descent finds as many peaks as its bitmap has one bits.
pub proof fn lemma_peak_count(pos: u64, peak_size: u64, base: u64)
    requires
        all_ones(peak_size),
    ensures
        peaks_from(pos, peak_size, base).len() == popcount(peak_map_from(pos, peak_size) as u64),
    decreases peak_size,
{
    if peak_size != 0 {
        if pos >= peak_size {
            let rest: u64 = (pos - peak_size) as u64;
            lemma_peak_count(rest, peak_size / 2, (base + peak_size) as u64);
            lemma_peak_map_bound(rest, peak_size / 2);
            lemma_popcount_top(peak_size, peak_map_from(rest, peak_size / 2) as u64);
        } else {
            lemma_peak_count(pos, peak_size / 2, base);
        }
    }
}

/// The descent through an MMR of `leaves` leaves, started at a mountain large
/// enough to hold them all, takes one mountain for each one bit of `leaves`:
/// the bitmap is `leaves` itself.
pub proof fn lemma_peak_map_from_size(leaves: u64, peak_size: u64)
    requires
        all_ones(peak_size),
        leaves <= peak_size,
        2 * leaves <= u64::MAX,
    ensures
        0 <= mmr_size_of(leaves as nat) <= u64::MAX,
        peak_map_from(mmr_size_of(leaves as nat) as u64, peak_size) == leaves,
    decreases peak_size,
{
    lemma_popcount_bound(leaves);
    if peak_size != 0 {
        let half: u64 = peak_size / 2;
        let top: u64 = (half + 1) as u64;
        if leaves >= top {
            let rest: u64 = (leaves - top) as u64;
            lemma_popcount_top(peak_size, rest);
            lemma_popcount_bound(rest);
            lemma_peak_map_from_size(rest, half);
            assert(mmr_size_of(leaves as nat) == peak_size + mmr_size_of(rest as nat));
        } else {
            lemma_peak_map_from_size(leaves, half);
        }
    } else {
        assert(popcount(0) == 0);
    }
}

/// An MMR of `leaves` leaves has `leaves` as the bitmap of its mountains, and
/// as many peaks as `leaves` has one bits.
pub proof fn lemma_peaks_of_mmr_size(leaves: u64)
    requires
        2 * leaves <= u64::MAX,
    ensures
        0 <= mmr_size_of(leaves as nat) <= u64::MAX,
        peak_map_from(
            mmr_size_of(leaves as nat) as u64,
            cover(mmr_size_of(leaves as nat) as u64),
        ) == leaves,
        peaks_from(
            mmr_size_of(leaves as nat) as u64,
            cover(mmr_size_of(leaves as nat) as u64),
            0,
        ).len() == popcount(leaves),
{
    lemma_popcount_bound(leaves);
    let size: u64 = mmr_size_of(leaves as nat) as u64;
    lemma_cover(size);
    lemma_peak_map_from_size(leaves, cover(size));
    lemma_peak_count(size, cover(size), 0);
}

/// The number whose `k` lowest bits are one and whose other bits are zero.
pub open spec fn low_mask(k: u64) -> u64
    recommends
        k <= 63,
{
    ((1u64 << k) - 1) as u64
}

/// Whether the lowest bits of `m` are all one: the `k` lowest, or as many as
/// `p` has if those are fewer.
pub open spec fn ends_in_ones(m: u64, k: u64, p: u64) -> bool {
    let a = if low_mask(k) < p {
        low_mask(k)
    } else {
        p
    };
    m & a == a
}

/// An all-ones number has no bit in common with its successor.
proof fn lemma_all_ones_is_mask(p: u64)
    requires
        all_ones(p),
        p < u64::MAX,
    ensures
        p & ((p + 1) as u64) == 0,
    decreases p,
{
    if p == 0 {
        assert(0u64 & 1u64 == 0) by (bit_vector);
    } else {
        let q: u64 = p / 2;
        lemma_all_ones_is_mask(q);
        let q1: u64 = (q + 1) as u64;
        let p1: u64 = (p + 1) as u64;
        assert(p & p1 == 0) by (bit_vector)
            requires
                p % 2 == 1,
                q == p / 2,
                q1 == q + 1,
                p1 == p + 1,
                q & q1 == 0,
        ;
    }
}

/// The smallest mountain that holds `x` nodes has fewer than twice as many.
proof fn lemma_cover_bound(x: u64)
    requires
        x >= 1,
    ensures
        cover(x) <= 2 * x - 1,
    decreases x,
{
    lemma_cover(x);
    if x >= 2 {
        lemma_cover_bound(x / 2);
    } else {
        lemma_cover(0);
    }
}

/// A number whose `k` lowest bits are one has at least `k` one bits.
proof fn lemma_popcount_of_low_ones(m: u64, k: u64)
    requires
        k <= 63,
        m & low_mask(k) == low_mask(k),
    ensures
        popcount(m) >= k,
    decreases k,
{
    if k > 0 {
        let j: u64 = (k - 1) as u64;
        let t: u64 = low_mask(k);
        let u: u64 = low_mask(j);
        assert(t == ((1u64 << k) - 1) as u64);
        assert(u == ((1u64 << j) - 1) as u64);
        assert(m % 2 == 1 && (m / 2) & u == u) by (bit_vector)
            requires
                1 <= k <= 63,
                j == k - 1,
                t == ((1u64 << k) - 1) as u64,
                u == ((1u64 << j) - 1) as u64,
                m & t == t,
        ;
        lemma_popcount_of_low_ones(m / 2, j);
    }
}

/// The low bits of a number below its lowest one bit are zero, so those of
/// its predecessor are one.
proof fn lemma_low_ones_before(x: u64, k: u64)
    requires
        x >= 1,
        k <= 63,
        k <= u64_trailing_zeros(x),
    ensures
        ((x - 1) as u64) & low_mask(k) == low_mask(k),
    decreases k,
{
    let m: u64 = (x - 1) as u64;
    let t: u64 = low_mask(k);
    if k == 0 {
        assert(m & 0u64 == 0) by (bit_vector);
        assert(((1u64 << 0u64) - 1) as u64 == 0) by (bit_vector);
    } else {
        lemma_trailing_zeros_step(x);
        let j: u64 = (k - 1) as u64;
        let u: u64 = low_mask(j);
        let half: u64 = x / 2;
        let hm: u64 = (half - 1) as u64;
        lemma_low_ones_before(half, j);
        assert(m & t == t) by (bit_vector)
            requires
                1 <= k <= 63,
                j == k - 1,
                x >= 2,
                x % 2 == 0,
                half == x / 2,
                hm == half - 1,
                m == x - 1,
                t == ((1u64 << k) - 1) as u64,
                u == ((1u64 << j) - 1) as u64,
                hm & u == u,
        ;
    }
}

/// In an MMR of `m` leaves whose lowest bits are ones, the node that stands
/// `k` above the next leaf is left with `k` by the descent: that is its
/// height.
proof fn lemma_remainder_is_height(m: u64, k: u64, p: u64)
    requires
        all_ones(p),
        p < u64::MAX,
        m <= p,
        m <= 0x3fff_ffff_ffff_ffff,
        k <= 63,
        ends_in_ones(m, k, p),
    ensures
        0 <= mmr_size_of(m as nat) + k <= u64::MAX,
        remainder_from((mmr_size_of(m as nat) + k) as u64, p) == k,
    decreases p,
{
    lemma_popcount_bound(m);
    if p == 0 {
        assert(popcount(0) == 0);
    } else {
        let q: u64 = p / 2;
        let h: u64 = (q + 1) as u64;
        let t: u64 = low_mask(k);
        let a: u64 = if t < p {
            t
        } else {
            p
        };
        let p1: u64 = (p + 1) as u64;
        lemma_all_ones_is_mask(p);
        assert(all_ones(q));
        if m >= h {
            let rest: u64 = (m - h) as u64;
            let b: u64 = if t < q {
                t
            } else {
                q
            };
            assert(rest <= q && rest & b == b) by (bit_vector)
                requires
                    k <= 63,
                    t == ((1u64 << k) - 1) as u64,
                    p >= 1,
                    p1 == p + 1,
                    p & p1 == 0,
                    q == p / 2,
                    h == q + 1,
                    m <= p,
                    m >= h,
                    rest == m - h,
                    a == (if t < p {
                        t
                    } else {
                        p
                    }),
                    b == (if t < q {
                        t
                    } else {
                        q
                    }),
                    m & a == a,
            ;
            lemma_popcount_top(p, rest);
            lemma_popcount_bound(rest);
            lemma_remainder_is_height(rest, k, q);
            assert(mmr_size_of(m as nat) == p + mmr_size_of(rest as nat));
        } else {
            assert(t <= q && m & t == t) by (bit_vector)
                requires
                    k <= 63,
                    t == ((1u64 << k) - 1) as u64,
                    p >= 1,
                    p1 == p + 1,
                    p & p1 == 0,
                    q == p / 2,
                    h == q + 1,
                    m < h,
                    a == (if t < p {
                        t
                    } else {
                        p
                    }),
                    m & a == a,
            ;
            lemma_popcount_of_low_ones(m, k);
            lemma_remainder_is_height(m, k, q);
        }
    }
}

/// Heights: the leaf with index `index` stands at height 0, and each of the
/// parents that it completes stands one above the node before it. For the
/// node `k` places after the leaf, the descent is left with `k`.
pub proof fn lemma_height_of_position(index: u64, k: u64)
    requires
        index < 0x4000_0000_0000_0000,
        k <= u64_trailing_zeros((index + 1) as u64),
    ensures
        0 <= mmr_size_of(index as nat) + k <= u64::MAX,
        remainder_from(
            (mmr_size_of(index as nat) + k) as u64,
            cover((mmr_size_of(index as nat) + k) as u64),
        ) == k,
{
    let x: u64 = (index + 1) as u64;
    axiom_u64_trailing_zeros(x);
    lemma_popcount_bound(index);
    lemma_low_ones_before(x, k);
    let pos: u64 = (mmr_size_of(index as nat) + k) as u64;
    let p: u64 = cover(pos);
    lemma_cover(pos);
    assert(k <= 63);
    lemma_popcount_of_low_ones(index, k);
    assert(pos <= 2 * index);
    if pos >= 1 {
        lemma_cover_bound(pos);
    } else {
        assert(cover(0) == 0);
    }
    assert(p < u64::MAX);
    lemma_all_ones_is_mask(p);
    let t: u64 = low_mask(k);
    let p1: u64 = (p + 1) as u64;
    if !(t < p) {
        assert(index & p == p) by (bit_vector)
            requires
                k <= 63,
                t == ((1u64 << k) - 1) as u64,
                p1 == p + 1,
                p & p1 == 0,
                p <= t,
                index & t == t,
        ;
    }
    lemma_remainder_is_height(index, k, p);
}

/// Position of the leaf with the given index: the number of nodes that the
/// leaves before it have produced.
pub fn leaf_index_to_pos(index: u64) -> (pos: u64)
    requires
        index < 0x7fff_ffff_ffff_ffff,
    ensures
        pos == mmr_size_of((index + 1) as nat) - u64_trailing_zeros((index + 1) as u64) - 1,
        pos == mmr_size_of(index as nat),
{
    proof {
        lemma_popcount_successor((index + 1) as u64);
        lemma_popcount_bound(index);
        axiom_u64_trailing_zeros((index + 1) as u64);
    }
    leaf_index_to_mmr_size(index) - (index + 1).trailing_zeros() as u64 - 1
}

/// Number of nodes of the MMR whose last leaf has the given index.
pub fn leaf_index_to_mmr_size(index: u64) -> (size: u64)
    requires
        index < 0x7fff_ffff_ffff_ffff,
    ensures
        size == 2 * (index + 1) - popcount((index + 1) as u64),
        size == mmr_size_of((index + 1) as nat),
{
    let leaves_count = index + 1;
    let peak_count = leaves_count.count_ones() as u64;
    proof {
        lemma_popcount_bound(leaves_count);
    }
    2 * leaves_count - peak_count
}

/// Height of the node at `pos` in its mountain; leaves have height 0.
pub fn pos_height_in_tree(pos: u64) -> (height: u8)
    ensures
        height == remainder_from(pos, cover(pos)),
        height <= 64,
{
    if pos == 0 {
        return 0;
    }
    proof {
        lemma_cover(pos);
        vstd::arithmetic::power2::lemma2_to64();
        lemma_remainder_bound(pos, cover(pos), 0);
    }
    let mut pos = pos;
    let ghost start = pos;
    let mut peak_size = u64::MAX >> pos.leading_zeros();
    while peak_size > 0
        invariant
            all_ones(peak_size),
            remainder_from(pos, peak_size) == remainder_from(start, cover(start)),
        decreases peak_size,
    {
        if pos >= peak_size {
            pos -= peak_size;
        }
        assert(peak_size >> 1 == peak_size / 2) by (bit_vector);
        peak_size >>= 1;
    }
    pos as u8
}

/// Distance from a node of the given height to its parent, when the node is
/// a left child.
pub fn parent_offset(height: u8) -> (offset: u64)
    requires
        height < 64,
    ensures
        height < 63 ==> offset == vstd::arithmetic::power2::pow2((height + 1) as nat),
        height == 63 ==> offset == 0,
{
    let offset: u64 = 2u64 << height;
    proof {
        lemma_shift_is_pow2(height);
    }
    offset
}

/// Distance from a node of the given height to its sibling.
pub fn sibling_offset(height: u8) -> (offset: u64)
    requires
        height < 63,
    ensures
        offset == vstd::arithmetic::power2::pow2((height + 1) as nat) - 1,
{
    proof {
        lemma_shift_is_pow2(height);
        vstd::arithmetic::power2::lemma_pow2_pos((height + 1) as nat);
    }
    (2u64 << height) - 1
}

/// `2 << h` is `2^(h+1)` while that fits in 64 bits.
proof fn lemma_shift_is_pow2(h: u8)
    requires
        h < 64,
    ensures
        h < 63 ==> (2u64 << h) == vstd::arithmetic::power2::pow2((h + 1) as nat),
        h == 63 ==> (2u64 << h) == 0,
    decreases h,
{
    vstd::arithmetic::power2::lemma2_to64();
    if h == 0 {
        assert(2u64 << 0u8 == 2) by (bit_vector);
    } else if h == 63 {
        assert(2u64 << 63u8 == 0) by (bit_vector);
    } else {
        let g: u8 = (h - 1) as u8;
        lemma_shift_is_pow2(g);
        vstd::arithmetic::power2::lemma_pow2_unfold((h + 1) as nat);
        vstd::arithmetic::power2::lemma_pow2_strictly_increases((h + 1) as nat, 64);
        assert(h < 63 && h >= 1 ==> (2u64 << h) == 2 * (2u64 << ((h - 1) as u8))) by (bit_vector);
        vstd::arithmetic::power2::lemma_pow2_strictly_increases(h as nat, 63);
    }
}

/// Bitmap of the mountains of an MMR of `mmr_size` nodes: bit `k` is set
/// where it has a mountain of `2^k` leaves.
pub fn get_peak_map(mmr_size: u64) -> (peak_map: u64)
    ensures
        peak_map == peak_map_from(mmr_size, cover(mmr_size)),
{
    if mmr_size == 0 {
        return 0;
    }
    proof {
        lemma_cover(mmr_size);
        lemma_peak_map_bound(mmr_size, cover(mmr_size));
    }
    let mut pos = mmr_size;
    let mut peak_size = u64::MAX >> pos.leading_zeros();
    let mut peak_map: u64 = 0;
    let ghost total = peak_map_from(mmr_size, cover(mmr_size));
    while peak_size > 0
        invariant
            all_ones(peak_size),
            total <= u64::MAX,
            peak_map * (peak_size + 1) + peak_map_from(pos, peak_size) == total,
        decreases peak_size,
    {
        let ghost half: int = (peak_size + 1) / 2;
        proof {
            assert(peak_size + 1 == 2 * half);
            assert(peak_map * (peak_size + 1) == (2 * peak_map) * half) by (nonlinear_arith)
                requires
                    peak_size + 1 == 2 * half,
            ;
            assert(2 * peak_map <= (2 * peak_map) * half) by (nonlinear_arith)
                requires
                    half >= 1,
            ;
            assert(peak_map < 0x8000_0000_0000_0000 ==> peak_map << 1 == 2 * peak_map)
                by (bit_vector);
            assert(peak_map < 0x8000_0000_0000_0000 ==> (peak_map << 1) | 1 == 2 * peak_map + 1)
                by (bit_vector);
            assert((2 * peak_map + 1) * half == (2 * peak_map) * half + half)
                by (nonlinear_arith);
            assert(peak_size >> 1 == peak_size / 2) by (bit_vector);
            assert(peak_size / 2 + 1 == half);
        }
        peak_map <<= 1;
        if pos >= peak_size {
            pos -= peak_size;
            peak_map |= 1;
        }
        peak_size >>= 1;
    }
    assert(peak_map * 1 == peak_map) by (nonlinear_arith);
    peak_map
}

/// Positions of the peaks of an MMR of `mmr_size` nodes, from the largest
/// mountain to the smallest.
pub fn get_peaks(mmr_size: u64) -> (peaks: Vec<u64>)
    ensures
        peaks@ == peaks_from(mmr_size, cover(mmr_size), 0),
        peaks@.len() == popcount(peak_map_from(mmr_size, cover(mmr_size)) as u64),
        peaks@.len() <= 64,
{
    proof {
        lemma_cover(mmr_size);
        lemma_peak_count(mmr_size, cover(mmr_size), 0);
        lemma_popcount_bound(peak_map_from(mmr_size, cover(mmr_size)) as u64);
    }
    if mmr_size == 0 {
        return vec![];
    }
    let leading_zeros = mmr_size.leading_zeros();
    let mut pos = mmr_size;
    let mut peak_size = u64::MAX >> leading_zeros;
    let mut peaks: Vec<u64> = Vec::with_capacity(64 - leading_zeros as usize);
    let mut peaks_sum: u64 = 0;
    while peak_size > 0
        invariant
            all_ones(peak_size),
            peaks_sum + pos == mmr_size,
            peaks@ + peaks_from(pos, peak_size, peaks_sum) == peaks_from(
                mmr_size,
                cover(mmr_size),
                0,
            ),
        decreases peak_size,
    {
        let ghost before = peaks@;
        if pos >= peak_size {
            pos -= peak_size;
            peaks.push(peaks_sum + peak_size - 1);
            peaks_sum += peak_size;
        }
        assert(peak_size >> 1 == peak_size / 2) by (bit_vector);
        proof {
            assert(peaks@ + peaks_from(pos, peak_size / 2, peaks_sum) =~= peaks_from(
                mmr_size,
                cover(mmr_size),
                0,
            ));
        }
        peak_size >>= 1;
    }
    proof {
        assert(peaks@ + Seq::<u64>::empty() =~= peaks@);
    }
    peaks
}

} // verus!
