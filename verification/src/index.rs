//! Index arithmetic: integer logarithms and the map from heap-style node
//! numbers to flat storage slots.

use vstd::prelude::*;
use vstd::arithmetic::power2::{pow2, lemma_pow2_pos, lemma_pow2_unfold, lemma_pow2_strictly_increases};
use vstd::bits::{lemma_usize_shl_is_mul, lemma_usize_shr_is_div};

verus! {

/// Floor of the base-two logarithm, with `floor_log2(0) == 0`.
pub open spec fn floor_log2(n: nat) -> nat
    decreases n,
{
    if n <= 1 {
        0
    } else {
        1 + floor_log2(n / 2)
    }
}

/// `floor_log2(n)` is the exponent of the largest power of two not above `n`.
pub proof fn lemma_floor_log2_bounds(n: nat)
    requires
        n >= 1,
    ensures
        pow2(floor_log2(n)) <= n < pow2(floor_log2(n) + 1),
    decreases n,
{
    lemma_pow2_unfold(floor_log2(n) + 1);
    if n <= 1 {
        vstd::arithmetic::power2::lemma2_to64();
    } else {
        lemma_floor_log2_bounds(n / 2);
        lemma_pow2_unfold(floor_log2(n));
    }
}

/// Any exponent that brackets `n` between consecutive powers of two is its logarithm.
pub proof fn lemma_floor_log2_unique(n: nat, e: nat)
    requires
        pow2(e) <= n < pow2(e + 1),
    ensures
        floor_log2(n) == e,
    decreases e,
{
    lemma_pow2_pos(e);
    lemma_pow2_unfold(e + 1);
    if e == 0 {
        vstd::arithmetic::power2::lemma2_to64();
    } else {
        lemma_pow2_unfold(e);
        lemma_floor_log2_unique(n / 2, (e - 1) as nat);
    }
}

/// The logarithm never exceeds the exponent of a strict power-of-two bound.
pub proof fn lemma_floor_log2_below(n: nat, e: nat)
    requires
        n < pow2(e),
    ensures
        e > 0 ==> floor_log2(n) < e,
        e == 0 ==> floor_log2(n) == 0,
{
    if n >= 1 {
        lemma_floor_log2_bounds(n);
        if floor_log2(n) >= e {
            if floor_log2(n) > e {
                lemma_pow2_strictly_increases(e, floor_log2(n));
            }
        }
    }
    if e == 0 {
        vstd::arithmetic::power2::lemma2_to64();
    }
}

/// Powers of two with an exponent below the word size fit in a word.
pub proof fn lemma_pow2_fits(e: nat)
    requires
        e < usize::BITS,
    ensures
        0 < pow2(e) <= usize::MAX,
{
    vstd::bits::lemma_usize_pow2_no_overflow(e);
}

/// Only exponents below the word size give a power of two that fits in a word.
pub proof fn lemma_pow2_exponent(e: nat)
    requires
        pow2(e) <= usize::MAX,
    ensures
        e < usize::BITS,
{
    if e >= usize::BITS {
        vstd::arithmetic::power2::lemma2_to64();
        vstd::arithmetic::power2::lemma2_to64_rest();
        if e > 64 {
            lemma_pow2_strictly_increases(64, e);
        }
        if e > 32 {
            lemma_pow2_strictly_increases(32, e);
        }
    }
}

/// Computes `1 << e` as a power of two.
pub fn pow2_usize(e: usize) -> (r: usize)
    requires
        pow2(e as nat) <= usize::MAX,
    ensures
        r == pow2(e as nat),
{
    proof {
        lemma_pow2_pos(e as nat);
        lemma_pow2_exponent(e as nat);
        lemma_usize_shl_is_mul(1usize, e);
    }
    1usize << e
}

/// Number of halvings that take `n` down to one (zero for `n <= 1`).
pub fn log2_of_usize(n: usize) -> (r: usize)
    ensures
        r == floor_log2(n as nat),
        n >= 1 ==> pow2(r as nat) <= n < pow2(r as nat + 1),
        r < usize::BITS,
{
    let mut m: usize = n;
    let mut log2: usize = 0;
    proof {
        vstd::arithmetic::power2::lemma2_to64();
        vstd::arithmetic::power2::lemma2_to64_rest();
        lemma_floor_log2_below(n as nat, usize::BITS as nat);
    }
    while m > 1
        invariant
            floor_log2(n as nat) == log2 + floor_log2(m as nat),
            log2 + floor_log2(m as nat) < usize::BITS,
        decreases m,
    {
        proof {
            lemma_usize_shr_is_div(m, 1usize);
            vstd::arithmetic::power2::lemma2_to64();
        }
        log2 += 1;
        m >>= 1;
    }
    proof {
        if n >= 1 {
            lemma_floor_log2_bounds(n as nat);
        }
    }
    log2
}

/// The flat slot of the node at `level` above the leaves (leaves are level
/// zero) and `pos` from the left within its level: nodes are laid out in
/// in-order, so that a subtree over the first `2^k` leaves takes the first
/// `2^(k+1) - 1` slots.
pub open spec fn flat(level: nat, pos: nat) -> nat {
    (pow2(level) - 1 + pos * pow2(level + 1)) as nat
}

/// How far above the leaves the node with heap number `idx` lies in a tree of
/// height `height`.
pub open spec fn heap_level(height: nat, idx: nat) -> nat {
    (height - floor_log2(idx)) as nat
}

/// The place of the node with heap number `idx` within its level.
pub open spec fn heap_pos(idx: nat) -> nat {
    (idx - pow2(floor_log2(idx))) as nat
}

/// The flat slot of the node with heap number `idx` (the root is 1, the
/// leaves start at `2^height`).
pub open spec fn heap_flat(height: nat, idx: nat) -> nat {
    flat(heap_level(height, idx), heap_pos(idx))
}

/// One level up, slots double and gain one.
pub proof fn lemma_flat_step(level: nat, pos: nat)
    ensures
        flat(level + 1, pos) == 2 * flat(level, pos) + 1,
        flat(0, pos) == 2 * pos,
{
    lemma_pow2_pos(level);
    lemma_pow2_unfold(level + 1);
    lemma_pow2_unfold(level + 2);
    vstd::arithmetic::power2::lemma2_to64();
    let a = pow2(level) as int;
    assert(pos * (2 * (2 * a)) == 2 * (pos * (2 * a))) by (nonlinear_arith);
    assert(pos * pow2(1) == 2 * pos) by (nonlinear_arith)
        requires
            pow2(1) == 2,
    ;
}

/// Distinct nodes have distinct slots.
pub proof fn lemma_flat_injective(la: nat, pa: nat, lb: nat, pb: nat)
    requires
        flat(la, pa) == flat(lb, pb),
    ensures
        la == lb,
        pa == pb,
    decreases la + lb,
{
    lemma_flat_step(la, pa);
    lemma_flat_step(lb, pb);
    if la == 0 && lb == 0 {
    } else if la > 0 && lb > 0 {
        lemma_flat_step((la - 1) as nat, pa);
        lemma_flat_step((lb - 1) as nat, pb);
        lemma_flat_injective((la - 1) as nat, pa, (lb - 1) as nat, pb);
    } else if la > 0 {
        lemma_flat_step((la - 1) as nat, pa);
    } else {
        lemma_flat_step((lb - 1) as nat, pb);
    }
}

/// The slots of a level-`level` subtree at place `pos` end below `2^(level+1) * (pos + 1)`.
pub proof fn lemma_flat_bound(level: nat, pos: nat, height: nat)
    requires
        level <= height,
        pos < pow2((height - level) as nat),
    ensures
        flat(level, pos) + 1 < pow2(height + 1),
{
    lemma_pow2_pos(level);
    lemma_pow2_unfold(level + 1);
    vstd::arithmetic::power2::lemma_pow2_adds(level + 1, (height - level) as nat);
    let a = pow2(level) as int;
    let b = pow2((height - level) as nat) as int;
    assert(a - 1 + pos * (2 * a) + 1 < (2 * a) * b) by (nonlinear_arith)
        requires
            0 <= pos < b,
            a >= 1,
    ;
}

/// Maps the heap number of a node to its flat slot.
pub fn lv_order_idx_to_idx(level: usize, idx: usize) -> (r: usize)
    requires
        idx >= 1,
        idx < pow2(level as nat + 1),
        pow2(level as nat + 1) <= usize::MAX,
    ensures
        r == heap_flat(level as nat, idx as nat),
        r + 1 < pow2(level as nat + 1),
{
    let depth: usize = log2_of_usize(idx);
    proof {
        lemma_pow2_exponent(level as nat + 1);
        lemma_floor_log2_below(idx as nat, level as nat + 1);
        lemma_pow2_pos(depth as nat);
        if depth < level {
            lemma_pow2_strictly_increases(depth as nat, level as nat + 1);
        } else {
            lemma_pow2_strictly_increases(depth as nat, level as nat + 1);
        }
    }
    let position: usize = idx - pow2_usize(depth);
    let n: usize = level - depth;
    proof {
        lemma_pow2_pos(n as nat);
        if n < level {
            lemma_pow2_strictly_increases(n as nat, level as nat + 1);
            lemma_pow2_strictly_increases(n as nat + 1, level as nat + 1);
        } else {
            lemma_pow2_strictly_increases(n as nat, level as nat + 1);
        }
        lemma_pow2_unfold(depth as nat + 1);
        vstd::arithmetic::power2::lemma_pow2_adds(depth as nat, n as nat);
        assert(position < pow2(depth as nat));
        assert(pow2((level - n) as nat) == pow2(depth as nat));
        lemma_flat_bound(n as nat, position as nat, level as nat);
        assert(position * pow2(n as nat + 1) >= 0) by (nonlinear_arith)
            requires
                position >= 0,
                pow2(n as nat + 1) >= 0,
        ;
    }
    let start: usize = pow2_usize(n) - 1;
    let offset: usize = pow2_usize(n + 1);
    let new_idx: usize = start + position * offset;
    new_idx
}

} // verus!
