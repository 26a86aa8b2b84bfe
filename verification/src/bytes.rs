//! Little-endian byte strings as natural numbers.

use vstd::prelude::*;

verus! {

/// `256^n`.
pub open spec fn pow256(n: nat) -> nat
    decreases n,
{
    if n == 0 {
        1
    } else {
        256 * pow256((n - 1) as nat)
    }
}

/// The number that `s` spells, least significant byte first.
pub open spec fn le_value(s: Seq<u8>) -> nat
    decreases s.len(),
{
    if s.len() == 0 {
        0
    } else {
        s[0] as nat + 256 * le_value(s.drop_first())
    }
}

/// The `n` low bytes of `x`, least significant first.
pub open spec fn le_bytes(x: nat, n: nat) -> Seq<u8>
    decreases n,
{
    if n == 0 {
        Seq::empty()
    } else {
        seq![(x % 256) as u8] + le_bytes(x / 256, (n - 1) as nat)
    }
}

/// `n` copies of the byte `b`.
pub open spec fn repeat(b: u8, n: nat) -> Seq<u8> {
    Seq::new(n, |i: int| b)
}

pub proof fn lemma_pow256_pos(n: nat)
    ensures
        pow256(n) > 0,
    decreases n,
{
    if n > 0 {
        lemma_pow256_pos((n - 1) as nat);
    }
}

pub proof fn lemma_pow256_8()
    ensures
        pow256(8) == 0x1_0000_0000_0000_0000nat,
{
    reveal_with_fuel(pow256, 9);
}

pub proof fn lemma_pow256_32()
    ensures
        pow256(32)
            == 0x1_0000_0000_0000_0000_0000_0000_0000_0000_0000_0000_0000_0000_0000_0000_0000_0000nat,
{
    lemma_pow256_8();
    lemma_pow256_add(8, 8);
    lemma_pow256_add(16, 16);
    assert(pow256(16) == 0x1_0000_0000_0000_0000_0000_0000_0000_0000nat) by (nonlinear_arith)
        requires
            pow256(16) == pow256(8) * pow256(8),
            pow256(8) == 0x1_0000_0000_0000_0000nat,
    ;
    assert(pow256(32)
        == 0x1_0000_0000_0000_0000_0000_0000_0000_0000_0000_0000_0000_0000_0000_0000_0000_0000nat)
        by (nonlinear_arith)
        requires
            pow256(32) == pow256(16) * pow256(16),
            pow256(16) == 0x1_0000_0000_0000_0000_0000_0000_0000_0000nat,
    ;
}

pub proof fn lemma_pow256_add(a: nat, b: nat)
    ensures
        pow256(a + b) == pow256(a) * pow256(b),
    decreases a,
{
    if a == 0 {
        assert(pow256(a) == 1);
        assert(a + b == b);
    } else {
        let x = pow256((a - 1) as nat);
        let y = pow256(b);
        lemma_pow256_add((a - 1) as nat, b);
        assert(((a + b) - 1) as nat == (a - 1) as nat + b);
        assert(pow256(a + b) == 256 * pow256(((a + b) - 1) as nat));
        assert(pow256(a) == 256 * x);
        assert(256 * (x * y) == (256 * x) * y) by (nonlinear_arith);
    }
}

pub proof fn lemma_le_bytes_len(x: nat, n: nat)
    ensures
        le_bytes(x, n).len() == n,
    decreases n,
{
    if n > 0 {
        lemma_le_bytes_len(x / 256, (n - 1) as nat);
    }
}

/// A byte string spells a number below `256^len`.
pub proof fn lemma_le_value_bound(s: Seq<u8>)
    ensures
        le_value(s) < pow256(s.len()),
    decreases s.len(),
{
    if s.len() > 0 {
        lemma_le_value_bound(s.drop_first());
    }
}

/// Encoding then reading back gives the number, when it fits.
pub proof fn lemma_le_value_of_le_bytes(x: nat, n: nat)
    requires
        x < pow256(n),
    ensures
        le_value(le_bytes(x, n)) == x,
    decreases n,
{
    if n > 0 {
        let rest = le_bytes(x / 256, (n - 1) as nat);
        let s = le_bytes(x, n);
        lemma_le_bytes_len(x / 256, (n - 1) as nat);
        assert(s.drop_first() =~= rest);
        lemma_le_value_of_le_bytes(x / 256, (n - 1) as nat);
    }
}

/// Reading then encoding at the same width gives the bytes back.
pub proof fn lemma_le_bytes_of_le_value(s: Seq<u8>)
    ensures
        le_bytes(le_value(s), s.len()) =~= s,
    decreases s.len(),
{
    if s.len() > 0 {
        lemma_le_bytes_of_le_value(s.drop_first());
        let v = le_value(s);
        assert(v % 256 == s[0] as nat);
        assert(v / 256 == le_value(s.drop_first()));
        lemma_le_bytes_len(v / 256, (s.len() - 1) as nat);
    }
}

/// The value of a concatenation.
pub proof fn lemma_le_value_concat(a: Seq<u8>, b: Seq<u8>)
    ensures
        le_value(a + b) == le_value(a) + pow256(a.len()) * le_value(b),
    decreases a.len(),
{
    if a.len() == 0 {
        assert(a + b =~= b);
        assert(pow256(0) == 1);
    } else {
        let rest = a.drop_first();
        let x = pow256(rest.len());
        let y = le_value(b);
        assert((a + b).drop_first() =~= rest + b);
        assert((a + b)[0] == a[0]);
        lemma_le_value_concat(rest, b);
        assert(le_value(a + b) == a[0] as nat + 256 * le_value(rest + b));
        assert(le_value(a) == a[0] as nat + 256 * le_value(rest));
        assert(pow256(a.len()) == 256 * x);
        assert(256 * (le_value(rest) + x * y) == 256 * le_value(rest) + (256 * x) * y)
            by (nonlinear_arith);
    }
}

/// A run of zero bytes spells zero.
pub proof fn lemma_le_value_zeros(n: nat)
    ensures
        le_value(repeat(0u8, n)) == 0,
    decreases n,
{
    if n > 0 {
        assert(repeat(0u8, n).drop_first() =~= repeat(0u8, (n - 1) as nat));
        lemma_le_value_zeros((n - 1) as nat);
    }
}

/// Only the run of zero bytes spells zero.
pub proof fn lemma_le_value_zero_is_zeros(s: Seq<u8>)
    requires
        le_value(s) == 0,
    ensures
        s =~= repeat(0u8, s.len()),
    decreases s.len(),
{
    if s.len() > 0 {
        lemma_le_value_zero_is_zeros(s.drop_first());
        assert forall|i: int| 0 <= i < s.len() implies s[i] == 0u8 by {
            if i > 0 {
                assert(s[i] == s.drop_first()[i - 1]);
            }
        }
    }
}

/// A run of `0xFF` bytes spells `256^n - 1`.
pub proof fn lemma_le_value_ones(n: nat)
    ensures
        le_value(repeat(0xFFu8, n)) + 1 == pow256(n),
    decreases n,
{
    if n > 0 {
        assert(repeat(0xFFu8, n).drop_first() =~= repeat(0xFFu8, (n - 1) as nat));
        lemma_le_value_ones((n - 1) as nat);
    }
}

/// `n` copies of the byte `b`.
pub fn filled(b: u8, n: usize) -> (out: Vec<u8>)
    ensures
        out@ == repeat(b, n as nat),
{
    let mut out: Vec<u8> = Vec::new();
    let mut i: usize = 0;
    while i < n
        invariant
            i <= n,
            out@ =~= repeat(b, i as nat),
        decreases n - i,
    {
        out.push(b);
        i += 1;
    }
    out
}

/// Whether every byte of `buf` is `b`.
pub fn all_bytes(buf: &Vec<u8>, b: u8) -> (r: bool)
    ensures
        r == (buf@ == repeat(b, buf@.len())),
{
    let mut i: usize = 0;
    while i < buf.len()
        invariant
            i <= buf@.len(),
            forall|j: int| 0 <= j < i ==> buf@[j] == b,
        decreases buf@.len() - i,
    {
        if buf[i] != b {
            proof {
                assert(repeat(b, buf@.len())[i as int] == b);
            }
            return false;
        }
        i += 1;
    }
    proof {
        assert(buf@ =~= repeat(b, buf@.len()));
    }
    true
}

/// The bytes `buf[from .. to]`.
pub fn slice(buf: &Vec<u8>, from: usize, to: usize) -> (out: Vec<u8>)
    requires
        from <= to <= buf@.len(),
    ensures
        out@ == buf@.subrange(from as int, to as int),
{
    let mut out: Vec<u8> = Vec::new();
    let mut i: usize = from;
    while i < to
        invariant
            from <= i <= to <= buf@.len(),
            out@ =~= buf@.subrange(from as int, i as int),
        decreases to - i,
    {
        out.push(buf[i]);
        i += 1;
    }
    out
}

/// Appends `src` to `dst`.
pub fn append(dst: &mut Vec<u8>, src: &Vec<u8>)
    ensures
        final(dst)@ == old(dst)@ + src@,
{
    let mut i: usize = 0;
    while i < src.len()
        invariant
            i <= src@.len(),
            dst@ =~= old(dst)@ + src@.subrange(0, i as int),
        decreases src@.len() - i,
    {
        dst.push(src[i]);
        i += 1;
    }
    proof {
        assert(src@.subrange(0, src@.len() as int) =~= src@);
    }
}

/// Appends the eight little-endian bytes of `x` to `out`.
pub fn push_u64_le(out: &mut Vec<u8>, x: u64)
    ensures
        final(out)@ == old(out)@ + le_bytes(x as nat, 8),
{
    let mut rem: u64 = x;
    let mut i: usize = 0;
    while i < 8
        invariant
            i <= 8,
            out@.len() == old(out)@.len() + i,
            out@ + le_bytes(rem as nat, (8 - i) as nat) == old(out)@ + le_bytes(x as nat, 8),
        decreases 8 - i,
    {
        let ghost before = out@;
        out.push((rem % 256) as u8);
        proof {
            let tail = le_bytes((rem / 256) as nat, (8 - i - 1) as nat);
            assert(le_bytes(rem as nat, (8 - i) as nat) == seq![(rem % 256) as u8] + tail);
            assert(out@ + tail =~= before + (seq![(rem % 256) as u8] + tail));
        }
        rem = rem / 256;
        i += 1;
    }
    proof {
        assert(out@ + le_bytes(rem as nat, 0) =~= out@);
    }
}

/// Reads the little-endian number held in `s[at .. at + 8]`.
pub fn read_u64_le(s: &Vec<u8>, at: usize) -> (x: u64)
    requires
        at + 8 <= s@.len(),
    ensures
        x == le_value(s@.subrange(at as int, at + 8)),
{
    let mut acc: u64 = 0;
    let mut i: usize = 8;
    let n: usize = s.len();
    proof {
        assert(s@.subrange(at + 8, at + 8) =~= Seq::<u8>::empty());
        reveal_with_fuel(pow256, 9);
    }
    while i > 0
        invariant
            i <= 8,
            at + 8 <= n,
            n == s@.len(),
            acc == le_value(s@.subrange(at + i, at + 8)),
            acc < pow256((8 - i) as nat),
            pow256(8) == 0x1_0000_0000_0000_0000nat,
        decreases i,
    {
        i -= 1;
        proof {
            let cur = s@.subrange(at + i, at + 8);
            assert(cur.drop_first() =~= s@.subrange(at + i + 1, at + 8));
            assert(cur[0] == s@[at + i]);
            lemma_le_value_bound(cur);
            assert(cur.len() == 8 - i);
            assert(pow256((8 - i) as nat) == 256 * pow256((8 - i - 1) as nat));
            lemma_pow256_mono((8 - i) as nat, 8);
        }
        acc = acc * 256 + s[at + i] as u64;
    }
    acc
}

pub proof fn lemma_pow256_mono(a: nat, b: nat)
    requires
        a <= b,
    ensures
        pow256(a) <= pow256(b),
    decreases b,
{
    if a < b {
        lemma_pow256_mono(a, (b - 1) as nat);
    }
}

} // verus!
