//! The byte arena: one growable region of bytes with a three-counter header.
//! Whatever is allocated lies at the end of the region when it is allocated,
//! and no allocation ever moves.

use vstd::prelude::*;
use crate::bytes::{le_bytes, le_value, push_u64_le, read_u64_le, repeat};
use crate::error::Error;
use crate::scalar::{modulus, Scalar};

verus! {

/// Bytes of the header: three little-endian 64-bit counters.
pub const HEADER_SIZE: usize = 24;

/// Offset of the 32-byte global root scalar.
pub const TS_ROOT_INDEX: usize = 24;

/// Offset of the first block of the account-tree node array.
pub const ACCOUNT_NODES_HEAD: usize = 56;

/// Offset of the first block of the account array.
pub const ACCOUNTS_HEAD: usize = 96;

/// Offset of the first block of the bond-info array.
pub const TSB_INFOS_HEAD: usize = 280;

/// Offset of the first block of the transaction array.
pub const TXS_HEAD: usize = 352;

/// Length of a freshly formatted arena.
pub const FORMATTED_SIZE: usize = 872;

/// `len` bytes of `s` from `at` on, with zero where `s` has ended.
pub open spec fn window(s: Seq<u8>, at: int, len: nat) -> Seq<u8> {
    Seq::new(
        len,
        |i: int|
            if at + i < s.len() {
                s[at + i]
            } else {
                0u8
            },
    )
}

/// `buf` cut or zero-padded to exactly `len` bytes.
pub open spec fn fitted(buf: Seq<u8>, len: nat) -> Seq<u8> {
    Seq::new(
        len,
        |i: int|
            if i < buf.len() {
                buf[i]
            } else {
                0u8
            },
    )
}

/// `s` with `data` laid over it from `at` on; the region grows, zero-filled, as far as needed.
pub open spec fn spliced(s: Seq<u8>, at: int, data: Seq<u8>) -> Seq<u8> {
    Seq::new(
        if data.len() == 0 || at + data.len() <= s.len() {
            s.len()
        } else {
            (at + data.len()) as nat
        },
        |p: int|
            if at <= p < at + data.len() {
                data[p - at]
            } else if p < s.len() {
                s[p]
            } else {
                0u8
            },
    )
}

/// The region without the bytes in `own`: what it holds elsewhere.
pub open spec fn masked(s: Seq<u8>, own: Set<int>) -> Map<int, Option<u8>> {
    Map::new(
        |p: int| true,
        |p: int|
            if 0 <= p < s.len() && !own.contains(p) {
                Some(s[p])
            } else {
                None
            },
    )
}

/// The two arenas have the same counters.
pub open spec fn same_counters(a: &TsFile, b: &TsFile) -> bool {
    &&& b.latest_l1_block_id == a.latest_l1_block_id
    &&& b.block_count == a.block_count
    &&& b.tx_count == a.tx_count
}

/// What is the same without some bytes is the same without more.
pub proof fn lemma_masked_union(
    before: Seq<u8>,
    own_before: Set<int>,
    after: Seq<u8>,
    own_after: Set<int>,
    more: Set<int>,
)
    requires
        masked(after, own_after) == masked(before, own_before),
    ensures
        masked(after, own_after.union(more)) == masked(before, own_before.union(more)),
{
    assert forall|p: int|
        masked(after, own_after.union(more))[p] == masked(before, own_before.union(more))[p] by {
        assert(masked(after, own_after)[p] == masked(before, own_before)[p]);
    }
    assert(masked(after, own_after.union(more)) =~= masked(before, own_before.union(more)));
}

/// The arena. Its view is the byte region; the three counters are the
/// header's values as last loaded or set, and reach the region on `sync`.
pub struct TsFile {
    pub bytes: Vec<u8>,
    pub latest_l1_block_id: u64,
    pub block_count: u64,
    pub tx_count: u64,
}

impl View for TsFile {
    type V = Seq<u8>;

    open spec fn view(&self) -> Seq<u8> {
        self.bytes@
    }
}

impl TsFile {
    /// The header bytes that `sync` writes for the current counters.
    pub open spec fn spec_header(&self) -> Seq<u8> {
        le_bytes(self.latest_l1_block_id as nat, 8) + le_bytes(self.block_count as nat, 8)
            + le_bytes(self.tx_count as nat, 8)
    }

    /// Whether the region holds nothing yet.
    pub fn is_empty(&self) -> (b: bool)
        ensures
            b == (self@.len() == 0),
    {
        self.bytes.len() == 0
    }

    /// Length of the region.
    pub fn len(&self) -> (n: usize)
        ensures
            n == self@.len(),
    {
        self.bytes.len()
    }

    /// The region, for the caller to persist.
    pub fn as_bytes(&self) -> (b: &Vec<u8>)
        ensures
            b@ == self@,
    {
        &self.bytes
    }

    /// `len` bytes from `index` on; what lies past the end reads as zero.
    pub fn read(&self, index: usize, len: usize) -> (out: Vec<u8>)
        ensures
            out@ == window(self@, index as int, len as nat),
    {
        let n: usize = self.bytes.len();
        let mut out: Vec<u8> = Vec::new();
        let mut i: usize = 0;
        while i < len
            invariant
                i <= len,
                n == self.bytes@.len(),
                out@ == window(self@, index as int, i as nat),
            decreases len - i,
        {
            let b: u8 = if index < n && i < n - index {
                self.bytes[index + i]
            } else {
                0u8
            };
            out.push(b);
            i += 1;
            proof {
                assert(out@ =~= window(self@, index as int, i as nat));
            }
        }
        out
    }

    /// Lays `buf`, cut or zero-padded to `len` bytes, over the region from `index` on.
    pub fn write(&mut self, index: usize, buf: &Vec<u8>, len: usize)
        ensures
            final(self)@ == spliced(old(self)@, index as int, fitted(buf@, len as nat)),
            final(self).latest_l1_block_id == old(self).latest_l1_block_id,
            final(self).block_count == old(self).block_count,
            final(self).tx_count == old(self).tx_count,
    {
        let ghost data = fitted(buf@, len as nat);
        let ghost before = self.bytes@;
        if len == 0 {
            proof {
                assert(self.bytes@ =~= spliced(before, index as int, data));
            }
            return ;
        }
        while self.bytes.len() < index
            invariant
                self.bytes@.len() >= before.len(),
                self.bytes@.len() <= index || self.bytes@.len() == before.len(),
                self.bytes@ =~= before + repeat(0u8, (self.bytes@.len() - before.len()) as nat),
                self.latest_l1_block_id == old(self).latest_l1_block_id,
                self.block_count == old(self).block_count,
                self.tx_count == old(self).tx_count,
            decreases index - self.bytes.len(),
        {
            self.bytes.push(0u8);
        }
        let ghost padded = self.bytes@;
        let mut i: usize = 0;
        while i < len
            invariant
                i <= len,
                data == fitted(buf@, len as nat),
                padded.len() >= index,
                self.bytes@.len() >= padded.len(),
                self.bytes@.len() >= index + i,
                self.bytes@.len() > padded.len() ==> self.bytes@.len() == index + i,
                self.bytes@ =~= spliced(padded, index as int, data.subrange(0, i as int)),
                self.latest_l1_block_id == old(self).latest_l1_block_id,
                self.block_count == old(self).block_count,
                self.tx_count == old(self).tx_count,
            decreases len - i,
        {
            let v: u8 = if i < buf.len() {
                buf[i]
            } else {
                0u8
            };
            let n: usize = self.bytes.len();
            if i < n - index {
                self.bytes.set(index + i, v);
            } else {
                self.bytes.push(v);
            }
            i += 1;
        }
        proof {
            assert(data.subrange(0, len as int) =~= data);
            assert(self.bytes@ =~= spliced(before, index as int, data));
        }
    }

    /// Extends the region by `size` zero bytes and returns where they start.
    pub fn alloc_val(&mut self, size: usize) -> (index: usize)
        ensures
            index == old(self)@.len(),
            final(self)@ == old(self)@ + repeat(0u8, size as nat),
            final(self).latest_l1_block_id == old(self).latest_l1_block_id,
            final(self).block_count == old(self).block_count,
            final(self).tx_count == old(self).tx_count,
    {
        let index: usize = self.bytes.len();
        let mut i: usize = 0;
        while i < size
            invariant
                i <= size,
                index == old(self)@.len(),
                self.bytes@ =~= old(self)@ + repeat(0u8, i as nat),
                self.latest_l1_block_id == old(self).latest_l1_block_id,
                self.block_count == old(self).block_count,
                self.tx_count == old(self).tx_count,
            decreases size - i,
        {
            self.bytes.push(0u8);
            i += 1;
        }
        index
    }

    /// Extends the region by one block: an eight-byte link and `len` records
    /// of `size` bytes, all zero. Returns where the block starts.
    pub fn alloc_arr(&mut self, size: usize, len: usize) -> (index: usize)
        ensures
            index == old(self)@.len(),
            final(self)@ == old(self)@ + repeat(0u8, (8 + size * len) as nat),
            final(self).latest_l1_block_id == old(self).latest_l1_block_id,
            final(self).block_count == old(self).block_count,
            final(self).tx_count == old(self).tx_count,
    {
        let index: usize = self.alloc_val(8);
        let mut k: usize = 0;
        while k < len
            invariant
                k <= len,
                index == old(self)@.len(),
                self@ =~= old(self)@ + repeat(0u8, (8 + size * k) as nat),
                self.latest_l1_block_id == old(self).latest_l1_block_id,
                self.block_count == old(self).block_count,
                self.tx_count == old(self).tx_count,
            decreases len - k,
        {
            proof {
                assert(size * (k + 1) == size * k + size) by (nonlinear_arith);
                assert(size * k >= 0) by (nonlinear_arith)
                    requires
                        size >= 0,
                        k >= 0,
                ;
            }
            self.alloc_val(size);
            k += 1;
        }
        index
    }

    /// Writes the three counters into the header.
    pub fn sync(&mut self) -> (r: Result<(), Error>)
        ensures
            r is Ok,
            final(self)@ == spliced(old(self)@, 0, old(self).spec_header()),
            final(self).latest_l1_block_id == old(self).latest_l1_block_id,
            final(self).block_count == old(self).block_count,
            final(self).tx_count == old(self).tx_count,
    {
        let mut header: Vec<u8> = Vec::new();
        push_u64_le(&mut header, self.latest_l1_block_id);
        push_u64_le(&mut header, self.block_count);
        push_u64_le(&mut header, self.tx_count);
        proof {
            crate::bytes::lemma_le_bytes_len(self.latest_l1_block_id as nat, 8);
            crate::bytes::lemma_le_bytes_len(self.block_count as nat, 8);
            crate::bytes::lemma_le_bytes_len(self.tx_count as nat, 8);
            assert(header@ =~= self.spec_header());
            assert(fitted(header@, 24) =~= header@);
        }
        self.write(0, &header, HEADER_SIZE);
        Ok(())
    }

    /// The arena over the region `bytes`. An empty region is formatted, all
    /// zero: the header, the global root scalar, and the first block of each
    /// of the four collections. The counters of the new arena are the anchor,
    /// a block count of one and no transactions; they reach the header with
    /// the next `sync`. A region that is not empty has its counters read from
    /// its header.
    pub fn open(bytes: Vec<u8>, l2_genesis_l1_anchor_id: Option<u64>) -> (r: Result<TsFile, Error>)
        ensures
            l2_genesis_l1_anchor_id is None ==> r is Err && r->Err_0 == Error::MissingAnchor,
            l2_genesis_l1_anchor_id is Some && 0 < bytes@.len() < HEADER_SIZE ==> r is Err
                && r->Err_0 == Error::CorruptLayout,
            l2_genesis_l1_anchor_id is Some && bytes@.len() >= HEADER_SIZE ==> r is Ok && ({
                let file = r->Ok_0;
                &&& file@ == bytes@
                &&& file.latest_l1_block_id == spec_load_u64(bytes@, 0)
                &&& file.block_count == spec_load_u64(bytes@, 8)
                &&& file.tx_count == spec_load_u64(bytes@, 16)
            }),
            l2_genesis_l1_anchor_id is Some && bytes@.len() == 0 ==> r is Ok && ({
                let file = r->Ok_0;
                &&& file.latest_l1_block_id == l2_genesis_l1_anchor_id->0
                &&& file.block_count == 1
                &&& file.tx_count == 0
                &&& file@ == repeat(0u8, FORMATTED_SIZE as nat)
            }),
    {
        let anchor: u64 = match l2_genesis_l1_anchor_id {
            Some(a) => a,
            None => {
                return Err(Error::MissingAnchor);
            },
        };
        let mut file = TsFile { bytes, latest_l1_block_id: anchor, block_count: 1, tx_count: 0 };
        if file.is_empty() {
            let _ = file.alloc_val(HEADER_SIZE);
            let _ = file.alloc_val(32);
            let _ = file.alloc_arr(32, 1);
            let _ = file.alloc_arr(176, 1);
            let _ = file.alloc_arr(64, 1);
            let _ = file.alloc_arr(512, 1);
            proof {
                assert(file@ =~= repeat(0u8, FORMATTED_SIZE as nat));
            }
        } else {
            if file.len() < HEADER_SIZE {
                return Err(Error::CorruptLayout);
            }
            file.latest_l1_block_id = load_u64(&file, 0);
            file.block_count = load_u64(&file, 8);
            file.tx_count = load_u64(&file, 16);
        }
        Ok(file)
    }

    /// Writes the counters into the header and hands the region back.
    pub fn close(self) -> (r: Result<Vec<u8>, Error>)
        ensures
            r is Ok,
            r->Ok_0@ == spliced(self@, 0, self.spec_header()),
    {
        let mut file = self;
        let _ = file.sync();
        Ok(file.bytes)
    }
}

/// The 64-bit number stored little-endian at `index`.
pub open spec fn spec_load_u64(s: Seq<u8>, index: int) -> u64 {
    le_value(window(s, index, 8)) as u64
}

/// The field element stored at `index`: 32 little-endian bytes, reduced modulo the prime.
pub open spec fn spec_load_fr(s: Seq<u8>, index: int) -> nat {
    le_value(window(s, index, 32)) % modulus()
}

/// Reads the 64-bit number stored at `index`.
pub fn load_u64(file: &TsFile, index: usize) -> (x: u64)
    ensures
        x == spec_load_u64(file@, index as int),
{
    let buf = file.read(index, 8);
    let x = read_u64_le(&buf, 0);
    proof {
        assert(buf@.subrange(0, 8) =~= buf@);
        crate::bytes::lemma_le_value_bound(buf@);
        crate::bytes::lemma_pow256_8();
    }
    x
}

/// Reads the field element stored at `index`.
pub fn load_fr(file: &TsFile, index: usize) -> (x: Scalar)
    ensures
        x@ == spec_load_fr(file@, index as int),
{
    let buf = file.read(index, 32);
    Scalar::from_le_bytes_mod_order(&buf)
}

/// Stores `x` as eight little-endian bytes at `index`.
pub fn write_u64(file: &mut TsFile, index: usize, x: u64)
    ensures
        final(file)@ == spliced(old(file)@, index as int, le_bytes(x as nat, 8)),
        final(file).latest_l1_block_id == old(file).latest_l1_block_id,
        final(file).block_count == old(file).block_count,
        final(file).tx_count == old(file).tx_count,
{
    let mut buf: Vec<u8> = Vec::new();
    push_u64_le(&mut buf, x);
    proof {
        crate::bytes::lemma_le_bytes_len(x as nat, 8);
        assert(buf@ =~= le_bytes(x as nat, 8));
        assert(fitted(buf@, 8) =~= buf@);
    }
    file.write(index, &buf, 8);
}

/// Stores `x` as 32 little-endian bytes at `index`.
pub fn write_fr(file: &mut TsFile, index: usize, x: Scalar)
    ensures
        final(file)@ == spliced(old(file)@, index as int, x.spec_bytes()),
        final(file).latest_l1_block_id == old(file).latest_l1_block_id,
        final(file).block_count == old(file).block_count,
        final(file).tx_count == old(file).tx_count,
{
    let buf = x.to_le_bytes();
    proof {
        assert(fitted(buf@, 32) =~= buf@);
    }
    file.write(index, &buf, 32);
}

} // verus!
