//! The segmented growable array: a dense sequence of fixed-width records laid
//! over the arena in blocks of capacity 1, 1, 2, 4, 8, ... that never move.

use vstd::prelude::*;
use vstd::arithmetic::power2::pow2;
use core::marker::PhantomData;
use crate::error::Error;
use crate::bytes::repeat;
use crate::file::{load_u64, masked, spec_load_u64, spliced, window, write_u64, TsFile};
use crate::index::{floor_log2, log2_of_usize, pow2_usize};

verus! {

/// A typed position in the arena: where one record of a kind lies, and how
/// the kind is written to and read from its bytes.
pub trait ElemPtr: Sized {
    type Elem;

    /// Width of a record slot in bytes.
    spec fn spec_size() -> nat;

    /// The value that an untouched slot stands for.
    spec fn spec_default() -> Self::Elem;

    /// Whether `elem` can be stored without loss.
    spec fn storable(elem: Self::Elem) -> bool;

    /// The bytes that `write` lays down, from the slot's start on.
    spec fn encode(elem: Self::Elem) -> Seq<u8>;

    /// What a slot holding `bytes` stands for.
    spec fn decode(bytes: Seq<u8>) -> Result<Self::Elem, Error>;

    /// Where this pointer points.
    spec fn spec_index(&self) -> nat;

    /// A slot is at least as wide as what is written, and at most 4096 bytes.
    proof fn lemma_width(elem: Self::Elem)
        ensures
            0 < Self::spec_size() <= 4096,
            Self::encode(elem).len() <= Self::spec_size(),
    ;

    /// A slot that starts with the encoding of `elem` decodes to `elem`,
    /// whatever its padding holds.
    proof fn lemma_round_trip(elem: Self::Elem, slot: Seq<u8>)
        requires
            Self::storable(elem),
            slot.len() == Self::spec_size(),
            slot.subrange(0, Self::encode(elem).len() as int) == Self::encode(elem),
        ensures
            Self::decode(slot) == Ok::<Self::Elem, Error>(elem),
    ;

    /// An all-zero slot stands for the default.
    proof fn lemma_default()
        ensures
            Self::decode(crate::bytes::repeat(0u8, Self::spec_size())) == Ok::<Self::Elem, Error>(
                Self::spec_default(),
            ),
    ;

    fn size() -> (n: usize)
        ensures
            n == Self::spec_size(),
    ;

    fn new(index: usize) -> (p: Self)
        ensures
            p.spec_index() == index,
    ;

    fn index(&self) -> (i: usize)
        ensures
            i == self.spec_index(),
    ;

    /// The bytes that store `elem`.
    fn to_bytes(elem: &Self::Elem) -> (b: Vec<u8>)
        ensures
            b@ == Self::encode(*elem),
            Self::storable(*elem),
    ;

    /// What the slot `slot` stands for.
    fn from_bytes(slot: &Vec<u8>) -> (r: Result<Self::Elem, Error>)
        requires
            slot@.len() == Self::spec_size(),
        ensures
            r == Self::decode(slot@),
    ;

    /// Reads the record that this pointer points to; what lies past the end
    /// of the arena reads as zero.
    fn read(&self, file: &TsFile) -> (r: Result<Self::Elem, Error>)
        ensures
            r == Self::decode(window(file@, self.spec_index() as int, Self::spec_size())),
    {
        let buf = file.read(self.index(), Self::size());
        Self::from_bytes(&buf)
    }

    /// Writes `elem` where this pointer points to. Bytes of the slot that the
    /// encoding does not reach stay as they are.
    fn write(&self, file: &mut TsFile, elem: &Self::Elem) -> (r: Result<(), Error>)
        ensures
            r is Ok,
            Self::storable(*elem),
            final(file)@ == spliced(old(file)@, self.spec_index() as int, Self::encode(*elem)),
            final(file).latest_l1_block_id == old(file).latest_l1_block_id,
            final(file).block_count == old(file).block_count,
            final(file).tx_count == old(file).tx_count,
    {
        let bytes = Self::to_bytes(elem);
        let n: usize = bytes.len();
        proof {
            assert(crate::file::fitted(bytes@, n as nat) =~= bytes@);
        }
        file.write(self.index(), &bytes, n);
        Ok(())
    }

    fn default() -> (e: Self::Elem)
        ensures
            e == Self::spec_default(),
    ;
}

/// The block that holds index `i`.
pub open spec fn block_of(i: nat) -> nat {
    if i == 0 {
        0
    } else {
        floor_log2(i) + 1
    }
}

/// How many records block `k` holds: 1, 1, 2, 4, 8, ...
pub open spec fn block_cap(k: nat) -> nat {
    if k == 0 {
        1
    } else {
        pow2((k - 1) as nat)
    }
}

/// The first index that block `k` holds.
pub open spec fn block_base(k: nat) -> nat {
    if k == 0 {
        0
    } else {
        pow2((k - 1) as nat)
    }
}

/// `rest` behind `prefix`, where there is a `rest`.
pub open spec fn prepend(prefix: Seq<usize>, rest: Option<Seq<usize>>) -> Option<Seq<usize>> {
    match rest {
        None => None,
        Some(r) => Some(prefix + r),
    }
}

/// The offsets of the blocks that are linked from `at` on, where `at` is
/// block `k` of an array with records of `size` bytes. There is no such chain
/// where a block leaves the region, a link points into or before its own
/// block, or the chain is longer than any index could need.
pub open spec fn spec_chain(s: Seq<u8>, size: nat, at: nat, k: nat) -> Option<Seq<usize>>
    decreases usize::BITS + 1 - k,
{
    if k > usize::BITS {
        None
    } else if at + 8 + size * block_cap(k) > s.len() {
        None
    } else {
        let next = spec_load_u64(s, at as int);
        if next == 0 {
            Some(seq![at as usize])
        } else if next < at + 8 + size * block_cap(k) {
            None
        } else {
            prepend(seq![at as usize], spec_chain(s, size, next as nat, k + 1))
        }
    }
}

/// The blocks of the array whose first block lies at `head`; `head == 0`
/// names the empty array.
pub open spec fn spec_blocks(s: Seq<u8>, size: nat, head: nat) -> Option<Seq<usize>> {
    if head == 0 {
        Some(Seq::empty())
    } else {
        spec_chain(s, size, head, 0)
    }
}

/// One past the last byte of block `k` of the blocks `ix`.
pub open spec fn chain_end(ix: Seq<usize>, size: nat, k: int) -> int {
    ix[k] + 8 + size * block_cap(k as nat)
}

/// Whether byte `p` belongs to one of the blocks `ix`.
pub open spec fn chain_owns(ix: Seq<usize>, size: nat, p: int) -> bool {
    exists|k: int| 0 <= k < ix.len() && ix[k] <= p < #[trigger] chain_end(ix, size, k)
}

/// Whether the blocks `a`, of records of `wa` bytes, and the blocks `b`, of
/// records of `wb` bytes, share a byte.
pub open spec fn chains_share(a: Seq<usize>, wa: nat, b: Seq<usize>, wb: nat) -> bool {
    exists|p: int| chain_owns(a, wa, p) && chain_owns(b, wb, p)
}

/// The bytes that belong to the blocks `ix`.
pub open spec fn chain_footprint(ix: Seq<usize>, size: nat) -> Set<int> {
    Set::new(|p: int| chain_owns(ix, size, p))
}

/// Whether byte `p` lies in block `j` of the blocks `ix`, which are the
/// blocks from number `k` on of an array with records of `size` bytes.
pub open spec fn in_block(ix: Seq<usize>, size: nat, k: nat, j: int, p: int) -> bool {
    0 <= j < ix.len() && ix[j] <= p < ix[j] + 8 + size * block_cap((k + j) as nat)
}

/// A chain of blocks stays what it is where the arena changes only in bytes
/// that are none of its own.
pub proof fn lemma_chain_stable(
    s1: Seq<u8>,
    s2: Seq<u8>,
    size: nat,
    at: nat,
    k: nat,
    own1: Set<int>,
    own2: Set<int>,
)
    requires
        s1.len() <= usize::MAX,
        spec_chain(s1, size, at, k) is Some,
        forall|j: int, p: int| #[trigger]
            in_block(spec_chain(s1, size, at, k)->0, size, k, j, p) ==> !own1.contains(p),
        masked(s2, own2) == masked(s1, own1),
    ensures
        spec_chain(s2, size, at, k) == spec_chain(s1, size, at, k),
        forall|j: int, p: int| #[trigger]
            in_block(spec_chain(s1, size, at, k)->0, size, k, j, p) ==> !own2.contains(p),
        forall|j: int, p: int| #[trigger]
            in_block(spec_chain(s1, size, at, k)->0, size, k, j, p) ==> 0 <= p < s2.len(),
        forall|j: int, p: int| #[trigger]
            in_block(spec_chain(s1, size, at, k)->0, size, k, j, p) ==> s2[p] == s1[p],
    decreases usize::BITS + 1 - k,
{
    let ix = spec_chain(s1, size, at, k)->0;
    let end = at + 8 + size * block_cap(k);
    assert(size * block_cap(k) >= 0) by (nonlinear_arith)
        requires
            size >= 0,
            block_cap(k) >= 0,
    ;
    let next = spec_load_u64(s1, at as int);
    let rest = spec_chain(s1, size, next as nat, k + 1)->0;
    if next != 0 {
        assert(ix =~= seq![at as usize] + rest);
    } else {
        assert(ix =~= seq![at as usize]);
    }
    assert(ix[0] == at);
    assert forall|p: int| at <= p < end implies !own2.contains(p) && 0 <= p < s2.len() && (
    #[trigger] s2[p]) == s1[p] by {
        assert(in_block(ix, size, k, 0, p));
        assert(!own1.contains(p));
        assert(masked(s1, own1)[p] == Some(s1[p]));
        assert(masked(s2, own2)[p] == Some(s1[p]));
    }
    assert(end <= s2.len()) by {
        let last = end - 1;
        assert(s2[last] == s1[last]);
    }
    assert(window(s2, at as int, 8) =~= window(s1, at as int, 8));
    if next != 0 {
        assert forall|j: int, p: int| #[trigger] in_block(rest, size, k + 1, j, p) implies
            !own1.contains(p) by {
            assert(ix[j + 1] == rest[j]);
            assert((k + 1 + j) as nat == (k + (j + 1)) as nat);
            assert(in_block(ix, size, k, j + 1, p));
        }
        lemma_chain_stable(s1, s2, size, next as nat, k + 1, own1, own2);
    }
    assert forall|j: int, p: int| #[trigger] in_block(ix, size, k, j, p) implies !own2.contains(p)
        && 0 <= p < s2.len() && s2[p] == s1[p] by {
        if j > 0 {
            assert(rest[j - 1] == ix[j]);
            assert((k + 1 + (j - 1)) as nat == (k + j) as nat);
            assert(in_block(rest, size, k + 1, j - 1, p));
        } else {
            assert(at <= p < end);
            assert(s2[p] == s1[p]);
        }
    }
}

/// The blocks of an array stay what they are where the arena changes only
/// in bytes that are none of theirs.
pub proof fn lemma_blocks_stable(
    s1: Seq<u8>,
    s2: Seq<u8>,
    size: nat,
    head: nat,
    own1: Set<int>,
    own2: Set<int>,
)
    requires
        s1.len() <= usize::MAX,
        spec_blocks(s1, size, head) is Some,
        forall|p: int|
            chain_owns(spec_blocks(s1, size, head)->0, size, p) ==> !own1.contains(p),
        masked(s2, own2) == masked(s1, own1),
    ensures
        spec_blocks(s2, size, head) == spec_blocks(s1, size, head),
        forall|p: int|
            chain_owns(spec_blocks(s1, size, head)->0, size, p) ==> !own2.contains(p),
{
    if head != 0 {
        let ix = spec_chain(s1, size, head, 0)->0;
        assert forall|j: int, p: int| #[trigger] in_block(ix, size, 0, j, p) implies
            !own1.contains(p) by {
            assert(ix[j] <= p < chain_end(ix, size, j));
            assert(chain_owns(ix, size, p));
        }
        lemma_chain_stable(s1, s2, size, head, 0, own1, own2);
        assert forall|p: int| chain_owns(ix, size, p) implies !own2.contains(p) by {
            let j = choose|j: int| 0 <= j < ix.len() && ix[j] <= p < #[trigger] chain_end(ix, size, j);
            assert(in_block(ix, size, 0, j, p));
        }
    } else {
        assert forall|p: int| chain_owns(Seq::<usize>::empty(), size, p) implies !own2.contains(
            p,
        ) by {}
    }
}

/// Where the record of index `i` starts in the blocks `ix`, if its block is there.
pub open spec fn chain_slot(ix: Seq<usize>, size: nat, i: nat) -> Option<int> {
    let k = block_of(i);
    if k < ix.len() {
        Some(ix[k as int] + 8 + (i - block_base(k)) * size)
    } else {
        None
    }
}

/// What an array with the blocks `ix` holds at index `i`.
pub open spec fn chain_get<Ptr: ElemPtr>(s: Seq<u8>, ix: Seq<usize>, i: nat) -> Result<
    Ptr::Elem,
    Error,
> {
    match chain_slot(ix, Ptr::spec_size(), i) {
        None => Ok(Ptr::spec_default()),
        Some(off) => Ptr::decode(window(s, off, Ptr::spec_size())),
    }
}

/// The array: empty, or the offsets of its blocks in allocation order.
pub enum Array<Ptr: ElemPtr> {
    Default { _phantom: PhantomData<Ptr> },
    Alloced { indexes: Vec<usize>, head: usize, _phantom: PhantomData<Ptr> },
}

impl<Ptr: ElemPtr> Array<Ptr> {
    /// The block offsets, in allocation order; none while the array is empty.
    pub open spec fn blocks(&self) -> Seq<usize> {
        match self {
            Array::Default { .. } => Seq::empty(),
            Array::Alloced { indexes, .. } => indexes@,
        }
    }

    /// One past the last byte of block `k`.
    pub open spec fn block_end(&self, k: int) -> int {
        self.blocks()[k] + 8 + Ptr::spec_size() * block_cap(k as nat)
    }

    /// The blocks lie inside the arena, one after the other, in allocation order.
    pub open spec fn wf(&self, file: &TsFile) -> bool {
        match self {
            Array::Default { .. } => true,
            Array::Alloced { indexes, head, .. } => {
                &&& 1 <= indexes@.len() <= usize::BITS + 1
                &&& *head == indexes@[0]
                &&& forall|k: int|
                    0 <= k < indexes@.len() ==> #[trigger] self.block_end(k) <= file@.len()
                &&& forall|k: int, m: int|
                    #![trigger self.block_end(k), indexes@[m]]
                    0 <= k < m < indexes@.len() ==> self.block_end(k) <= indexes@[m]
            },
        }
    }

    /// Whether byte `p` of the arena belongs to one of the blocks.
    pub open spec fn owns(&self, p: int) -> bool {
        exists|k: int|
            0 <= k < self.blocks().len() && self.blocks()[k] <= p < #[trigger] self.block_end(k)
    }

    /// Where the record of index `i` starts, if its block has been allocated.
    pub open spec fn slot_offset(&self, i: nat) -> Option<int> {
        let k = block_of(i);
        if k < self.blocks().len() {
            Some(self.blocks()[k as int] + 8 + (i - block_base(k)) * Ptr::spec_size())
        } else {
            None
        }
    }

    /// What the array holds at index `i`.
    pub open spec fn spec_get(&self, file: &TsFile, i: nat) -> Result<Ptr::Elem, Error> {
        match self.slot_offset(i) {
            None => Ok(Ptr::spec_default()),
            Some(off) => Ptr::decode(window(file@, off, Ptr::spec_size())),
        }
    }

    /// Whether the links in the arena spell out exactly these blocks, so that
    /// `load` from the first block finds the array again.
    pub open spec fn persisted(&self, file: &TsFile) -> bool {
        &&& self.blocks().len() > 0 ==> self.blocks()[0] != 0
        &&& forall|k: int|
            0 <= k < self.blocks().len() ==> spec_load_u64(file@, #[trigger] self.blocks()[k] as int)
                == if k + 1 < self.blocks().len() {
                self.blocks()[k + 1] as u64
            } else {
                0u64
            }
    }

    /// Whether the two arrays share no byte of the arena.
    pub open spec fn disjoint<Q: ElemPtr>(&self, other: &Array<Q>) -> bool {
        forall|p: int| !(self.owns(p) && other.owns(p))
    }

    /// The bytes of the arena that belong to the blocks.
    pub open spec fn footprint(&self) -> Set<int> {
        Set::new(|p: int| self.owns(p))
    }

    /// The arena without the bytes of this array: what else the arena holds.
    pub open spec fn outside(&self, file: &TsFile) -> Map<int, Option<u8>> {
        masked(file@, self.footprint())
    }

    /// What an array holds, and whether it is well formed and persisted,
    /// depends only on the bytes of its own blocks.
    pub proof fn lemma_frame(&self, before: &TsFile, after: &TsFile)
        requires
            self.wf(before),
            forall|k: int|
                0 <= k < self.blocks().len() ==> #[trigger] self.block_end(k) <= after@.len(),
            forall|p: int| self.owns(p) ==> after@[p] == before@[p],
        ensures
            self.wf(after),
            forall|j: nat| self.spec_get(after, j) == self.spec_get(before, j),
            self.persisted(before) ==> self.persisted(after),
    {
        let sz = Ptr::spec_size();
        assert forall|j: nat| self.spec_get(after, j) == self.spec_get(before, j) by {
            if self.slot_offset(j) is Some {
                let off = self.slot_offset(j).unwrap();
                let k = block_of(j) as int;
                self.lemma_slot_inside(before, j);
                assert forall|p: int| off <= p < off + sz implies after@[p] == before@[p] by {
                    self.lemma_owns_block(k, p);
                }
                assert(window(after@, off, sz) =~= window(before@, off, sz));
            }
        }
        if self.persisted(before) {
            assert forall|k: int| 0 <= k < self.blocks().len() implies spec_load_u64(
                after@,
                #[trigger] self.blocks()[k] as int,
            ) == if k + 1 < self.blocks().len() {
                self.blocks()[k + 1] as u64
            } else {
                0u64
            } by {
                let at = self.blocks()[k] as int;
                assert(self.block_end(k) <= before@.len());
                assert(sz * block_cap(k as nat) >= 0) by (nonlinear_arith)
                    requires
                        sz >= 0,
                        block_cap(k as nat) >= 0,
                ;
                assert forall|p: int| at <= p < at + 8 implies after@[p] == before@[p] by {
                    self.lemma_owns_block(k, p);
                }
                assert(window(after@, at, 8) =~= window(before@, at, 8));
            }
        }
    }

    /// Two arrays with the same blocks hold the same where the bytes of the
    /// blocks are the same.
    pub proof fn lemma_same_bytes(&self, before: &TsFile, other: &Self, after: &TsFile)
        requires
            self.wf(before),
            other.blocks() == self.blocks(),
            forall|p: int| self.owns(p) ==> 0 <= p < after@.len() && after@[p] == before@[p],
        ensures
            forall|j: nat| other.spec_get(after, j) == self.spec_get(before, j),
    {
        let sz = Ptr::spec_size();
        assert forall|j: nat| other.spec_get(after, j) == self.spec_get(before, j) by {
            if self.slot_offset(j) is Some {
                let off = self.slot_offset(j).unwrap();
                let k = block_of(j) as int;
                self.lemma_slot_inside(before, j);
                assert forall|p: int| off <= p < off + sz implies 0 <= p < after@.len()
                    && after@[p] == before@[p] by {
                    self.lemma_owns_block(k, p);
                }
                assert(window(after@, off, sz) =~= window(before@, off, sz));
            }
        }
    }

    /// Two arrays lie apart where their blocks share no byte.
    pub proof fn lemma_disjoint_chains<Q: ElemPtr>(&self, other: &Array<Q>)
        ensures
            self.disjoint(other) == !chains_share(
                self.blocks(),
                Ptr::spec_size(),
                other.blocks(),
                Q::spec_size(),
            ),
    {
        self.lemma_footprint();
        other.lemma_footprint();
        assert forall|p: int| self.owns(p) == chain_owns(self.blocks(), Ptr::spec_size(), p) by {
            assert(self.footprint().contains(p) == self.owns(p));
        }
        assert forall|p: int| other.owns(p) == chain_owns(other.blocks(), Q::spec_size(), p) by {
            assert(other.footprint().contains(p) == other.owns(p));
        }
        if !self.disjoint(other) {
            let p = choose|p: int| self.owns(p) && other.owns(p);
            assert(chain_owns(self.blocks(), Ptr::spec_size(), p) && chain_owns(
                other.blocks(),
                Q::spec_size(),
                p,
            ));
        } else if chains_share(self.blocks(), Ptr::spec_size(), other.blocks(), Q::spec_size()) {
            let p = choose|p: int|
                chain_owns(self.blocks(), Ptr::spec_size(), p) && chain_owns(
                    other.blocks(),
                    Q::spec_size(),
                    p,
                );
            assert(self.owns(p) && other.owns(p));
        }
    }

    /// The bytes of an array are the bytes of its blocks.
    pub proof fn lemma_footprint(&self)
        ensures
            self.footprint() == chain_footprint(self.blocks(), Ptr::spec_size()),
    {
        let ix = self.blocks();
        let sz = Ptr::spec_size();
        assert forall|p: int| self.owns(p) == chain_owns(ix, sz, p) by {
            if self.owns(p) {
                let k = choose|k: int|
                    0 <= k < self.blocks().len() && self.blocks()[k] <= p
                        < #[trigger] self.block_end(k);
                assert(chain_end(ix, sz, k) == self.block_end(k));
            }
            if chain_owns(ix, sz, p) {
                let k = choose|k: int| 0 <= k < ix.len() && ix[k] <= p < #[trigger] chain_end(ix, sz, k);
                assert(chain_end(ix, sz, k) == self.block_end(k));
                self.lemma_owns_block(k, p);
            }
        }
        assert(self.footprint() =~= chain_footprint(ix, sz));
    }

    /// What an array holds depends on its blocks and on the arena alone.
    pub proof fn lemma_chain_get(&self, file: &TsFile, i: nat)
        ensures
            self.spec_get(file, i) == chain_get::<Ptr>(file@, self.blocks(), i),
    {
    }

    /// No byte of an array lies before its first block.
    pub proof fn lemma_above_head(&self, file: &TsFile)
        requires
            self.wf(file),
        ensures
            forall|p: int| self.owns(p) ==> self.spec_head() <= p < file@.len(),
    {
        assert forall|p: int| self.owns(p) implies self.spec_head() <= p < file@.len() by {
            let k = choose|k: int|
                0 <= k < self.blocks().len() && self.blocks()[k] <= p
                    < #[trigger] self.block_end(k);
            assert(self.block_end(k) <= file@.len());
            if k > 0 {
                assert(self.block_end(0) <= self.blocks()[k]);
                assert(Ptr::spec_size() * block_cap(0) >= 0) by (nonlinear_arith)
                    requires
                        Ptr::spec_size() >= 0,
                        block_cap(0) >= 0,
                ;
            }
        }
    }

    /// Every block is owned from its first byte to its last.
    pub proof fn lemma_owns_block(&self, k: int, p: int)
        requires
            0 <= k < self.blocks().len(),
            self.blocks()[k] <= p < self.block_end(k),
        ensures
            self.owns(p),
    {
    }

    /// Whatever leaves the arena outside some bytes alone leaves alone an
    /// array that has none of those bytes: it stays well formed and holds
    /// what it held, and has none of the bytes that are left out afterwards.
    pub proof fn lemma_untouched(
        &self,
        before: &TsFile,
        own_before: Set<int>,
        after: &TsFile,
        own_after: Set<int>,
    )
        requires
            self.wf(before),
            forall|p: int| self.owns(p) ==> !own_before.contains(p),
            masked(after@, own_after) == masked(before@, own_before),
        ensures
            self.wf(after),
            forall|p: int| self.owns(p) ==> !own_after.contains(p),
            forall|p: int| self.owns(p) ==> 0 <= p < after@.len() && after@[p] == before@[p],
            forall|j: nat| self.spec_get(after, j) == self.spec_get(before, j),
            self.persisted(before) ==> self.persisted(after),
    {
        let sz = Ptr::spec_size();
        assert forall|p: int| #[trigger] self.owns(p) implies 0 <= p < after@.len()
            && !own_after.contains(p) && after@[p] == before@[p] by {
            let k = choose|k: int|
                0 <= k < self.blocks().len() && self.blocks()[k] <= p
                    < #[trigger] self.block_end(k);
            assert(self.block_end(k) <= before@.len());
            assert(masked(before@, own_before)[p] == Some(before@[p]));
            assert(masked(after@, own_after)[p] == Some(before@[p]));
        }
        assert forall|k: int| 0 <= k < self.blocks().len() implies #[trigger] self.block_end(k)
            <= after@.len() by {
            assert(self.block_end(k) <= before@.len());
            assert(sz * block_cap(k as nat) >= 0) by (nonlinear_arith)
                requires
                    sz >= 0,
                    block_cap(k as nat) >= 0,
            ;
            let last = self.block_end(k) - 1;
            self.lemma_owns_block(k, last);
            assert(self.owns(last));
        }
        assert(self.wf(after));
        self.lemma_frame(before, after);
    }

    /// An array that shares no byte with this one is untouched by whatever
    /// leaves the outside of this one alone.
    pub proof fn lemma_outside<Q: ElemPtr>(
        &self,
        before: &TsFile,
        grown: &Array<Ptr>,
        after: &TsFile,
        other: &Array<Q>,
    )
        requires
            other.wf(before),
            self.disjoint(other),
            grown.outside(after) == self.outside(before),
        ensures
            other.wf(after),
            grown.disjoint(other),
            forall|j: nat| other.spec_get(after, j) == other.spec_get(before, j),
            other.persisted(before) ==> other.persisted(after),
    {
        assert forall|p: int| other.owns(p) implies !self.footprint().contains(p) by {
            assert(!(self.owns(p) && other.owns(p)));
        }
        other.lemma_untouched(before, self.footprint(), after, grown.footprint());
        assert forall|p: int| !(grown.owns(p) && other.owns(p)) by {
            if other.owns(p) {
                assert(!grown.footprint().contains(p));
            }
        }
    }

    /// A persisted array is what `load` finds from its first block.
    pub proof fn lemma_persisted_chain(&self, file: &TsFile, k: nat)
        requires
            self.wf(file),
            self.persisted(file),
            k < self.blocks().len(),
        ensures
            spec_chain(file@, Ptr::spec_size(), self.blocks()[k as int] as nat, k) == Some(
                self.blocks().subrange(k as int, self.blocks().len() as int),
            ),
        decreases self.blocks().len() - k,
    {
        let n = self.blocks().len();
        let at = self.blocks()[k as int];
        assert(self.block_end(k as int) <= file@.len());
        if k + 1 < n {
            assert(self.block_end(k as int) <= self.blocks()[k as int + 1]);
            assert(Ptr::spec_size() * block_cap(k) >= 0) by (nonlinear_arith)
                requires
                    Ptr::spec_size() >= 0,
                    block_cap(k) >= 0,
            ;
            self.lemma_persisted_chain(file, k + 1);
            assert(seq![at] + self.blocks().subrange(k as int + 1, n as int) =~= self.blocks().subrange(
                k as int,
                n as int,
            ));
        } else {
            assert(seq![at] =~= self.blocks().subrange(k as int, n as int));
        }
    }

    /// Whether the two arrays share no byte of the arena.
    pub fn disjoint_from<Q: ElemPtr>(&self, other: &Array<Q>, file: &TsFile) -> (b: bool)
        requires
            self.wf(file),
            other.wf(file),
        ensures
            b == self.disjoint(other),
    {
        let flen: usize = file.len();
        let n: usize = self.block_count();
        let m: usize = other.block_count();
        let sa: usize = Ptr::size();
        let sb: usize = Q::size();
        let mut i: usize = 0;
        while i < n
            invariant
                i <= n,
                n == self.blocks().len(),
                m == other.blocks().len(),
                sa == Ptr::spec_size(),
                sb == Q::spec_size(),
                flen == file@.len(),
                self.wf(file),
                other.wf(file),
                forall|a: int, b: int|
                    #![trigger self.block_end(a), other.block_end(b)]
                    0 <= a < i && 0 <= b < m ==> self.block_end(a) <= other.blocks()[b]
                        || other.block_end(b) <= self.blocks()[a],
            decreases n - i,
        {
            let (a0, a1) = self.block_span(i, file);
            let mut j: usize = 0;
            while j < m
                invariant
                    j <= m,
                    i < n,
                    n == self.blocks().len(),
                    m == other.blocks().len(),
                    other.wf(file),
                    a0 == self.blocks()[i as int],
                    a1 == self.block_end(i as int),
                    forall|b: int|
                        #![trigger other.block_end(b)]
                        0 <= b < j ==> a1 <= other.blocks()[b] || other.block_end(b) <= a0,
                decreases m - j,
            {
                let (b0, b1) = other.block_span(j, file);
                if a0 < b1 && b0 < a1 {
                    proof {
                        let p = if a0 >= b0 {
                            a0 as int
                        } else {
                            b0 as int
                        };
                        assert(self.blocks()[i as int] <= p < self.block_end(i as int));
                        assert(other.blocks()[j as int] <= p < other.block_end(j as int));
                        assert(self.owns(p) && other.owns(p));
                    }
                    return false;
                }
                j += 1;
            }
            i += 1;
        }
        proof {
            assert forall|p: int| !(self.owns(p) && other.owns(p)) by {
                if self.owns(p) && other.owns(p) {
                    let a = choose|a: int|
                        0 <= a < self.blocks().len() && self.blocks()[a] <= p
                            < #[trigger] self.block_end(a);
                    let b = choose|b: int|
                        0 <= b < other.blocks().len() && other.blocks()[b] <= p
                            < #[trigger] other.block_end(b);
                    assert(self.block_end(a) <= other.blocks()[b] || other.block_end(b)
                        <= self.blocks()[a]);
                }
            }
        }
        true
    }

    /// Where block `k` starts and ends.
    pub fn block_span(&self, k: usize, file: &TsFile) -> (r: (usize, usize))
        requires
            self.wf(file),
            k < self.blocks().len(),
        ensures
            r.0 == self.blocks()[k as int],
            r.1 == self.block_end(k as int),
            r.0 + 8 <= r.1,
    {
        let flen: usize = file.len();
        proof {
            assert(self.block_end(k as int) <= file@.len());
            if k > 0 {
                crate::index::lemma_pow2_fits((k - 1) as nat);
            }
            assert(Ptr::spec_size() * block_cap(k as nat) >= 0) by (nonlinear_arith)
                requires
                    Ptr::spec_size() >= 0,
                    block_cap(k as nat) >= 0,
            ;
        }
        let cap: usize = if k == 0 {
            1
        } else {
            pow2_usize(k - 1)
        };
        let size: usize = Ptr::size();
        match self {
            Array::Default { .. } => (0, 8),
            Array::Alloced { indexes, .. } => {
                let start: usize = indexes[k];
                (start, start + 8 + size * cap)
            },
        }
    }

    /// A record lies behind the link of its block and ends with the block.
    pub proof fn lemma_slot_inside(&self, file: &TsFile, i: nat)
        requires
            self.wf(file),
            self.slot_offset(i) is Some,
        ensures
            self.blocks()[block_of(i) as int] + 8 <= self.slot_offset(i).unwrap(),
            self.slot_offset(i).unwrap() + Ptr::spec_size() <= self.block_end(block_of(i) as int),
            self.slot_offset(i).unwrap() + Ptr::spec_size() <= file@.len(),
    {
        let k = block_of(i);
        lemma_block_range(i);
        let rel = i - block_base(k);
        let size = Ptr::spec_size();
        let cap = block_cap(k);
        assert(rel * size + size <= size * cap && rel * size >= 0) by (nonlinear_arith)
            requires
                0 <= rel < cap,
                size >= 0,
        ;
        assert(self.block_end(k as int) <= file@.len());
    }

    /// The records of two indices share no byte.
    pub proof fn lemma_slots_disjoint(&self, file: &TsFile, i: nat, j: nat)
        requires
            self.wf(file),
            i != j,
            self.slot_offset(i) is Some,
            self.slot_offset(j) is Some,
        ensures
            self.slot_offset(i).unwrap() + Ptr::spec_size() <= self.slot_offset(j).unwrap()
                || self.slot_offset(j).unwrap() + Ptr::spec_size() <= self.slot_offset(i).unwrap(),
    {
        let ki = block_of(i);
        let kj = block_of(j);
        lemma_block_range(i);
        lemma_block_range(j);
        self.lemma_slot_inside(file, i);
        self.lemma_slot_inside(file, j);
        let size = Ptr::spec_size();
        if ki == kj {
            let ri = i - block_base(ki);
            let rj = j - block_base(kj);
            if ri < rj {
                assert(ri * size + size <= rj * size) by (nonlinear_arith)
                    requires
                        0 <= ri < rj,
                        size >= 0,
                ;
            } else {
                assert(rj * size + size <= ri * size) by (nonlinear_arith)
                    requires
                        0 <= rj < ri,
                        size >= 0,
                ;
            }
        } else if ki < kj {
            assert(self.block_end(ki as int) <= self.blocks()[kj as int]);
        } else {
            assert(self.block_end(kj as int) <= self.blocks()[ki as int]);
        }
    }

    /// What appending a block does, from what the arena operations say: `after`
    /// has one block more than `before`, at the old end of the arena; the new
    /// bytes are zero; of the old bytes only the link of the last block
    /// changed, and it now names the new block.
    pub open spec fn block_added(
        before: &Self,
        before_file: &TsFile,
        after: &Self,
        after_file: &TsFile,
    ) -> bool {
        let n = before.blocks().len() as int;
        let index = before_file@.len() as int;
        &&& before.wf(before_file)
        &&& n <= usize::BITS
        &&& index <= usize::MAX
        &&& after.blocks() == before.blocks().push(index as usize)
        &&& after.spec_head() == if n == 0 {
            index as usize
        } else {
            before.spec_head()
        }
        &&& after_file@.len() == index + 8 + Ptr::spec_size() * block_cap(n as nat)
        &&& forall|p: int|
            0 <= p < index && !(n > 0 && before.blocks()[n - 1] <= p < before.blocks()[n - 1] + 8)
                ==> after_file@[p] == before_file@[p]
        &&& forall|p: int| index <= p < after_file@.len() ==> after_file@[p] == 0
        &&& n > 0 ==> window(after_file@, before.blocks()[n - 1] as int, 8)
            == crate::bytes::le_bytes(index as nat, 8)
    }

    /// After a block was added the array is well formed and holds what it held.
    pub proof fn lemma_block_added_get(
        before: &Self,
        before_file: &TsFile,
        after: &Self,
        after_file: &TsFile,
    )
        requires
            Self::block_added(before, before_file, after, after_file),
        ensures
            after.wf(after_file),
            forall|j: nat| after.spec_get(after_file, j) == before.spec_get(before_file, j),
            forall|p: int|
                0 <= p < before_file@.len() && !before.owns(p) ==> after_file@[p]
                    == before_file@[p],
    {
        let n = before.blocks().len();
        let index = before_file@.len() as int;
        let sz = Ptr::spec_size();
        let cap0 = block_cap(n);
        assert(sz * cap0 >= 0) by (nonlinear_arith)
            requires
                sz >= 0,
                cap0 >= 0,
        ;
        assert forall|k: int| 0 <= k < after.blocks().len() implies #[trigger] after.block_end(k)
            <= after_file@.len() by {
            if k < n {
                assert(before.block_end(k) <= before_file@.len());
            }
        }
        assert forall|k: int, m: int|
            #![trigger after.block_end(k), after.blocks()[m]]
            0 <= k < m < after.blocks().len() implies after.block_end(k) <= after.blocks()[m] by {
            if m < n {
                assert(before.block_end(k) <= before.blocks()[m]);
            } else {
                assert(before.block_end(k) <= before_file@.len());
            }
        }
        assert forall|p: int| 0 <= p < before_file@.len() && !before.owns(p) implies after_file@[p]
            == before_file@[p] by {
            if n > 0 {
                let last = before.blocks()[n - 1] as int;
                if last <= p < last + 8 {
                    assert(before.block_end(n - 1) >= last + 8) by {
                        assert(sz * block_cap((n - 1) as nat) >= 0) by (nonlinear_arith)
                            requires
                                sz >= 0,
                                block_cap((n - 1) as nat) >= 0,
                        ;
                    }
                    before.lemma_owns_block(n - 1, p);
                }
            }
        }
        assert forall|j: nat| after.spec_get(after_file, j) == before.spec_get(before_file, j) by {
            let k = block_of(j);
            lemma_block_range(j);
            if k < n {
                before.lemma_slot_inside(before_file, j);
                let off = before.slot_offset(j).unwrap();
                assert(after.slot_offset(j) == Some(off));
                if k < n - 1 {
                    assert(before.block_end(k as int) <= before.blocks()[n - 1]);
                }
                assert(window(after_file@, off, sz) =~= window(before_file@, off, sz));
            } else if k == n {
                let rel = j - block_base(k);
                assert(rel * sz + sz <= sz * cap0 && rel * sz >= 0) by (nonlinear_arith)
                    requires
                        0 <= rel < cap0,
                        sz >= 0,
                ;
                let off = after.slot_offset(j).unwrap();
                assert(window(after_file@, off, sz) =~= repeat(0u8, sz));
                Ptr::lemma_default();
            }
        }
    }

    /// After a block was added the rest of the arena is what it was.
    pub proof fn lemma_block_added_outside(
        before: &Self,
        before_file: &TsFile,
        after: &Self,
        after_file: &TsFile,
    )
        requires
            Self::block_added(before, before_file, after, after_file),
        ensures
            after.outside(after_file) == before.outside(before_file),
    {
        let n = before.blocks().len();
        let sz = Ptr::spec_size();
        Self::lemma_block_added_get(before, before_file, after, after_file);
        assert(sz * block_cap(n) >= 0) by (nonlinear_arith)
            requires
                sz >= 0,
                block_cap(n) >= 0,
        ;
        assert forall|p: int| after.outside(after_file)[p] == before.outside(before_file)[p] by {
            if before.owns(p) {
                let k = choose|k: int|
                    0 <= k < before.blocks().len() && before.blocks()[k] <= p
                        < #[trigger] before.block_end(k);
                assert(after.block_end(k) == before.block_end(k));
                after.lemma_owns_block(k, p);
            } else if before_file@.len() <= p < after_file@.len() {
                after.lemma_owns_block(n as int, p);
            } else if after.owns(p) {
                let k = choose|k: int|
                    0 <= k < after.blocks().len() && after.blocks()[k] <= p
                        < #[trigger] after.block_end(k);
                if k < n {
                    assert(after.block_end(k) == before.block_end(k));
                    before.lemma_owns_block(k, p);
                }
            }
        }
        assert(after.outside(after_file) =~= before.outside(before_file));
    }

    /// After a block was added to a persisted array in an arena that is not
    /// empty, the array is persisted.
    pub proof fn lemma_block_added_persisted(
        before: &Self,
        before_file: &TsFile,
        after: &Self,
        after_file: &TsFile,
    )
        requires
            Self::block_added(before, before_file, after, after_file),
            before.persisted(before_file),
            before_file@.len() > 0,
        ensures
            after.persisted(after_file),
    {
        let n = before.blocks().len();
        let index = before_file@.len();
        let sz = Ptr::spec_size();
        assert(sz * block_cap(n) >= 0) by (nonlinear_arith)
            requires
                sz >= 0,
                block_cap(n) >= 0,
        ;
        assert forall|k: int| 0 <= k < after.blocks().len() implies spec_load_u64(
            after_file@,
            #[trigger] after.blocks()[k] as int,
        ) == if k + 1 < after.blocks().len() {
            after.blocks()[k + 1] as u64
        } else {
            0u64
        } by {
            let at = after.blocks()[k] as int;
            if k == n {
                assert(window(after_file@, at, 8) =~= repeat(0u8, 8));
                crate::bytes::lemma_le_value_zeros(8);
            } else if k == n - 1 {
                crate::bytes::lemma_pow256_8();
                crate::bytes::lemma_le_value_of_le_bytes(index, 8);
            } else {
                assert(before.block_end(k) <= before.blocks()[n - 1]);
                assert(sz * block_cap(k as nat) >= 0) by (nonlinear_arith)
                    requires
                        sz >= 0,
                        block_cap(k as nat) >= 0,
                ;
                assert(window(after_file@, at, 8) =~= window(before_file@, at, 8));
                assert(spec_load_u64(before_file@, before.blocks()[k] as int) == before.blocks()[k
                    + 1] as u64);
            }
        }
    }

    /// Appends one block at the end of the arena and links the last block to
    /// it. What the array holds stays as it was.
    pub fn alloc_block(&mut self, file: &mut TsFile) -> (r: Result<(), Error>)
        requires
            old(self).wf(old(file)),
            old(self).blocks().len() <= usize::BITS,
        ensures
            r is Ok,
            Self::block_added(old(self), old(file), final(self), final(file)),
            final(self).wf(final(file)),
            final(self).blocks() == old(self).blocks().push(old(file)@.len() as usize),
            final(file)@.len() == old(file)@.len() + 8 + Ptr::spec_size() * block_cap(
                old(self).blocks().len(),
            ),
            forall|j: nat| final(self).spec_get(final(file), j) == old(self).spec_get(old(file), j),
            forall|p: int|
                0 <= p < old(file)@.len() && !old(self).owns(p) ==> final(file)@[p] == old(
                    file,
                )@[p],
            old(self).persisted(old(file)) && old(file)@.len() > 0 ==> final(self).persisted(
                final(file),
            ),
            final(self).outside(final(file)) == old(self).outside(old(file)),
            final(file).latest_l1_block_id == old(file).latest_l1_block_id,
            final(file).block_count == old(file).block_count,
            final(file).tx_count == old(file).tx_count,
    {
        let size: usize = Ptr::size();
        let ghost n = self.blocks().len();
        proof {
            if n > 0 {
                crate::index::lemma_pow2_fits((n - 1) as nat);
            }
        }
        let cap: usize = match self {
            Array::Default { .. } => 1,
            Array::Alloced { indexes, .. } => pow2_usize(indexes.len() - 1),
        };
        let flen: usize = file.len();
        let index: usize = file.alloc_arr(size, cap);
        let mut grown: Vec<usize> = Vec::new();
        let mut head: usize = index;
        match self {
            Array::Default { .. } => {},
            Array::Alloced { indexes, head: h, .. } => {
                let count: usize = indexes.len();
                let last_idx: usize = indexes[count - 1];
                write_u64(file, last_idx, index as u64);
                proof {
                    crate::bytes::lemma_le_bytes_len(index as nat, 8);
                    assert(old(self).block_end(count - 1) <= old(file)@.len());
                    assert(size * block_cap((count - 1) as nat) >= 0) by (nonlinear_arith)
                        requires
                            size >= 0,
                            block_cap((count - 1) as nat) >= 0,
                    ;
                    assert(window(file@, last_idx as int, 8) =~= crate::bytes::le_bytes(
                        index as nat,
                        8,
                    ));
                }
                head = *h;
                let mut k: usize = 0;
                while k < count
                    invariant
                        k <= count,
                        count == indexes@.len(),
                        grown@ == indexes@.subrange(0, k as int),
                    decreases count - k,
                {
                    grown.push(indexes[k]);
                    k += 1;
                    proof {
                        assert(grown@ =~= indexes@.subrange(0, k as int));
                    }
                }
                proof {
                    assert(grown@ =~= indexes@);
                }
            },
        }
        grown.push(index);
        let ghost before = *self;
        *self = Array::Alloced { indexes: grown, head, _phantom: PhantomData };
        proof {
            assert(self.blocks() =~= before.blocks().push(index));
            assert(Ptr::spec_size() * block_cap(n) >= 0) by (nonlinear_arith)
                requires
                    Ptr::spec_size() >= 0,
                    block_cap(n) >= 0,
            ;
            assert(Self::block_added(&before, old(file), self, file));
            Self::lemma_block_added_get(&before, old(file), self, file);
            Self::lemma_block_added_outside(&before, old(file), self, file);
            if before.persisted(old(file)) && old(file)@.len() > 0 {
                Self::lemma_block_added_persisted(&before, old(file), self, file);
            }
        }
        Ok(())
    }

    /// Finds the array whose first block lies at `head` by following the
    /// links; `head == 0` names the empty array.
    pub fn load(file: &TsFile, head: usize) -> (r: Result<Self, Error>)
        ensures
            head == 0 ==> r is Ok && r.unwrap().blocks().len() == 0,
            head != 0 ==> match spec_chain(file@, Ptr::spec_size(), head as nat, 0) {
                Some(ix) => r is Ok && r.unwrap().blocks() == ix,
                None => r is Err && r->Err_0 == Error::CorruptLayout,
            },
            r is Ok ==> r.unwrap().wf(file) && r.unwrap().spec_head() == head
                && r.unwrap().persisted(file),
            match spec_blocks(file@, Ptr::spec_size(), head as nat) {
                Some(ix) => r is Ok && r.unwrap().blocks() == ix,
                None => r is Err && r->Err_0 == Error::CorruptLayout,
            },
    {
        if head == 0 {
            return Ok(Array::Default { _phantom: PhantomData });
        }
        let size: usize = Ptr::size();
        let flen: usize = file.len();
        let ghost sz = Ptr::spec_size();
        let mut indexes: Vec<usize> = Vec::new();
        let mut cur: usize = head;
        loop
            invariant
                size == sz,
                sz == Ptr::spec_size(),
                head != 0,
                flen == file@.len(),
                indexes@.len() <= usize::BITS + 1,
                indexes@.len() == 0 ==> cur == head,
                indexes@.len() > 0 ==> indexes@[0] == head,
                spec_chain(file@, sz, head as nat, 0) == prepend(
                    indexes@,
                    spec_chain(file@, sz, cur as nat, indexes@.len()),
                ),
                forall|m: int|
                    0 <= m < indexes@.len() ==> (#[trigger] indexes@[m]) + 8 + sz * block_cap(
                        m as nat,
                    ) <= flen,
                forall|a: int, b: int|
                    #![trigger indexes@[a], indexes@[b]]
                    0 <= a < b < indexes@.len() ==> indexes@[a] + 8 + sz * block_cap(a as nat)
                        <= indexes@[b],
                indexes@.len() > 0 ==> indexes@[indexes@.len() - 1] + 8 + sz * block_cap(
                    (indexes@.len() - 1) as nat,
                ) <= cur,
                forall|m: int|
                    0 <= m < indexes@.len() ==> spec_load_u64(file@, #[trigger] indexes@[m] as int)
                        == if m + 1 < indexes@.len() {
                        indexes@[m + 1] as u64
                    } else {
                        cur as u64
                    },
            decreases usize::BITS + 1 - indexes@.len(),
        {
            let k: usize = indexes.len();
            if k > usize::BITS as usize {
                return Err(Error::CorruptLayout);
            }
            proof {
                if k > 0 {
                    crate::index::lemma_pow2_fits((k - 1) as nat);
                }
                assert(sz * block_cap(k as nat) >= 0) by (nonlinear_arith)
                    requires
                        sz >= 0,
                        block_cap(k as nat) >= 0,
                ;
            }
            let cap: usize = if k == 0 {
                1
            } else {
                pow2_usize(k - 1)
            };
            assert(cap == block_cap(k as nat));
            let ghost need = cur + 8 + sz * block_cap(k as nat);
            let end: usize = match size.checked_mul(cap) {
                None => {
                    return Err(Error::CorruptLayout);
                },
                Some(body) => match body.checked_add(8) {
                    None => {
                        return Err(Error::CorruptLayout);
                    },
                    Some(block) => match block.checked_add(cur) {
                        None => {
                            return Err(Error::CorruptLayout);
                        },
                        Some(e) => e,
                    },
                },
            };
            assert(end == need);
            if end > flen {
                return Err(Error::CorruptLayout);
            }
            let ghost before = indexes@;
            indexes.push(cur);
            proof {
                assert forall|m: int| 0 <= m < indexes@.len() implies (#[trigger] indexes@[m]) + 8
                    + sz * block_cap(m as nat) <= flen by {
                    if m < k {
                        assert(before[m] + 8 + sz * block_cap(m as nat) <= flen);
                    }
                }
                assert forall|a: int, b: int|
                    #![trigger indexes@[a], indexes@[b]]
                    0 <= a < b < indexes@.len() implies indexes@[a] + 8 + sz * block_cap(a as nat)
                    <= indexes@[b] by {
                    if b == k && a < k - 1 {
                        assert(before[a] + 8 + sz * block_cap(a as nat) <= before[k - 1]);
                        assert(sz * block_cap((k - 1) as nat) >= 0) by (nonlinear_arith)
                            requires
                                sz >= 0,
                                block_cap((k - 1) as nat) >= 0,
                        ;
                    }
                }
            }
            let next: u64 = load_u64(file, cur);
            if next == 0 {
                proof {
                    assert(before + seq![cur] =~= indexes@);
                }
                let arr = Array::Alloced { indexes, head, _phantom: PhantomData };
                proof {
                    assert forall|m: int| 0 <= m < arr.blocks().len() implies #[trigger] arr.block_end(
                        m,
                    ) <= file@.len() by {
                        assert(arr.blocks()[m] + 8 + sz * block_cap(m as nat) <= flen);
                    }
                }
                return Ok(arr);
            }
            if next < end as u64 || next > usize::MAX as u64 {
                proof {
                    if next >= end {
                        assert(spec_chain(file@, sz, next as nat, (k + 1) as nat) is None);
                    }
                }
                return Err(Error::CorruptLayout);
            }
            proof {
                let rest = spec_chain(file@, sz, next as nat, (k + 1) as nat);
                if rest is Some {
                    assert(before + (seq![cur] + rest.unwrap()) =~= indexes@ + rest.unwrap());
                }
            }
            cur = next as usize;
        }
    }

    /// How many blocks have been allocated.
    pub fn block_count(&self) -> (n: usize)
        ensures
            n == self.blocks().len(),
    {
        match self {
            Array::Default { .. } => 0,
            Array::Alloced { indexes, .. } => indexes.len(),
        }
    }

    /// The offset of the first block: what a parent record stores to find
    /// this array again. Zero while the array is empty.
    pub fn head(&self) -> (h: usize)
        ensures
            h == self.spec_head(),
    {
        match self {
            Array::Default { .. } => 0,
            Array::Alloced { head, .. } => *head,
        }
    }

    pub open spec fn spec_head(&self) -> usize {
        match self {
            Array::Default { .. } => 0,
            Array::Alloced { head, .. } => *head,
        }
    }

    /// What storing `elem` at index `index` does: `before` is the array
    /// before, `after` the array after. The array then holds `elem` at
    /// `index` and what it held everywhere else; every record that had a place
    /// is still at that place; the blocks that were there are still the first
    /// blocks; and nothing outside the array changed.
    pub open spec fn set_post(
        before: &Self,
        before_file: &TsFile,
        after: &Self,
        after_file: &TsFile,
        index: nat,
        elem: Ptr::Elem,
    ) -> bool {
        &&& after.wf(after_file)
        &&& after.spec_get(after_file, index) == Ok::<Ptr::Elem, Error>(elem)
        &&& forall|j: nat|
            j != index ==> after.spec_get(after_file, j) == before.spec_get(before_file, j)
        &&& after.slot_offset(index) is Some
        &&& forall|j: nat|
            before.slot_offset(j) is Some ==> after.slot_offset(j) == before.slot_offset(j)
        &&& before.blocks().len() <= after.blocks().len()
        &&& after.blocks().subrange(0, before.blocks().len() as int) == before.blocks()
        &&& after.outside(after_file) == before.outside(before_file)
        &&& forall|p: int|
            0 <= p < before_file@.len() && !Self::rewritten(before, after, index, elem, p)
                ==> after_file@[p] == before_file@[p]
    }

    /// Whether a store of `elem` at index `index`, which made `after` of the
    /// array `before`, may have rewritten byte `p`: the byte lies where the
    /// record is encoded, or in the link of what was the last block, where
    /// blocks were added behind it. Every other byte that was there stays
    /// as it was, padding too.
    pub open spec fn rewritten(before: &Self, after: &Self, index: nat, elem: Ptr::Elem, p: int) -> bool {
        ||| after.slot_offset(index) is Some && after.slot_offset(index)->0 <= p
            < after.slot_offset(index)->0 + Ptr::encode(elem).len()
        ||| 0 < before.blocks().len() < after.blocks().len() && before.blocks().last() <= p
            < before.blocks().last() + 8
    }

    /// Stores `elem` at index `index`, allocating the blocks that are still
    /// missing, in order. No record that was stored before moves, and no
    /// other index changes what it holds.
    pub fn set(&mut self, file: &mut TsFile, index: usize, elem: &Ptr::Elem) -> (r: Result<
        (),
        Error,
    >)
        requires
            old(self).wf(old(file)),
        ensures
            r is Ok,
            Self::set_post(old(self), old(file), final(self), final(file), index as nat, *elem),
            final(self).wf(final(file)),
            Ptr::storable(*elem),
            final(self).spec_get(final(file), index as nat) == Ok::<Ptr::Elem, Error>(*elem),
            forall|j: nat|
                j != index ==> final(self).spec_get(final(file), j) == old(self).spec_get(
                    old(file),
                    j,
                ),
            final(self).slot_offset(index as nat) is Some,
            forall|j: nat|
                old(self).slot_offset(j) is Some ==> final(self).slot_offset(j) == old(
                    self,
                ).slot_offset(j),
            final(self).blocks().len() == if block_of(index as nat) < old(self).blocks().len() {
                old(self).blocks().len()
            } else {
                block_of(index as nat) + 1
            },
            final(self).blocks().subrange(0, old(self).blocks().len() as int) == old(self).blocks(),
            final(file)@.len() >= old(file)@.len(),
            forall|p: int|
                0 <= p < old(file)@.len() && !old(self).owns(p) ==> final(file)@[p] == old(
                    file,
                )@[p],
            forall|p: int| final(self).owns(p) ==> old(self).owns(p) || p >= old(file)@.len(),
            old(self).persisted(old(file)) && old(file)@.len() > 0 ==> final(self).persisted(
                final(file),
            ),
            final(self).outside(final(file)) == old(self).outside(old(file)),
            final(file).latest_l1_block_id == old(file).latest_l1_block_id,
            final(file).block_count == old(file).block_count,
            final(file).tx_count == old(file).tx_count,
    {
        let lg: usize = log2_of_usize(index);
        let k: usize = if index == 0 {
            0
        } else {
            lg + 1
        };
        let ghost n0 = self.blocks().len();
        while self.block_count() <= k
            invariant
                k == block_of(index as nat),
                k <= usize::BITS,
                self.wf(file),
                n0 == old(self).blocks().len(),
                n0 <= self.blocks().len(),
                self.blocks().len() <= k + 1 || self.blocks().len() == n0,
                self.blocks().subrange(0, n0 as int) == old(self).blocks(),
                forall|m: int| n0 <= m < self.blocks().len() ==> self.blocks()[m] >= old(file)@.len(),
                forall|j: nat| self.spec_get(file, j) == old(self).spec_get(old(file), j),
                file@.len() >= old(file)@.len(),
                old(self).persisted(old(file)) && old(file)@.len() > 0 ==> self.persisted(file),
                self.outside(file) == old(self).outside(old(file)),
                forall|p: int|
                    0 <= p < old(file)@.len() && !old(self).owns(p) ==> file@[p] == old(file)@[p],
                forall|p: int|
                    0 <= p < old(file)@.len() && !(0 < n0 < self.blocks().len() && old(
                        self,
                    ).blocks().last() <= p < old(self).blocks().last() + 8) ==> file@[p] == old(
                        file,
                    )@[p],
                file.latest_l1_block_id == old(file).latest_l1_block_id,
                file.block_count == old(file).block_count,
                file.tx_count == old(file).tx_count,
            decreases k + 1 - self.blocks().len(),
        {
            let ghost prev = *self;
            let ghost prev_file = *file;
            let end: usize = file.len();
            let _ = self.alloc_block(file);
            proof {
                assert forall|p: int|
                    0 <= p < old(file)@.len() && !(0 < n0 < self.blocks().len() && old(
                        self,
                    ).blocks().last() <= p < old(self).blocks().last() + 8) implies file@[p] == old(
                    file,
                )@[p] by {
                    let n = prev.blocks().len() as int;
                    if n > 0 {
                        if n == n0 {
                            assert(prev.blocks().subrange(0, n0 as int)[n - 1] == old(
                                self,
                            ).blocks()[n - 1]);
                        } else {
                            assert(prev.blocks()[n - 1] >= old(file)@.len());
                        }
                    }
                    assert(file@[p] == prev_file@[p]);
                }
                assert forall|m: int| n0 <= m < self.blocks().len() implies self.blocks()[m] >= old(
                    file,
                )@.len() by {
                    if m < prev.blocks().len() {
                        assert(self.blocks()[m] == prev.blocks()[m]);
                    } else {
                        assert(self.blocks()[m] == end);
                    }
                }
                assert(self.blocks().subrange(0, n0 as int) =~= prev.blocks().subrange(
                    0,
                    n0 as int,
                ));
                assert forall|p: int| 0 <= p < old(file)@.len() && !old(self).owns(p) implies file@[p]
                    == old(file)@[p] by {
                    if prev.owns(p) {
                        let b = choose|b: int|
                            0 <= b < prev.blocks().len() && prev.blocks()[b] <= p
                                < #[trigger] prev.block_end(b);
                        if b < n0 {
                            assert(prev.blocks().subrange(0, n0 as int)[b] == old(self).blocks()[b]);
                            assert(old(self).block_end(b) == prev.block_end(b));
                            assert(old(self).owns(p));
                        }
                    }
                }
            }
        }
        let ghost mid = *self;
        let ghost mid_file = *file;
        let r = self.store(file, index, elem);
        proof {
            assert forall|j: nat| old(self).slot_offset(j) is Some implies mid.slot_offset(j)
                == old(self).slot_offset(j) by {
                let b = block_of(j) as int;
                assert(mid.blocks().subrange(0, n0 as int)[b] == old(self).blocks()[b]);
            }
            assert forall|p: int| mid.owns(p) implies old(self).owns(p) || p >= old(file)@.len() by {
                let b = choose|b: int|
                    0 <= b < mid.blocks().len() && mid.blocks()[b] <= p
                        < #[trigger] mid.block_end(b);
                if b < n0 {
                    assert(mid.blocks().subrange(0, n0 as int)[b] == old(self).blocks()[b]);
                    assert(old(self).block_end(b) == mid.block_end(b));
                    assert(old(self).owns(p));
                }
            }
            assert forall|p: int| 0 <= p < old(file)@.len() && !old(self).owns(p) implies file@[p]
                == old(file)@[p] by {
                assert(!mid.owns(p));
                assert(mid_file@[p] == old(file)@[p]);
            }
        }
        r
    }

    /// Stores `elem` at index `index`, whose block has been allocated.
    pub fn store(&self, file: &mut TsFile, index: usize, elem: &Ptr::Elem) -> (r: Result<(), Error>)
        requires
            self.wf(old(file)),
            self.slot_offset(index as nat) is Some,
        ensures
            r is Ok,
            self.wf(final(file)),
            Ptr::storable(*elem),
            self.spec_get(final(file), index as nat) == Ok::<Ptr::Elem, Error>(*elem),
            forall|j: nat|
                j != index ==> self.spec_get(final(file), j) == self.spec_get(old(file), j),
            final(file)@.len() == old(file)@.len(),
            final(file)@ == spliced(
                old(file)@,
                self.slot_offset(index as nat)->0,
                Ptr::encode(*elem),
            ),
            forall|p: int|
                0 <= p < old(file)@.len() && !self.owns(p) ==> final(file)@[p] == old(file)@[p],
            self.persisted(old(file)) ==> self.persisted(final(file)),
            self.outside(final(file)) == self.outside(old(file)),
            final(file).latest_l1_block_id == old(file).latest_l1_block_id,
            final(file).block_count == old(file).block_count,
            final(file).tx_count == old(file).tx_count,
    {
        let lg: usize = log2_of_usize(index);
        let k: usize = if index == 0 {
            0
        } else {
            lg + 1
        };
        proof {
            lemma_block_range(index as nat);
        }
        let rel: usize = if index == 0 {
            0
        } else {
            index - pow2_usize(lg)
        };
        let size: usize = Ptr::size();
        let flen: usize = file.len();
        let ghost mid_file = *file;
        proof {
            self.lemma_slot_inside(file, index as nat);
            assert(rel * size >= 0) by (nonlinear_arith)
                requires
                    rel >= 0,
                    size >= 0,
            ;
            assert(self.slot_offset(index as nat).unwrap() == self.blocks()[k as int] + 8 + rel
                * size);
        }
        match self {
            Array::Default { .. } => Err(Error::InvariantViolated),
            Array::Alloced { indexes, .. } => {
                let off: usize = indexes[k] + 8 + rel * size;
                let _ = Ptr::new(off).write(file, elem);
                proof {
                    let sz = Ptr::spec_size();
                    let enc = Ptr::encode(*elem);
                    Ptr::lemma_width(*elem);
                    assert(file@.len() == mid_file@.len());
                    assert(self.wf(file));
                    let slot = window(file@, off as int, sz);
                    assert(slot.subrange(0, enc.len() as int) =~= enc);
                    Ptr::lemma_round_trip(*elem, slot);
                    assert forall|j: nat| j != index implies self.spec_get(file, j)
                        == self.spec_get(&mid_file, j) by {
                        if self.slot_offset(j) is Some {
                            self.lemma_slots_disjoint(&mid_file, index as nat, j);
                            self.lemma_slot_inside(&mid_file, j);
                            let oj = self.slot_offset(j).unwrap();
                            assert(window(file@, oj, sz) =~= window(mid_file@, oj, sz));
                        }
                    }
                    assert forall|p: int| 0 <= p < mid_file@.len() && !self.owns(p) implies file@[p]
                        == mid_file@[p] by {
                        if off <= p < off + enc.len() {
                            assert(self.block_end(k as int) >= off + sz);
                            assert(self.owns(p));
                        }
                    }
                    assert(self.outside(file) =~= self.outside(&mid_file));
                    if self.persisted(&mid_file) {
                        assert forall|b: int| 0 <= b < self.blocks().len() implies spec_load_u64(
                            file@,
                            #[trigger] self.blocks()[b] as int,
                        ) == spec_load_u64(mid_file@, self.blocks()[b] as int) by {
                            let at = self.blocks()[b] as int;
                            assert(self.block_end(b) <= mid_file@.len());
                            assert(sz * block_cap(b as nat) >= 0) by (nonlinear_arith)
                                requires
                                    sz >= 0,
                                    block_cap(b as nat) >= 0,
                            ;
                            if b < k {
                                assert(self.block_end(b) <= self.blocks()[k as int]);
                            } else if b > k {
                                assert(self.block_end(k as int) <= self.blocks()[b]);
                            }
                            assert(window(file@, at, 8) =~= window(mid_file@, at, 8));
                        }
                    }
                }
                Ok(())
            },
        }
    }

    /// Reads index `index`: the stored record, or the default where none was stored.
    pub fn get(&self, file: &TsFile, index: usize) -> (r: Result<Ptr::Elem, Error>)
        requires
            self.wf(file),
        ensures
            r == self.spec_get(file, index as nat),
    {
        match self {
            Array::Default { .. } => Ok(Ptr::default()),
            Array::Alloced { indexes, .. } => {
                let lg: usize = log2_of_usize(index);
                let k: usize = if index == 0 {
                    0
                } else {
                    lg + 1
                };
                if k >= indexes.len() {
                    return Ok(Ptr::default());
                }
                proof {
                    lemma_block_range(index as nat);
                }
                let rel: usize = if index == 0 {
                    0
                } else {
                    index - pow2_usize(lg)
                };
                let size: usize = Ptr::size();
                let flen: usize = file.len();
                proof {
                    self.lemma_slot_inside(file, index as nat);
                    assert(rel == index as nat - block_base(block_of(index as nat)));
                    assert(rel * size >= 0) by (nonlinear_arith)
                        requires
                            rel >= 0,
                            size >= 0,
                    ;
                    assert(self.slot_offset(index as nat).unwrap() == indexes@[k as int] + 8 + rel
                        * size);
                }
                let off: usize = indexes[k] + 8 + rel * size;
                Ptr::new(off).read(file)
            },
        }
    }
}

/// Index `i` lies in the range of indices that its block holds.
pub proof fn lemma_block_range(i: nat)
    ensures
        block_base(block_of(i)) <= i < block_base(block_of(i)) + block_cap(block_of(i)),
        i > 0 ==> block_base(block_of(i)) == pow2(floor_log2(i)),
{
    if i > 0 {
        crate::index::lemma_floor_log2_bounds(i);
        vstd::arithmetic::power2::lemma_pow2_unfold(floor_log2(i) + 1);
    }
}

} // verus!
