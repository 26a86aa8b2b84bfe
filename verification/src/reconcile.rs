//! Bringing committed and executed blocks into step.
//!
//! The chain reports blocks twice: when they are committed, and later when
//! they are executed. A committed block waits in a queue, in the order of
//! its number on the second layer, until its execution is reported; a block
//! that is committed again takes the place of its earlier commit.

use vstd::prelude::*;
use crate::error::Error;

verus! {

/// Where an event stands on the chain: its block, and its place in the block.
#[derive(Clone, Copy, Debug, PartialEq, Eq, Structural)]
pub struct EventRef {
    pub block_number: u64,
    pub tx_index: u64,
}

/// Whether the event `a` comes strictly before the event `b`. An event that
/// is there comes before one that is not, and no event comes before nothing
/// where it is itself not there.
pub open spec fn spec_slt(a: Option<EventRef>, b: Option<EventRef>) -> bool {
    match (a, b) {
        (None, _) => false,
        (Some(_), None) => true,
        (Some(x), Some(y)) => if x.block_number == y.block_number {
            x.tx_index < y.tx_index
        } else {
            x.block_number < y.block_number
        },
    }
}

/// Whether the event `a` comes strictly before the event `b`.
pub fn slt(a: &Option<EventRef>, b: &Option<EventRef>) -> (r: bool)
    ensures
        r == spec_slt(*a, *b),
{
    match (a, b) {
        (None, _) => false,
        (Some(_), None) => true,
        (Some(x), Some(y)) => {
            if x.block_number == y.block_number {
                x.tx_index < y.tx_index
            } else {
                x.block_number < y.block_number
            }
        },
    }
}

/// The committed blocks that wait for their execution, the lowest block
/// number first.
pub struct Reconciler {
    pub queue: Vec<(EventRef, u32)>,
}

/// What a commit of block `id` at `event` makes of the waiting blocks `q`:
/// the block goes to the end where its number is higher than all; it takes
/// the place of the waiting block of the same number where there is one and
/// none of a lower number waits behind it; else there is none.
pub open spec fn spec_committed(q: Seq<(EventRef, u32)>, event: EventRef, id: u32) -> Option<
    Seq<(EventRef, u32)>,
>
    decreases q.len(),
{
    if q.len() == 0 {
        Some(seq![(event, id)])
    } else if id > q.last().1 {
        Some(q.push((event, id)))
    } else {
        spec_replaced(q, event, id, q.len())
    }
}

/// The waiting blocks `q` with the block of the number `id` among the first
/// `i` replaced, looking from block `i` down, where none of a lower number is
/// met before it.
pub open spec fn spec_replaced(q: Seq<(EventRef, u32)>, event: EventRef, id: u32, i: nat) -> Option<
    Seq<(EventRef, u32)>,
>
    decreases i,
{
    if i == 0 {
        None
    } else if q[i - 1].1 == id {
        Some(q.update(i - 1, (event, id)))
    } else if id > q[i - 1].1 {
        None
    } else {
        spec_replaced(q, event, id, (i - 1) as nat)
    }
}

impl Reconciler {
    /// No block waits.
    pub fn new() -> (r: Reconciler)
        ensures
            r.queue@.len() == 0,
    {
        Reconciler { queue: Vec::new() }
    }

    /// Takes note that block `l2_block_id` was committed at `event`, or
    /// reports `BlockOrder` where the commit fits nowhere.
    pub fn on_committed(&mut self, event: EventRef, l2_block_id: u32) -> (r: Result<(), Error>)
        ensures
            match spec_committed(old(self).queue@, event, l2_block_id) {
                Some(q) => r is Ok && final(self).queue@ == q,
                None => r == Err::<(), Error>(Error::BlockOrder) && final(self).queue@ == old(self).queue@,
            },
    {
        let n: usize = self.queue.len();
        if n == 0 || l2_block_id > self.queue[n - 1].1 {
            self.queue.push((event, l2_block_id));
            return Ok(());
        }
        let mut i: usize = n;
        while i > 0
            invariant
                i <= n,
                n == self.queue@.len(),
                self.queue@ == old(self).queue@,
                spec_committed(old(self).queue@, event, l2_block_id) == spec_replaced(
                    old(self).queue@,
                    event,
                    l2_block_id,
                    i as nat,
                ),
            decreases i,
        {
            let there: u32 = self.queue[i - 1].1;
            if there == l2_block_id {
                self.queue.set(i - 1, (event, l2_block_id));
                return Ok(());
            } else if l2_block_id > there {
                return Err(Error::BlockOrder);
            }
            i -= 1;
        }
        Err(Error::BlockOrder)
    }

    /// What the report that block `l2_block_id` was executed asks for: where
    /// that block waits in front, the event of its commit, to fetch its data,
    /// and the block waits no longer; nothing where no block waits or a
    /// later one waits in front; `BlockOrder` where an earlier one does.
    pub fn on_executed(&mut self, l2_block_id: u32) -> (r: Result<Option<EventRef>, Error>)
        ensures
            old(self).queue@.len() == 0 ==> r == Ok::<Option<EventRef>, Error>(None) && final(self).queue@ == old(self).queue@,
            old(self).queue@.len() > 0 && l2_block_id > old(self).queue@[0].1 ==> r == Err::<
                Option<EventRef>,
                Error,
            >(Error::BlockOrder) && final(self).queue@ == old(self).queue@,
            old(self).queue@.len() > 0 && l2_block_id == old(self).queue@[0].1 ==> r == Ok::<
                Option<EventRef>,
                Error,
            >(Some(old(self).queue@[0].0)) && final(self).queue@ == old(self).queue@.drop_first(),
            old(self).queue@.len() > 0 && l2_block_id < old(self).queue@[0].1 ==> r == Ok::<
                Option<EventRef>,
                Error,
            >(None) && final(self).queue@ == old(self).queue@,
    {
        if self.queue.len() == 0 {
            return Ok(None);
        }
        let (event, waiting): (EventRef, u32) = self.queue[0];
        if l2_block_id > waiting {
            Err(Error::BlockOrder)
        } else if l2_block_id == waiting {
            let _ = self.queue.remove(0);
            Ok(Some(event))
        } else {
            Ok(None)
        }
    }
}

/// The number that the bytes `bytes[from .. to]` spell, most significant
/// byte first, where it fits 64 bits.
pub open spec fn spec_be_u64(bytes: Seq<u8>, from: int, to: int) -> Option<u64> {
    let v = le_value_be(bytes.subrange(from, to));
    if v <= u64::MAX {
        Some(v as u64)
    } else {
        None
    }
}

/// The number that `s` spells, most significant byte first.
pub open spec fn le_value_be(s: Seq<u8>) -> nat
    decreases s.len(),
{
    if s.len() == 0 {
        0
    } else {
        256 * le_value_be(s.drop_last()) + s.last() as nat
    }
}

/// The number that the bytes `bytes[from .. to]` spell, most significant
/// byte first, or nothing where it does not fit 64 bits.
pub fn be_u64(bytes: &Vec<u8>, from: usize, to: usize) -> (r: Option<u64>)
    requires
        from <= to <= bytes@.len(),
    ensures
        r == spec_be_u64(bytes@, from as int, to as int),
{
    let mut acc: u64 = 0;
    let mut i: usize = from;
    proof {
        assert(bytes@.subrange(from as int, from as int) =~= Seq::<u8>::empty());
    }
    while i < to
        invariant
            from <= i <= to <= bytes@.len(),
            acc == le_value_be(bytes@.subrange(from as int, i as int)),
        decreases to - i,
    {
        proof {
            let upto = bytes@.subrange(from as int, i + 1);
            assert(upto.drop_last() =~= bytes@.subrange(from as int, i as int));
            assert(upto.last() == bytes@[i as int]);
        }
        if acc > (u64::MAX - bytes[i] as u64) / 256 {
            proof {
                lemma_be_grows(bytes@, from as int, i + 1, to as int);
            }
            return None;
        }
        acc = acc * 256 + bytes[i] as u64;
        i += 1;
    }
    Some(acc)
}

/// More bytes spell no smaller number.
pub proof fn lemma_be_grows(bytes: Seq<u8>, from: int, mid: int, to: int)
    requires
        0 <= from <= mid <= to <= bytes.len(),
    ensures
        le_value_be(bytes.subrange(from, mid)) <= le_value_be(bytes.subrange(from, to)),
    decreases to - mid,
{
    if mid < to {
        lemma_be_grows(bytes, from, mid, to - 1);
        assert(bytes.subrange(from, to).drop_last() =~= bytes.subrange(from, to - 1));
    }
}

/// The requests of the first layer that still wait: of the three 32-byte
/// words that the chain answers with, the third less the second.
pub open spec fn spec_remaining_l1_req_count(answer: Seq<u8>) -> Option<u64> {
    if answer.len() < 96 {
        None
    } else {
        match (spec_be_u64(answer, 32, 64), spec_be_u64(answer, 64, 96)) {
            (Some(executed), Some(total)) => if total >= executed {
                Some((total - executed) as u64)
            } else {
                None
            },
            _ => None,
        }
    }
}

/// The requests of the first layer that still wait, or nothing where the
/// answer is too short or its numbers make no count.
pub fn remaining_l1_req_count(answer: &Vec<u8>) -> (r: Option<u64>)
    ensures
        r == spec_remaining_l1_req_count(answer@),
{
    if answer.len() < 96 {
        return None;
    }
    let executed: u64 = match be_u64(answer, 32, 64) {
        Some(v) => v,
        None => {
            return None;
        },
    };
    let total: u64 = match be_u64(answer, 64, 96) {
        Some(v) => v,
        None => {
            return None;
        },
    };
    if total < executed {
        return None;
    }
    Some(total - executed)
}

} // verus!
