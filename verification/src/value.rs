//! A single field element at a fixed place in the arena.

use vstd::prelude::*;
use crate::error::Error;
use crate::file::{load_fr, masked, spec_load_fr, spliced, write_fr, TsFile};
use crate::scalar::{modulus, Scalar};

verus! {

/// Points to a field element in the arena.
pub struct Value {
    pub index: usize,
}

impl Value {
    /// The 32 bytes that hold the element.
    pub open spec fn footprint(&self) -> Set<int> {
        Set::new(|p: int| self.index <= p < self.index + 32)
    }

    /// The bytes of the element lie inside the arena.
    pub open spec fn wf(&self, file: &TsFile) -> bool {
        self.index + 32 <= file@.len()
    }

    /// The element that the bytes name.
    pub open spec fn spec_get(&self, file: &TsFile) -> Scalar {
        Scalar::spec_new(spec_load_fr(file@, self.index as int))
    }

    /// The value at `index`.
    pub fn load(file: &TsFile, index: usize) -> (r: Result<Value, Error>)
        ensures
            r is Ok,
            r->Ok_0.index == index,
    {
        Ok(Value { index })
    }

    /// A new value at the end of the arena, which is zero.
    pub fn alloc_value(file: &mut TsFile) -> (r: Result<Value, Error>)
        ensures
            r is Ok,
            r->Ok_0.index == old(file)@.len(),
            r->Ok_0.wf(final(file)),
            final(file)@ == old(file)@ + crate::bytes::repeat(0u8, 32),
            final(file).latest_l1_block_id == old(file).latest_l1_block_id,
            final(file).block_count == old(file).block_count,
            final(file).tx_count == old(file).tx_count,
    {
        let index = file.alloc_val(32);
        Ok(Value { index })
    }

    /// The element.
    pub fn get(&self, file: &TsFile) -> (r: Result<Scalar, Error>)
        ensures
            r == Ok::<Scalar, Error>(self.spec_get(file)),
    {
        let x = load_fr(file, self.index);
        x.check_reduced_spec();
        Ok(x)
    }

    /// Replaces the element by `value`. Nothing else in the arena changes.
    pub fn set(&mut self, file: &mut TsFile, value: &Scalar) -> (r: Result<(), Error>)
        requires
            old(self).wf(old(file)),
        ensures
            r is Ok,
            *final(self) == *old(self),
            final(self).wf(final(file)),
            final(self).spec_get(final(file)) == *value,
            final(file)@.len() == old(file)@.len(),
            masked(final(file)@, final(self).footprint()) == masked(
                old(file)@,
                old(self).footprint(),
            ),
            final(file).latest_l1_block_id == old(file).latest_l1_block_id,
            final(file).block_count == old(file).block_count,
            final(file).tx_count == old(file).tx_count,
    {
        value.check_reduced_spec();
        write_fr(file, self.index, *value);
        proof {
            Scalar::lemma_bytes_round_trip(*value);
            assert(crate::file::window(file@, self.index as int, 32) =~= value.spec_bytes());
            assert(masked(file@, self.footprint()) =~= masked(old(file)@, self.footprint()));
        }
        Ok(())
    }

    /// Whatever leaves the arena outside some other bytes alone leaves the
    /// element alone.
    pub proof fn lemma_untouched(
        &self,
        before: &TsFile,
        own_before: Set<int>,
        after: &TsFile,
        own_after: Set<int>,
    )
        requires
            self.wf(before),
            forall|p: int| self.footprint().contains(p) ==> !own_before.contains(p),
            masked(after@, own_after) == masked(before@, own_before),
        ensures
            self.wf(after),
            forall|p: int| self.footprint().contains(p) ==> !own_after.contains(p),
            self.spec_get(after) == self.spec_get(before),
    {
        assert forall|p: int| self.index <= p < self.index + 32 implies !own_after.contains(p) && p
            < after@.len() && (#[trigger] after@[p]) == before@[p] by {
            assert(self.footprint().contains(p));
            assert(masked(before@, own_before)[p] == Some(before@[p]));
            assert(masked(after@, own_after)[p] == Some(before@[p]));
        }
        assert(self.index + 32 <= after@.len()) by {
            let last = self.index + 31;
            assert(after@[last] == before@[last]);
        }
        assert(crate::file::window(after@, self.index as int, 32) =~= crate::file::window(
            before@,
            self.index as int,
            32,
        ));
        assert forall|p: int| self.footprint().contains(p) implies !own_after.contains(p) by {
            assert(after@[p] == before@[p]);
        }
    }
}

} // verus!
