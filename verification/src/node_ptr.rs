//! The node slot: 32 bytes that hold an optional field element.

use vstd::prelude::*;
use crate::array::ElemPtr;
use crate::bytes::{all_bytes, filled, le_value, repeat};
use crate::error::Error;
use crate::scalar::{modulus, Scalar};

verus! {

/// Points to a node slot. All-zero bytes stand for no node, all-`0xFF` bytes
/// for the element zero, anything else for the element that the bytes name.
pub struct NodePtr {
    index: usize,
}

impl ElemPtr for NodePtr {
    type Elem = Option<Scalar>;

    open spec fn spec_size() -> nat {
        32
    }

    open spec fn spec_default() -> Option<Scalar> {
        None
    }

    open spec fn storable(elem: Option<Scalar>) -> bool {
        elem is Some ==> elem->0@ < modulus()
    }

    open spec fn encode(elem: Option<Scalar>) -> Seq<u8> {
        match elem {
            None => repeat(0u8, 32),
            Some(x) => if x@ == 0 {
                repeat(0xFFu8, 32)
            } else {
                x.spec_bytes()
            },
        }
    }

    open spec fn decode(bytes: Seq<u8>) -> Result<Option<Scalar>, Error> {
        if bytes == repeat(0u8, 32) {
            Ok(None)
        } else if bytes == repeat(0xFFu8, 32) {
            Ok(Some(Scalar::spec_new(0)))
        } else {
            Ok(Some(Scalar::spec_from_le(bytes)))
        }
    }

    closed spec fn spec_index(&self) -> nat {
        self.index as nat
    }

    proof fn lemma_width(elem: Option<Scalar>) {
        crate::bytes::lemma_le_bytes_len(elem->0@, 32);
    }

    proof fn lemma_round_trip(elem: Option<Scalar>, slot: Seq<u8>) {
        let enc = Self::encode(elem);
        Self::lemma_width(elem);
        assert(slot.subrange(0, 32) =~= slot);
        match elem {
            None => {},
            Some(x) => {
                assert(repeat(0xFFu8, 32)[0] != repeat(0u8, 32)[0]);
                if x@ == 0 {
                    Scalar::lemma_spec_new_of_view(x);
                } else {
                    Scalar::lemma_bytes_round_trip(x);
                    crate::bytes::lemma_le_value_zeros(32);
                    crate::bytes::lemma_le_value_ones(32);
                    crate::bytes::lemma_pow256_32();
                }
            },
        }
    }

    proof fn lemma_default() {
    }

    fn size() -> usize {
        32
    }

    fn new(index: usize) -> Self {
        NodePtr { index }
    }

    fn index(&self) -> usize {
        self.index
    }

    fn to_bytes(elem: &Option<Scalar>) -> Vec<u8> {
        match elem {
            Some(node) => {
                if node.is_zero() {
                    node.check_reduced();
                    filled(0xFFu8, 32)
                } else {
                    node.to_le_bytes()
                }
            },
            None => filled(0u8, 32),
        }
    }

    fn from_bytes(slot: &Vec<u8>) -> Result<Option<Scalar>, Error> {
        if all_bytes(slot, 0u8) {
            Ok(None)
        } else if all_bytes(slot, 0xFFu8) {
            Ok(Some(Scalar::zero()))
        } else {
            Ok(Some(Scalar::from_le_bytes_mod_order(slot)))
        }
    }

    fn default() -> Option<Scalar> {
        None
    }
}

} // verus!
