//! The bond-info record: 64 bytes, of which the first 40 hold the base token
//! id and the maturity; the rest is reserved.

use vstd::prelude::*;
use crate::array::ElemPtr;
use crate::bytes::{append, le_bytes, le_value, push_u64_le, read_u64_le, repeat, slice};
use crate::error::Error;
use crate::scalar::{modulus, Scalar};
use crate::tsb_info::TSBInfo;

verus! {

/// Points to a bond-info record.
pub struct TSBInfoPtr {
    index: usize,
}

impl ElemPtr for TSBInfoPtr {
    type Elem = TSBInfo;

    open spec fn spec_size() -> nat {
        64
    }

    open spec fn spec_default() -> TSBInfo {
        TSBInfo::spec_default()
    }

    open spec fn storable(elem: TSBInfo) -> bool {
        elem.maturity@ < modulus()
    }

    open spec fn encode(elem: TSBInfo) -> Seq<u8> {
        le_bytes(elem.base_token_id as nat, 8) + elem.maturity.spec_bytes()
    }

    open spec fn decode(bytes: Seq<u8>) -> Result<TSBInfo, Error> {
        Ok(
            TSBInfo {
                base_token_id: le_value(bytes.subrange(0, 8)) as u64,
                maturity: Scalar::spec_from_le(bytes.subrange(8, 40)),
            },
        )
    }

    closed spec fn spec_index(&self) -> nat {
        self.index as nat
    }

    proof fn lemma_width(elem: TSBInfo) {
        crate::bytes::lemma_le_bytes_len(elem.base_token_id as nat, 8);
        crate::bytes::lemma_le_bytes_len(elem.maturity@, 32);
    }

    proof fn lemma_round_trip(elem: TSBInfo, slot: Seq<u8>) {
        Self::lemma_width(elem);
        Scalar::lemma_bytes_round_trip(elem.maturity);
        crate::bytes::lemma_pow256_8();
        crate::bytes::lemma_le_value_of_le_bytes(elem.base_token_id as nat, 8);
        let enc = Self::encode(elem);
        crate::bytes::lemma_le_bytes_len(elem.base_token_id as nat, 8);
        assert(enc.len() == 40);
        let pre = slot.subrange(0, 40);
        assert(pre == enc);
        assert(slot.subrange(0, 8) =~= pre.subrange(0, 8));
        assert(slot.subrange(8, 40) =~= pre.subrange(8, 40));
        assert(enc.subrange(0, 8) =~= le_bytes(elem.base_token_id as nat, 8));
        assert(enc.subrange(8, 40) =~= elem.maturity.spec_bytes());
    }

    proof fn lemma_default() {
        let z = repeat(0u8, 64);
        assert(z.subrange(0, 8) =~= repeat(0u8, 8));
        assert(z.subrange(8, 40) =~= repeat(0u8, 32));
        crate::bytes::lemma_le_value_zeros(8);
        crate::bytes::lemma_le_value_zeros(32);
    }

    fn size() -> usize {
        64
    }

    fn new(index: usize) -> Self {
        TSBInfoPtr { index }
    }

    fn index(&self) -> usize {
        self.index
    }

    fn to_bytes(elem: &TSBInfo) -> Vec<u8> {
        let mut out: Vec<u8> = Vec::new();
        push_u64_le(&mut out, elem.base_token_id);
        let second = elem.maturity.to_le_bytes();
        append(&mut out, &second);
        out
    }

    fn from_bytes(slot: &Vec<u8>) -> Result<TSBInfo, Error> {
        let base_token_id = read_u64_le(slot, 0);
        let maturity = Scalar::from_le_bytes_mod_order(&slice(slot, 8, 40));
        Ok(TSBInfo { base_token_id, maturity })
    }

    fn default() -> TSBInfo {
        TSBInfo::default()
    }
}

} // verus!
