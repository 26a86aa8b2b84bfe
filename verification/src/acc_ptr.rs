//! The account record: 176 bytes, of which the first 80 hold the address, the
//! nonce and the heads of the account's two token-tree arrays; the rest is
//! reserved.

use vstd::prelude::*;
use crate::array::ElemPtr;
use crate::bytes::{append, le_bytes, le_value, push_u64_le, read_u64_le, repeat, slice};
use crate::error::Error;
use crate::scalar::{modulus, Scalar};

verus! {

/// What an account slot stores. The token tree itself lies elsewhere in the
/// arena; the record only says where its two arrays start (zero: not yet
/// anywhere).
#[derive(Clone, Copy, Debug, PartialEq, Eq, Structural)]
pub struct AccountRecord {
    pub l2_addr: Scalar,
    pub nonce: Scalar,
    pub nodes_head: u64,
    pub tokens_head: u64,
}

impl AccountRecord {
    /// The record of an account that was never written.
    pub open spec fn spec_default() -> AccountRecord {
        AccountRecord {
            l2_addr: Scalar::spec_new(0),
            nonce: Scalar::spec_new(0),
            nodes_head: 0,
            tokens_head: 0,
        }
    }
}

/// Points to an account record.
pub struct AccPtr {
    index: usize,
}

impl ElemPtr for AccPtr {
    type Elem = AccountRecord;

    open spec fn spec_size() -> nat {
        176
    }

    open spec fn spec_default() -> AccountRecord {
        AccountRecord::spec_default()
    }

    open spec fn storable(elem: AccountRecord) -> bool {
        elem.l2_addr@ < modulus() && elem.nonce@ < modulus()
    }

    open spec fn encode(elem: AccountRecord) -> Seq<u8> {
        elem.l2_addr.spec_bytes() + elem.nonce.spec_bytes() + le_bytes(elem.nodes_head as nat, 8)
            + le_bytes(elem.tokens_head as nat, 8)
    }

    open spec fn decode(bytes: Seq<u8>) -> Result<AccountRecord, Error> {
        Ok(
            AccountRecord {
                l2_addr: Scalar::spec_from_le(bytes.subrange(0, 32)),
                nonce: Scalar::spec_from_le(bytes.subrange(32, 64)),
                nodes_head: le_value(bytes.subrange(64, 72)) as u64,
                tokens_head: le_value(bytes.subrange(72, 80)) as u64,
            },
        )
    }

    closed spec fn spec_index(&self) -> nat {
        self.index as nat
    }

    proof fn lemma_width(elem: AccountRecord) {
        crate::bytes::lemma_le_bytes_len(elem.l2_addr@, 32);
        crate::bytes::lemma_le_bytes_len(elem.nonce@, 32);
        crate::bytes::lemma_le_bytes_len(elem.nodes_head as nat, 8);
        crate::bytes::lemma_le_bytes_len(elem.tokens_head as nat, 8);
    }

    proof fn lemma_round_trip(elem: AccountRecord, slot: Seq<u8>) {
        Self::lemma_width(elem);
        Scalar::lemma_bytes_round_trip(elem.l2_addr);
        Scalar::lemma_bytes_round_trip(elem.nonce);
        crate::bytes::lemma_pow256_8();
        crate::bytes::lemma_le_value_of_le_bytes(elem.nodes_head as nat, 8);
        crate::bytes::lemma_le_value_of_le_bytes(elem.tokens_head as nat, 8);
        let enc = Self::encode(elem);
        crate::bytes::lemma_le_bytes_len(elem.nodes_head as nat, 8);
        crate::bytes::lemma_le_bytes_len(elem.tokens_head as nat, 8);
        assert(enc.len() == 80);
        let pre = slot.subrange(0, 80);
        assert(pre == enc);
        assert(slot.subrange(0, 32) =~= pre.subrange(0, 32));
        assert(slot.subrange(32, 64) =~= pre.subrange(32, 64));
        assert(slot.subrange(64, 72) =~= pre.subrange(64, 72));
        assert(slot.subrange(72, 80) =~= pre.subrange(72, 80));
        assert(enc.subrange(0, 32) =~= elem.l2_addr.spec_bytes());
        assert(enc.subrange(32, 64) =~= elem.nonce.spec_bytes());
        assert(enc.subrange(64, 72) =~= le_bytes(elem.nodes_head as nat, 8));
        assert(enc.subrange(72, 80) =~= le_bytes(elem.tokens_head as nat, 8));
    }

    proof fn lemma_default() {
        let z = repeat(0u8, 176);
        assert(z.subrange(0, 32) =~= repeat(0u8, 32));
        assert(z.subrange(32, 64) =~= repeat(0u8, 32));
        assert(z.subrange(64, 72) =~= repeat(0u8, 8));
        assert(z.subrange(72, 80) =~= repeat(0u8, 8));
        crate::bytes::lemma_le_value_zeros(8);
        crate::bytes::lemma_le_value_zeros(32);
    }

    fn size() -> usize {
        176
    }

    fn new(index: usize) -> Self {
        AccPtr { index }
    }

    fn index(&self) -> usize {
        self.index
    }

    fn to_bytes(elem: &AccountRecord) -> Vec<u8> {
        let mut out = elem.l2_addr.to_le_bytes();
        let nonce = elem.nonce.to_le_bytes();
        append(&mut out, &nonce);
        push_u64_le(&mut out, elem.nodes_head);
        push_u64_le(&mut out, elem.tokens_head);
        out
    }

    fn from_bytes(slot: &Vec<u8>) -> Result<AccountRecord, Error> {
        let l2_addr = Scalar::from_le_bytes_mod_order(&slice(slot, 0, 32));
        let nonce = Scalar::from_le_bytes_mod_order(&slice(slot, 32, 64));
        let nodes_head = read_u64_le(slot, 64);
        let tokens_head = read_u64_le(slot, 72);
        Ok(AccountRecord { l2_addr, nonce, nodes_head, tokens_head })
    }

    fn default() -> AccountRecord {
        AccountRecord {
            l2_addr: Scalar::zero(),
            nonce: Scalar::zero(),
            nodes_head: 0,
            tokens_head: 0,
        }
    }
}

} // verus!
