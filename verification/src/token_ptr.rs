//! The token record: 64 bytes, the available and the locked amount.

use vstd::prelude::*;
use crate::array::ElemPtr;
use crate::bytes::{append, repeat, slice};
use crate::error::Error;
use crate::scalar::{modulus, Scalar};
use crate::token::Token;

verus! {

/// Points to a token record.
pub struct TokenPtr {
    index: usize,
}

impl ElemPtr for TokenPtr {
    type Elem = Token;

    open spec fn spec_size() -> nat {
        64
    }

    open spec fn spec_default() -> Token {
        Token::spec_default()
    }

    open spec fn storable(elem: Token) -> bool {
        elem.avl_amt@ < modulus() && elem.locked_amt@ < modulus()
    }

    open spec fn encode(elem: Token) -> Seq<u8> {
        elem.avl_amt.spec_bytes() + elem.locked_amt.spec_bytes()
    }

    open spec fn decode(bytes: Seq<u8>) -> Result<Token, Error> {
        Ok(
            Token {
                avl_amt: Scalar::spec_from_le(bytes.subrange(0, 32)),
                locked_amt: Scalar::spec_from_le(bytes.subrange(32, 64)),
            },
        )
    }

    closed spec fn spec_index(&self) -> nat {
        self.index as nat
    }

    proof fn lemma_width(elem: Token) {
        crate::bytes::lemma_le_bytes_len(elem.avl_amt@, 32);
        crate::bytes::lemma_le_bytes_len(elem.locked_amt@, 32);
    }

    proof fn lemma_round_trip(elem: Token, slot: Seq<u8>) {
        Self::lemma_width(elem);
        Scalar::lemma_bytes_round_trip(elem.avl_amt);
        Scalar::lemma_bytes_round_trip(elem.locked_amt);
        assert(slot.subrange(0, 64) =~= slot);
        assert(slot.subrange(0, 32) =~= elem.avl_amt.spec_bytes());
        assert(slot.subrange(32, 64) =~= elem.locked_amt.spec_bytes());
    }

    proof fn lemma_default() {
        let z = repeat(0u8, 64);
        assert(z.subrange(0, 32) =~= repeat(0u8, 32));
        assert(z.subrange(32, 64) =~= repeat(0u8, 32));
        crate::bytes::lemma_le_value_zeros(32);
    }

    fn size() -> usize {
        64
    }

    fn new(index: usize) -> Self {
        TokenPtr { index }
    }

    fn index(&self) -> usize {
        self.index
    }

    fn to_bytes(elem: &Token) -> Vec<u8> {
        let mut out = elem.avl_amt.to_le_bytes();
        let second = elem.locked_amt.to_le_bytes();
        append(&mut out, &second);
        out
    }

    fn from_bytes(slot: &Vec<u8>) -> Result<Token, Error> {
        let avl_amt = Scalar::from_le_bytes_mod_order(&slice(slot, 0, 32));
        let locked_amt = Scalar::from_le_bytes_mod_order(&slice(slot, 32, 64));
        Ok(Token { avl_amt, locked_amt })
    }

    fn default() -> Token {
        Token::default()
    }
}

} // verus!
