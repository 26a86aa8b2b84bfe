//! What is asked of the chain and what is made of its answers: the names
//! of events and calls, the windows of blocks in which events are looked
//! for, and the committed block as the replay reads it.

use vstd::prelude::*;
use sha3::{Digest, Keccak256};

verus! {

/// A block of the second layer as it was committed.
#[derive(Clone, Debug)]
pub struct Block {
    pub block_number: u64,
    pub new_state_root: Vec<u8>,
    pub new_ts_root: Vec<u8>,
    pub timestamp: u64,
    pub chunk_id_deltas: Vec<u64>,
    pub public_data: Vec<u8>,
}

/// The Keccak-256 digest of a text.
pub uninterp spec fn spec_keccak256(text: Seq<char>) -> Seq<u8>;

/// Calls `Keccak256` of sha3 on the bytes of `input`: the result is the
/// digest of the text, which has 32 bytes.
#[verifier::external_body]
fn keccak256(input: &str) -> (r: Vec<u8>)
    ensures
        r@ == spec_keccak256(input@),
        r@.len() == 32,
{
    let mut hasher = Keccak256::new();
    hasher.update(input);
    hasher.finalize().to_vec()
}

/// The topic under which the chain files the events of the signature
/// `signature`: the digest of the signature.
pub fn event_topic(signature: &str) -> (r: Vec<u8>)
    ensures
        r@ == spec_keccak256(signature@),
        r@.len() == 32,
{
    keccak256(signature)
}

/// The four bytes by which a call names the function of the signature
/// `signature`: the first four of the signature's digest.
pub fn selector(signature: &str) -> (r: Vec<u8>)
    ensures
        r@ == spec_keccak256(signature@).subrange(0, 4),
{
    let digest: Vec<u8> = keccak256(signature);
    let mut r: Vec<u8> = Vec::new();
    let mut i: usize = 0;
    while i < 4
        invariant
            i <= 4,
            digest@.len() == 32,
            r@ == digest@.subrange(0, i as int),
        decreases 4 - i,
    {
        r.push(digest[i]);
        proof {
            assert(r@ =~= digest@.subrange(0, i + 1));
        }
        i += 1;
    }
    r
}

/// The sixteen digits, in lower case.
pub open spec fn hex_digit(n: u8) -> char {
    seq!['0', '1', '2', '3', '4', '5', '6', '7', '8', '9', 'a', 'b', 'c', 'd', 'e', 'f'][n as int]
}

/// The bytes in hexadecimal, two digits a byte, the high one first.
pub open spec fn spec_hex(bytes: Seq<u8>) -> Seq<char>
    decreases bytes.len(),
{
    if bytes.len() == 0 {
        Seq::empty()
    } else {
        spec_hex(bytes.drop_last()).push(hex_digit(bytes.last() / 16)).push(
            hex_digit(bytes.last() % 16),
        )
    }
}

/// Calls `encode` of hex, which writes each byte as two lower-case
/// hexadecimal digits, the high one first.
#[verifier::external_body]
fn hex_encode(bytes: &Vec<u8>) -> (r: String)
    ensures
        r@ == spec_hex(bytes@),
{
    hex::encode(bytes)
}

/// Whether the answer to the question for the evacuation mode says yes:
/// its first byte is one.
pub fn is_evacuation_answer(answer: &Vec<u8>) -> (r: bool)
    requires
        answer@.len() > 0,
    ensures
        r == (answer@[0] == 1),
{
    answer[0] == 1
}

/// The next window of blocks in which to look for events, going up: it
/// starts behind `last`, spans `batch` blocks and does not pass `end`;
/// nothing where no block is left.
pub open spec fn spec_window_up(last: u64, end: u64, batch: u64) -> Option<(u64, u64)> {
    let start = last + 1;
    let stop = if start + batch > end {
        end as int
    } else {
        start + batch
    };
    if start >= stop {
        None
    } else {
        Some((start as u64, stop as u64))
    }
}

/// The next window of blocks in which to look for events, going up.
pub fn window_up(last: u64, end: u64, batch: u64) -> (r: Option<(u64, u64)>)
    ensures
        r == spec_window_up(last, end, batch),
{
    if last >= end {
        return None;
    }
    let start: u64 = last + 1;
    let stop: u64 = if batch > end - start {
        end
    } else {
        start + batch
    };
    if start >= stop {
        None
    } else {
        Some((start, stop))
    }
}

/// The window of blocks that ends at `current`, going down: where it
/// starts, or nothing where it starts with the chain; and the block at
/// which the window below it ends, or nothing where there is none.
pub open spec fn spec_window_down(current: u64, batch: u64) -> (Option<u64>, Option<u64>) {
    if current > batch {
        (Some((current - batch) as u64), Some((current - batch - 1) as u64))
    } else {
        (None, None)
    }
}

/// The window of blocks that ends at `current`, going down.
pub fn window_down(current: u64, batch: u64) -> (r: (Option<u64>, Option<u64>))
    ensures
        r == spec_window_down(current, batch),
{
    if current > batch {
        (Some(current - batch), Some(current - batch - 1))
    } else {
        (None, None)
    }
}

/// How many of `found` requests are handed on when `remaining` wait.
pub open spec fn spec_taken(found: nat, remaining: nat) -> nat {
    if remaining < found {
        remaining
    } else {
        found
    }
}

/// The data of the requests that still wait, in hexadecimal and the oldest
/// first: `newest_first` holds the data of the requests that were found, the
/// newest first, and `remaining` says how many of them wait.
pub fn consume_data(newest_first: &Vec<Vec<u8>>, remaining: usize) -> (r: Vec<String>)
    ensures
        r@.len() == spec_taken(newest_first@.len(), remaining as nat),
        forall|i: int|
            0 <= i < r@.len() ==> (#[trigger] r@[i])@ == spec_hex(
                newest_first@[r@.len() - 1 - i]@,
            ),
{
    let n: usize = if remaining < newest_first.len() {
        remaining
    } else {
        newest_first.len()
    };
    let mut r: Vec<String> = Vec::new();
    let mut k: usize = n;
    while k > 0
        invariant
            k <= n <= newest_first@.len(),
            r@.len() == n - k,
            forall|i: int|
                0 <= i < r@.len() ==> (#[trigger] r@[i])@ == spec_hex(newest_first@[n - 1 - i]@),
        decreases k,
    {
        k -= 1;
        r.push(hex_encode(&newest_first[k]));
    }
    r
}

} // verus!
