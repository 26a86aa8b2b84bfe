//! What a holder needs to leave the rollup: the balance of a token in an
//! account, and the membership records that tie it to the state root.

use vstd::prelude::*;
use crate::acc_ptr::AccountRecord;
use crate::account::{
    leaf_loaded, lemma_leaf_loaded_same, spec_leaf, spec_token_of, Account, AccountTree,
};
use crate::error::Error;
use crate::file::TsFile;
use crate::leaves::MerkleTreeWithLeaves;
use crate::merkle::{node_at, root_readable, spec_path, spec_root, verify_post, MerkleNodes, MerkleTree};
use crate::scalar::{decimal, spec_decimal_int, usize_to_string, Scalar};
use crate::state::{spec_state_root, State};
use crate::token::{Token, TokenTree};

verus! {

/// Where the arena lies and how the chain is reached.
#[derive(Clone, Debug)]
pub struct Config {
    pub ts_filename: String,
    pub ts_contract_addr: String,
    pub api_key: String,
    pub api_link: String,
    pub l2_genesis_l1_anchor_id: u64,
    pub max_parallel_calls: u64,
    pub filter_batch_size: u64,
}

/// The balance of one token in one account, in decimal.
#[derive(Clone, Debug)]
pub struct Funds {
    pub acc_id: usize,
    pub token_id: usize,
    pub avl_amt: String,
    pub locked_amt: String,
}

/// The inputs of an evacuation proof, every number in decimal.
#[derive(Clone, Debug)]
pub struct EvacuProof {
    pub current_time: String,
    pub state_root: String,
    pub ts_root: String,
    pub acc_root: String,
    pub acc_id: String,
    pub nonce: String,
    pub ts_addr: String,
    pub token_root: String,
    pub token_id: String,
    pub avl_amt: String,
    pub locked_amt: String,
    pub acc_mk_prf: Vec<String>,
    pub token_mk_prf: Vec<String>,
}

/// The digests `path` in decimal.
pub open spec fn spec_decimals(path: Seq<Scalar>) -> Seq<Seq<char>> {
    Seq::new(path.len(), |i: int| decimal(path[i]@))
}

/// The strings `v` as sequences of characters.
pub open spec fn spec_strings(v: Seq<String>) -> Seq<Seq<char>> {
    Seq::new(v.len(), |i: int| v[i]@)
}

/// The digests `path` in decimal.
pub fn decimals(path: &Vec<Scalar>) -> (out: Vec<String>)
    ensures
        spec_strings(out@) == spec_decimals(path@),
{
    let mut out: Vec<String> = Vec::new();
    let mut i: usize = 0;
    while i < path.len()
        invariant
            i <= path@.len(),
            out@.len() == i,
            forall|j: int| 0 <= j < i ==> (#[trigger] out@[j])@ == decimal(path@[j]@),
        decreases path@.len() - i,
    {
        out.push(path[i].to_string());
        i += 1;
    }
    proof {
        assert(spec_strings(out@) =~= spec_decimals(path@));
    }
    out
}

/// The balance of token `token_id` in account `acc_id`: what the account's
/// token tree holds, or the error with which the account cannot be read.
pub fn query_funds(state: &State, file: &TsFile, acc_id: usize, token_id: usize) -> (r: Result<
    Funds,
    Error,
>)
    requires
        state.wf(file),
    ensures
        match state.accounts.spec_leaf_at(file, acc_id as nat) {
            Ok(rec) => r is Ok && ({
                let funds = r->Ok_0;
                let token = spec_token_of(file@, rec, token_id as nat);
                &&& funds.acc_id == acc_id
                &&& funds.token_id == token_id
                &&& funds.avl_amt@ == decimal(token.avl_amt@)
                &&& funds.locked_amt@ == decimal(token.locked_amt@)
            }),
            Err(e) => r is Err && r->Err_0 == e,
        },
{
    let account = state.accounts.leaf_at(file, acc_id)?;
    proof {
        crate::account::lemma_token_tree_loads(&account.tokens, file);
        account.tokens.tokens.lemma_chain_get(file, token_id as nat);
    }
    let token = account.tokens.leaf_at(file, token_id)?;
    Ok(
        Funds {
            acc_id,
            token_id,
            avl_amt: token.avl_amt.to_string(),
            locked_amt: token.locked_amt.to_string(),
        },
    )
}

/// What an evacuation proof for token `token_id` of the account `account`,
/// which is account `acc_id` of `state`, holds: the roots, the account and
/// the balance, and the two sibling paths, every number in decimal.
pub open spec fn evacu_proof_of(
    state: &State,
    file: &TsFile,
    account: &Account,
    acc_id: usize,
    token_id: usize,
    current_time: Seq<char>,
    proof: EvacuProof,
) -> bool {
    let token = account.tokens.tokens.spec_get(file, token_id as nat)->Ok_0;
    &&& proof.current_time@ == current_time
    &&& proof.state_root@ == decimal(
        spec_state_root(
            state.accounts.hasher,
            state.ts_root.spec_get(file),
            spec_root(&state.accounts, file),
        )@,
    )
    &&& proof.ts_root@ == decimal(state.ts_root.spec_get(file)@)
    &&& proof.acc_root@ == decimal(spec_root(&state.accounts, file)@)
    &&& proof.acc_id@ == spec_decimal_int(acc_id as nat)
    &&& proof.nonce@ == decimal(account.nonce@)
    &&& proof.ts_addr@ == decimal(account.l2_addr@)
    &&& proof.token_root@ == decimal(spec_root(&account.tokens, file)@)
    &&& proof.token_id@ == spec_decimal_int(token_id as nat)
    &&& proof.avl_amt@ == decimal(token.avl_amt@)
    &&& proof.locked_amt@ == decimal(token.locked_amt@)
    &&& spec_strings(proof.acc_mk_prf@) == spec_decimals(
        spec_path(&state.accounts, file, acc_id as nat),
    )
    &&& spec_strings(proof.token_mk_prf@) == spec_decimals(
        spec_path(&account.tokens, file, token_id as nat),
    )
}

/// The evacuation proof for token `token_id` of account `acc_id`, which has
/// been loaded as `account`. It is refused with `InvalidLeafId` where an id
/// lies beyond its tree and with `OutOfRangeProof` where a tree has no root
/// to read.
pub fn evacu_proof(
    state: &State,
    file: &TsFile,
    account: &Account,
    acc_id: usize,
    token_id: usize,
    current_time: String,
) -> (r: Result<EvacuProof, Error>)
    requires
        state.wf(file),
        account.tokens.wf(file),
    ensures
        r is Ok <==> acc_id < vstd::arithmetic::power2::pow2(state.accounts.spec_level())
            && root_readable(&state.accounts, file) && token_id
            < vstd::arithmetic::power2::pow2(account.tokens.spec_level()) && root_readable(
            &account.tokens,
            file,
        ),
        r is Ok ==> evacu_proof_of(state, file, account, acc_id, token_id, current_time@, r->Ok_0),
        r is Err ==> r->Err_0 == Error::InvalidLeafId || r->Err_0 == Error::OutOfRangeProof,
{
    let acc_prf = state.accounts.verify_leaf_node(file, acc_id)?;
    let token_prf = account.tokens.verify_leaf_node(file, token_id)?;
    let token = account.tokens.leaf_at(file, token_id)?;
    let state_root = state.get_root(file)?;
    let ts_root = state.ts_root.get(file)?;
    let acc_root = state.accounts.get_root(file)?;
    let token_root = account.tokens.get_root(file)?;
    Ok(
        EvacuProof {
            current_time,
            state_root: state_root.to_string(),
            ts_root: ts_root.to_string(),
            acc_root: acc_root.to_string(),
            acc_id: usize_to_string(acc_id),
            nonce: account.nonce.to_string(),
            ts_addr: account.l2_addr.to_string(),
            token_root: token_root.to_string(),
            token_id: usize_to_string(token_id),
            avl_amt: token.avl_amt.to_string(),
            locked_amt: token.locked_amt.to_string(),
            acc_mk_prf: decimals(&acc_prf.proof),
            token_mk_prf: decimals(&token_prf.proof),
        },
    )
}

/// The evacuation proof for token `token_id` of account `acc_id`: the
/// account is read from the state, and the proof is the one of `evacu_proof`
/// for it. Where the account cannot be read, that is the error; else the
/// proof is made exactly where both ids lie within their trees and both
/// trees have a root to read.
pub fn get_evacu_prf(
    state: &State,
    file: &TsFile,
    acc_id: usize,
    token_id: usize,
    current_time: String,
) -> (r: Result<EvacuProof, Error>)
    requires
        state.wf(file),
    ensures
        match state.accounts.spec_leaf_at(file, acc_id as nat) {
            Err(e) => r is Err && r->Err_0 == e,
            Ok(_) => {
                let account = spec_leaf(&state.accounts, file, acc_id as nat);
                &&& r is Ok <==> acc_id < vstd::arithmetic::power2::pow2(
                    state.accounts.spec_level(),
                ) && root_readable(&state.accounts, file) && token_id
                    < vstd::arithmetic::power2::pow2(account.tokens.spec_level())
                    && root_readable(&account.tokens, file)
                &&& r is Ok ==> evacu_proof_of(
                    state,
                    file,
                    &account,
                    acc_id,
                    token_id,
                    current_time@,
                    r->Ok_0,
                )
                &&& r is Err ==> r->Err_0 == Error::InvalidLeafId || r->Err_0
                    == Error::OutOfRangeProof
            },
        },
{
    let account = state.accounts.leaf_at(file, acc_id)?;
    proof {
        let held = spec_leaf(&state.accounts, file, acc_id as nat);
        assert(leaf_loaded(&state.accounts, file, acc_id as nat, &account));
        lemma_leaf_loaded_same(&state.accounts, file, acc_id as nat, &account, &held);
        crate::leaves::lemma_same_nodes_root(&account.tokens, file, &held.tokens, file);
        assert(spec_path(&held.tokens, file, token_id as nat) == spec_path(
            &account.tokens,
            file,
            token_id as nat,
        ));
    }
    evacu_proof(state, file, &account, acc_id, token_id, current_time)
}

} // verus!
