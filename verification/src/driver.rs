//! Replaying one committed block: its operations are read, logged and
//! applied, and the state that results is held against the roots that the
//! block claims.

use vstd::prelude::*;
use crate::chain::Block;
use crate::error::Error;
use crate::bytes::le_value;
use crate::file::{same_counters, spliced, TsFile, TS_ROOT_INDEX};
use crate::merkle::{root_readable, spec_root, MerkleNodes};
use crate::parser::Schema;
use crate::poseidon::Poseidon;
use crate::rules::{applied, stepped, update_post};
use crate::scalar::{modulus, Scalar};
use crate::state::{spec_state_arrays, spec_state_root, State};
use crate::state_tx;
use crate::tx::Tx;

verus! {

/// Where the transaction log of block `block_id` starts, every block having
/// room for `tx_count_per_block` transactions and the first block being
/// block one; nothing where there is no such block or the machine has no
/// index that large.
pub open spec fn spec_first_tx(block_id: u64, tx_count_per_block: usize) -> Option<usize> {
    if block_id == 0 || (block_id - 1) * tx_count_per_block > usize::MAX {
        None
    } else {
        Some(((block_id - 1) * tx_count_per_block) as usize)
    }
}

/// Where the transaction log of block `block_id` starts.
pub fn first_tx(block_id: u64, tx_count_per_block: usize) -> (r: Option<usize>)
    ensures
        r == spec_first_tx(block_id, tx_count_per_block),
{
    if block_id == 0 || block_id - 1 > usize::MAX as u64 {
        proof {
            if block_id != 0 && tx_count_per_block > 0 {
                assert((block_id - 1) * tx_count_per_block > usize::MAX) by (nonlinear_arith)
                    requires
                        block_id - 1 > usize::MAX,
                        tx_count_per_block >= 1,
                ;
            }
        }
        if block_id == 0 || tx_count_per_block > 0 {
            return None;
        }
        return Some(0);
    }
    ((block_id - 1) as usize).checked_mul(tx_count_per_block)
}

/// The operations that `data` holds from `at` on, up to the first no-op or
/// the end of the data, or the error of the first one that cannot be read.
/// An operation of no bytes cannot be read.
pub open spec fn spec_ops(schema: &Schema, data: Seq<u8>, at: nat) -> Result<Seq<Tx>, Error>
    decreases data.len() - at,
{
    if at >= data.len() {
        Ok(Seq::empty())
    } else {
        match schema.spec_parse(data, at) {
            Err(e) => Err(e),
            Ok((tx, next)) => if next <= at {
                Err(Error::InvalidOp)
            } else if tx is TxNoop {
                Ok(Seq::empty())
            } else {
                match spec_ops(schema, data, next as nat) {
                    Ok(rest) => Ok(seq![tx] + rest),
                    Err(e) => Err(e),
                }
            },
        }
    }
}

/// The operations `done`, followed by what is read behind them.
pub open spec fn spec_ops_after(done: Seq<Tx>, behind: Result<Seq<Tx>, Error>) -> Result<
    Seq<Tx>,
    Error,
> {
    match behind {
        Ok(rest) => Ok(done + rest),
        Err(e) => Err(e),
    }
}

/// Whether the log of `b` holds the operations `ops` as the transactions
/// from `first` on, each with nothing matched, locked or charged yet, and
/// everywhere else what the log of `a` held.
pub open spec fn logged(a: &State, fa: &TsFile, b: &State, fb: &TsFile, first: usize, ops: Seq<Tx>) -> bool {
    &&& forall|i: int|
        0 <= i < ops.len() ==> b.txs.spec_get(fb, (first + i) as nat) == Ok::<state_tx::Tx, Error>(
            state_tx::Tx::spec_new(#[trigger] ops[i]),
        )
    &&& forall|j: nat|
        !(first <= j < first + ops.len()) ==> #[trigger] b.txs.spec_get(fb, j) == a.txs.spec_get(
            fa,
            j,
        )
}

/// Reads the operations in `public_data` up to the first no-op or the end,
/// and stores them as the transactions from `first` on. Returns how many
/// there are. It fails where an operation cannot be read, and where the
/// machine has no index for one of the transactions.
pub fn log_block(
    state: &mut State,
    file: &mut TsFile,
    schema: &Schema,
    first: usize,
    public_data: &Vec<u8>,
) -> (r: Result<usize, Error>)
    requires
        old(state).wf(old(file)),
    ensures
        stepped(old(state), old(file), final(state), final(file)),
        match spec_ops(schema, public_data@, 0) {
            Ok(ops) => if first + ops.len() <= usize::MAX {
                r == Ok::<usize, Error>(ops.len() as usize) && logged(
                    old(state),
                    old(file),
                    final(state),
                    final(file),
                    first,
                    ops,
                )
            } else {
                r == Err::<usize, Error>(Error::InvalidOp)
            },
            Err(e) => r is Err && (r->Err_0 == e || r->Err_0 == Error::InvalidOp),
        },
{
    let mut at: usize = 0;
    let mut count: usize = 0;
    let ghost mut done: Seq<Tx> = Seq::empty();
    proof {
        assert(spec_ops_after(done, spec_ops(schema, public_data@, 0)) == spec_ops(
            schema,
            public_data@,
            0,
        )) by {
            if let Ok(rest) = spec_ops(schema, public_data@, 0) {
                assert(done + rest =~= rest);
            }
        }
    }
    while at < public_data.len()
        invariant
            stepped(old(state), old(file), state, file),
            first + count <= usize::MAX,
            done.len() == count,
            at <= public_data@.len(),
            spec_ops(schema, public_data@, 0) == spec_ops_after(
                done,
                spec_ops(schema, public_data@, at as nat),
            ),
            logged(old(state), old(file), state, file, first, done),
        decreases public_data@.len() - at,
    {
        let (tx, next) = schema.parse(public_data, at)?;
        if next <= at {
            return Err(Error::InvalidOp);
        }
        match tx {
            Tx::TxNoop(_) => {
                proof {
                    assert(done + Seq::<Tx>::empty() =~= done);
                }
                return Ok(count);
            },
            _ => {},
        }
        proof {
            let behind = spec_ops(schema, public_data@, next as nat);
            if let Ok(rest) = behind {
                assert(done + (seq![tx] + rest) =~= done.push(tx) + rest);
            }
            assert(spec_ops(schema, public_data@, 0) == spec_ops_after(done.push(tx), behind));
        }
        if first + count == usize::MAX {
            return Err(Error::InvalidOp);
        }
        let ghost before = *state;
        let ghost before_file = *file;
        state.push_tx(file, first + count, tx)?;
        proof {
            let grown = done.push(tx);
            assert forall|i: int| 0 <= i < grown.len() implies state.txs.spec_get(
                file,
                (first + i) as nat,
            ) == Ok::<state_tx::Tx, Error>(state_tx::Tx::spec_new(#[trigger] grown[i])) by {
                if i < done.len() {
                    assert(grown[i] == done[i]);
                    assert(before.txs.spec_get(&before_file, (first + i) as nat) == Ok::<
                        state_tx::Tx,
                        Error,
                    >(state_tx::Tx::spec_new(done[i])));
                }
            }
            assert forall|j: nat| !(first <= j < first + grown.len()) implies #[trigger] state.txs.spec_get(
                file,
                j,
            ) == old(state).txs.spec_get(old(file), j) by {
                assert(before.txs.spec_get(&before_file, j) == old(state).txs.spec_get(old(file), j));
            }
            done = grown;
        }
        count = count + 1;
        at = next;
    }
    proof {
        assert(done + Seq::<Tx>::empty() =~= done);
    }
    Ok(count)
}

/// Whether applying transaction `tx_id` of the log took the state `a.0`
/// over the arena `a.1` to the state `b.0` over `b.1`: the state was well
/// formed, the transaction was there, and the step had the effect that is
/// stated for the kind of the transaction.
pub open spec fn applied_at(a: (State, TsFile), b: (State, TsFile), tx_id: nat) -> bool {
    &&& a.0.wf(&a.1)
    &&& stepped(&a.0, &a.1, &b.0, &b.1)
    &&& a.0.txs.spec_get(&a.1, tx_id) is Ok
    &&& tx_id <= usize::MAX
    &&& applied(&a.0, &a.1, &b.0, &b.1, tx_id as usize, a.0.txs.spec_get(&a.1, tx_id)->Ok_0.raw_tx)
}

/// Whether `trace` holds the states that applying the transactions from
/// `first` on leads through, one after the other.
pub open spec fn replay_trace(trace: Seq<(State, TsFile)>, first: usize) -> bool {
    forall|k: int|
        0 <= k < trace.len() - 1 ==> applied_at(#[trigger] trace[k], trace[k + 1], (first + k) as nat)
}

/// Whether the state `b` over `fb` is what applying the transactions
/// `first .. first + count` of the log, in order and each with success, has
/// made of the state `a` over `fa`.
pub open spec fn replayed(a: &State, fa: &TsFile, b: &State, fb: &TsFile, first: usize, count: nat) -> bool {
    exists|trace: Seq<(State, TsFile)>|
        {
            &&& #[trigger] replay_trace(trace, first)
            &&& trace.len() == count + 1
            &&& trace[0] == (*a, *fa)
            &&& trace[count as int] == (*b, *fb)
        }
}

/// Whether `trace` shows what applying the transactions `first .. first +
/// count` of the log, in order, did to the state `a` over `fa`, which ended
/// with the state `b` over `fb` and the result `r`: every step before the
/// last state of the trace succeeded; where all succeeded, the last state is
/// the end and the result is success; else the step from the last state
/// failed, and the result is what that step returned and left.
pub open spec fn block_trace(
    trace: Seq<(State, TsFile)>,
    a: &State,
    fa: &TsFile,
    b: &State,
    fb: &TsFile,
    first: usize,
    count: nat,
    r: Result<(), Error>,
) -> bool {
    &&& replay_trace(trace, first)
    &&& 1 <= trace.len() <= count + 1
    &&& trace[0] == (*a, *fa)
    &&& first + trace.len() - 1 <= usize::MAX
    &&& if trace.len() == count + 1 {
        r is Ok && trace[count as int] == (*b, *fb)
    } else {
        r is Err && trace.last().0.wf(&trace.last().1) && update_post(
            &trace.last().0,
            &trace.last().1,
            b,
            fb,
            (first + trace.len() - 1) as usize,
            r,
        )
    }
}

/// What applying the transactions `first .. first + count` does: it goes
/// step by step, and stops at the first step that fails.
pub open spec fn block_applied(
    a: &State,
    fa: &TsFile,
    b: &State,
    fb: &TsFile,
    first: usize,
    count: nat,
    r: Result<(), Error>,
) -> bool {
    exists|trace: Seq<(State, TsFile)>| #[trigger] block_trace(trace, a, fa, b, fb, first, count, r)
}

/// Applies the transactions `first .. first + count` of the log, in order,
/// and stops at the first that fails.
pub fn apply_block(state: &mut State, file: &mut TsFile, first: usize, count: usize) -> (r: Result<
    (),
    Error,
>)
    requires
        old(state).wf(old(file)),
        first + count <= usize::MAX,
    ensures
        stepped(old(state), old(file), final(state), final(file)),
        r is Ok ==> replayed(old(state), old(file), final(state), final(file), first, count as nat),
        block_applied(old(state), old(file), final(state), final(file), first, count as nat, r),
{
    let mut j: usize = 0;
    let ghost mut trace: Seq<(State, TsFile)> = seq![(*state, *file)];
    while j < count
        invariant
            j <= count,
            first + count <= usize::MAX,
            stepped(old(state), old(file), state, file),
            replay_trace(trace, first),
            trace.len() == j + 1,
            trace[0] == (*old(state), *old(file)),
            trace[j as int] == (*state, *file),
        decreases count - j,
    {
        let step = state.update(file, first + j);
        match step {
            Ok(_) => {},
            Err(e) => {
                proof {
                    assert(trace.last() == trace[j as int]);
                    assert(block_trace(
                        trace,
                        old(state),
                        old(file),
                        state,
                        file,
                        first,
                        count as nat,
                        step,
                    ));
                }
                return Err(e);
            },
        }
        proof {
            let longer = trace.push((*state, *file));
            assert forall|k: int| 0 <= k < longer.len() - 1 implies applied_at(
                #[trigger] longer[k],
                longer[k + 1],
                (first + k) as nat,
            ) by {
                if k < j {
                    assert(applied_at(trace[k], trace[k + 1], (first + k) as nat));
                }
            }
            trace = longer;
        }
        j += 1;
    }
    proof {
        assert(block_trace(trace, old(state), old(file), state, file, first, count as nat, Ok(())));
    }
    Ok(())
}

/// The element that the bytes spell, most significant byte first.
pub open spec fn spec_be_scalar(bytes: Seq<u8>) -> Scalar {
    Scalar::spec_new(le_value(bytes.reverse()) % modulus())
}

/// Whether the arena `mid` holds a state, found at the fixed places and
/// hashed with `hasher`, whose global root scalar is `ts_root` and whose root
/// is `state_root`.
pub open spec fn holds_state(mid: &TsFile, hasher: &Poseidon, ts_root: Scalar, state_root: Scalar) -> bool {
    exists|s: State|
        {
            &&& #[trigger] s.wf(mid)
            &&& *s.accounts.hasher == *hasher
            &&& s.ts_root.index == TS_ROOT_INDEX
            &&& s.ts_root.spec_get(mid) == ts_root
            &&& root_readable(&s.accounts, mid)
            &&& spec_state_root(hasher, ts_root, spec_root(&s.accounts, mid)) == state_root
        }
}

/// Takes over the global root scalar of `block` and holds the root of the
/// state against the one that the block claims: `StateRootMismatch` where it
/// is another, `OutOfRangeProof` where the account tree has no root to read.
pub fn check_root(state: &mut State, file: &mut TsFile, block: &Block) -> (r: Result<(), Error>)
    requires
        old(state).wf(old(file)),
        old(state).ts_root.index == TS_ROOT_INDEX,
    ensures
        same_counters(old(file), final(file)),
        final(state).ts_root.spec_get(final(file)) == spec_be_scalar(block.new_ts_root@),
        r is Ok ==> holds_state(
            final(file),
            old(state).accounts.hasher,
            spec_be_scalar(block.new_ts_root@),
            spec_be_scalar(block.new_state_root@),
        ),
        !root_readable(&old(state).accounts, old(file)) ==> r == Err::<(), Error>(
            Error::OutOfRangeProof,
        ),
        root_readable(&old(state).accounts, old(file)) ==> r == if spec_state_root(
            old(state).accounts.hasher,
            spec_be_scalar(block.new_ts_root@),
            spec_root(&old(state).accounts, old(file)),
        ) == spec_be_scalar(block.new_state_root@) {
            Ok::<(), Error>(())
        } else {
            Err::<(), Error>(Error::StateRootMismatch)
        },
{
    let ts_root: Scalar = Scalar::from_be_bytes_mod_order(&block.new_ts_root);
    let claimed: Scalar = Scalar::from_be_bytes_mod_order(&block.new_state_root);
    ts_root.check_reduced_spec();
    claimed.check_reduced_spec();
    state.set_ts_root(file, ts_root)?;
    let found: Scalar = state.get_root(file)?;
    if found != claimed {
        return Err(Error::StateRootMismatch);
    }
    proof {
        assert(state.wf(file));
    }
    Ok(())
}

/// Counts one block more, remembers the anchor `l1_anchor_id`, and writes
/// the header; `InvalidOp` where the count has no room.
pub fn count_block(file: &mut TsFile, l1_anchor_id: u64) -> (r: Result<(), Error>)
    ensures
        r is Ok <==> old(file).block_count < u64::MAX,
        r is Ok ==> final(file).block_count == old(file).block_count + 1 && final(
            file).latest_l1_block_id == l1_anchor_id && final(file).tx_count == old(file).tx_count
            && final(file)@ == spliced(old(file)@, 0, final(file).spec_header()),
        r is Err ==> r->Err_0 == Error::InvalidOp && *final(file) == *old(file),
{
    if file.block_count == u64::MAX {
        return Err(Error::InvalidOp);
    }
    file.block_count = file.block_count + 1;
    file.latest_l1_block_id = l1_anchor_id;
    let _ = file.sync();
    Ok(())
}

/// Replays `block`, which was committed at `l1_anchor_id`. Where the arena
/// holds no state, that is reported. A block whose number is below the
/// count of the blocks that the arena has seen is passed over. Any other
/// block has its operations logged and applied and its global root scalar
/// taken over; where the state root is then the one that the block claims,
/// the arena counts one block more, remembers the anchor and has its header
/// written, else `StateRootMismatch` is reported. Whatever is reported, the
/// counters stay as they were.
pub fn process_block(
    file: &mut TsFile,
    hasher: &Poseidon,
    account_height: usize,
    token_height: usize,
    schema: &Schema,
    tx_count_per_block: usize,
    l1_anchor_id: u64,
    block: &Block,
) -> (r: Result<bool, Error>)
    ensures
        match spec_state_arrays(old(file)@, account_height as nat, token_height as nat) {
            Err(e) => r == Err::<bool, Error>(e) && *final(file) == *old(file),
            Ok(_) => (r == Ok::<bool, Error>(false)) == (block.block_number < old(file).block_count),
        },
        r == Ok::<bool, Error>(false) ==> *final(file) == *old(file),
        r == Ok::<bool, Error>(true) ==> final(file).block_count == old(file).block_count + 1
            && final(file).latest_l1_block_id == l1_anchor_id && final(file).tx_count == old(file).tx_count && exists|mid: TsFile|
            {
                &&& #[trigger] holds_state(
                    &mid,
                    hasher,
                    spec_be_scalar(block.new_ts_root@),
                    spec_be_scalar(block.new_state_root@),
                )
                &&& final(file)@ == spliced(mid@, 0, final(file).spec_header())
            },
        r is Err ==> same_counters(old(file), final(file)),
{
    let mut state = file.to_state(hasher, account_height, token_height)?;
    let block_id: u64 = file.block_count;
    if block.block_number < block_id {
        return Ok(false);
    }
    let first: usize = match first_tx(block_id, tx_count_per_block) {
        Some(f) => f,
        None => {
            return Err(Error::InvalidOp);
        },
    };
    let count: usize = log_block(&mut state, file, schema, first, &block.public_data)?;
    apply_block(&mut state, file, first, count)?;
    check_root(&mut state, file, block)?;
    let ghost mid = *file;
    count_block(file, l1_anchor_id)?;
    proof {
        assert(holds_state(
            &mid,
            hasher,
            spec_be_scalar(block.new_ts_root@),
            spec_be_scalar(block.new_state_root@),
        ));
    }
    Ok(true)
}

} // verus!
