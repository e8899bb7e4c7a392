//! What the handlers guarantee: a block that fails the proof-of-work rule
//! never enters the ledger, and a transaction that fails a check never enters
//! the pool.

use crate::block::BlockView;
use crate::consensus::{all_pow_valid, lemma_absorb_pow, lemma_with_block_pow};
use crate::crypto::hash::H256;
use crate::ledger::{
    all_placeable, genesis_hash, lemma_absorb_wf, lemma_orphans_free, lemma_wf_basics,
    lemma_with_block_wf, lemma_with_origin_wf, BlockOrigin, LedgerView,
};
use crate::miner::{after_attempt, candidate, succeeds};
use crate::network::message::MessageView;
use crate::network::protocol::{
    admissible, consider, consider_all, delay, intake_start, receive_block, receive_blocks,
    respond, Admission, Intake,
};
use crate::transaction::{SignedTransactionView, TransactionInput, TransactionOutput};
use vstd::prelude::*;

verus! {

/// A block that fails the proof-of-work rule is dropped whether or not its
/// parent is known: no block is inserted, none is buffered, nothing is asked
/// for and nothing is relayed.
pub proof fn lemma_invalid_block_dropped(s: Intake, b: BlockView, now: u128)
    requires
        !s.ledger.pow_valid(b),
    ensures
        receive_block(s, b, now).ledger.entries == s.ledger.entries,
        receive_block(s, b, now).ledger.order == s.ledger.order,
        receive_block(s, b, now).ledger.tip == s.ledger.tip,
        receive_block(s, b, now).ledger.orphans == s.ledger.orphans,
        receive_block(s, b, now).forwarded == s.forwarded,
        receive_block(s, b, now).missing == s.missing,
        receive_block(s, b, now).relay == s.relay,
{
}

/// The record of origins has no part in the proof-of-work rule.
pub proof fn lemma_origins_pow(l: LedgerView, origins: Seq<(H256, BlockOrigin)>)
    requires
        l.pow_sound(),
    ensures
        (LedgerView { origins, ..l }).pow_sound(),
{
    reveal(LedgerView::pow_sound);
    let n = LedgerView { origins, ..l };
    assert forall|h: H256| #[trigger] n.contains(h) && h != genesis_hash() implies n.pow_valid(
        n.entries[h].block,
    ) by {
        assert(l.contains(h));
    }
    assert forall|i: int| 0 <= i < n.orphans.len() implies n.pow_valid(
        #[trigger] n.orphans[i],
    ) by {
        assert(l.pow_valid(l.orphans[i]));
    }
}

/// Buffering a block that meets the proof-of-work rule keeps the rule in
/// force.
pub proof fn lemma_with_orphan_pow(l: LedgerView, b: BlockView)
    requires
        l.pow_sound(),
        l.pow_valid(b),
    ensures
        l.with_orphan(b).pow_sound(),
{
    reveal(LedgerView::pow_sound);
    let n = l.with_orphan(b);
    assert forall|h: H256| #[trigger] n.contains(h) && h != genesis_hash() implies n.pow_valid(
        n.entries[h].block,
    ) by {
        assert(l.contains(h));
    }
    assert forall|i: int| 0 <= i < n.orphans.len() implies n.pow_valid(
        #[trigger] n.orphans[i],
    ) by {
        if i < l.orphans.len() {
            assert(l.pow_valid(l.orphans[i]));
        }
    }
}

/// Handling a block keeps the ledger well formed and the proof-of-work rule
/// in force.
pub proof fn lemma_receive_block_sound(s: Intake, b: BlockView, now: u128)
    requires
        s.ledger.wf(),
        s.ledger.pow_sound(),
    ensures
        receive_block(s, b, now).ledger.wf(),
        receive_block(s, b, now).ledger.pow_sound(),
{
    let origin = BlockOrigin::Received { delay_ms: delay(now, b.header.timestamp) };
    let recorded = s.ledger.with_first_origin(b.hash(), origin);
    lemma_with_origin_wf(s.ledger, b.hash(), origin);
    lemma_origins_pow(s.ledger, recorded.origins);
    if recorded.contains(b.hash()) || !recorded.pow_valid(b) {
    } else if !recorded.contains(b.header.parent) {
        lemma_orphans_free(recorded, recorded.orphans.push(b));
        lemma_with_orphan_pow(recorded, b);
    } else {
        let one = seq![b];
        assert(all_placeable(recorded, one)) by {
            reveal(all_placeable);
        }
        assert(all_pow_valid(recorded, one)) by {
            reveal(all_pow_valid);
        }
        lemma_absorb_wf(recorded, one);
        lemma_absorb_pow(recorded, one);
    }
}

/// Handling a list of blocks keeps the ledger well formed and the
/// proof-of-work rule in force.
pub proof fn lemma_receive_blocks_sound(s: Intake, blocks: Seq<BlockView>, now: u128)
    requires
        s.ledger.wf(),
        s.ledger.pow_sound(),
    ensures
        receive_blocks(s, blocks, now).ledger.wf(),
        receive_blocks(s, blocks, now).ledger.pow_sound(),
    decreases blocks.len(),
{
    if blocks.len() > 0 {
        lemma_receive_blocks_sound(s, blocks.drop_last(), now);
        lemma_receive_block_sound(receive_blocks(s, blocks.drop_last(), now), blocks.last(), now);
    }
}

/// Whatever message a node handles, its ledger stays well formed, and every
/// block in it and in its orphan buffer meets the proof-of-work rule if that
/// was so before.
pub proof fn lemma_respond_sound(
    ledger: LedgerView,
    pool: Seq<SignedTransactionView>,
    message: MessageView,
    now: u128,
)
    requires
        ledger.wf(),
        ledger.pow_sound(),
    ensures
        respond(ledger, pool, message, now).0.wf(),
        respond(ledger, pool, message, now).0.pow_sound(),
{
    match message {
        MessageView::Blocks(blocks) => {
            lemma_receive_blocks_sound(intake_start(ledger), blocks, now);
        },
        _ => {},
    }
}

/// An attempt at a block keeps the ledger well formed and the proof-of-work
/// rule in force: the block that the miner inserts meets the rule.
pub proof fn lemma_attempt_sound(
    l: LedgerView,
    pool: Seq<SignedTransactionView>,
    timestamp: u128,
    nonce: u32,
)
    requires
        l.wf(),
        l.pow_sound(),
    ensures
        after_attempt(l, candidate(l, pool, timestamp, nonce)).wf(),
        after_attempt(l, candidate(l, pool, timestamp, nonce)).pow_sound(),
{
    let b = candidate(l, pool, timestamp, nonce);
    lemma_wf_basics(l);
    if succeeds(l, b) {
        assert(b.header.difficulty == l.difficulty) by {
            reveal(LedgerView::pow_sound);
            if l.tip != genesis_hash() {
                assert(l.pow_valid(l.entries[l.tip].block));
            }
        }
        lemma_with_block_wf(l, b);
        lemma_with_block_pow(l, b);
        let inserted = l.with_block(b);
        lemma_with_origin_wf(inserted, b.hash(), BlockOrigin::Mined);
        lemma_origins_pow(inserted, inserted.with_origin(b.hash(), BlockOrigin::Mined).origins);
    }
}

/// A transaction whose signature does not verify is dropped.
pub proof fn lemma_forged_signature_dropped(
    a: Admission,
    state: Map<TransactionInput, TransactionOutput>,
    tx: SignedTransactionView,
)
    requires
        !tx.signature_valid(),
    ensures
        consider(a, state, tx) == a,
{
}

/// A transaction that spends an output which is not unspent is dropped.
pub proof fn lemma_missing_input_dropped(
    a: Admission,
    state: Map<TransactionInput, TransactionOutput>,
    tx: SignedTransactionView,
    i: int,
)
    requires
        0 <= i < tx.raw.inputs.len(),
        !state.contains_key(tx.raw.inputs[i]),
    ensures
        consider(a, state, tx) == a,
{
}

/// A transaction that spends an output payable to another address than its
/// signer's is dropped.
pub proof fn lemma_foreign_input_dropped(
    a: Admission,
    state: Map<TransactionInput, TransactionOutput>,
    tx: SignedTransactionView,
    i: int,
)
    requires
        0 <= i < tx.raw.inputs.len(),
        state.contains_key(tx.raw.inputs[i]),
        state[tx.raw.inputs[i]].recipient != tx.signer(),
    ensures
        consider(a, state, tx) == a,
{
}

/// Some transaction of `txs` passes every check and has hash `h`.
pub open spec fn passes_with_hash(
    state: Map<TransactionInput, TransactionOutput>,
    txs: Seq<SignedTransactionView>,
    h: H256,
) -> bool {
    exists|i: int| 0 <= i < txs.len() && admissible(state, #[trigger] txs[i]) && txs[i].hash() == h
}

/// After a list of transactions is handled, each transaction in the pool was
/// there before or is one of the list that passes every check; and the
/// hashes noted are hashes of transactions of the list that pass every check.
pub proof fn lemma_only_admissible_enter(
    a: Admission,
    state: Map<TransactionInput, TransactionOutput>,
    txs: Seq<SignedTransactionView>,
)
    ensures
        forall|j: int|
            0 <= j < consider_all(a, state, txs).pool.len() ==> a.pool.contains(
                #[trigger] consider_all(a, state, txs).pool[j],
            ) || (txs.contains(consider_all(a, state, txs).pool[j]) && admissible(
                state,
                consider_all(a, state, txs).pool[j],
            )),
        forall|j: int|
            a.accepted.len() <= j < consider_all(a, state, txs).accepted.len() ==> passes_with_hash(
                state,
                txs,
                #[trigger] consider_all(a, state, txs).accepted[j],
            ),
        a.accepted.len() <= consider_all(a, state, txs).accepted.len(),
    decreases txs.len(),
{
    if txs.len() == 0 {
        assert forall|j: int| 0 <= j < a.pool.len() implies a.pool.contains(
            #[trigger] a.pool[j],
        ) by {}
    } else {
        let front = txs.drop_last();
        let tx = txs.last();
        lemma_only_admissible_enter(a, state, front);
        let mid = consider_all(a, state, front);
        let done = consider_all(a, state, txs);
        assert(done == consider(mid, state, tx));
        assert forall|j: int| 0 <= j < done.pool.len() implies a.pool.contains(
            #[trigger] done.pool[j],
        ) || (txs.contains(done.pool[j]) && admissible(state, done.pool[j])) by {
            if j < mid.pool.len() {
                assert(done.pool[j] == mid.pool[j]);
                if !a.pool.contains(mid.pool[j]) {
                    let i = front.index_of(mid.pool[j]);
                    assert(front.contains(mid.pool[j]));
                    assert(txs[i] == mid.pool[j]);
                }
            } else {
                assert(done.pool[j] == tx);
                assert(txs[txs.len() - 1] == tx);
            }
        }
        assert forall|j: int| a.accepted.len() <= j < done.accepted.len() implies passes_with_hash(
            state,
            txs,
            #[trigger] done.accepted[j],
        ) by {
            if j < mid.accepted.len() {
                assert(done.accepted[j] == mid.accepted[j]);
                assert(passes_with_hash(state, front, mid.accepted[j]));
                let i = choose|i: int|
                    0 <= i < front.len() && admissible(state, #[trigger] front[i])
                        && front[i].hash() == mid.accepted[j];
                assert(txs[i] == front[i]);
            } else {
                assert(txs[txs.len() - 1].hash() == done.accepted[j]);
            }
        }
    }
}

} // verus!
