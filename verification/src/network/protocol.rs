//! What a node owes on each message, stated over values: the ledger and the
//! pool after it, and the messages to send.

use crate::block::BlockView;
use crate::crypto::hash::H256;
use crate::ledger::{BlockOrigin, LedgerView};
use crate::mempool::{enqueue, holds, position_of};
use crate::network::message::{ActionView, MessageView};
use crate::transaction::{SignedTransactionView, TransactionInput, TransactionOutput};
use vstd::prelude::*;

verus! {

/// The digits zero to nine.
pub open spec fn digit(d: nat) -> char {
    if d == 0 {
        '0'
    } else if d == 1 {
        '1'
    } else if d == 2 {
        '2'
    } else if d == 3 {
        '3'
    } else if d == 4 {
        '4'
    } else if d == 5 {
        '5'
    } else if d == 6 {
        '6'
    } else if d == 7 {
        '7'
    } else if d == 8 {
        '8'
    } else {
        '9'
    }
}

/// The number `n` written in decimal digits.
pub open spec fn decimal(n: nat) -> Seq<char>
    decreases n,
{
    if n < 10 {
        seq![digit(n)]
    } else {
        decimal(n / 10).push(digit(n % 10))
    }
}

/// The hashes of `hashes`, in order, whose block the ledger does not know.
pub open spec fn unknown_hashes(l: LedgerView, hashes: Seq<H256>) -> Seq<H256>
    decreases hashes.len(),
{
    if hashes.len() == 0 {
        Seq::empty()
    } else if l.contains(hashes.last()) {
        unknown_hashes(l, hashes.drop_last())
    } else {
        unknown_hashes(l, hashes.drop_last()).push(hashes.last())
    }
}

/// The blocks that the ledger knows under the hashes of `hashes`, in order.
pub open spec fn known_blocks(l: LedgerView, hashes: Seq<H256>) -> Seq<BlockView>
    decreases hashes.len(),
{
    if hashes.len() == 0 {
        Seq::empty()
    } else if l.contains(hashes.last()) {
        known_blocks(l, hashes.drop_last()).push(l.entries[hashes.last()].block)
    } else {
        known_blocks(l, hashes.drop_last())
    }
}

/// The hashes of `hashes`, in order, of which the pool holds no transaction.
pub open spec fn unpooled_hashes(pool: Seq<SignedTransactionView>, hashes: Seq<H256>) -> Seq<H256>
    decreases hashes.len(),
{
    if hashes.len() == 0 {
        Seq::empty()
    } else if holds(pool, hashes.last()) {
        unpooled_hashes(pool, hashes.drop_last())
    } else {
        unpooled_hashes(pool, hashes.drop_last()).push(hashes.last())
    }
}

/// The transactions that the pool holds under the hashes of `hashes`, in
/// order.
pub open spec fn pooled_transactions(
    pool: Seq<SignedTransactionView>,
    hashes: Seq<H256>,
) -> Seq<SignedTransactionView>
    decreases hashes.len(),
{
    if hashes.len() == 0 {
        Seq::empty()
    } else if holds(pool, hashes.last()) {
        pooled_transactions(pool, hashes.drop_last()).push(
            pool[position_of(pool, hashes.last())],
        )
    } else {
        pooled_transactions(pool, hashes.drop_last())
    }
}

/// The time that a block stamped `timestamp` took to arrive by `now`, and
/// zero where the stamp lies ahead.
pub open spec fn delay(now: u128, timestamp: u128) -> u128 {
    if now >= timestamp {
        (now - timestamp) as u128
    } else {
        0
    }
}

/// Where the handling of a list of blocks stands.
pub struct Intake {
    /// The ledger.
    pub ledger: LedgerView,
    /// The transaction lists of the blocks that were inserted on arrival.
    pub forwarded: Seq<Seq<SignedTransactionView>>,
    /// The parents that were found missing.
    pub missing: Seq<H256>,
    /// The hashes of all blocks inserted.
    pub relay: Seq<H256>,
}

/// The start of handling a list of blocks.
pub open spec fn intake_start(l: LedgerView) -> Intake {
    Intake { ledger: l, forwarded: Seq::empty(), missing: Seq::empty(), relay: Seq::empty() }
}

/// Handles one block that arrived at time `now`. Its arrival is recorded
/// unless an origin is on record. A block that is known, or whose proof of
/// work fails, is dropped. One whose parent is unknown goes to the orphan
/// buffer, and its parent is noted as missing. Any other is inserted together
/// with the orphans that it unlocks.
pub open spec fn receive_block(s: Intake, b: BlockView, now: u128) -> Intake {
    let recorded = s.ledger.with_first_origin(
        b.hash(),
        BlockOrigin::Received { delay_ms: delay(now, b.header.timestamp) },
    );
    if recorded.contains(b.hash()) || !recorded.pow_valid(b) {
        Intake { ledger: recorded, ..s }
    } else if !recorded.contains(b.header.parent) {
        Intake {
            ledger: recorded.with_orphan(b),
            missing: s.missing.push(b.header.parent),
            ..s
        }
    } else {
        Intake {
            ledger: recorded.absorb(seq![b]).0,
            forwarded: s.forwarded.push(b.transactions),
            relay: s.relay + recorded.absorb(seq![b]).1,
            ..s
        }
    }
}

/// Handles the blocks of `blocks` in order.
pub open spec fn receive_blocks(s: Intake, blocks: Seq<BlockView>, now: u128) -> Intake
    decreases blocks.len(),
{
    if blocks.len() == 0 {
        s
    } else {
        receive_block(receive_blocks(s, blocks.drop_last(), now), blocks.last(), now)
    }
}

/// The messages that handling a list of blocks sends: to the sender the
/// transactions of each block inserted on arrival, then to the sender one
/// request for the missing parents if there are any, then to all peers the
/// hashes of the blocks inserted if there are any.
pub open spec fn intake_actions(s: Intake) -> Seq<ActionView> {
    Seq::new(
        s.forwarded.len(),
        |i: int| ActionView::Reply(MessageView::Transactions(s.forwarded[i])),
    ) + (if s.missing.len() > 0 {
        seq![ActionView::Reply(MessageView::GetBlocks(s.missing))]
    } else {
        Seq::empty()
    }) + (if s.relay.len() > 0 {
        seq![ActionView::Broadcast(MessageView::NewBlockHashes(s.relay))]
    } else {
        Seq::empty()
    })
}

/// Each output that `tx` spends is unspent in `state` and payable to the
/// address of the key that signed `tx`.
pub open spec fn spends_own(
    state: Map<TransactionInput, TransactionOutput>,
    tx: SignedTransactionView,
) -> bool {
    forall|i: int|
        0 <= i < tx.raw.inputs.len() ==> state.contains_key(#[trigger] tx.raw.inputs[i])
            && state[tx.raw.inputs[i]].recipient == tx.signer()
}

/// The pool admits `tx`: its signature is valid and it spends only outputs of
/// its signer that are unspent in `state`.
pub open spec fn admissible(
    state: Map<TransactionInput, TransactionOutput>,
    tx: SignedTransactionView,
) -> bool {
    tx.signature_valid() && spends_own(state, tx)
}

/// Where the handling of a list of transactions stands.
pub struct Admission {
    /// The pool.
    pub pool: Seq<SignedTransactionView>,
    /// The hashes of the transactions admitted.
    pub accepted: Seq<H256>,
}

/// Handles one transaction: admits it to the pool and notes its hash, or
/// drops it.
pub open spec fn consider(
    a: Admission,
    state: Map<TransactionInput, TransactionOutput>,
    tx: SignedTransactionView,
) -> Admission {
    if admissible(state, tx) {
        Admission { pool: enqueue(a.pool, tx), accepted: a.accepted.push(tx.hash()) }
    } else {
        a
    }
}

/// Handles the transactions of `txs` in order.
pub open spec fn consider_all(
    a: Admission,
    state: Map<TransactionInput, TransactionOutput>,
    txs: Seq<SignedTransactionView>,
) -> Admission
    decreases txs.len(),
{
    if txs.len() == 0 {
        a
    } else {
        consider(consider_all(a, state, txs.drop_last()), state, txs.last())
    }
}

/// One reply to the sender, if there is anything to send.
pub open spec fn reply_if(nonempty: bool, message: MessageView) -> Seq<ActionView> {
    if nonempty {
        seq![ActionView::Reply(message)]
    } else {
        Seq::empty()
    }
}

/// One message to all peers, if there is anything to send.
pub open spec fn broadcast_if(nonempty: bool, message: MessageView) -> Seq<ActionView> {
    if nonempty {
        seq![ActionView::Broadcast(message)]
    } else {
        Seq::empty()
    }
}

/// What a node with this ledger and pool does on `message` at time `now`:
/// the ledger and the pool afterwards, and the messages it sends, in order.
pub open spec fn respond(
    ledger: LedgerView,
    pool: Seq<SignedTransactionView>,
    message: MessageView,
    now: u128,
) -> (LedgerView, Seq<SignedTransactionView>, Seq<ActionView>) {
    match message {
        MessageView::Ping(nonce) => (
            ledger,
            pool,
            seq![ActionView::Reply(MessageView::Pong(decimal(nonce as nat)))],
        ),
        MessageView::Pong(_) => (ledger, pool, Seq::empty()),
        MessageView::NewBlockHashes(hashes) => {
            let missing = unknown_hashes(ledger, hashes);
            (ledger, pool, reply_if(missing.len() > 0, MessageView::GetBlocks(missing)))
        },
        MessageView::GetBlocks(hashes) => {
            let blocks = known_blocks(ledger, hashes);
            (ledger, pool, reply_if(blocks.len() > 0, MessageView::Blocks(blocks)))
        },
        MessageView::Blocks(blocks) => {
            let done = receive_blocks(intake_start(ledger), blocks, now);
            (done.ledger, pool, intake_actions(done))
        },
        MessageView::NewTransactionHashes(hashes) => {
            let missing = unpooled_hashes(pool, hashes);
            (ledger, pool, reply_if(missing.len() > 0, MessageView::GetTransactions(missing)))
        },
        MessageView::GetTransactions(hashes) => {
            let found = pooled_transactions(pool, hashes);
            (ledger, pool, reply_if(found.len() > 0, MessageView::Transactions(found)))
        },
        MessageView::Transactions(txs) => {
            let done = consider_all(
                Admission { pool, accepted: Seq::empty() },
                ledger.entries[ledger.tip].state,
                txs,
            );
            (
                ledger,
                done.pool,
                broadcast_if(
                    done.accepted.len() > 0,
                    MessageView::NewTransactionHashes(done.accepted),
                ),
            )
        },
    }
}

} // verus!
