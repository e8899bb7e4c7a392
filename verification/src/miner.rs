//! The miner: its control states, and one attempt at a block on top of the
//! tip.

use crate::block::{transaction_views, Block, BlockView, Content, Header};
use crate::blockchain::Blockchain;
use crate::crypto::hash::H256;
use crate::crypto::merkle::{merkle_root, root_of};
use crate::ledger::{BlockOrigin, LedgerView};
use crate::mempool::Mempool;
use crate::network::message::{Message, MessageView};
use crate::transaction::{
    SignedTransaction, SignedTransactionView, TransactionView,
};
use vstd::prelude::*;

verus! {

/// A block holds at most this many transactions, the empty one that leads
/// it counted.
pub const MAX_BLOCK_TRANSACTIONS: usize = 20;

/// What the miner is told.
#[derive(Clone, Copy, PartialEq, Eq, Structural, Debug)]
pub enum ControlSignal {
    /// Mine, and pause this many microseconds between attempts.
    Start(u64),
    Exit,
}

/// What the miner is doing.
#[derive(Clone, Copy, PartialEq, Eq, Structural, Debug)]
pub enum OperatingState {
    Paused,
    Run(u64),
    ShutDown,
}

/// What the miner's loop does next.
#[derive(Clone, Copy, PartialEq, Eq, Structural, Debug)]
pub enum MinerStep {
    /// Wait for a control signal.
    AwaitSignal,
    /// Take a control signal if one is there, then, if still running, pause
    /// this many microseconds and try a block.
    Attempt(u64),
    /// Leave the loop.
    Stop,
}

/// The miner's own state.
#[derive(Clone, Copy, PartialEq, Eq, Structural, Debug)]
pub struct Miner {
    pub operating_state: OperatingState,
    /// The number of blocks mined, which stops counting at the greatest
    /// number it can hold.
    pub total_blocks_mined: u64,
    /// The time of the first start, if the miner was started.
    pub start_time: Option<u128>,
}

/// The signed transaction with no inputs, no outputs, no key and no
/// signature, which leads every mined block.
pub open spec fn empty_transaction() -> SignedTransactionView {
    SignedTransactionView {
        raw: TransactionView { inputs: Seq::empty(), outputs: Seq::empty() },
        public_key: Seq::empty(),
        signature: Seq::empty(),
    }
}

/// The number of transactions that an attempt takes from a pool of `n`.
pub open spec fn taken(n: nat) -> nat {
    if n < MAX_BLOCK_TRANSACTIONS - 1 {
        n
    } else {
        (MAX_BLOCK_TRANSACTIONS - 1) as nat
    }
}

/// The transactions of a mined block: the empty transaction, then the oldest
/// of the pool as far as the block has room.
pub open spec fn candidate_content(pool: Seq<SignedTransactionView>) -> Seq<
    SignedTransactionView,
> {
    seq![empty_transaction()] + pool.take(taken(pool.len()) as int)
}

/// The hashes of a list of signed transactions.
pub open spec fn transaction_hashes(txs: Seq<SignedTransactionView>) -> Seq<H256> {
    Seq::new(txs.len(), |i: int| txs[i].hash())
}

/// The block that an attempt with `nonce` at time `timestamp` builds: a child
/// of the tip with the tip's difficulty, over the candidate content.
pub open spec fn candidate(
    l: LedgerView,
    pool: Seq<SignedTransactionView>,
    timestamp: u128,
    nonce: u32,
) -> BlockView {
    let transactions = candidate_content(pool);
    BlockView {
        header: Header {
            parent: l.tip,
            nonce,
            difficulty: l.entries[l.tip].block.header.difficulty,
            timestamp,
            merkle_root: root_of(transaction_hashes(transactions)),
        },
        transactions,
    }
}

/// The attempt succeeds: the block's hash is at most its difficulty, and the
/// ledger does not know it.
pub open spec fn succeeds(l: LedgerView, b: BlockView) -> bool {
    b.hash().as_nat() <= b.header.difficulty.as_nat() && !l.contains(b.hash())
}

/// The ledger after an attempt that built `b`.
pub open spec fn after_attempt(l: LedgerView, b: BlockView) -> LedgerView {
    if succeeds(l, b) {
        l.with_block(b).with_origin(b.hash(), BlockOrigin::Mined)
    } else {
        l
    }
}

/// Calls `rand::random::<u32>()`: a number from the thread's random
/// generator, of which nothing is known.
#[verifier::external_body]
fn random_nonce() -> u32 {
    rand::random()
}

/// Takes from the pool the transactions of the next block.
pub fn assemble_content(pool: &mut Mempool) -> (transactions: Vec<SignedTransaction>)
    requires
        old(pool).wf(),
    ensures
        final(pool).wf(),
        transaction_views(transactions@) == candidate_content(old(pool)@),
        final(pool)@ == old(pool)@.skip(taken(old(pool)@.len()) as int),
{
    let ghost queue = pool@;
    let mut transactions: Vec<SignedTransaction> = Vec::new();
    transactions.push(SignedTransaction::default());
    proof {
        assert(transactions@[0]@.raw.inputs =~= empty_transaction().raw.inputs);
        assert(transactions@[0]@.raw.outputs =~= empty_transaction().raw.outputs);
        assert(transactions@[0]@.public_key =~= empty_transaction().public_key);
        assert(transactions@[0]@.signature =~= empty_transaction().signature);
        assert(transaction_views(transactions@) =~= seq![empty_transaction()] + queue.take(0));
        assert(queue.skip(0) =~= queue);
    }
    while transactions.len() < MAX_BLOCK_TRANSACTIONS && pool.len() > 0
        invariant
            pool.wf(),
            1 <= transactions@.len() <= MAX_BLOCK_TRANSACTIONS,
            transactions@.len() - 1 <= queue.len(),
            transaction_views(transactions@) == seq![empty_transaction()] + queue.take(
                transactions@.len() - 1,
            ),
            pool@ == queue.skip(transactions@.len() - 1),
        decreases MAX_BLOCK_TRANSACTIONS - transactions@.len(),
    {
        let ghost n = transactions@.len() - 1;
        let ghost held = transactions@;
        match pool.pop() {
            Some(tx) => {
                transactions.push(tx);
                proof {
                    assert(tx@ == queue.skip(n)[0]);
                    assert(tx@ == queue[n]);
                    assert(pool@ =~= queue.skip(n + 1));
                    let now = transaction_views(transactions@);
                    let was = transaction_views(held);
                    let owed = seq![empty_transaction()] + queue.take(n + 1);
                    assert(was == seq![empty_transaction()] + queue.take(n));
                    assert(now.len() == owed.len());
                    assert forall|j: int| 0 <= j < now.len() implies now[j] == owed[j] by {
                        if j < held.len() {
                            assert(now[j] == was[j]);
                        }
                    }
                    assert(now =~= owed);
                }
            },
            None => {
                proof {
                    assert(false);
                }
            },
        }
    }
    transactions
}

/// One attempt at a block with this nonce at this time. The block is built
/// on the tip from the transactions that the pool gives up. Where its hash
/// is at most the difficulty and the ledger does not know it, it is
/// inserted and put on record as mined, and its hash is returned.
pub fn mine_with_nonce(chain: &mut Blockchain, pool: &mut Mempool, timestamp: u128, nonce: u32) -> (r:
    Option<H256>)
    requires
        old(chain).wf(),
        old(pool).wf(),
    ensures
        final(chain).wf(),
        final(pool).wf(),
        final(pool)@ == old(pool)@.skip(taken(old(pool)@.len()) as int),
        final(chain)@ == after_attempt(
            old(chain)@,
            candidate(old(chain)@, old(pool)@, timestamp, nonce),
        ),
        r == if succeeds(old(chain)@, candidate(old(chain)@, old(pool)@, timestamp, nonce)) {
            Some(candidate(old(chain)@, old(pool)@, timestamp, nonce).hash())
        } else {
            None
        },
        old(chain)@.pow_sound() ==> final(chain)@.pow_sound(),
{
    proof {
        chain.lemma_view_wf();
        crate::ledger::lemma_wf_basics(chain@);
        if chain@.pow_sound() {
            crate::network::soundness::lemma_attempt_sound(chain@, pool@, timestamp, nonce);
        }
    }
    let parent = chain.tip();
    let difficulty = chain.get_block(&parent).header.difficulty;
    let transactions = assemble_content(pool);
    let mut hashes: Vec<H256> = Vec::new();
    let mut i: usize = 0;
    while i < transactions.len()
        invariant
            i <= transactions@.len(),
            hashes@.len() == i,
            forall|j: int| 0 <= j < i ==> hashes@[j] == transactions@[j]@.hash(),
        decreases transactions@.len() - i,
    {
        hashes.push(transactions[i].hash());
        i += 1;
    }
    proof {
        assert(hashes@ =~= transaction_hashes(transaction_views(transactions@)));
    }
    let merkle_root = merkle_root(&hashes);
    let header = Header { parent, nonce, difficulty, timestamp, merkle_root };
    let content = Content { transactions };
    let block = Block { header, content };
    let hash = block.hash();
    if hash.le(&difficulty) && !chain.contains_block(&hash) {
        chain.insert(&block);
        chain.record_mined(hash);
        Some(hash)
    } else {
        None
    }
}

impl Miner {
    /// A miner that is paused and has mined nothing.
    pub fn new() -> (m: Miner)
        ensures
            m == (Miner {
                operating_state: OperatingState::Paused,
                total_blocks_mined: 0,
                start_time: None,
            }),
    {
        Miner { operating_state: OperatingState::Paused, total_blocks_mined: 0, start_time: None }
    }

    /// Takes a control signal that came at time `now`: `Exit` shuts the miner
    /// down, `Start` sets it running and notes the time of the first start.
    pub fn handle_control_signal(&mut self, signal: ControlSignal, now: u128)
        ensures
            final(self).total_blocks_mined == old(self).total_blocks_mined,
            final(self).operating_state == match signal {
                ControlSignal::Exit => OperatingState::ShutDown,
                ControlSignal::Start(i) => OperatingState::Run(i),
            },
            final(self).start_time == match signal {
                ControlSignal::Exit => old(self).start_time,
                ControlSignal::Start(_) => match old(self).start_time {
                    Some(t) => Some(t),
                    None => Some(now),
                },
            },
    {
        match signal {
            ControlSignal::Exit => {
                self.operating_state = OperatingState::ShutDown;
            },
            ControlSignal::Start(i) => {
                self.operating_state = OperatingState::Run(i);
                if self.start_time.is_none() {
                    self.start_time = Some(now);
                }
            },
        }
    }

    /// What the miner's loop does next.
    pub fn next_step(&self) -> (step: MinerStep)
        ensures
            step == match self.operating_state {
                OperatingState::Paused => MinerStep::AwaitSignal,
                OperatingState::Run(i) => MinerStep::Attempt(i),
                OperatingState::ShutDown => MinerStep::Stop,
            },
    {
        match self.operating_state {
            OperatingState::Paused => MinerStep::AwaitSignal,
            OperatingState::Run(i) => MinerStep::Attempt(i),
            OperatingState::ShutDown => MinerStep::Stop,
        }
    }

    /// Counts a block that `outcome` reports as mined, and gives the message
    /// that announces it to all peers.
    pub fn announce(&mut self, outcome: Option<H256>) -> (message: Option<Message>)
        ensures
            final(self).operating_state == old(self).operating_state,
            final(self).start_time == old(self).start_time,
            final(self).total_blocks_mined == if outcome.is_some() && old(self).total_blocks_mined
                < u64::MAX {
                (old(self).total_blocks_mined + 1) as u64
            } else {
                old(self).total_blocks_mined
            },
            match outcome {
                Some(hash) => message.is_some() && message.unwrap()@ == MessageView::NewBlockHashes(
                    seq![hash],
                ),
                None => message.is_none(),
            },
    {
        match outcome {
            Some(hash) => {
                if self.total_blocks_mined < u64::MAX {
                    self.total_blocks_mined = self.total_blocks_mined + 1;
                }
                let mut hashes: Vec<H256> = Vec::new();
                hashes.push(hash);
                assert(hashes@ =~= seq![hash]);
                Some(Message::NewBlockHashes(hashes))
            },
            None => None,
        }
    }

    /// One attempt at a block at time `timestamp`, with a nonce drawn at
    /// random: whatever the nonce, the ledger, the pool and the count are as
    /// the attempt with that nonce leaves them, and the message announces the
    /// block if one was mined.
    pub fn mine(&mut self, chain: &mut Blockchain, pool: &mut Mempool, timestamp: u128) -> (message:
        Option<Message>)
        requires
            old(chain).wf(),
            old(pool).wf(),
        ensures
            final(chain).wf(),
            final(pool).wf(),
            final(pool)@ == old(pool)@.skip(taken(old(pool)@.len()) as int),
            final(self).operating_state == old(self).operating_state,
            final(self).start_time == old(self).start_time,
            old(chain)@.pow_sound() ==> final(chain)@.pow_sound(),
            exists|nonce: u32|
                {
                    let block = #[trigger] candidate(old(chain)@, old(pool)@, timestamp, nonce);
                    &&& final(chain)@ == after_attempt(old(chain)@, block)
                    &&& if succeeds(old(chain)@, block) {
                        &&& message.is_some()
                        &&& message.unwrap()@ == MessageView::NewBlockHashes(seq![block.hash()])
                        &&& final(self).total_blocks_mined == if old(self).total_blocks_mined
                            < u64::MAX {
                            (old(self).total_blocks_mined + 1) as u64
                        } else {
                            old(self).total_blocks_mined
                        }
                    } else {
                        &&& message.is_none()
                        &&& final(self).total_blocks_mined == old(self).total_blocks_mined
                    }
                },
    {
        let nonce = random_nonce();
        let ghost block = candidate(chain@, pool@, timestamp, nonce);
        let outcome = mine_with_nonce(chain, pool, timestamp, nonce);
        self.announce(outcome)
    }
}

} // verus!
