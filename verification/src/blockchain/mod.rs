//! The ledger: every known block with its height and unspent outputs, the
//! tip of the longest chain, and the buffer of blocks that wait for their
//! parent.

use crate::assoc::{lemma_to_map_at, AssocList};
use crate::block::{block_seq_views, Block, BlockView};
use crate::crypto::hash::H256;
use crate::ledger::{
    genesis_ledger, lemma_orphans_free, lemma_with_block_wf, waiting_on, waiting_on_others,
    EntryView, LedgerView,
};
use crate::state::{apply_transaction, apply_transactions, State};
use crate::transaction::SignedTransaction;
use vstd::prelude::*;

pub use crate::ledger::BlockOrigin;

mod report;
mod unlock;

verus! {

/// The values of a stack of blocks, the top of the stack first.
pub open spec fn pending_views(stack: Seq<Block>) -> Seq<BlockView> {
    block_seq_views(stack).reverse()
}

/// The blocks of `blocks`, last first.
fn reversed(blocks: Vec<Block>) -> (r: Vec<Block>)
    ensures
        r@ == blocks@.reverse(),
{
    let mut blocks = blocks;
    let ghost all = blocks@;
    let mut r: Vec<Block> = Vec::new();
    while blocks.len() > 0
        invariant
            blocks@ == all.take(blocks@.len() as int),
            blocks@.len() <= all.len(),
            r@.len() == all.len() - blocks@.len(),
            forall|i: int| 0 <= i < r@.len() ==> r@[i] == all[all.len() - 1 - i],
        decreases blocks@.len(),
    {
        let ghost n = blocks@.len();
        let b = blocks.pop().unwrap();
        r.push(b);
        proof {
            assert(blocks@ =~= all.take(n - 1));
        }
    }
    assert(r@ =~= all.reverse());
    r
}

/// What the ledger keeps of one block.
pub struct Entry {
    block: Block,
    height: u64,
    state: State,
}

impl View for Entry {
    type V = EntryView;

    closed spec fn view(&self) -> EntryView {
        EntryView { block: self.block@, height: self.height as nat, state: self.state@ }
    }
}

/// The ledger.
pub struct Blockchain {
    entries: AssocList<H256, Entry>,
    tip: H256,
    difficulty: H256,
    orphan_buffer: Vec<Block>,
    origins: AssocList<H256, BlockOrigin>,
}

impl View for Blockchain {
    type V = LedgerView;

    closed spec fn view(&self) -> LedgerView {
        LedgerView {
            entries: Map::new(
                |h: H256| self.entries.map().contains_key(h),
                |h: H256| self.entries.map()[h]@,
            ),
            order: Seq::new(self.entries.pairs().len(), |i: int| self.entries.pairs()[i].0),
            tip: self.tip,
            difficulty: self.difficulty,
            orphans: block_seq_views(self.orphan_buffer@),
            origins: self.origins.pairs(),
        }
    }
}

impl Blockchain {
    /// The ledger is well formed: no hash is filed twice, and its value is a
    /// well-formed ledger.
    pub closed spec fn wf(&self) -> bool {
        &&& self.entries.wf()
        &&& self.origins.wf()
        &&& forall|i: int|
            0 <= i < self.entries.pairs().len() ==> (#[trigger] self.entries.pairs()[i]).1.state.wf()
        &&& self@.wf()
    }

    /// The value of a well-formed ledger is well formed.
    pub proof fn lemma_view_wf(&self)
        requires
            self.wf(),
        ensures
            self@.wf(),
    {
    }

    /// Create a new blockchain, only containing the genesis block.
    pub fn new() -> (chain: Blockchain)
        ensures
            chain.wf(),
            chain@ == genesis_ledger(),
            chain@.pow_sound(),
    {
        let genesis_block = Block::genesis();
        let genesis_hash = genesis_block.hash();
        let genesis_difficulty = genesis_block.header.difficulty;
        let mut entries: AssocList<H256, Entry> = AssocList::new();
        entries.insert(genesis_hash, Entry { block: genesis_block, height: 0, state: State::new() });
        let chain = Blockchain {
            entries,
            tip: genesis_hash,
            difficulty: genesis_difficulty,
            orphan_buffer: Vec::new(),
            origins: AssocList::new(),
        };
        proof {
            let l = genesis_ledger();
            assert(chain@.entries =~= l.entries);
            assert(chain@.order =~= l.order);
            assert(chain@.orphans =~= l.orphans);
            assert(chain@.origins =~= l.origins);
            crate::ledger::lemma_genesis_ledger_wf();
            crate::consensus::lemma_genesis_pow_sound();
        }
        chain
    }

    /// The entry of a known block.
    fn entry(&self, hash: &H256) -> (e: &Entry)
        requires
            self.wf(),
            self@.contains(*hash),
        ensures
            e@ == self@.entries[*hash],
            e.state.wf(),
            e.height < self@.order.len(),
            self@.order.len() <= usize::MAX,
    {
        match self.entries.find(hash) {
            Some(i) => {
                proof {
                    reveal(LedgerView::wf);
                    lemma_to_map_at(self.entries.pairs(), i as int);
                    assert(self@.entry_ok(*hash));
                }
                let _ = self.entries.len();
                self.entries.value_at(i)
            },
            None => {
                vstd::pervasive::unreached()
            },
        }
    }

    /// Get the last block's hash of the longest chain.
    pub fn tip(&self) -> (h: H256)
        ensures
            h == self@.tip,
    {
        self.tip
    }

    /// The difficulty that every block must declare.
    pub fn difficulty(&self) -> (d: H256)
        ensures
            d == self@.difficulty,
    {
        self.difficulty
    }

    /// Whether the ledger knows the block with hash `hash`.
    pub fn contains_block(&self, hash: &H256) -> (r: bool)
        ensures
            r == self@.contains(*hash),
    {
        self.entries.contains_key(hash)
    }

    /// The known block with hash `hash`.
    pub fn get_block(&self, hash: &H256) -> (b: &Block)
        requires
            self.wf(),
            self@.contains(*hash),
        ensures
            b@ == self@.entries[*hash].block,
    {
        &self.entry(hash).block
    }

    /// The unspent outputs after the known block with hash `hash`.
    pub fn get_state(&self, hash: &H256) -> (s: &State)
        requires
            self.wf(),
            self@.contains(*hash),
        ensures
            s@ == self@.entries[*hash].state,
            s.wf(),
    {
        &self.entry(hash).state
    }

    /// The height of a known block.
    pub fn height_of(&self, hash: &H256) -> (n: u64)
        requires
            self.wf(),
            self@.contains(*hash),
        ensures
            n == self@.height(*hash),
    {
        self.entry(hash).height
    }

    /// The number of known blocks.
    pub fn block_count(&self) -> (n: usize)
        ensures
            n == self@.order.len(),
    {
        self.entries.len()
    }

    /// Check if a block is consistent with PoW.
    pub fn pow_validity_check(&self, block: &Block) -> (r: bool)
        ensures
            r == self@.pow_valid(block@),
    {
        block.hash().le(&block.header.difficulty) && block.header.difficulty == self.difficulty
    }

    /// Check if a block's parent is in the blockchain.
    pub fn parent_check(&self, block: &Block) -> (r: bool)
        ensures
            r == self@.contains(block@.header.parent),
    {
        self.contains_block(&block.header.parent)
    }

    /// Applies one transaction to `state`; the ledger stays as it is.
    pub fn process_one_transaction(&mut self, transaction: &SignedTransaction, state: &mut State)
        requires
            old(state).wf(),
        ensures
            *final(self) == *old(self),
            final(state).wf(),
            final(state)@ == apply_transaction(old(state)@, transaction@.raw),
    {
        state.apply(transaction.raw());
    }

    /// Applies the transactions of `block` to `state` in order; the ledger stays as it
    /// is.
    pub fn process_all_transactions(&mut self, block: &Block, state: &mut State)
        requires
            old(state).wf(),
        ensures
            *final(self) == *old(self),
            final(state).wf(),
            final(state)@ == apply_transactions(old(state)@, block@.transactions),
    {
        state.apply_all(&block.content.transactions);
    }

    /// Insert a block into blockchain.
    pub fn insert(&mut self, block: &Block)
        requires
            old(self).wf(),
            old(self)@.contains(block@.header.parent),
            !old(self)@.contains(block@.hash()),
        ensures
            final(self).wf(),
            final(self)@ == old(self)@.with_block(block@),
    {
        let parent_hash = block.header.parent;
        let parent = self.entry(&parent_hash);
        let height = parent.height + 1;
        let mut state = parent.state.clone();
        self.process_all_transactions(block, &mut state);
        let block_hash = block.hash();
        proof {
            crate::ledger::lemma_wf_basics(self@);
        }
        let tip_height = self.entry(&self.tip).height;
        let ghost before = *self;
        proof {
            assert(!crate::assoc::has_key(self.entries.pairs(), block_hash));
        }
        self.entries.insert(block_hash, Entry { block: block.clone(), height, state });
        if height > tip_height {
            self.tip = block_hash;
        }
        proof {
            let l = before@.with_block(block@);
            assert(self@.entries =~= l.entries);
            assert(self@.order =~= l.order);
            assert(self@.orphans =~= l.orphans);
            crate::ledger::lemma_with_block_wf(before@, block@);
            assert forall|i: int| 0 <= i < self.entries.pairs().len() implies (
            #[trigger] self.entries.pairs()[i]).1.state.wf() by {
                if i < before.entries.pairs().len() {
                    assert(self.entries.pairs()[i] == before.entries.pairs()[i]);
                }
            }
        }
    }

    /// Add a PoW valid, parentless block to the orphan buffer.
    pub fn add_to_orphan_buffer(&mut self, block: &Block)
        requires
            old(self).wf(),
        ensures
            final(self).wf(),
            final(self)@ == old(self)@.with_orphan(block@),
    {
        let ghost before = *self;
        self.orphan_buffer.push(block.clone());
        proof {
            assert(self@.orphans =~= before@.orphans.push(block@));
            lemma_orphans_free(before@, self@.orphans);
        }
    }

    /// Moves the orphans that wait for `parent` from the buffer to the top of
    /// `stack`, the one that came first uppermost.
    pub(crate) fn release_orphans(&mut self, parent: &H256, stack: &mut Vec<Block>)
        requires
            old(self).wf(),
        ensures
            final(self).wf(),
            final(self)@ == old(self)@.without_waiting_on(*parent),
            pending_views(final(stack)@) == waiting_on(old(self)@.orphans, *parent)
                + pending_views(old(stack)@),
            final(stack)@.len() == old(stack)@.len() + waiting_on(
                old(self)@.orphans,
                *parent,
            ).len(),
    {
        let ghost before = *self;
        let ghost all = self.orphan_buffer@;
        let ghost stack_before = stack@;
        let mut buffer: Vec<Block> = Vec::new();
        core::mem::swap(&mut buffer, &mut self.orphan_buffer);
        let mut rest = reversed(buffer);
        let mut children: Vec<Block> = Vec::new();
        let mut kept: Vec<Block> = Vec::new();
        let ghost mut done: int = 0;
        while rest.len() > 0
            invariant
                0 <= done,
                done + rest@.len() == all.len(),
                rest@ == all.reverse().take(rest@.len() as int),
                block_seq_views(children@) == waiting_on(block_seq_views(all.take(done)), *parent),
                block_seq_views(kept@) == waiting_on_others(
                    block_seq_views(all.take(done)),
                    *parent,
                ),
            decreases rest@.len(),
        {
            let ghost n = rest@.len();
            let b = rest.pop().unwrap();
            proof {
                assert(rest@ =~= all.reverse().take(n - 1));
                assert(b == all[done]);
                let next = block_seq_views(all.take(done + 1));
                assert(next.drop_last() =~= block_seq_views(all.take(done)));
                assert(next.last() == b@);
            }
            if b.header.parent == *parent {
                proof {
                    assert(block_seq_views(children@.push(b)) =~= block_seq_views(children@).push(b@));
                }
                children.push(b);
            } else {
                proof {
                    assert(block_seq_views(kept@.push(b)) =~= block_seq_views(kept@).push(b@));
                }
                kept.push(b);
            }
            proof {
                done = done + 1;
            }
        }
        proof {
            assert(all.take(done) =~= all);
        }
        self.orphan_buffer = kept;
        proof {
            lemma_orphans_free(before@, self@.orphans);
            assert(self@.entries =~= before@.entries);
            assert(self@.order =~= before@.order);
        }
        let ghost waiting = children@;
        while children.len() > 0
            invariant
                children@ == waiting.take(children@.len() as int),
                children@.len() <= waiting.len(),
                stack@.len() == stack_before.len() + waiting.len() - children@.len(),
                pending_views(stack@) == block_seq_views(waiting.skip(children@.len() as int))
                    + pending_views(stack_before),
            decreases children@.len(),
        {
            let ghost n = children@.len();
            let ghost top = stack@;
            let b = children.pop().unwrap();
            stack.push(b);
            proof {
                assert(children@ =~= waiting.take(n - 1));
                assert(pending_views(stack@) =~= seq![b@] + pending_views(top));
                assert(block_seq_views(waiting.skip(n - 1)) =~= seq![b@] + block_seq_views(
                    waiting.skip(n as int),
                ));
                assert(pending_views(stack@) =~= block_seq_views(waiting.skip(n - 1))
                    + pending_views(stack_before));
            }
        }
        proof {
            assert(waiting.skip(0) =~= waiting);
        }
    }

    /// Records that the block with hash `hash` was received with this delay,
    /// unless an origin is on record for it.
    pub fn record_received(&mut self, hash: H256, delay_ms: u128)
        requires
            old(self).wf(),
        ensures
            final(self).wf(),
            final(self)@ == old(self)@.with_first_origin(
                hash,
                BlockOrigin::Received { delay_ms },
            ),
    {
        let ghost before = *self;
        if !self.origins.contains_key(&hash) {
            self.origins.insert(hash, BlockOrigin::Received { delay_ms });
            proof {
                assert(self@.entries =~= before@.entries);
                assert(self@.order =~= before@.order);
                crate::ledger::lemma_origins_free(before@, self@.origins);
            }
        }
    }

    /// Records that the block with hash `hash` was mined here, in the place
    /// of an earlier record where there is one.
    pub fn record_mined(&mut self, hash: H256)
        requires
            old(self).wf(),
        ensures
            final(self).wf(),
            final(self)@ == old(self)@.with_origin(hash, BlockOrigin::Mined),
    {
        let ghost before = *self;
        self.origins.insert(hash, BlockOrigin::Mined);
        proof {
            assert(self@.entries =~= before@.entries);
            assert(self@.order =~= before@.order);
            crate::ledger::lemma_origins_free(before@, self@.origins);
        }
    }

    /// The block at position `i` in the order of insertion.
    pub fn block_at(&self, i: usize) -> (b: &Block)
        requires
            self.wf(),
            i < self@.order.len(),
        ensures
            b@ == self@.entries[self@.order[i as int]].block,
    {
        proof {
            lemma_to_map_at(self.entries.pairs(), i as int);
        }
        &self.entries.value_at(i).block
    }

    /// The number of origins on record.
    pub fn origin_count(&self) -> (n: usize)
        ensures
            n == self@.origins.len(),
    {
        self.origins.len()
    }

    /// The origin at position `i` of the record.
    pub fn origin_at(&self, i: usize) -> (o: BlockOrigin)
        requires
            i < self@.origins.len(),
        ensures
            o == self@.origins[i as int].1,
    {
        *self.origins.value_at(i)
    }

    /// The number of blocks in the orphan buffer.
    pub fn orphan_count(&self) -> (n: usize)
        ensures
            n == self@.orphans.len(),
    {
        self.orphan_buffer.len()
    }
}

} // verus!
