//! Taking in a block together with the buffered blocks that it unlocks.

use crate::block::{Block, BlockView};
use crate::blockchain::{pending_views, Blockchain};
use crate::crypto::hash::H256;
use crate::ledger::{all_placeable, lemma_absorb_step, lemma_placeable_step, LedgerView};
use vstd::prelude::*;

verus! {

impl Blockchain {
    /// Takes the top block off `stack`: passes it over where its hash is
    /// known, else inserts it, records its hash and puts on the stack the
    /// orphans that waited for it.
    fn absorb_next(&mut self, stack: &mut Vec<Block>, out_hashes: &mut Vec<H256>)
        requires
            old(self).wf(),
            old(stack)@.len() > 0,
            all_placeable(old(self)@, pending_views(old(stack)@)),
        ensures
            final(self).wf(),
            all_placeable(final(self)@, pending_views(final(stack)@)),
            final(self)@.absorb(pending_views(final(stack)@)).0 == old(self)@.absorb(
                pending_views(old(stack)@),
            ).0,
            final(out_hashes)@ + final(self)@.absorb(pending_views(final(stack)@)).1 == old(
                out_hashes,
            )@ + old(self)@.absorb(pending_views(old(stack)@)).1,
            final(self)@.orphans.len() + final(stack)@.len() < old(self)@.orphans.len() + old(
                stack,
            )@.len(),
    {
        let ghost ledger = self@;
        let ghost work = pending_views(stack@);
        proof {
            self.lemma_view_wf();
        }
        let b = stack.pop().unwrap();
        let h = b.hash();
        proof {
            assert(work.first() == b@);
            assert(work.drop_first() =~= pending_views(stack@));
            lemma_absorb_step(ledger, work);
            lemma_placeable_step(ledger, work);
        }
        if !self.contains_block(&h) {
            self.insert(&b);
            out_hashes.push(h);
            self.release_orphans(&h, stack);
            proof {
                let next = ledger.with_block(b@).without_waiting_on(h);
                let hashes = next.absorb(pending_views(stack@)).1;
                assert(self@ == next);
                assert(out_hashes@ + hashes =~= old(out_hashes)@ + (seq![h] + hashes));
            }
        }
    }

    /// Insert a PoW valid, parentful block into the blockchain, and then every
    /// buffered block that it unlocks, each followed at once by those that it
    /// unlocks in turn. A block whose hash is known is passed over.
    /// `out_hashes` is used to store the hashes of all the blocks inserted.
    pub fn insert_recursively(&mut self, block: &Block, out_hashes: &mut Vec<H256>)
        requires
            old(self).wf(),
            old(self)@.contains(block@.hash()) || old(self)@.contains(block@.header.parent),
        ensures
            final(self).wf(),
            final(self)@ == old(self)@.absorb(seq![block@]).0,
            final(out_hashes)@ == old(out_hashes)@ + old(self)@.absorb(seq![block@]).1,
    {
        let ghost start = self@;
        let ghost out_before = out_hashes@;
        let mut stack: Vec<Block> = Vec::new();
        stack.push(block.clone());
        proof {
            let first = seq![block@];
            assert(pending_views(stack@) =~= first);
            assert(first[0] == block@);
            assert(all_placeable(start, first)) by {
                reveal(all_placeable);
                self.lemma_view_wf();
            }
        }
        while stack.len() > 0
            invariant
                self.wf(),
                all_placeable(self@, pending_views(stack@)),
                self@.absorb(pending_views(stack@)).0 == start.absorb(seq![block@]).0,
                out_hashes@ + self@.absorb(pending_views(stack@)).1 == out_before + start.absorb(
                    seq![block@],
                ).1,
            decreases self@.orphans.len() + stack@.len(),
        {
            self.absorb_next(&mut stack, out_hashes);
        }
        proof {
            let none = Seq::<BlockView>::empty();
            assert(pending_views(stack@) =~= none);
            assert(self@.absorb(none) == (self@, Seq::<H256>::empty())) by {
                reveal(LedgerView::absorb);
            }
            assert(out_hashes@ + Seq::<H256>::empty() =~= out_hashes@);
        }
    }
}

} // verus!
