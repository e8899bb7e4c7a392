//! What the ledger reports: the longest chain and figures on its blocks.

use crate::blockchain::Blockchain;
use crate::crypto::hash::H256;
use crate::ledger::{
    ascending, lemma_ancestor_step, lemma_parent_below, lemma_wf_basics, received_delays,
    BlockOrigin,
};
use vstd::prelude::*;

verus! {

impl Blockchain {
    /// Get all the blocks' hashes along the longest chain, from the genesis
    /// block to the tip.
    pub fn all_blocks_in_longest_chain(&self) -> (chain: Vec<H256>)
        requires
            self.wf(),
        ensures
            chain@ == self@.longest_chain(),
    {
        let ghost ledger = self@;
        let ghost mut k: nat = 0;
        let mut curr_hash = self.tip();
        proof {
            self.lemma_view_wf();
            lemma_wf_basics(ledger);
        }
        let mut height = self.height_of(&curr_hash);
        let ghost top = height as nat;
        let mut hashes_backward: Vec<H256> = Vec::new();
        hashes_backward.push(curr_hash);
        while height > 0
            invariant
                self.wf(),
                ledger == self@,
                ledger.contains(curr_hash),
                height == ledger.height(curr_hash),
                top == ledger.height(ledger.tip),
                k + height == top,
                hashes_backward@.len() == k + 1,
                curr_hash == ledger.ancestor(ledger.tip, k),
                forall|j: int|
                    0 <= j < hashes_backward@.len() ==> hashes_backward@[j] == ledger.ancestor(
                        ledger.tip,
                        j as nat,
                    ),
            decreases height,
        {
            proof {
                assert(ledger.contains(ledger.parent(curr_hash)) && ledger.height(
                    ledger.parent(curr_hash),
                ) + 1 == ledger.height(curr_hash)) by {
                    self.lemma_view_wf();
                    lemma_parent_below(ledger, curr_hash);
                }
                lemma_ancestor_step(ledger, ledger.tip, k);
                k = k + 1;
            }
            curr_hash = self.get_block(&curr_hash).header.parent;
            height = self.height_of(&curr_hash);
            hashes_backward.push(curr_hash);
        }
        let mut chain: Vec<H256> = Vec::new();
        let mut i: usize = hashes_backward.len();
        while i > 0
            invariant
                i <= hashes_backward@.len(),
                chain@.len() == hashes_backward@.len() - i,
                forall|j: int|
                    0 <= j < chain@.len() ==> chain@[j] == hashes_backward@[hashes_backward@.len()
                        - 1 - j],
            decreases i,
        {
            i -= 1;
            chain.push(hashes_backward[i]);
        }
        assert(chain@ =~= ledger.longest_chain());
        chain
    }

    /// The size in bytes of the average block, rounded down.
    pub fn average_block_size(&self) -> (n: usize)
        requires
            self.wf(),
        ensures
            n == self@.total_size(self@.order.len()) / self@.order.len(),
    {
        let ghost ledger = self@;
        let count = self.block_count();
        let mut total: u128 = 0;
        let mut i: usize = 0;
        while i < count
            invariant
                self.wf(),
                ledger == self@,
                count == ledger.order.len(),
                i <= count,
                total == ledger.total_size(i as nat),
                total <= i * usize::MAX,
            decreases count - i,
        {
            let size = self.block_at(i).size();
            proof {
                assert((i + 1) * usize::MAX == i * usize::MAX + usize::MAX) by (nonlinear_arith);
                assert(i * usize::MAX <= count * usize::MAX) by (nonlinear_arith)
                    requires
                        i <= count,
                ;
                assert(count * usize::MAX <= 0xFFFF_FFFF_FFFF_FFFF * 0xFFFF_FFFF_FFFF_FFFF)
                    by (nonlinear_arith)
                    requires
                        count <= 0xFFFF_FFFF_FFFF_FFFF,
                        usize::MAX <= 0xFFFF_FFFF_FFFF_FFFF,
                ;
            }
            total = total + size as u128;
            i += 1;
        }
        proof {
            assert(ledger.order.len() > 0) by {
                self.lemma_view_wf();
                lemma_wf_basics(ledger);
            }
            assert(total as int / count as int <= usize::MAX) by (nonlinear_arith)
                requires
                    total <= count * usize::MAX,
                    count > 0,
            ;
        }
        (total / count as u128) as usize
    }

    /// The delays in milliseconds of the blocks on record as received, in
    /// ascending order.
    pub fn block_delays_ms(&self) -> (delays: Vec<u128>)
        ensures
            ascending(delays@),
            delays@.to_multiset() == received_delays(self@.origins).to_multiset(),
    {
        let ghost origins = self@.origins;
        let count = self.origin_count();
        let mut delays: Vec<u128> = Vec::new();
        let mut i: usize = 0;
        while i < count
            invariant
                origins == self@.origins,
                count == origins.len(),
                i <= count,
                ascending(delays@),
                delays@.to_multiset() == received_delays(origins.take(i as int)).to_multiset(),
            decreases count - i,
        {
            proof {
                let next = origins.take(i + 1);
                assert(next.drop_last() =~= origins.take(i as int));
                assert(next.last() == origins[i as int]);
            }
            match self.origin_at(i) {
                BlockOrigin::Mined => {},
                BlockOrigin::Received { delay_ms } => {
                    proof {
                        vstd::seq_lib::to_multiset_build(
                            received_delays(origins.take(i as int)),
                            delay_ms,
                        );
                    }
                    insert_ascending(&mut delays, delay_ms);
                },
            }
            i += 1;
        }
        proof {
            assert(origins.take(i as int) =~= origins);
        }
        delays
    }
}

/// Puts `x` into the ascending list `v` at its place.
fn insert_ascending(v: &mut Vec<u128>, x: u128)
    requires
        ascending(old(v)@),
    ensures
        ascending(final(v)@),
        final(v)@.to_multiset() == old(v)@.to_multiset().insert(x),
{
    let mut i: usize = 0;
    while i < v.len() && v[i] <= x
        invariant
            i <= v@.len(),
            v@ == old(v)@,
            forall|j: int| 0 <= j < i ==> v@[j] <= x,
        decreases v@.len() - i,
    {
        i += 1;
    }
    v.insert(i, x);
    proof {
        let before = old(v)@;
        let after = v@;
        assert(after.remove(i as int) =~= before);
        vstd::seq_lib::to_multiset_remove(after, i as int);
        after.to_multiset_ensures();
        assert(after.contains(x)) by {
            assert(after[i as int] == x);
        }
        assert(after.to_multiset() =~= before.to_multiset().insert(x));
        assert forall|a: int, b: int| 0 <= a <= b < after.len() implies after[a] <= after[b] by {
            let a0 = if a < i { a } else { a - 1 };
            let b0 = if b < i { b } else { b - 1 };
            if a != i && b != i {
                assert(after[a] == before[a0] && after[b] == before[b0]);
            } else if a == i && b != i {
                assert(after[b] == before[b0]);
                assert(before[i as int] <= before[b0]);
            } else if b == i && a != i {
                assert(after[a] == before[a0]);
            }
        }
    }
}

} // verus!
