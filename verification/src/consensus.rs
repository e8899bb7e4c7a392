//! What the rules of the ledger guarantee: taking a block in twice changes
//! nothing, the tip is the first block of the greatest height, heights do
//! not depend on the order of arrival, and the proof-of-work rule holds of
//! every block once it holds of those that come in.

use crate::block::BlockView;
use crate::crypto::hash::H256;
use crate::ledger::{
    all_known, all_placeable, genesis_hash, lemma_absorb_step, lemma_absorb_wf,
    lemma_placeable_step, lemma_wf_basics, lemma_waiting_split, lemma_with_block_wf,
    waiting_on, LedgerView,
};
use vstd::prelude::*;

verus! {

/// Taking in a block whose hash is known changes nothing and inserts
/// nothing.
pub proof fn lemma_absorb_known(l: LedgerView, b: BlockView)
    requires
        l.contains(b.hash()),
    ensures
        l.absorb(seq![b]) == (l, Seq::<H256>::empty()),
{
    let one = seq![b];
    lemma_absorb_step(l, one);
    assert(one.drop_first() =~= Seq::<BlockView>::empty());
    assert(l.absorb(Seq::<BlockView>::empty()) == (l, Seq::<H256>::empty())) by {
        reveal(LedgerView::absorb);
    }
}

/// Taking in the same block a second time changes nothing: blocks, heights,
/// unspent outputs, tip and orphan buffer stay as the first time left them.
pub proof fn lemma_absorb_twice(l: LedgerView, b: BlockView)
    requires
        l.wf(),
        l.contains(b.hash()) || l.contains(b.header.parent),
    ensures
        l.absorb(seq![b]).0.absorb(seq![b]) == (l.absorb(seq![b]).0, Seq::<H256>::empty()),
{
    let one = seq![b];
    assert(one[0] == b);
    assert(all_placeable(l, one)) by {
        reveal(all_placeable);
    }
    lemma_absorb_wf(l, one);
    let first = l.absorb(one).0;
    assert(first.contains(one[0].hash())) by {
        reveal(all_known);
    }
    lemma_absorb_known(first, b);
}

/// No known block stands higher than the tip.
pub proof fn lemma_tip_is_highest(l: LedgerView, h: H256)
    requires
        l.wf(),
        l.contains(h),
    ensures
        l.height(h) <= l.height(l.tip),
{
    reveal(LedgerView::wf);
    assert(l.order.contains(h));
    assert(l.order.contains(l.tip));
    let i = l.order.index_of(h);
    let j = l.order.index_of(l.tip);
    assert(l.order[i] == h && l.order[j] == l.tip);
}

/// Among the blocks of the tip's height, the tip was inserted first.
pub proof fn lemma_tip_is_first(l: LedgerView, h: H256)
    requires
        l.wf(),
        l.contains(h),
        l.height(h) == l.height(l.tip),
    ensures
        l.order.index_of(l.tip) <= l.order.index_of(h),
{
    reveal(LedgerView::wf);
    assert(l.order.contains(h));
    assert(l.order.contains(l.tip));
    let i = l.order.index_of(h);
    let j = l.order.index_of(l.tip);
    assert(l.order[i] == h && l.order[j] == l.tip);
}

/// A block that stands strictly higher than every other known block is the
/// tip, in whatever order the blocks came.
pub proof fn lemma_strictly_highest_is_tip(l: LedgerView, h: H256)
    requires
        l.wf(),
        l.contains(h),
        forall|x: H256| #[trigger] l.contains(x) && x != h ==> l.height(x) < l.height(h),
    ensures
        l.tip == h,
{
    lemma_wf_basics(l);
    lemma_tip_is_highest(l, h);
}

/// A new block becomes the tip exactly if it stands strictly higher than the
/// tip; a block that only draws level leaves the tip where it was.
pub proof fn lemma_insert_moves_tip(l: LedgerView, b: BlockView)
    requires
        l.wf(),
        l.contains(b.header.parent),
        !l.contains(b.hash()),
    ensures
        l.with_block(b).height(b.hash()) == l.height(b.header.parent) + 1,
        l.with_block(b).tip == if l.height(b.header.parent) + 1 > l.height(l.tip) {
            b.hash()
        } else {
            l.tip
        },
{
    reveal(LedgerView::wf);
}

/// Two new blocks on known parents, neither the parent of the other, that
/// come to stand at different heights leave the same tip whichever is
/// inserted first.
pub proof fn lemma_fork_choice_any_order(l: LedgerView, a: BlockView, b: BlockView)
    requires
        l.wf(),
        l.contains(a.header.parent),
        l.contains(b.header.parent),
        !l.contains(a.hash()),
        !l.contains(b.hash()),
        a.hash() != b.hash(),
        l.height(a.header.parent) != l.height(b.header.parent),
    ensures
        l.with_block(a).with_block(b).tip == l.with_block(b).with_block(a).tip,
{
    lemma_with_block_wf(l, a);
    lemma_with_block_wf(l, b);
    lemma_wf_basics(l);
    let la = l.with_block(a);
    let lb = l.with_block(b);
    assert(la.contains(b.header.parent) && la.entries[b.header.parent]
        == l.entries[b.header.parent]) by {
        assert(l.contains(b.header.parent));
    }
    assert(lb.contains(a.header.parent) && lb.entries[a.header.parent]
        == l.entries[a.header.parent]) by {
        assert(l.contains(a.header.parent));
    }
    assert(la.contains(l.tip) && la.entries[l.tip] == l.entries[l.tip]) by {
        assert(l.contains(l.tip));
    }
    assert(lb.contains(l.tip) && lb.entries[l.tip] == l.entries[l.tip]) by {
        assert(l.contains(l.tip));
    }
}

/// Two well-formed ledgers agree on each block that both know.
pub open spec fn agree(a: LedgerView, b: LedgerView) -> bool {
    forall|h: H256| #[trigger]
        a.contains(h) && b.contains(h) ==> a.entries[h].block == b.entries[h].block
}

/// The height of a block does not depend on the ledger that holds it, nor
/// on the order in which its blocks came: two ledgers that agree on their
/// common blocks give each common block the same height and the same
/// unspent outputs.
pub proof fn lemma_height_intrinsic(a: LedgerView, b: LedgerView, h: H256)
    requires
        a.wf(),
        b.wf(),
        agree(a, b),
        a.contains(h),
        b.contains(h),
    ensures
        a.height(h) == b.height(h),
        a.entries[h].state == b.entries[h].state,
    decreases a.height(h),
{
    reveal(LedgerView::wf);
    assert(a.entry_ok(h));
    assert(b.entry_ok(h));
    if h != genesis_hash() {
        lemma_height_intrinsic(a, b, a.parent(h));
    }
}

/// Two ledgers that know the same blocks, among them one that stands
/// strictly higher than all others, have the same tip.
pub proof fn lemma_same_blocks_same_tip(a: LedgerView, b: LedgerView)
    requires
        a.wf(),
        b.wf(),
        agree(a, b),
        forall|h: H256| a.contains(h) <==> b.contains(h),
        forall|x: H256| #[trigger] a.contains(x) && x != a.tip ==> a.height(x) < a.height(a.tip),
    ensures
        a.tip == b.tip,
{
    lemma_wf_basics(a);
    assert forall|x: H256| #[trigger] b.contains(x) && x != a.tip implies b.height(x) < b.height(
        a.tip,
    ) by {
        assert(a.contains(x));
        lemma_height_intrinsic(a, b, x);
        lemma_height_intrinsic(a, b, a.tip);
    }
    lemma_strictly_highest_is_tip(b, a.tip);
}

impl LedgerView {
    /// Every known block but the genesis block, and every block in the
    /// orphan buffer, meets the proof-of-work rule.
    #[verifier::opaque]
    pub open spec fn pow_sound(self) -> bool {
        &&& forall|h: H256| #[trigger]
            self.contains(h) && h != genesis_hash() ==> self.pow_valid(self.entries[h].block)
        &&& forall|i: int|
            0 <= i < self.orphans.len() ==> self.pow_valid(#[trigger] self.orphans[i])
    }
}

/// The ledger that holds the genesis block alone meets the proof-of-work
/// rule.
pub proof fn lemma_genesis_pow_sound()
    ensures
        crate::ledger::genesis_ledger().pow_sound(),
{
    reveal(LedgerView::pow_sound);
}

/// Each block of `pending` meets the proof-of-work rule of `l`.
#[verifier::opaque]
pub open spec fn all_pow_valid(l: LedgerView, pending: Seq<BlockView>) -> bool {
    forall|i: int| 0 <= i < pending.len() ==> l.pow_valid(#[trigger] pending[i])
}

/// Inserting a block that meets the proof-of-work rule keeps the rule in
/// force.
pub proof fn lemma_with_block_pow(l: LedgerView, b: BlockView)
    requires
        l.pow_sound(),
        l.pow_valid(b),
        b.hash() != genesis_hash(),
    ensures
        l.with_block(b).pow_sound(),
{
    reveal(LedgerView::pow_sound);
    let n = l.with_block(b);
    assert forall|h: H256| #[trigger] n.contains(h) && h != genesis_hash() implies n.pow_valid(
        n.entries[h].block,
    ) by {
        if h != b.hash() {
            assert(l.contains(h));
        }
    }
}

/// Taking the orphans that wait for a block out of the buffer keeps the
/// proof-of-work rule in force, and those taken out meet it.
pub proof fn lemma_release_pow(l: LedgerView, h: H256)
    requires
        l.pow_sound(),
    ensures
        l.without_waiting_on(h).pow_sound(),
        all_pow_valid(l.without_waiting_on(h), waiting_on(l.orphans, h)),
{
    reveal(all_pow_valid);
    reveal(LedgerView::pow_sound);
    let next = l.without_waiting_on(h);
    let children = waiting_on(l.orphans, h);
    lemma_waiting_split(l.orphans, h);
    assert forall|x: H256| #[trigger] next.contains(x) && x != genesis_hash() implies next.pow_valid(
        next.entries[x].block,
    ) by {
        assert(l.contains(x));
    }
    assert forall|i: int| 0 <= i < next.orphans.len() implies next.pow_valid(
        #[trigger] next.orphans[i],
    ) by {
        let o = next.orphans[i];
        assert(l.orphans.contains(o));
        let j = l.orphans.index_of(o);
        assert(l.orphans[j] == o);
    }
    assert forall|i: int| 0 <= i < children.len() implies next.pow_valid(
        #[trigger] children[i],
    ) by {
        assert(l.orphans.contains(children[i]));
        let j = l.orphans.index_of(children[i]);
        assert(l.orphans[j] == children[i]);
    }
}

/// One step of taking in blocks keeps the proof-of-work rule in force, and
/// the blocks still to take in meet it.
pub proof fn lemma_step_pow(l: LedgerView, pending: Seq<BlockView>)
    requires
        l.pow_sound(),
        l.contains(genesis_hash()),
        all_pow_valid(l, pending),
        pending.len() > 0,
    ensures
        all_pow_valid(l, pending.drop_first()),
        !l.contains(pending.first().hash()) ==> {
            let h = pending.first().hash();
            let next = l.with_block(pending.first()).without_waiting_on(h);
            let work = waiting_on(l.orphans, h) + pending.drop_first();
            next.pow_sound() && all_pow_valid(next, work)
        },
{
    reveal(all_pow_valid);
    reveal(LedgerView::pow_sound);
    let b = pending.first();
    let rest = pending.drop_first();
    let h = b.hash();
    assert(pending[0] == b);
    assert forall|i: int| 0 <= i < rest.len() implies l.pow_valid(#[trigger] rest[i]) by {
        assert(rest[i] == pending[i + 1]);
    }
    if !l.contains(h) {
        let inserted = l.with_block(b);
        let children = waiting_on(inserted.orphans, h);
        let next = inserted.without_waiting_on(h);
        let work = children + rest;
        lemma_with_block_pow(l, b);
        lemma_release_pow(inserted, h);
        assert forall|i: int| 0 <= i < work.len() implies next.pow_valid(#[trigger] work[i]) by {
            if i < children.len() {
                assert(work[i] == children[i]);
            } else {
                assert(work[i] == rest[i - children.len()]);
                assert(l.pow_valid(rest[i - children.len()]));
            }
        }
    }
}

/// Taking in blocks that meet the proof-of-work rule keeps the rule in
/// force: the orphans that they unlock met it when they were buffered.
pub proof fn lemma_absorb_pow(l: LedgerView, pending: Seq<BlockView>)
    requires
        l.wf(),
        l.pow_sound(),
        all_placeable(l, pending),
        all_pow_valid(l, pending),
    ensures
        l.absorb(pending).0.pow_sound(),
    decreases l.orphans.len() + pending.len(),
{
    if pending.len() == 0 {
        assert(l.absorb(pending) == (l, Seq::<H256>::empty())) by {
            reveal(LedgerView::absorb);
        }
    } else {
        lemma_absorb_step(l, pending);
        lemma_placeable_step(l, pending);
        lemma_wf_basics(l);
        lemma_step_pow(l, pending);
        let h = pending.first().hash();
        if l.contains(h) {
            lemma_absorb_pow(l, pending.drop_first());
        } else {
            let next = l.with_block(pending.first()).without_waiting_on(h);
            let work = waiting_on(l.orphans, h) + pending.drop_first();
            lemma_absorb_pow(next, work);
        }
    }
}

} // verus!
