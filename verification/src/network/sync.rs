//! How two nodes come to hold the same blocks: one announces the hashes it
//! knows, the other asks for those it lacks and takes in the blocks that
//! come back.

use crate::block::BlockView;
use crate::consensus::{agree, lemma_same_blocks_same_tip};
use crate::crypto::hash::H256;
use crate::ledger::{
    all_known, all_placeable, genesis_hash, lemma_absorb_step, lemma_absorb_wf,
    lemma_orphans_free, lemma_placeable_step, lemma_waiting_split, lemma_wf_basics,
    lemma_with_origin_wf, waiting_on, BlockOrigin,
    LedgerView,
};
use crate::network::message::{ActionView, MessageView};
use crate::network::protocol::{
    delay, intake_start, known_blocks, receive_block, receive_blocks, respond, unknown_hashes,
    Intake,
};
use crate::transaction::SignedTransactionView;
use vstd::prelude::*;

verus! {

/// No orphan waits for a block that the ledger knows.
#[verifier::opaque]
pub open spec fn tight(l: LedgerView) -> bool {
    forall|i: int| 0 <= i < l.orphans.len() ==> !l.contains((#[trigger] l.orphans[i]).header.parent)
}

/// `next` holds every block of `l` as `l` holds it.
#[verifier::opaque]
pub open spec fn keeps(l: LedgerView, next: LedgerView) -> bool {
    forall|h: H256| #[trigger] l.contains(h) ==> next.contains(h) && next.entries[h] == l.entries[h]
}

/// Each orphan of `l` still waits in `next` or is known to it, and `next`
/// has no orphan that `l` had not.
#[verifier::opaque]
pub open spec fn accounts_for(l: LedgerView, next: LedgerView) -> bool {
    &&& forall|i: int|
        0 <= i < l.orphans.len() ==> next.orphans.contains(#[trigger] l.orphans[i])
            || next.contains(l.orphans[i].hash())
    &&& forall|i: int| 0 <= i < next.orphans.len() ==> l.orphans.contains(#[trigger] next.orphans[i])
}

/// Some block of `blocks` has hash `h` and is the block that `l` holds under
/// `h`.
pub open spec fn filed_from(l: LedgerView, blocks: Seq<BlockView>, h: H256) -> bool {
    exists|i: int| 0 <= i < blocks.len() && (#[trigger] blocks[i]).hash() == h && l.entries[h].block
            == blocks[i]
}

/// Each block that `next` knows and `l` did not came from `pending` or from
/// the orphans of `l`.
#[verifier::opaque]
pub open spec fn adds_only(l: LedgerView, next: LedgerView, pending: Seq<BlockView>) -> bool {
    forall|h: H256| #[trigger]
        next.contains(h) && !l.contains(h) ==> filed_from(next, pending, h) || filed_from(
            next,
            l.orphans,
            h,
        )
}

/// Taking in blocks leaves no orphan waiting for a known block, if none
/// waited before.
pub proof fn lemma_absorb_tight(l: LedgerView, pending: Seq<BlockView>)
    requires
        l.wf(),
        tight(l),
        all_placeable(l, pending),
    ensures
        tight(l.absorb(pending).0),
    decreases l.orphans.len() + pending.len(),
{
    if pending.len() == 0 {
        assert(l.absorb(pending) == (l, Seq::<H256>::empty())) by {
            reveal(LedgerView::absorb);
        }
    } else {
        lemma_absorb_step(l, pending);
        lemma_placeable_step(l, pending);
        let h = pending.first().hash();
        if l.contains(h) {
            lemma_absorb_tight(l, pending.drop_first());
        } else {
            let next = l.with_block(pending.first()).without_waiting_on(h);
            let work = waiting_on(l.orphans, h) + pending.drop_first();
            assert(tight(next)) by {
                reveal(tight);
                lemma_waiting_split(l.orphans, h);
                assert forall|i: int| 0 <= i < next.orphans.len() implies !next.contains(
                    (#[trigger] next.orphans[i]).header.parent,
                ) by {
                    let o = next.orphans[i];
                    assert(l.orphans.contains(o));
                    let j = l.orphans.index_of(o);
                    assert(l.orphans[j] == o);
                }
            }
            lemma_absorb_tight(next, work);
        }
    }
}

/// Taking in blocks accounts for every orphan: each still waits or is
/// known.
pub proof fn lemma_absorb_accounts(l: LedgerView, pending: Seq<BlockView>)
    requires
        l.wf(),
        all_placeable(l, pending),
    ensures
        accounts_for(l, l.absorb(pending).0),
    decreases l.orphans.len() + pending.len(),
{
    if pending.len() == 0 {
        assert(l.absorb(pending) == (l, Seq::<H256>::empty())) by {
            reveal(LedgerView::absorb);
        }
        assert(accounts_for(l, l)) by {
            reveal(accounts_for);
            assert forall|i: int| 0 <= i < l.orphans.len() implies l.orphans.contains(
                #[trigger] l.orphans[i],
            ) by {}
        }
    } else {
        lemma_absorb_step(l, pending);
        lemma_placeable_step(l, pending);
        let h = pending.first().hash();
        if l.contains(h) {
            lemma_absorb_accounts(l, pending.drop_first());
        } else {
            let next = l.with_block(pending.first()).without_waiting_on(h);
            let children = waiting_on(l.orphans, h);
            let work = children + pending.drop_first();
            let done = next.absorb(work).0;
            lemma_absorb_accounts(next, work);
            lemma_absorb_wf(next, work);
            assert(accounts_for(l, done)) by {
                reveal(accounts_for);
                reveal(all_known);
                lemma_waiting_split(l.orphans, h);
                assert forall|i: int| 0 <= i < l.orphans.len() implies done.orphans.contains(
                    #[trigger] l.orphans[i],
                ) || done.contains(l.orphans[i].hash()) by {
                    let o = l.orphans[i];
                    if o.header.parent == h {
                        assert(children.contains(o));
                        let j = children.index_of(o);
                        assert(work[j] == o);
                    } else {
                        assert(next.orphans.contains(o));
                        let j = next.orphans.index_of(o);
                        assert(next.orphans[j] == o);
                    }
                }
                assert forall|i: int| 0 <= i < done.orphans.len() implies l.orphans.contains(
                    #[trigger] done.orphans[i],
                ) by {
                    let o = done.orphans[i];
                    assert(next.orphans.contains(o));
                    let j = next.orphans.index_of(o);
                    assert(next.orphans[j] == o);
                }
            }
        }
    }
}

/// A block filed from a list is filed from any list that holds the blocks
/// of that list, in a ledger that holds it the same way.
pub proof fn lemma_filed_from_wider(
    l: LedgerView,
    next: LedgerView,
    blocks: Seq<BlockView>,
    wider: Seq<BlockView>,
    h: H256,
)
    requires
        filed_from(l, blocks, h),
        next.entries[h] == l.entries[h],
        forall|i: int| 0 <= i < blocks.len() ==> wider.contains(#[trigger] blocks[i]),
    ensures
        filed_from(next, wider, h),
{
    let i = choose|i: int|
        0 <= i < blocks.len() && (#[trigger] blocks[i]).hash() == h && l.entries[h].block
            == blocks[i];
    assert(wider.contains(blocks[i]));
    let j = wider.index_of(blocks[i]);
    assert(wider[j] == blocks[i]);
}

/// Taking in blocks adds none but those taken in and the orphans that they
/// unlock.
pub proof fn lemma_absorb_adds_only(l: LedgerView, pending: Seq<BlockView>)
    requires
        l.wf(),
        all_placeable(l, pending),
    ensures
        adds_only(l, l.absorb(pending).0, pending),
    decreases l.orphans.len() + pending.len(),
{
    if pending.len() == 0 {
        assert(l.absorb(pending) == (l, Seq::<H256>::empty())) by {
            reveal(LedgerView::absorb);
        }
        assert(adds_only(l, l, pending)) by {
            reveal(adds_only);
        }
    } else {
        lemma_absorb_step(l, pending);
        lemma_placeable_step(l, pending);
        let b = pending.first();
        let rest = pending.drop_first();
        let h = b.hash();
        assert(pending[0] == b);
        if l.contains(h) {
            lemma_absorb_adds_only(l, rest);
            let done = l.absorb(rest).0;
            assert(adds_only(l, done, pending)) by {
                reveal(adds_only);
                assert forall|x: H256| #[trigger] done.contains(x) && !l.contains(
                    x,
                ) implies filed_from(done, pending, x) || filed_from(done, l.orphans, x) by {
                    if filed_from(done, rest, x) {
                        assert forall|i: int| 0 <= i < rest.len() implies pending.contains(
                            #[trigger] rest[i],
                        ) by {
                            assert(pending[i + 1] == rest[i]);
                        }
                        lemma_filed_from_wider(done, done, rest, pending, x);
                    }
                }
            }
        } else {
            let inserted = l.with_block(b);
            let next = inserted.without_waiting_on(h);
            let children = waiting_on(l.orphans, h);
            let work = children + rest;
            let done = next.absorb(work).0;
            lemma_absorb_adds_only(next, work);
            lemma_absorb_wf(next, work);
            lemma_waiting_split(l.orphans, h);
            assert(adds_only(l, done, pending)) by {
                reveal(adds_only);
                assert forall|x: H256| #[trigger] done.contains(x) && !l.contains(
                    x,
                ) implies filed_from(done, pending, x) || filed_from(done, l.orphans, x) by {
                    if x == h {
                        assert(next.contains(h));
                        assert(done.entries[h] == next.entries[h]);
                        assert(pending[0].hash() == h && done.entries[h].block == pending[0]);
                    } else {
                        assert(!next.contains(x));
                        if filed_from(done, work, x) {
                            let i = choose|i: int|
                                0 <= i < work.len() && (#[trigger] work[i]).hash() == x
                                    && done.entries[x].block == work[i];
                            if i < children.len() {
                                assert(work[i] == children[i]);
                                assert(l.orphans.contains(children[i]));
                                let j = l.orphans.index_of(children[i]);
                                assert(l.orphans[j] == work[i]);
                            } else {
                                assert(work[i] == rest[i - children.len()]);
                                assert(pending[i - children.len() + 1] == work[i]);
                            }
                        } else {
                            assert(filed_from(done, next.orphans, x));
                            assert forall|i: int|
                                0 <= i < next.orphans.len() implies l.orphans.contains(
                                #[trigger] next.orphans[i],
                            ) by {}
                            lemma_filed_from_wider(done, done, next.orphans, l.orphans, x);
                        }
                    }
                }
            }
        }
    }
}

/// The ledger `a` holds the block `x` under its hash.
pub open spec fn held_by(a: LedgerView, x: BlockView) -> bool {
    a.contains(x.hash()) && a.entries[x.hash()].block == x
}

/// Where the ledger `l` stands while it takes in blocks of `a` on top of
/// what it held as `b`: it is well formed, no orphan waits for a known
/// block, the blocks of `b` are kept, each block handled so far is known or
/// waits as an orphan, each block that `b` had not is a block of `a`, and
/// each orphan is a block of `a` that `b` had not.
#[verifier::opaque]
pub open spec fn syncing(l: LedgerView, a: LedgerView, b: LedgerView, done: Seq<BlockView>) -> bool {
    &&& l.wf()
    &&& tight(l)
    &&& keeps(b, l)
    &&& forall|j: int|
        0 <= j < done.len() ==> l.contains((#[trigger] done[j]).hash()) || l.orphans.contains(
            done[j],
        )
    &&& forall|h: H256| #[trigger]
        l.contains(h) ==> b.contains(h) || (a.contains(h) && l.entries[h].block
            == a.entries[h].block)
    &&& forall|i: int|
        0 <= i < l.orphans.len() ==> held_by(a, #[trigger] l.orphans[i]) && !b.contains(
            l.orphans[i].hash(),
        )
}

/// Recording an origin changes nothing of what a ledger holds.
pub proof fn lemma_sync_recorded(
    l: LedgerView,
    a: LedgerView,
    b: LedgerView,
    done: Seq<BlockView>,
    h: H256,
    origin: BlockOrigin,
)
    requires
        syncing(l, a, b, done),
    ensures
        syncing(l.with_first_origin(h, origin), a, b, done),
{
    reveal(syncing);
    reveal(tight);
    reveal(keeps);
    lemma_with_origin_wf(l, h, origin);
    let n = l.with_first_origin(h, origin);
    assert forall|x: H256| #[trigger] n.contains(x) implies b.contains(x) || (a.contains(x)
        && n.entries[x].block == a.entries[x].block) by {
        assert(l.contains(x));
    }
    assert forall|j: int| 0 <= j < done.len() implies n.contains((#[trigger] done[j]).hash())
        || n.orphans.contains(done[j]) by {
        assert(l.contains(done[j].hash()) || l.orphans.contains(done[j]));
    }
    assert forall|i: int| 0 <= i < n.orphans.len() implies held_by(a, #[trigger] n.orphans[i])
        && !b.contains(n.orphans[i].hash()) by {
        assert(held_by(a, l.orphans[i]));
    }
    assert forall|i: int| 0 <= i < n.orphans.len() implies !n.contains(
        (#[trigger] n.orphans[i]).header.parent,
    ) by {
        assert(!l.contains(l.orphans[i].header.parent));
    }
}

/// A block that is known counts as handled.
pub proof fn lemma_sync_known(
    l: LedgerView,
    a: LedgerView,
    b: LedgerView,
    done: Seq<BlockView>,
    x: BlockView,
)
    requires
        syncing(l, a, b, done),
        l.contains(x.hash()),
    ensures
        syncing(l, a, b, done.push(x)),
{
    reveal(syncing);
    let next = done.push(x);
    assert forall|j: int| 0 <= j < next.len() implies l.contains((#[trigger] next[j]).hash())
        || l.orphans.contains(next[j]) by {
        if j < done.len() {
            assert(next[j] == done[j]);
        }
    }
}

/// A block of `a` whose parent is unknown is buffered.
pub proof fn lemma_sync_orphan(
    l: LedgerView,
    a: LedgerView,
    b: LedgerView,
    done: Seq<BlockView>,
    x: BlockView,
)
    requires
        syncing(l, a, b, done),
        held_by(a, x),
        !l.contains(x.hash()),
        !l.contains(x.header.parent),
    ensures
        syncing(l.with_orphan(x), a, b, done.push(x)),
{
    reveal(syncing);
    reveal(tight);
    reveal(keeps);
    let n = l.with_orphan(x);
    let next = done.push(x);
    lemma_orphans_free(l, l.orphans.push(x));
    assert forall|h: H256| #[trigger] n.contains(h) implies b.contains(h) || (a.contains(h)
        && n.entries[h].block == a.entries[h].block) by {
        assert(l.contains(h));
    }
    assert forall|j: int| 0 <= j < next.len() implies n.contains((#[trigger] next[j]).hash())
        || n.orphans.contains(next[j]) by {
        if j < done.len() {
            assert(next[j] == done[j]);
            if l.orphans.contains(done[j]) {
                let i = l.orphans.index_of(done[j]);
                assert(n.orphans[i] == done[j]);
            }
        } else {
            assert(n.orphans[l.orphans.len() as int] == x);
        }
    }
    assert forall|i: int| 0 <= i < n.orphans.len() implies held_by(a, #[trigger] n.orphans[i])
        && !b.contains(n.orphans[i].hash()) by {
        if i < l.orphans.len() {
            assert(held_by(a, l.orphans[i]));
        } else {
            assert(!l.contains(x.hash()));
        }
    }
    assert forall|i: int| 0 <= i < n.orphans.len() implies !n.contains(
        (#[trigger] n.orphans[i]).header.parent,
    ) by {
        if i < l.orphans.len() {
            assert(!l.contains(l.orphans[i].header.parent));
        }
    }
}

/// A block of `a` whose parent is known is inserted with the orphans that it
/// unlocks.
pub proof fn lemma_sync_absorb(
    l: LedgerView,
    a: LedgerView,
    b: LedgerView,
    done: Seq<BlockView>,
    x: BlockView,
)
    requires
        syncing(l, a, b, done),
        held_by(a, x),
        l.contains(x.header.parent),
    ensures
        syncing(l.absorb(seq![x]).0, a, b, done.push(x)),
{
    let one = seq![x];
    let n = l.absorb(one).0;
    let next = done.push(x);
    assert(one[0] == x);
    assert(l.wf() && tight(l)) by {
        reveal(syncing);
    }
    assert(all_placeable(l, one)) by {
        reveal(all_placeable);
    }
    lemma_absorb_wf(l, one);
    lemma_absorb_tight(l, one);
    lemma_absorb_accounts(l, one);
    lemma_absorb_adds_only(l, one);
    assert(keeps(b, n)) by {
        reveal(syncing);
        reveal(keeps);
        assert forall|h: H256| #[trigger] b.contains(h) implies n.contains(h) && n.entries[h]
            == b.entries[h] by {
            assert(l.contains(h));
        }
    }
    assert forall|j: int| 0 <= j < next.len() implies n.contains((#[trigger] next[j]).hash())
        || n.orphans.contains(next[j]) by {
        reveal(syncing);
        reveal(accounts_for);
        reveal(all_known);
        if j < done.len() {
            assert(next[j] == done[j]);
            if l.contains(done[j].hash()) {
            } else {
                let i = l.orphans.index_of(done[j]);
                assert(l.orphans[i] == done[j]);
            }
        } else {
            assert(n.contains(one[0].hash()));
        }
    }
    assert forall|h: H256| #[trigger] n.contains(h) implies b.contains(h) || (a.contains(h)
        && n.entries[h].block == a.entries[h].block) by {
        reveal(syncing);
        reveal(adds_only);
        if l.contains(h) {
        } else {
            if filed_from(n, one, h) {
                let i = choose|i: int|
                    0 <= i < one.len() && (#[trigger] one[i]).hash() == h && n.entries[h].block
                        == one[i];
                assert(one[i] == x);
            } else {
                let i = choose|i: int|
                    0 <= i < l.orphans.len() && (#[trigger] l.orphans[i]).hash() == h
                        && n.entries[h].block == l.orphans[i];
                assert(held_by(a, l.orphans[i]));
            }
        }
    }
    assert forall|i: int| 0 <= i < n.orphans.len() implies held_by(a, #[trigger] n.orphans[i])
        && !b.contains(n.orphans[i].hash()) by {
        reveal(syncing);
        reveal(accounts_for);
        let o = n.orphans[i];
        assert(l.orphans.contains(o));
        let j = l.orphans.index_of(o);
        assert(l.orphans[j] == o);
    }
    assert(syncing(n, a, b, next)) by {
        reveal(syncing);
    }
}

/// Each block of `blocks` is held by `a`.
#[verifier::opaque]
pub open spec fn all_held_by(a: LedgerView, blocks: Seq<BlockView>) -> bool {
    forall|i: int| 0 <= i < blocks.len() ==> held_by(a, #[trigger] blocks[i])
}

/// Handling a block of `a` keeps the ledger on its way: the block ends up
/// known or buffered, never dropped.
pub proof fn lemma_receive_syncing(
    s: Intake,
    x: BlockView,
    now: u128,
    a: LedgerView,
    b: LedgerView,
    done: Seq<BlockView>,
)
    requires
        syncing(s.ledger, a, b, done),
        a.wf(),
        a.pow_sound(),
        held_by(a, x),
    ensures
        syncing(receive_block(s, x, now).ledger, a, b, done.push(x)),
{
    let origin = BlockOrigin::Received { delay_ms: delay(now, x.header.timestamp) };
    let recorded = s.ledger.with_first_origin(x.hash(), origin);
    lemma_sync_recorded(s.ledger, a, b, done, x.hash(), origin);
    assert(recorded.wf()) by {
        reveal(syncing);
    }
    lemma_wf_basics(recorded);
    lemma_wf_basics(a);
    if recorded.contains(x.hash()) {
        lemma_sync_known(recorded, a, b, done, x);
    } else {
        assert(recorded.pow_valid(x)) by {
            reveal(LedgerView::pow_sound);
            assert(a.contains(x.hash()) && x.hash() != genesis_hash());
        }
        if !recorded.contains(x.header.parent) {
            lemma_sync_orphan(recorded, a, b, done, x);
        } else {
            lemma_sync_absorb(recorded, a, b, done, x);
        }
    }
}

/// Handling a list of blocks of `a` keeps the ledger on its way.
pub proof fn lemma_receive_all_syncing(
    s: Intake,
    blocks: Seq<BlockView>,
    now: u128,
    a: LedgerView,
    b: LedgerView,
)
    requires
        syncing(s.ledger, a, b, Seq::<BlockView>::empty()),
        a.wf(),
        a.pow_sound(),
        all_held_by(a, blocks),
    ensures
        syncing(receive_blocks(s, blocks, now).ledger, a, b, blocks),
    decreases blocks.len(),
{
    if blocks.len() == 0 {
        assert(blocks =~= Seq::<BlockView>::empty());
    } else {
        let front = blocks.drop_last();
        assert(all_held_by(a, front) && held_by(a, blocks.last())) by {
            reveal(all_held_by);
            assert forall|i: int| 0 <= i < front.len() implies held_by(a, #[trigger] front[i]) by {
                assert(front[i] == blocks[i]);
            }
        }
        lemma_receive_all_syncing(s, front, now, a, b);
        lemma_receive_syncing(receive_blocks(s, front, now), blocks.last(), now, a, b, front);
        assert(front.push(blocks.last()) =~= blocks);
    }
}

/// The hashes asked for are unknown to the one who asks, and each hash
/// announced that is unknown is asked for.
pub proof fn lemma_unknown_hashes(l: LedgerView, hashes: Seq<H256>)
    ensures
        forall|i: int|
            0 <= i < unknown_hashes(l, hashes).len() ==> !l.contains(
                #[trigger] unknown_hashes(l, hashes)[i],
            ) && hashes.contains(unknown_hashes(l, hashes)[i]),
        forall|i: int|
            0 <= i < hashes.len() && !l.contains(#[trigger] hashes[i]) ==> unknown_hashes(
                l,
                hashes,
            ).contains(hashes[i]),
    decreases hashes.len(),
{
    if hashes.len() > 0 {
        let front = hashes.drop_last();
        let last = hashes.last();
        lemma_unknown_hashes(l, front);
        let req = unknown_hashes(l, hashes);
        let before = unknown_hashes(l, front);
        assert forall|i: int| 0 <= i < req.len() implies !l.contains(#[trigger] req[i])
            && hashes.contains(req[i]) by {
            if i < before.len() {
                assert(req[i] == before[i]);
                let j = front.index_of(before[i]);
                assert(front.contains(before[i]));
                assert(hashes[j] == before[i]);
            } else {
                assert(hashes[hashes.len() - 1] == req[i]);
            }
        }
        assert forall|i: int| 0 <= i < hashes.len() && !l.contains(
            #[trigger] hashes[i],
        ) implies req.contains(hashes[i]) by {
            if i < front.len() {
                assert(front[i] == hashes[i]);
                let j = before.index_of(front[i]);
                assert(before.contains(front[i]));
                assert(req[j] == hashes[i]);
            } else {
                assert(req[req.len() - 1] == hashes[i]);
            }
        }
    }
}

/// The blocks sent are blocks of the sender, and each block asked for that
/// the sender knows is sent.
pub proof fn lemma_known_blocks(a: LedgerView, hashes: Seq<H256>)
    requires
        a.wf(),
    ensures
        all_held_by(a, known_blocks(a, hashes)),
        forall|i: int|
            0 <= i < hashes.len() && a.contains(#[trigger] hashes[i]) ==> known_blocks(
                a,
                hashes,
            ).contains(a.entries[hashes[i]].block),
    decreases hashes.len(),
{
    reveal(all_held_by);
    if hashes.len() > 0 {
        let front = hashes.drop_last();
        let last = hashes.last();
        lemma_known_blocks(a, front);
        let sent = known_blocks(a, hashes);
        let before = known_blocks(a, front);
        assert forall|i: int| 0 <= i < sent.len() implies held_by(a, #[trigger] sent[i]) by {
            if i < before.len() {
                assert(sent[i] == before[i]);
            } else {
                assert(a.entry_ok(last)) by {
                    reveal(LedgerView::wf);
                }
            }
        }
        assert forall|i: int| 0 <= i < hashes.len() && a.contains(
            #[trigger] hashes[i],
        ) implies sent.contains(a.entries[hashes[i]].block) by {
            if i < front.len() {
                assert(front[i] == hashes[i]);
                let j = before.index_of(a.entries[front[i]].block);
                assert(before.contains(a.entries[front[i]].block));
                assert(sent[j] == a.entries[hashes[i]].block);
            } else {
                assert(sent[sent.len() - 1] == a.entries[hashes[i]].block);
            }
        }
    }
}

/// The hashes of `hashes` include the hash of every block that `l` knows.
pub open spec fn covers(hashes: Seq<H256>, l: LedgerView) -> bool {
    forall|h: H256| #[trigger] l.contains(h) ==> hashes.contains(h)
}

/// Once a ledger has handled a list that holds every block of `a` that it
/// lacked, it knows every block of `a`: a block cannot be left waiting, since
/// its parent is a block of `a` too and no orphan waits for a known block.
pub proof fn lemma_all_arrive(
    l: LedgerView,
    a: LedgerView,
    b: LedgerView,
    blocks: Seq<BlockView>,
    h: H256,
)
    requires
        a.wf(),
        b.wf(),
        syncing(l, a, b, blocks),
        forall|x: H256| #[trigger] a.contains(x) && !b.contains(x) ==> blocks.contains(
            a.entries[x].block,
        ),
        a.contains(h),
    ensures
        l.contains(h),
    decreases a.height(h),
{
    if b.contains(h) {
        assert(l.contains(h)) by {
            reveal(syncing);
            reveal(keeps);
        }
    } else {
        lemma_wf_basics(a);
        assert(l.wf()) by {
            reveal(syncing);
        }
        lemma_wf_basics(l);
        lemma_wf_basics(b);
        assert(h != genesis_hash());
        let x = a.entries[h].block;
        assert(a.entry_ok(h)) by {
            reveal(LedgerView::wf);
        }
        let p = x.header.parent;
        lemma_all_arrive(l, a, b, blocks, p);
        assert(blocks.contains(x));
        let j = blocks.index_of(x);
        assert(blocks[j] == x);
        assert(l.contains(h)) by {
            reveal(syncing);
            reveal(tight);
            if l.orphans.contains(x) {
                let i = l.orphans.index_of(x);
                assert(l.orphans[i] == x);
                assert(!l.contains(l.orphans[i].header.parent));
            }
        }
    }
}

/// Once a ledger has handled a list that holds every block of `a` that it
/// lacked, no block is left in its orphan buffer.
pub proof fn lemma_none_waits(l: LedgerView, a: LedgerView, b: LedgerView, blocks: Seq<BlockView>)
    requires
        a.wf(),
        b.wf(),
        syncing(l, a, b, blocks),
        forall|x: H256| #[trigger] a.contains(x) && !b.contains(x) ==> blocks.contains(
            a.entries[x].block,
        ),
    ensures
        l.orphans.len() == 0,
{
    if l.orphans.len() > 0 {
        let o = l.orphans[0];
        let h = o.hash();
        lemma_wf_basics(b);
        assert(held_by(a, o) && !b.contains(h) && !l.contains(o.header.parent)) by {
            reveal(syncing);
            reveal(tight);
        }
        assert(a.entry_ok(h)) by {
            reveal(LedgerView::wf);
        }
        lemma_all_arrive(l, a, b, blocks, o.header.parent);
    }
}

/// The ledger of a node after one round trip with a peer that announces
/// `hashes`: the node asks for the hashes it does not know, the peer sends
/// the blocks it knows among them, and the node takes them in at time `now`.
pub open spec fn pull(
    receiver: LedgerView,
    sender: LedgerView,
    hashes: Seq<H256>,
    now: u128,
) -> LedgerView {
    receive_blocks(
        intake_start(receiver),
        known_blocks(sender, unknown_hashes(receiver, hashes)),
        now,
    ).ledger
}

/// `pull` is what the three messages of a round trip do: on
/// `NewBlockHashes` the receiver asks for what it lacks, on `GetBlocks` the
/// sender answers with the blocks it knows and stays as it is, and on
/// `Blocks` the receiver takes them in. Where nothing is asked for or
/// nothing is sent, the receiver stays as it is.
pub proof fn lemma_pull_is_round_trip(
    receiver: LedgerView,
    sender: LedgerView,
    receiver_pool: Seq<SignedTransactionView>,
    sender_pool: Seq<SignedTransactionView>,
    hashes: Seq<H256>,
    now: u128,
)
    ensures
        ({
            let request = unknown_hashes(receiver, hashes);
            let blocks = known_blocks(sender, request);
            let asked = respond(receiver, receiver_pool, MessageView::NewBlockHashes(hashes), now);
            let sent = respond(sender, sender_pool, MessageView::GetBlocks(request), now);
            let taken = respond(receiver, receiver_pool, MessageView::Blocks(blocks), now);
            &&& asked.0 == receiver
            &&& asked.2 == if request.len() > 0 {
                seq![ActionView::Reply(MessageView::GetBlocks(request))]
            } else {
                Seq::empty()
            }
            &&& sent.0 == sender
            &&& sent.2 == if blocks.len() > 0 {
                seq![ActionView::Reply(MessageView::Blocks(blocks))]
            } else {
                Seq::empty()
            }
            &&& taken.0 == pull(receiver, sender, hashes, now)
            &&& blocks.len() == 0 ==> pull(receiver, sender, hashes, now) == receiver
            &&& request.len() == 0 ==> blocks.len() == 0
        }),
{
}

/// After one round trip with a peer that announces every block it knows, a
/// node that had no orphans knows every block of the peer and every block it
/// knew before, each as it was held, and no other block; and it has no
/// orphans.
pub proof fn lemma_pull_brings_all(
    receiver: LedgerView,
    sender: LedgerView,
    hashes: Seq<H256>,
    now: u128,
)
    requires
        receiver.wf(),
        sender.wf(),
        sender.pow_sound(),
        receiver.orphans.len() == 0,
        covers(hashes, sender),
    ensures
        pull(receiver, sender, hashes, now).wf(),
        pull(receiver, sender, hashes, now).orphans.len() == 0,
        forall|h: H256|
            pull(receiver, sender, hashes, now).contains(h) <==> receiver.contains(h)
                || sender.contains(h),
        forall|h: H256| #[trigger]
            receiver.contains(h) ==> pull(receiver, sender, hashes, now).entries[h]
                == receiver.entries[h],
        forall|h: H256| #[trigger]
            sender.contains(h) && !receiver.contains(h) ==> pull(
                receiver,
                sender,
                hashes,
                now,
            ).entries[h].block == sender.entries[h].block,
{
    let request = unknown_hashes(receiver, hashes);
    let blocks = known_blocks(sender, request);
    let start = intake_start(receiver);
    let done = pull(receiver, sender, hashes, now);
    lemma_unknown_hashes(receiver, hashes);
    lemma_known_blocks(sender, request);
    assert(syncing(receiver, sender, receiver, Seq::<BlockView>::empty())) by {
        reveal(syncing);
        reveal(tight);
        reveal(keeps);
    }
    lemma_receive_all_syncing(start, blocks, now, sender, receiver);
    assert forall|x: H256| #[trigger] sender.contains(x) && !receiver.contains(
        x,
    ) implies blocks.contains(sender.entries[x].block) by {
        assert(hashes.contains(x));
        let i = hashes.index_of(x);
        assert(hashes[i] == x);
        assert(request.contains(x));
        let j = request.index_of(x);
        assert(request[j] == x);
    }
    assert forall|h: H256| done.contains(h) <==> receiver.contains(h) || sender.contains(h) by {
        if sender.contains(h) {
            lemma_all_arrive(done, sender, receiver, blocks, h);
        }
        reveal(syncing);
        reveal(keeps);
    }
    assert forall|h: H256| #[trigger] receiver.contains(h) implies done.entries[h]
        == receiver.entries[h] by {
        reveal(syncing);
        reveal(keeps);
    }
    assert forall|h: H256| #[trigger] sender.contains(h) && !receiver.contains(
        h,
    ) implies done.entries[h].block == sender.entries[h].block by {
        lemma_all_arrive(done, sender, receiver, blocks, h);
        reveal(syncing);
    }
    assert(done.wf()) by {
        reveal(syncing);
    }
    lemma_none_waits(done, sender, receiver, blocks);
}

/// Two nodes without orphans that agree on the blocks they share, and whose
/// blocks meet the proof-of-work rule, hold the same blocks after one round
/// trip in each direction in which each announces every block it knows. Each
/// block stands at the same height in both. If one block stands strictly
/// higher than all others, it is the tip of both.
pub proof fn lemma_gossip_converges(
    a: LedgerView,
    b: LedgerView,
    hashes_of_a: Seq<H256>,
    hashes_of_b: Seq<H256>,
    now_at_a: u128,
    now_at_b: u128,
)
    requires
        a.wf(),
        b.wf(),
        a.pow_sound(),
        b.pow_sound(),
        a.orphans.len() == 0,
        b.orphans.len() == 0,
        agree(a, b),
        covers(hashes_of_a, a),
        covers(hashes_of_b, b),
    ensures
        ({
            let a_after = pull(a, b, hashes_of_b, now_at_a);
            let b_after = pull(b, a, hashes_of_a, now_at_b);
            &&& a_after.wf()
            &&& b_after.wf()
            &&& forall|h: H256| a_after.contains(h) <==> b_after.contains(h)
            &&& forall|h: H256| a_after.contains(h) <==> a.contains(h) || b.contains(h)
            &&& agree(a_after, b_after)
            &&& forall|h: H256| #[trigger]
                a_after.contains(h) ==> a_after.height(h) == b_after.height(h)
            &&& (forall|x: H256| #[trigger]
                a_after.contains(x) && x != a_after.tip ==> a_after.height(x) < a_after.height(
                    a_after.tip,
                )) ==> a_after.tip == b_after.tip
        }),
{
    let a_after = pull(a, b, hashes_of_b, now_at_a);
    let b_after = pull(b, a, hashes_of_a, now_at_b);
    lemma_pull_brings_all(a, b, hashes_of_b, now_at_a);
    lemma_pull_brings_all(b, a, hashes_of_a, now_at_b);
    assert forall|h: H256| a_after.contains(h) <==> a.contains(h) || b.contains(h) by {}
    assert forall|h: H256| b_after.contains(h) <==> a.contains(h) || b.contains(h) by {}
    assert forall|h: H256| a_after.contains(h) <==> b_after.contains(h) by {
        assert(a_after.contains(h) <==> a.contains(h) || b.contains(h));
        assert(b_after.contains(h) <==> a.contains(h) || b.contains(h));
    }
    assert(agree(a_after, b_after)) by {
        assert forall|h: H256| #[trigger] a_after.contains(h) && b_after.contains(
            h,
        ) implies a_after.entries[h].block == b_after.entries[h].block by {
            if a.contains(h) && b.contains(h) {
                assert(a.entries[h].block == b.entries[h].block);
            }
        }
    }
    assert forall|h: H256| #[trigger] a_after.contains(h) implies a_after.height(h)
        == b_after.height(h) by {
        assert(a_after.contains(h) <==> b_after.contains(h));
        crate::consensus::lemma_height_intrinsic(a_after, b_after, h);
    }
    if forall|x: H256| #[trigger]
        a_after.contains(x) && x != a_after.tip ==> a_after.height(x) < a_after.height(
            a_after.tip,
        ) {
        lemma_same_blocks_same_tip(a_after, b_after);
    }
}

} // verus!
