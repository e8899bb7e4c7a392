//! The ledger as a mathematical value: the blocks known, their heights and
//! unspent outputs, the tip, the orphan buffer, and the rules by which a
//! block joins them.

use crate::assoc::{distinct_keys, has_key};
use crate::block::{spec_default_difficulty, spec_genesis, BlockView};
use crate::crypto::hash::H256;
use crate::state::apply_transactions;
use crate::transaction::{TransactionInput, TransactionOutput};
use vstd::prelude::*;

verus! {

/// Whether the block is mined or received from the network.
#[derive(Clone, Copy, PartialEq, Eq, Structural, Debug)]
pub enum BlockOrigin {
    Mined,
    Received { delay_ms: u128 },
}

/// What the ledger holds of one block.
pub struct EntryView {
    pub block: BlockView,
    pub height: nat,
    pub state: Map<TransactionInput, TransactionOutput>,
}

/// The ledger as a value.
pub struct LedgerView {
    /// The known blocks by hash.
    pub entries: Map<H256, EntryView>,
    /// The hashes of the known blocks in the order in which they were
    /// inserted.
    pub order: Seq<H256>,
    /// The hash of the best block.
    pub tip: H256,
    /// The difficulty that every block must declare.
    pub difficulty: H256,
    /// The blocks that wait for their parent, in the order of arrival.
    pub orphans: Seq<BlockView>,
    /// Where blocks came from, in the order in which hashes were first
    /// recorded.
    pub origins: Seq<(H256, BlockOrigin)>,
}

/// The delays of the blocks on record as received, in the order of the
/// record.
pub open spec fn received_delays(origins: Seq<(H256, BlockOrigin)>) -> Seq<u128>
    decreases origins.len(),
{
    if origins.len() == 0 {
        Seq::empty()
    } else {
        match origins.last().1 {
            BlockOrigin::Received { delay_ms } => received_delays(origins.drop_last()).push(
                delay_ms,
            ),
            BlockOrigin::Mined => received_delays(origins.drop_last()),
        }
    }
}

/// The numbers of `s` stand in ascending order.
pub open spec fn ascending(s: Seq<u128>) -> bool {
    forall|i: int, j: int| 0 <= i <= j < s.len() ==> s[i] <= s[j]
}

/// The hash of the genesis block.
pub open spec fn genesis_hash() -> H256 {
    spec_genesis().hash()
}

/// The ledger that holds the genesis block alone.
pub open spec fn genesis_ledger() -> LedgerView {
    LedgerView {
        entries: Map::empty().insert(
            genesis_hash(),
            EntryView { block: spec_genesis(), height: 0, state: Map::empty() },
        ),
        order: seq![genesis_hash()],
        tip: genesis_hash(),
        difficulty: spec_default_difficulty(),
        orphans: Seq::empty(),
        origins: Seq::empty(),
    }
}

/// The blocks of `orphans` whose parent is `parent`, in order.
pub open spec fn waiting_on(orphans: Seq<BlockView>, parent: H256) -> Seq<BlockView>
    decreases orphans.len(),
{
    if orphans.len() == 0 {
        Seq::empty()
    } else if orphans.last().header.parent == parent {
        waiting_on(orphans.drop_last(), parent).push(orphans.last())
    } else {
        waiting_on(orphans.drop_last(), parent)
    }
}

/// The blocks of `orphans` whose parent is not `parent`, in order.
pub open spec fn waiting_on_others(orphans: Seq<BlockView>, parent: H256) -> Seq<BlockView>
    decreases orphans.len(),
{
    if orphans.len() == 0 {
        Seq::empty()
    } else if orphans.last().header.parent == parent {
        waiting_on_others(orphans.drop_last(), parent)
    } else {
        waiting_on_others(orphans.drop_last(), parent).push(orphans.last())
    }
}

/// The two parts of an orphan buffer have its blocks between them.
pub proof fn lemma_waiting_split(orphans: Seq<BlockView>, parent: H256)
    ensures
        waiting_on(orphans, parent).len() + waiting_on_others(orphans, parent).len()
            == orphans.len(),
        forall|i: int|
            0 <= i < waiting_on(orphans, parent).len() ==> (#[trigger] waiting_on(
                orphans,
                parent,
            )[i]).header.parent == parent && orphans.contains(waiting_on(orphans, parent)[i]),
        forall|i: int|
            0 <= i < waiting_on_others(orphans, parent).len() ==> (#[trigger] waiting_on_others(
                orphans,
                parent,
            )[i]).header.parent != parent && orphans.contains(
                waiting_on_others(orphans, parent)[i],
            ),
        forall|i: int|
            0 <= i < orphans.len() ==> if (#[trigger] orphans[i]).header.parent == parent {
                waiting_on(orphans, parent).contains(orphans[i])
            } else {
                waiting_on_others(orphans, parent).contains(orphans[i])
            },
    decreases orphans.len(),
{
    if orphans.len() > 0 {
        let front = orphans.drop_last();
        let last = orphans.last();
        lemma_waiting_split(front, parent);
        let waiting = waiting_on(orphans, parent);
        let others = waiting_on_others(orphans, parent);
        let front_waiting = waiting_on(front, parent);
        let front_others = waiting_on_others(front, parent);
        assert forall|i: int| 0 <= i < waiting.len() implies (
        #[trigger] waiting[i]).header.parent == parent && orphans.contains(waiting[i]) by {
            if i < front_waiting.len() {
                assert(waiting[i] == front_waiting[i]);
                let j = choose|j: int| 0 <= j < front.len() && front[j] == front_waiting[i];
                assert(orphans[j] == waiting[i]);
            } else {
                assert(orphans[orphans.len() - 1] == waiting[i]);
            }
        }
        assert forall|i: int| 0 <= i < others.len() implies (
        #[trigger] others[i]).header.parent != parent && orphans.contains(others[i]) by {
            if i < front_others.len() {
                assert(others[i] == front_others[i]);
                let j = choose|j: int| 0 <= j < front.len() && front[j] == front_others[i];
                assert(orphans[j] == others[i]);
            } else {
                assert(orphans[orphans.len() - 1] == others[i]);
            }
        }
        assert forall|i: int| 0 <= i < orphans.len() implies if (
        #[trigger] orphans[i]).header.parent == parent {
            waiting.contains(orphans[i])
        } else {
            others.contains(orphans[i])
        } by {
            if i < front.len() {
                assert(front[i] == orphans[i]);
                if orphans[i].header.parent == parent {
                    let j = choose|j: int|
                        0 <= j < front_waiting.len() && front_waiting[j] == front[i];
                    assert(waiting[j] == orphans[i]);
                } else {
                    let j = choose|j: int|
                        0 <= j < front_others.len() && front_others[j] == front[i];
                    assert(others[j] == orphans[i]);
                }
            } else {
                if orphans[i].header.parent == parent {
                    assert(waiting[waiting.len() - 1] == orphans[i]);
                } else {
                    assert(others[others.len() - 1] == orphans[i]);
                }
            }
        }
    }
}

impl LedgerView {
    /// The block with hash `h` is known.
    pub open spec fn contains(self, h: H256) -> bool {
        self.entries.contains_key(h)
    }

    /// The height of the block with hash `h`.
    pub open spec fn height(self, h: H256) -> nat {
        self.entries[h].height
    }

    /// The hash of the parent of the block with hash `h`.
    pub open spec fn parent(self, h: H256) -> H256 {
        self.entries[h].block.header.parent
    }

    /// The block with hash `h` stands one above its parent, which is known,
    /// and its unspent outputs are its parent's after its transactions.
    pub open spec fn linked(self, h: H256) -> bool {
        let p = self.parent(h);
        &&& self.contains(p)
        &&& self.height(h) == self.height(p) + 1
        &&& self.entries[h].state == apply_transactions(
            self.entries[p].state,
            self.entries[h].block.transactions,
        )
    }

    /// The tip is the first block, in the order of insertion, among those of
    /// the greatest height.
    pub open spec fn tip_is_first_highest(self) -> bool {
        forall|i: int, j: int|
            0 <= i < self.order.len() && 0 <= j < self.order.len() && #[trigger] self.order[j]
                == self.tip ==> self.height(#[trigger] self.order[i]) <= self.height(self.tip) && (
            i < j ==> self.height(self.order[i]) < self.height(self.tip))
    }

    /// What holds of each known block: it is filed under its own hash, below
    /// the number of blocks in height and, unless it is the genesis block,
    /// linked to its parent.
    pub open spec fn entry_ok(self, h: H256) -> bool {
        &&& self.entries[h].block.hash() == h
        &&& self.height(h) < self.order.len()
        &&& h != genesis_hash() ==> self.linked(h)
    }

    /// What holds of every ledger.
    #[verifier::opaque]
    pub open spec fn wf(self) -> bool {
        let g = genesis_hash();
        &&& self.order.no_duplicates()
        &&& forall|h: H256| self.entries.contains_key(h) <==> self.order.contains(h)
        &&& self.order.len() > 0
        &&& self.order[0] == g
        &&& self.entries[g].block == spec_genesis()
        &&& self.entries[g].height == 0
        &&& self.entries[g].state == Map::<TransactionInput, TransactionOutput>::empty()
        &&& self.difficulty == spec_default_difficulty()
        &&& self.contains(self.tip)
        &&& forall|h: H256| #[trigger] self.contains(h) ==> self.entry_ok(h)
        &&& self.tip_is_first_highest()
        &&& distinct_keys(self.origins)
    }

    /// `next` holds every block of this ledger as this ledger holds it, has
    /// the same difficulty and origins, and no more orphans.
    pub open spec fn grows_to(self, next: LedgerView) -> bool {
        &&& forall|h: H256| #[trigger]
            self.contains(h) ==> next.contains(h) && next.entries[h] == self.entries[h]
        &&& next.orphans.len() <= self.orphans.len()
        &&& next.origins == self.origins
        &&& next.difficulty == self.difficulty
    }

    /// The ledger with the orphans that wait for `h` taken out of the buffer.
    pub open spec fn without_waiting_on(self, h: H256) -> LedgerView {
        LedgerView { orphans: waiting_on_others(self.orphans, h), ..self }
    }

    /// The block's hash is at most the difficulty it declares, and that is
    /// the ledger's.
    pub open spec fn pow_valid(self, b: BlockView) -> bool {
        b.hash().as_nat() <= b.header.difficulty.as_nat() && b.header.difficulty == self.difficulty
    }

    /// The ledger with `b` inserted as a child of its parent.
    pub open spec fn with_block(self, b: BlockView) -> LedgerView {
        let h = b.hash();
        let p = b.header.parent;
        let height = self.height(p) + 1;
        LedgerView {
            entries: self.entries.insert(
                h,
                EntryView {
                    block: b,
                    height,
                    state: apply_transactions(self.entries[p].state, b.transactions),
                },
            ),
            order: self.order.push(h),
            tip: if height > self.height(self.tip) {
                h
            } else {
                self.tip
            },
            ..self
        }
    }

    /// The ledger with `b` added to the orphan buffer.
    pub open spec fn with_orphan(self, b: BlockView) -> LedgerView {
        LedgerView { orphans: self.orphans.push(b), ..self }
    }

    /// The ledger with the origin of `h` recorded unless one is on record.
    pub open spec fn with_first_origin(self, h: H256, origin: BlockOrigin) -> LedgerView {
        if has_key(self.origins, h) {
            self
        } else {
            LedgerView { origins: self.origins.push((h, origin)), ..self }
        }
    }

    /// The ledger with the origin of `h` set, in the place of an earlier
    /// record where there is one.
    pub open spec fn with_origin(self, h: H256, origin: BlockOrigin) -> LedgerView {
        if has_key(self.origins, h) {
            LedgerView {
                origins: self.origins.update(
                    crate::assoc::key_index(self.origins, h),
                    (h, origin),
                ),
                ..self
            }
        } else {
            LedgerView { origins: self.origins.push((h, origin)), ..self }
        }
    }

    /// Takes in the blocks of `pending`, first to last. A block whose hash is
    /// known is passed over. Any other is inserted, and the orphans that
    /// waited for it leave the buffer and go to the front of `pending`, so
    /// that each block is followed at once by all that it unlocks. The result
    /// is the ledger after that and the hashes inserted, in order.
    #[verifier::opaque]
    pub open spec fn absorb(self, pending: Seq<BlockView>) -> (LedgerView, Seq<H256>)
        decreases self.orphans.len() + pending.len(),
    {
        if pending.len() == 0 {
            (self, Seq::empty())
        } else {
            let b = pending.first();
            let rest = pending.drop_first();
            let h = b.hash();
            if self.contains(h) {
                self.absorb(rest)
            } else {
                let children = waiting_on(self.orphans, h);
                let next = self.with_block(b).without_waiting_on(h);
                proof {
                    lemma_waiting_split(self.orphans, h);
                }
                let (ledger, hashes) = next.absorb(children + rest);
                (ledger, seq![h] + hashes)
            }
        }
    }

    /// The bytes that the first `n` blocks take together, each written out in
    /// full.
    pub open spec fn total_size(self, n: nat) -> nat
        decreases n,
    {
        if n == 0 {
            0
        } else {
            self.total_size((n - 1) as nat) + self.entries[self.order[n - 1]].block.encoding().len()
        }
    }

    /// The `k`-th ancestor of the block with hash `h`: the block itself for
    /// zero, else the parent of the one before.
    pub open spec fn ancestor(self, h: H256, k: nat) -> H256
        decreases k,
    {
        if k == 0 {
            h
        } else {
            self.parent(self.ancestor(h, (k - 1) as nat))
        }
    }

    /// The hashes of the blocks on the longest chain, from genesis to the tip.
    pub open spec fn longest_chain(self) -> Seq<H256> {
        Seq::new(
            self.height(self.tip) + 1,
            |i: int| self.ancestor(self.tip, (self.height(self.tip) - i) as nat),
        )
    }
}

/// Inserting a block that is new under a known parent keeps the ledger well
/// formed.
pub proof fn lemma_with_block_wf(l: LedgerView, b: BlockView)
    requires
        l.wf(),
        l.contains(b.header.parent),
        !l.contains(b.hash()),
    ensures
        l.with_block(b).wf(),
        l.grows_to(l.with_block(b)),
        l.with_block(b).contains(b.hash()),
{
    reveal(LedgerView::wf);
    let n = l.with_block(b);
    let h = b.hash();
    let g = genesis_hash();
    assert(l.order.contains(g)) by {
        assert(l.order[0] == g);
    }
    assert(h != g);
    assert(!l.order.contains(h));
    assert(n.order.no_duplicates());
    assert forall|x: H256| n.entries.contains_key(x) <==> n.order.contains(x) by {
        if n.order.contains(x) {
            let i = choose|i: int| 0 <= i < n.order.len() && n.order[i] == x;
            if i < l.order.len() {
                assert(l.order[i] == x);
            }
        }
        if l.order.contains(x) {
            let i = choose|i: int| 0 <= i < l.order.len() && l.order[i] == x;
            assert(n.order[i] == x);
        }
        if x == h {
            assert(n.order[l.order.len() as int] == h);
        }
    }
    assert(b.header.parent != h);
    assert(l.entry_ok(b.header.parent));
    assert forall|x: H256| #[trigger] n.contains(x) implies n.entry_ok(x) by {
        if x != h {
            assert(l.contains(x));
            assert(l.entry_ok(x));
            if x != g {
                assert(l.parent(x) != h);
            }
        }
    }
    assert(n.tip_is_first_highest()) by {
        assert forall|i: int, j: int|
            0 <= i < n.order.len() && 0 <= j < n.order.len() && #[trigger] n.order[j]
                == n.tip implies n.height(#[trigger] n.order[i]) <= n.height(n.tip) && (i < j
            ==> n.height(n.order[i]) < n.height(n.tip)) by {
            assert(l.order.contains(l.tip));
            let t = l.order.index_of(l.tip);
            assert(l.order[t] == l.tip);
            if i < l.order.len() {
                assert(l.order[i] == n.order[i]);
                assert(l.order.contains(l.order[i]));
                assert(l.contains(l.order[i]));
                assert(l.height(l.order[i]) <= l.height(l.tip));
            }
            if n.tip == h {
                assert(j == l.order.len()) by {
                    if j < l.order.len() {
                        assert(l.order[j] == h);
                    }
                }
            } else {
                assert(j < l.order.len()) by {
                    if j == l.order.len() {
                        assert(n.order[j] == h);
                    }
                }
                assert(l.order[j] == l.tip);
            }
        }
    }
}

/// A ledger stays well formed whatever its orphan buffer holds.
pub proof fn lemma_orphans_free(l: LedgerView, orphans: Seq<BlockView>)
    requires
        l.wf(),
    ensures
        (LedgerView { orphans, ..l }).wf(),
{
    reveal(LedgerView::wf);
    let n = LedgerView { orphans, ..l };
    assert forall|x: H256| #[trigger] n.contains(x) implies n.entry_ok(x) by {
        assert(l.contains(x));
        assert(l.entry_ok(x));
    }
    assert(n.tip_is_first_highest()) by {
        assert forall|i: int, j: int|
            0 <= i < n.order.len() && 0 <= j < n.order.len() && #[trigger] n.order[j]
                == n.tip implies n.height(#[trigger] n.order[i]) <= n.height(n.tip) && (i < j
            ==> n.height(n.order[i]) < n.height(n.tip)) by {
            assert(l.order[j] == l.tip);
            assert(l.height(l.order[i]) <= l.height(l.tip));
        }
    }
}

/// Growth carries over two steps.
pub proof fn lemma_grows_to_trans(a: LedgerView, b: LedgerView, c: LedgerView)
    requires
        a.grows_to(b),
        b.grows_to(c),
    ensures
        a.grows_to(c),
{
    assert forall|h: H256| #[trigger] a.contains(h) implies c.contains(h) && c.entries[h]
        == a.entries[h] by {
        assert(b.contains(h));
    }
}

/// Each block of `pending` is known or has a known parent.
#[verifier::opaque]
pub open spec fn all_placeable(l: LedgerView, pending: Seq<BlockView>) -> bool {
    forall|i: int|
        0 <= i < pending.len() ==> l.contains((#[trigger] pending[i]).hash()) || l.contains(
            pending[i].header.parent,
        )
}

/// Each block of `pending` is known.
#[verifier::opaque]
pub open spec fn all_known(l: LedgerView, pending: Seq<BlockView>) -> bool {
    forall|i: int| 0 <= i < pending.len() ==> l.contains((#[trigger] pending[i]).hash())
}

/// Taking in blocks keeps the ledger well formed, where each of them is
/// known or has a known parent. Afterwards each of them is known; no block
/// has left, no entry has changed, the orphan buffer has not grown, and
/// origins are as they were.
pub proof fn lemma_absorb_wf(l: LedgerView, pending: Seq<BlockView>)
    requires
        l.wf(),
        all_placeable(l, pending),
    ensures
        l.absorb(pending).0.wf(),
        l.grows_to(l.absorb(pending).0),
        all_known(l.absorb(pending).0, pending),
    decreases l.orphans.len() + pending.len(),
{
    reveal(all_known);
    reveal(all_placeable);
    reveal(LedgerView::absorb);
    if pending.len() > 0 {
        let b = pending.first();
        let rest = pending.drop_first();
        let h = b.hash();
        assert(pending[0] == b);
        if l.contains(h) {
            assert(all_placeable(l, rest)) by {
                assert forall|i: int| 0 <= i < rest.len() implies l.contains(
                    (#[trigger] rest[i]).hash(),
                ) || l.contains(rest[i].header.parent) by {
                    assert(rest[i] == pending[i + 1]);
                }
            }
            lemma_absorb_wf(l, rest);
            let done = l.absorb(rest).0;
            assert(l.absorb(pending).0 == done);
            assert(all_known(done, pending)) by {
                assert forall|i: int| 0 <= i < pending.len() implies done.contains(
                    (#[trigger] pending[i]).hash(),
                ) by {
                    if i > 0 {
                        assert(rest[i - 1] == pending[i]);
                    }
                }
            }
        } else {
            let children = waiting_on(l.orphans, h);
            let inserted = l.with_block(b);
            let next = inserted.without_waiting_on(h);
            lemma_waiting_split(l.orphans, h);
            lemma_with_block_wf(l, b);
            lemma_orphans_free(inserted, waiting_on_others(l.orphans, h));
            assert(l.grows_to(next));
            let work = children + rest;
            assert(all_placeable(next, work)) by {
                assert forall|i: int| 0 <= i < work.len() implies next.contains(
                    (#[trigger] work[i]).hash(),
                ) || next.contains(work[i].header.parent) by {
                    if i < children.len() {
                        assert(work[i] == children[i]);
                    } else {
                        assert(work[i] == rest[i - children.len()]);
                        assert(rest[i - children.len()] == pending[i - children.len() + 1]);
                        assert(l.contains(pending[i - children.len() + 1].hash()) || l.contains(
                            pending[i - children.len() + 1].header.parent,
                        ));
                    }
                }
            }
            lemma_absorb_wf(next, work);
            let done = next.absorb(work).0;
            assert(l.absorb(pending).0 == done);
            lemma_grows_to_trans(l, next, done);
            assert(all_known(done, pending)) by {
                assert forall|i: int| 0 <= i < pending.len() implies done.contains(
                    (#[trigger] pending[i]).hash(),
                ) by {
                    if i > 0 {
                        assert(work[children.len() + i - 1] == pending[i]);
                    } else {
                        assert(next.contains(h));
                    }
                }
            }
        }
    }
}

/// One step of taking in blocks, written out: the first block of `pending`
/// is passed over where it is known, and else inserted, with the orphans
/// that waited for it put before the rest.
pub proof fn lemma_absorb_step(l: LedgerView, pending: Seq<BlockView>)
    requires
        pending.len() > 0,
    ensures
        l.contains(pending.first().hash()) ==> l.absorb(pending) == l.absorb(pending.drop_first()),
        !l.contains(pending.first().hash()) ==> {
            let h = pending.first().hash();
            let next = l.with_block(pending.first()).without_waiting_on(h);
            let work = waiting_on(l.orphans, h) + pending.drop_first();
            l.absorb(pending) == (next.absorb(work).0, seq![h] + next.absorb(work).1)
        },
{
    reveal(LedgerView::absorb);
}

/// Where each block of `pending` can be placed, so can each after the first;
/// and once the first is inserted, so can those that waited for it.
pub proof fn lemma_placeable_step(l: LedgerView, pending: Seq<BlockView>)
    requires
        l.wf(),
        pending.len() > 0,
        all_placeable(l, pending),
    ensures
        all_placeable(l, pending.drop_first()),
        !l.contains(pending.first().hash()) ==> {
            let h = pending.first().hash();
            let next = l.with_block(pending.first()).without_waiting_on(h);
            let work = waiting_on(l.orphans, h) + pending.drop_first();
            &&& l.contains(pending.first().header.parent)
            &&& next.wf()
            &&& all_placeable(next, work)
            &&& next.orphans.len() + work.len() < l.orphans.len() + pending.len()
        },
{
    reveal(all_placeable);
    let b = pending.first();
    let rest = pending.drop_first();
    let h = b.hash();
    assert(pending[0] == b);
    assert forall|i: int| 0 <= i < rest.len() implies l.contains((#[trigger] rest[i]).hash())
        || l.contains(rest[i].header.parent) by {
        assert(rest[i] == pending[i + 1]);
    }
    if !l.contains(h) {
        let children = waiting_on(l.orphans, h);
        let inserted = l.with_block(b);
        let next = inserted.without_waiting_on(h);
        let work = children + rest;
        lemma_waiting_split(l.orphans, h);
        lemma_with_block_wf(l, b);
        lemma_orphans_free(inserted, waiting_on_others(l.orphans, h));
        assert forall|i: int| 0 <= i < work.len() implies next.contains(
            (#[trigger] work[i]).hash(),
        ) || next.contains(work[i].header.parent) by {
            if i < children.len() {
                assert(work[i] == children[i]);
            } else {
                assert(work[i] == rest[i - children.len()]);
                assert(l.contains(rest[i - children.len()].hash()) || l.contains(
                    rest[i - children.len()].header.parent,
                ));
            }
        }
    }
}

/// On the longest chain of a well-formed ledger every block is known and
/// stands at the height of its position; the chain starts at the genesis
/// block, ends at the tip, and each block after the first names the one
/// before it as its parent.
pub proof fn lemma_longest_chain(l: LedgerView)
    requires
        l.wf(),
    ensures
        l.longest_chain().len() == l.height(l.tip) + 1,
        l.longest_chain()[0] == genesis_hash(),
        l.longest_chain().last() == l.tip,
        forall|i: int|
            0 <= i < l.longest_chain().len() ==> l.contains(#[trigger] l.longest_chain()[i])
                && l.height(l.longest_chain()[i]) == i,
        forall|i: int|
            0 < i < l.longest_chain().len() ==> l.parent(#[trigger] l.longest_chain()[i])
                == l.longest_chain()[i - 1],
{
    reveal(LedgerView::wf);
    let top = l.height(l.tip);
    assert forall|i: int| 0 <= i < l.longest_chain().len() implies l.contains(
        #[trigger] l.longest_chain()[i],
    ) && l.height(l.longest_chain()[i]) == i by {
        lemma_ancestor(l, l.tip, (top - i) as nat);
    }
    assert forall|i: int| 0 < i < l.longest_chain().len() implies l.parent(
        #[trigger] l.longest_chain()[i],
    ) == l.longest_chain()[i - 1] by {
        assert(l.ancestor(l.tip, (top - i + 1) as nat) == l.parent(
            l.ancestor(l.tip, (top - i) as nat),
        ));
    }
    lemma_ancestor(l, l.tip, top);
    let first = l.ancestor(l.tip, top);
    assert(l.entry_ok(first));
}

/// The `k`-th ancestor of a known block at height `k` or more is known and
/// stands `k` below it.
pub proof fn lemma_ancestor(l: LedgerView, h: H256, k: nat)
    requires
        l.wf(),
        l.contains(h),
        k <= l.height(h),
    ensures
        l.contains(l.ancestor(h, k)),
        l.height(l.ancestor(h, k)) + k == l.height(h),
    decreases k,
{
    reveal(LedgerView::wf);
    if k > 0 {
        lemma_ancestor(l, h, (k - 1) as nat);
        let a = l.ancestor(h, (k - 1) as nat);
        assert(l.entry_ok(a));
    }
}

/// The ancestor one further up is the parent of the ancestor before it.
pub proof fn lemma_ancestor_step(l: LedgerView, h: H256, k: nat)
    ensures
        l.ancestor(h, k + 1) == l.parent(l.ancestor(h, k)),
{
    assert((k + 1 - 1) as nat == k);
}

/// A known block above height zero has a known parent, one below it.
pub proof fn lemma_parent_below(l: LedgerView, h: H256)
    requires
        l.wf(),
        l.contains(h),
        l.height(h) > 0,
    ensures
        l.contains(l.parent(h)),
        l.height(l.parent(h)) + 1 == l.height(h),
{
    reveal(LedgerView::wf);
    assert(l.entry_ok(h));
}

/// A well-formed ledger knows the genesis block and its tip, and has the
/// default difficulty.
pub proof fn lemma_wf_basics(l: LedgerView)
    requires
        l.wf(),
    ensures
        l.contains(l.tip),
        l.contains(genesis_hash()),
        l.order.len() > 0,
        l.order[0] == genesis_hash(),
        l.height(genesis_hash()) == 0,
        l.entries[genesis_hash()].block == spec_genesis(),
        l.difficulty == spec_default_difficulty(),
{
    reveal(LedgerView::wf);
    assert(l.order.contains(l.order[0]));
}

/// A ledger stays well formed whatever origins it has on record, as long as
/// no hash is on record twice.
pub proof fn lemma_origins_free(l: LedgerView, origins: Seq<(H256, BlockOrigin)>)
    requires
        l.wf(),
        distinct_keys(origins),
    ensures
        (LedgerView { origins, ..l }).wf(),
{
    reveal(LedgerView::wf);
    let n = LedgerView { origins, ..l };
    assert forall|x: H256| #[trigger] n.contains(x) implies n.entry_ok(x) by {
        assert(l.contains(x));
        assert(l.entry_ok(x));
    }
    assert(n.tip_is_first_highest()) by {
        assert forall|i: int, j: int|
            0 <= i < n.order.len() && 0 <= j < n.order.len() && #[trigger] n.order[j]
                == n.tip implies n.height(#[trigger] n.order[i]) <= n.height(n.tip) && (i < j
            ==> n.height(n.order[i]) < n.height(n.tip)) by {
            assert(l.order[j] == l.tip);
            assert(l.height(l.order[i]) <= l.height(l.tip));
        }
    }
}

/// The ledger that holds the genesis block alone is well formed.
pub proof fn lemma_genesis_ledger_wf()
    ensures
        genesis_ledger().wf(),
{
    reveal(LedgerView::wf);
    let l = genesis_ledger();
    let g = genesis_hash();
    assert(l.order[0] == g);
    assert forall|h: H256| l.entries.contains_key(h) <==> l.order.contains(h) by {
        if l.order.contains(h) {
            let i = choose|i: int| 0 <= i < l.order.len() && l.order[i] == h;
        }
    }
    assert forall|h: H256| #[trigger] l.contains(h) implies l.entry_ok(h) by {}
}

/// Putting an origin on record keeps the ledger well formed.
pub proof fn lemma_with_origin_wf(l: LedgerView, h: H256, origin: BlockOrigin)
    requires
        l.wf(),
    ensures
        l.with_first_origin(h, origin).wf(),
        l.with_origin(h, origin).wf(),
{
    assert(distinct_keys(l.origins)) by {
        reveal(LedgerView::wf);
    }
    if has_key(l.origins, h) {
        let i = crate::assoc::key_index(l.origins, h);
        crate::assoc::lemma_to_map_update(l.origins, i, origin);
        lemma_origins_free(l, l.origins.update(i, (h, origin)));
    } else {
        crate::assoc::lemma_to_map_push(l.origins, h, origin);
        lemma_origins_free(l, l.origins.push((h, origin)));
    }
}

} // verus!
