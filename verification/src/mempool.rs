//! The pool of signed transactions that wait to be put into a block.

use crate::assoc::{has_key, key_index, lemma_to_map_at, AssocList};
use crate::crypto::hash::H256;
use crate::transaction::{SignedTransaction, SignedTransactionView};
use vstd::prelude::*;

verus! {

/// Some transaction of `queue` has hash `h`.
pub open spec fn holds(queue: Seq<SignedTransactionView>, h: H256) -> bool {
    exists|i: int| 0 <= i < queue.len() && (#[trigger] queue[i]).hash() == h
}

/// A position of `queue` whose transaction has hash `h`, where there is
/// one.
pub open spec fn position_of(queue: Seq<SignedTransactionView>, h: H256) -> int {
    choose|i: int| 0 <= i < queue.len() && (#[trigger] queue[i]).hash() == h
}

/// No two transactions of `queue` have the same hash.
pub open spec fn distinct_hashes(queue: Seq<SignedTransactionView>) -> bool {
    forall|i: int, j: int|
        0 <= i < j < queue.len() ==> (#[trigger] queue[i]).hash() != (#[trigger] queue[j]).hash()
}

/// The queue with `tx` at its end, unless it holds a transaction of that
/// hash.
pub open spec fn enqueue(
    queue: Seq<SignedTransactionView>,
    tx: SignedTransactionView,
) -> Seq<SignedTransactionView> {
    if holds(queue, tx.hash()) {
        queue
    } else {
        queue.push(tx)
    }
}

/// The pool: signed transactions in the order of their arrival, none twice.
pub struct Mempool {
    pool: AssocList<H256, SignedTransaction>,
}

impl View for Mempool {
    type V = Seq<SignedTransactionView>;

    closed spec fn view(&self) -> Seq<SignedTransactionView> {
        Seq::new(self.pool.pairs().len(), |i: int| self.pool.pairs()[i].1@)
    }
}

impl Mempool {
    /// Each transaction is filed under its hash, and none twice.
    pub closed spec fn wf(&self) -> bool {
        &&& self.pool.wf()
        &&& forall|i: int|
            0 <= i < self.pool.pairs().len() ==> (#[trigger] self.pool.pairs()[i]).0
                == self.pool.pairs()[i].1@.hash()
    }

    /// In a well-formed pool no two transactions have the same hash.
    pub proof fn lemma_view_wf(&self)
        requires
            self.wf(),
        ensures
            distinct_hashes(self@),
    {
        assert forall|i: int, j: int| 0 <= i < j < self@.len() implies (#[trigger] self@[i]).hash()
            != (#[trigger] self@[j]).hash() by {
            assert(self.pool.pairs()[i].0 != self.pool.pairs()[j].0);
        }
    }

    proof fn lemma_holds(&self, h: H256)
        requires
            self.wf(),
        ensures
            holds(self@, h) == has_key(self.pool.pairs(), h),
            has_key(self.pool.pairs(), h) ==> position_of(self@, h) == key_index(
                self.pool.pairs(),
                h,
            ),
    {
        if holds(self@, h) {
            let i = position_of(self@, h);
            assert(self.pool.pairs()[i].0 == h);
        }
        if has_key(self.pool.pairs(), h) {
            let i = key_index(self.pool.pairs(), h);
            assert(self@[i].hash() == h);
            let j = position_of(self@, h);
            assert(self.pool.pairs()[j].0 == h);
            lemma_to_map_at(self.pool.pairs(), i);
            lemma_to_map_at(self.pool.pairs(), j);
        }
    }

    /// The empty pool.
    pub fn new() -> (pool: Mempool)
        ensures
            pool.wf(),
            pool@ == Seq::<SignedTransactionView>::empty(),
    {
        let pool = Mempool { pool: AssocList::new() };
        assert(pool@ =~= Seq::<SignedTransactionView>::empty());
        pool
    }

    /// The number of transactions in the pool.
    pub fn len(&self) -> (n: usize)
        ensures
            n == self@.len(),
    {
        self.pool.len()
    }

    /// Puts `tx` at the end of the pool, unless the pool holds a transaction
    /// of that hash.
    pub fn insert(&mut self, tx: SignedTransaction)
        requires
            old(self).wf(),
        ensures
            final(self).wf(),
            final(self)@ == enqueue(old(self)@, tx@),
    {
        let hash = tx.hash();
        proof {
            self.lemma_holds(hash);
        }
        if !self.pool.contains_key(&hash) {
            let ghost before = self.pool.pairs();
            self.pool.insert(hash, tx);
            proof {
                assert(self.pool.pairs() == before.push((hash, tx)));
                assert(self@ =~= old(self)@.push(tx@));
                assert forall|i: int| 0 <= i < self.pool.pairs().len() implies (
                #[trigger] self.pool.pairs()[i]).0 == self.pool.pairs()[i].1@.hash() by {
                    if i < before.len() {
                        assert(self.pool.pairs()[i] == before[i]);
                    }
                }
            }
        }
    }

    /// Takes the oldest transaction out of the pool.
    pub fn pop(&mut self) -> (r: Option<SignedTransaction>)
        requires
            old(self).wf(),
        ensures
            final(self).wf(),
            match r {
                Some(tx) => old(self)@.len() > 0 && tx@ == old(self)@[0] && final(self)@ == old(
                    self,
                )@.drop_first(),
                None => old(self)@.len() == 0 && final(self)@ == old(self)@,
            },
    {
        if self.pool.len() == 0 {
            None
        } else {
            let ghost before = self.pool.pairs();
            let (_, tx) = self.pool.remove_at(0);
            proof {
                assert(self.pool.pairs() == before.remove(0));
                assert(self@ =~= old(self)@.drop_first());
                assert forall|i: int| 0 <= i < self.pool.pairs().len() implies (
                #[trigger] self.pool.pairs()[i]).0 == self.pool.pairs()[i].1@.hash() by {
                    assert(self.pool.pairs()[i] == before[i + 1]);
                }
            }
            Some(tx)
        }
    }

    /// The transaction of hash `hash`, if the pool holds one.
    pub fn get_transaction(&self, hash: &H256) -> (r: Option<&SignedTransaction>)
        requires
            self.wf(),
        ensures
            match r {
                Some(tx) => holds(self@, *hash) && tx@ == self@[position_of(self@, *hash)],
                None => !holds(self@, *hash),
            },
    {
        proof {
            self.lemma_holds(*hash);
        }
        match self.pool.find(hash) {
            Some(i) => {
                proof {
                    lemma_to_map_at(self.pool.pairs(), i as int);
                }
                Some(self.pool.value_at(i))
            },
            None => None,
        }
    }

    /// Whether the pool holds a transaction of hash `hash`.
    pub fn contains(&self, hash: &H256) -> (r: bool)
        requires
            self.wf(),
        ensures
            r == holds(self@, *hash),
    {
        proof {
            self.lemma_holds(*hash);
        }
        self.pool.contains_key(hash)
    }
}

} // verus!
