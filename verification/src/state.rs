//! The unspent outputs: which outputs of earlier transactions can still be
//! spent, and how a transaction changes them.

use crate::assoc::{distinct_keys, to_map, AssocList};
use crate::transaction::{
    SignedTransaction, SignedTransactionView, Transaction, TransactionInput, TransactionOutput,
    TransactionView,
};
use vstd::prelude::*;

verus! {

/// The outputs that `tx` creates with an index below `n`, each under the key
/// of its position and the transaction's hash.
pub open spec fn created_below(tx: TransactionView, n: int) -> Map<
    TransactionInput,
    TransactionOutput,
> {
    Map::new(
        |key: TransactionInput|
            key.source_tx == tx.hash() && key.output_index < n && key.output_index
                < tx.outputs.len(),
        |key: TransactionInput| tx.outputs[key.output_index as int],
    )
}

/// The outputs that `tx` creates.
pub open spec fn outputs_created(tx: TransactionView) -> Map<TransactionInput, TransactionOutput> {
    created_below(tx, tx.outputs.len() as int)
}

/// The unspent outputs after `tx`: those before it without the ones that it
/// spends, and with the ones that it creates.
pub open spec fn apply_transaction(
    state: Map<TransactionInput, TransactionOutput>,
    tx: TransactionView,
) -> Map<TransactionInput, TransactionOutput> {
    state.remove_keys(tx.inputs.to_set()).union_prefer_right(outputs_created(tx))
}

/// The unspent outputs after the transactions of `txs`, applied in order.
pub open spec fn apply_transactions(
    state: Map<TransactionInput, TransactionOutput>,
    txs: Seq<SignedTransactionView>,
) -> Map<TransactionInput, TransactionOutput>
    decreases txs.len(),
{
    if txs.len() == 0 {
        state
    } else {
        apply_transaction(apply_transactions(state, txs.drop_last()), txs.last().raw)
    }
}

/// A transaction touches only the outputs that it names: every other key is
/// unspent after it exactly if it was before, with the same output.
pub proof fn lemma_apply_transaction_frame(
    state: Map<TransactionInput, TransactionOutput>,
    tx: TransactionView,
    key: TransactionInput,
)
    requires
        !tx.inputs.contains(key),
        key.source_tx != tx.hash(),
    ensures
        apply_transaction(state, tx).contains_key(key) == state.contains_key(key),
        state.contains_key(key) ==> apply_transaction(state, tx)[key] == state[key],
{
}

/// After a transaction, each output it creates is unspent under the key of
/// its position, and each output it spends is gone unless the transaction
/// itself creates it anew.
pub proof fn lemma_apply_transaction_effect(
    state: Map<TransactionInput, TransactionOutput>,
    tx: TransactionView,
)
    ensures
        forall|i: int|
            0 <= i < tx.outputs.len() && i <= u32::MAX ==> {
                let key = TransactionInput { output_index: i as u32, source_tx: tx.hash() };
                apply_transaction(state, tx).contains_key(key) && apply_transaction(state, tx)[key]
                    == #[trigger] tx.outputs[i]
            },
        forall|j: int|
            0 <= j < tx.inputs.len() && (#[trigger] tx.inputs[j]).source_tx != tx.hash()
                ==> !apply_transaction(state, tx).contains_key(tx.inputs[j]),
{
    assert forall|j: int|
        0 <= j < tx.inputs.len() && (#[trigger] tx.inputs[j]).source_tx
            != tx.hash() implies !apply_transaction(state, tx).contains_key(tx.inputs[j]) by {
        assert(tx.inputs.contains(tx.inputs[j]));
    }
}

/// The unspent outputs, as a map from the key of an output to the output.
pub struct State {
    utxo: AssocList<TransactionInput, TransactionOutput>,
}

impl View for State {
    type V = Map<TransactionInput, TransactionOutput>;

    open spec fn view(&self) -> Map<TransactionInput, TransactionOutput> {
        to_map(self.entries())
    }
}

impl State {
    /// The unspent outputs in the order in which their keys were first
    /// inserted.
    pub closed spec fn entries(&self) -> Seq<(TransactionInput, TransactionOutput)> {
        self.utxo.pairs()
    }

    /// No key is held twice.
    pub open spec fn wf(&self) -> bool {
        distinct_keys(self.entries())
    }

    /// No unspent outputs.
    pub fn new() -> (s: State)
        ensures
            s.wf(),
            s.entries() == Seq::<(TransactionInput, TransactionOutput)>::empty(),
            s@ == Map::<TransactionInput, TransactionOutput>::empty(),
    {
        State { utxo: AssocList::new() }
    }

    /// The number of unspent outputs.
    pub fn len(&self) -> (n: usize)
        ensures
            n == self.entries().len(),
            self.wf() ==> n == self@.dom().len(),
    {
        self.utxo.len()
    }

    /// The unspent output at position `i`, with its key.
    pub fn entry_at(&self, i: usize) -> (e: (TransactionInput, TransactionOutput))
        requires
            i < self.entries().len(),
        ensures
            e == self.entries()[i as int],
    {
        (self.utxo.key_at(i), *self.utxo.value_at(i))
    }

    /// Whether the output that `key` names is unspent.
    pub fn contains_key(&self, key: &TransactionInput) -> (r: bool)
        ensures
            r == self@.contains_key(*key),
    {
        self.utxo.contains_key(key)
    }

    /// The unspent output that `key` names, if there is one.
    pub fn get(&self, key: &TransactionInput) -> (r: Option<&TransactionOutput>)
        requires
            self.wf(),
        ensures
            match r {
                Some(output) => self@.contains_key(*key) && *output == self@[*key],
                None => !self@.contains_key(*key),
            },
    {
        self.utxo.get(key)
    }

    /// Makes `output` the unspent output that `key` names.
    pub fn insert(&mut self, key: TransactionInput, output: TransactionOutput)
        requires
            old(self).wf(),
        ensures
            final(self).wf(),
            final(self)@ == old(self)@.insert(key, output),
    {
        self.utxo.insert(key, output);
    }

    /// Spends the output that `key` names, and returns it if it was unspent.
    pub fn remove(&mut self, key: &TransactionInput) -> (r: Option<TransactionOutput>)
        requires
            old(self).wf(),
        ensures
            final(self).wf(),
            final(self)@ == old(self)@.remove(*key),
            match r {
                Some(output) => old(self)@.contains_key(*key) && output == old(self)@[*key],
                None => !old(self)@.contains_key(*key),
            },
    {
        self.utxo.remove(key)
    }

    /// Applies one transaction: takes out each output it spends, then adds
    /// each output it creates under the key of its position.
    pub fn apply(&mut self, tx: &Transaction)
        requires
            old(self).wf(),
        ensures
            final(self).wf(),
            final(self)@ == apply_transaction(old(self)@, tx@),
    {
        let ghost before = self@;
        let hash = tx.hash();
        let inputs = tx.inputs();
        let mut i: usize = 0;
        while i < inputs.len()
            invariant
                self.wf(),
                i <= inputs@.len(),
                self@ == before.remove_keys(inputs@.take(i as int).to_set()),
            decreases inputs@.len() - i,
        {
            let _ = self.remove(&inputs[i]);
            proof {
                let done = inputs@.take(i as int);
                let next = inputs@.take(i + 1);
                assert forall|key: TransactionInput| next.contains(key) == (done.contains(key)
                    || key == inputs@[i as int]) by {
                    if done.contains(key) {
                        let j = choose|j: int| 0 <= j < done.len() && done[j] == key;
                        assert(next[j] == key);
                    }
                    if key == inputs@[i as int] {
                        assert(next[i as int] == key);
                    }
                    if next.contains(key) {
                        let j = choose|j: int| 0 <= j < next.len() && next[j] == key;
                        if j < i {
                            assert(done[j] == key);
                        }
                    }
                }
                assert(self@ =~= before.remove_keys(next.to_set()));
            }
            i += 1;
        }
        assert(inputs@.take(i as int) =~= inputs@);
        let ghost base = self@;
        let outputs = tx.outputs();
        let mut k: usize = 0;
        while k < outputs.len() && k <= u32::MAX as usize
            invariant
                self.wf(),
                k <= outputs@.len(),
                k <= u32::MAX + 1,
                outputs@ == tx@.outputs,
                hash == tx@.hash(),
                self@ == base.union_prefer_right(created_below(tx@, k as int)),
            decreases outputs@.len() - k,
        {
            let key = TransactionInput { output_index: k as u32, source_tx: hash };
            self.insert(key, outputs[k]);
            proof {
                assert(self@ =~= base.union_prefer_right(created_below(tx@, k + 1)));
            }
            k += 1;
        }
        assert(created_below(tx@, k as int) =~= outputs_created(tx@));
    }

    /// Applies the transactions of `txs` in order.
    pub fn apply_all(&mut self, txs: &Vec<SignedTransaction>)
        requires
            old(self).wf(),
        ensures
            final(self).wf(),
            final(self)@ == apply_transactions(
                old(self)@,
                crate::block::transaction_views(txs@),
            ),
    {
        let ghost before = self@;
        let ghost views = crate::block::transaction_views(txs@);
        let mut i: usize = 0;
        while i < txs.len()
            invariant
                self.wf(),
                i <= txs@.len(),
                views == crate::block::transaction_views(txs@),
                self@ == apply_transactions(before, views.take(i as int)),
            decreases txs@.len() - i,
        {
            self.apply(txs[i].raw());
            proof {
                let next = views.take(i + 1);
                assert(next.drop_last() =~= views.take(i as int));
                assert(next.last() == txs@[i as int]@);
            }
            i += 1;
        }
        assert(views.take(i as int) =~= views);
    }
}

impl Clone for State {
    fn clone(&self) -> (r: Self)
        ensures
            r.entries() == self.entries(),
    {
        let mut utxo: AssocList<TransactionInput, TransactionOutput> = AssocList::new();
        let mut i: usize = 0;
        while i < self.utxo.len()
            invariant
                i <= self.utxo.pairs().len(),
                utxo.pairs() == self.utxo.pairs().take(i as int),
            decreases self.utxo.pairs().len() - i,
        {
            utxo.push_unchecked(self.utxo.key_at(i), *self.utxo.value_at(i));
            proof {
                assert(self.utxo.pairs().take(i + 1) =~= self.utxo.pairs().take(i as int).push(
                    self.utxo.pairs()[i as int],
                ));
            }
            i += 1;
        }
        assert(self.utxo.pairs().take(i as int) =~= self.utxo.pairs());
        State { utxo }
    }
}

} // verus!
