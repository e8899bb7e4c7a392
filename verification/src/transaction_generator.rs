//! Making transactions to try the node with: one that spends every unspent
//! output of an address and pays each to the address it was payable to.

use crate::address::H160;
use crate::crypto::key_pair::{ed25519_signature, KeyPair};
use crate::mempool::{enqueue, Mempool};
use crate::network::message::{Message, MessageView};
use crate::state::State;
use crate::transaction::{
    SignedTransaction, SignedTransactionView, Transaction, TransactionInput, TransactionOutput,
    TransactionView, MAX_TRANSACTION_BYTES,
};
use vstd::prelude::*;

verus! {

/// The keys of the entries of `entries` that are payable to `owner`, in
/// order.
pub open spec fn owned_inputs(
    entries: Seq<(TransactionInput, TransactionOutput)>,
    owner: H160,
) -> Seq<TransactionInput>
    decreases entries.len(),
{
    if entries.len() == 0 {
        Seq::empty()
    } else if entries.last().1.recipient == owner {
        owned_inputs(entries.drop_last(), owner).push(entries.last().0)
    } else {
        owned_inputs(entries.drop_last(), owner)
    }
}

/// The outputs of `entries` that are payable to `owner`, in order.
pub open spec fn owned_outputs(
    entries: Seq<(TransactionInput, TransactionOutput)>,
    owner: H160,
) -> Seq<TransactionOutput>
    decreases entries.len(),
{
    if entries.len() == 0 {
        Seq::empty()
    } else if entries.last().1.recipient == owner {
        owned_outputs(entries.drop_last(), owner).push(entries.last().1)
    } else {
        owned_outputs(entries.drop_last(), owner)
    }
}

/// The transaction that spends every output of `entries` payable to `owner`
/// and creates each of them anew.
pub open spec fn respend(
    entries: Seq<(TransactionInput, TransactionOutput)>,
    owner: H160,
) -> TransactionView {
    TransactionView {
        inputs: owned_inputs(entries, owner),
        outputs: owned_outputs(entries, owner),
    }
}

/// `raw` signed by the key pair with this seed.
pub open spec fn signed_by(raw: TransactionView, seed: Seq<u8>) -> SignedTransactionView {
    SignedTransactionView {
        raw,
        public_key: crate::crypto::key_pair::ed25519_public_key(seed),
        signature: ed25519_signature(seed, raw.encoding()),
    }
}

/// The unspent outputs of `state` that are payable to `owner`, as the inputs
/// that name them and as outputs.
pub fn spendable(state: &State, owner: &H160) -> (r: (Vec<TransactionInput>, Vec<TransactionOutput>))
    ensures
        r.0@ == owned_inputs(state.entries(), *owner),
        r.1@ == owned_outputs(state.entries(), *owner),
{
    let mut inputs: Vec<TransactionInput> = Vec::new();
    let mut outputs: Vec<TransactionOutput> = Vec::new();
    let count = state.len();
    let mut i: usize = 0;
    while i < count
        invariant
            count == state.entries().len(),
            i <= count,
            inputs@ == owned_inputs(state.entries().take(i as int), *owner),
            outputs@ == owned_outputs(state.entries().take(i as int), *owner),
        decreases count - i,
    {
        proof {
            let next = state.entries().take(i + 1);
            assert(next.drop_last() =~= state.entries().take(i as int));
            assert(next.last() == state.entries()[i as int]);
        }
        let (input, output) = state.entry_at(i);
        if output.recipient == *owner {
            inputs.push(input);
            outputs.push(output);
        }
        i += 1;
    }
    assert(state.entries().take(i as int) =~= state.entries());
    (inputs, outputs)
}

/// Makes the transaction that spends every unspent output of `owner` in
/// `state`, signs it with `signer`, puts it into the pool and returns the
/// message that announces it; nothing where the transaction would be longer
/// than a transaction may be.
pub fn generate_transaction(
    state: &State,
    pool: &mut Mempool,
    owner: &H160,
    signer: &KeyPair,
) -> (announce: Option<Message>)
    requires
        old(pool).wf(),
    ensures
        final(pool).wf(),
        ({
            let raw = respend(state.entries(), *owner);
            let signed = signed_by(raw, signer.seed());
            if raw.encoded_len() <= MAX_TRANSACTION_BYTES {
                &&& final(pool)@ == enqueue(old(pool)@, signed)
                &&& announce.is_some()
                &&& announce.unwrap()@ == MessageView::NewTransactionHashes(seq![signed.hash()])
            } else {
                &&& final(pool)@ == old(pool)@
                &&& announce.is_none()
            }
        }),
{
    let (inputs, outputs) = spendable(state, owner);
    match Transaction::new(inputs, outputs) {
        Some(raw) => {
            let ghost view = raw@;
            assert(view == respend(state.entries(), *owner));
            let signed = SignedTransaction::from_raw(raw, signer);
            let hash = signed.hash();
            pool.insert(signed);
            let mut hashes = Vec::new();
            hashes.push(hash);
            assert(hashes@ =~= seq![hash]);
            Some(Message::NewTransactionHashes(hashes))
        },
        None => None,
    }
}

} // verus!
