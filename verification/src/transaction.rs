//! Transactions: what they spend, what they create, how they are written as
//! bytes, hashed and signed.

use crate::address::H160;
use crate::assoc::Key;
use crate::bytes::{le_bytes, lemma_be_bytes_len, lemma_le_bytes_len, write_le};
use crate::crypto::hash::{sha256, H256};
use crate::crypto::key_pair::{
    ed25519_signature, ed25519_verifies, verify_bytes, KeyPair,
};
use vstd::prelude::*;

verus! {

/// A transaction is written in at most this many bytes.
pub const MAX_TRANSACTION_BYTES: u64 = 0x0800_0000_0000_0000;

/// The public key and the signature of a signed transaction together take at
/// most this many bytes.
pub const MAX_WITNESS_BYTES: u64 = 0x0800_0000_0000_0000;

/// Names one output of an earlier transaction.
#[derive(Clone, Copy, PartialEq, Eq, Structural, Debug, Hash)]
pub struct TransactionInput {
    pub output_index: u32,
    pub source_tx: H256,
}

/// An amount made payable to an address.
#[derive(Clone, Copy, PartialEq, Eq, Structural, Debug, Hash)]
pub struct TransactionOutput {
    pub recipient: H160,
    pub value: u64,
}

impl Key for TransactionInput {
    fn same(&self, other: &Self) -> (r: bool) {
        self.output_index == other.output_index && self.source_tx.same(&other.source_tx)
    }
}

impl TransactionInput {
    /// The 36 bytes of an input: the index, least significant byte first,
    /// then the digest.
    pub open spec fn encoding(self) -> Seq<u8> {
        le_bytes(self.output_index as nat, 4) + self.source_tx.bytes()
    }

    /// Appends the encoding to `out`.
    pub fn encode(&self, out: &mut Vec<u8>)
        ensures
            final(out)@ == old(out)@ + self.encoding(),
    {
        write_le(out, self.output_index as u128, 4);
        let mut digest = self.source_tx.to_bytes();
        out.append(&mut digest);
        assert(out@ =~= old(out)@ + self.encoding());
    }
}

impl TransactionOutput {
    /// The 28 bytes of an output: the address, then the value, least
    /// significant byte first.
    pub open spec fn encoding(self) -> Seq<u8> {
        self.recipient.bytes() + le_bytes(self.value as nat, 8)
    }

    /// Appends the encoding to `out`.
    pub fn encode(&self, out: &mut Vec<u8>)
        ensures
            final(out)@ == old(out)@ + self.encoding(),
    {
        let mut recipient = self.recipient.to_bytes();
        out.append(&mut recipient);
        write_le(out, self.value as u128, 8);
        assert(out@ =~= old(out)@ + self.encoding());
    }
}

/// The inputs of `s` written one after another.
pub open spec fn encode_inputs(s: Seq<TransactionInput>) -> Seq<u8>
    decreases s.len(),
{
    if s.len() == 0 {
        Seq::empty()
    } else {
        encode_inputs(s.drop_last()) + s.last().encoding()
    }
}

/// The outputs of `s` written one after another.
pub open spec fn encode_outputs(s: Seq<TransactionOutput>) -> Seq<u8>
    decreases s.len(),
{
    if s.len() == 0 {
        Seq::empty()
    } else {
        encode_outputs(s.drop_last()) + s.last().encoding()
    }
}

/// Each input takes 36 bytes.
pub proof fn lemma_encode_inputs_len(s: Seq<TransactionInput>)
    ensures
        encode_inputs(s).len() == 36 * s.len(),
    decreases s.len(),
{
    if s.len() > 0 {
        lemma_encode_inputs_len(s.drop_last());
        lemma_le_bytes_len(s.last().output_index as nat, 4);
        lemma_be_bytes_len(s.last().source_tx.hi as nat, 16);
        lemma_be_bytes_len(s.last().source_tx.lo as nat, 16);
    }
}

/// Each output takes 28 bytes.
pub proof fn lemma_encode_outputs_len(s: Seq<TransactionOutput>)
    ensures
        encode_outputs(s).len() == 28 * s.len(),
    decreases s.len(),
{
    if s.len() > 0 {
        lemma_encode_outputs_len(s.drop_last());
        lemma_le_bytes_len(s.last().value as nat, 8);
        lemma_be_bytes_len(s.last().recipient.hi as nat, 4);
        lemma_be_bytes_len(s.last().recipient.lo as nat, 16);
    }
}

/// A transaction as a value: the outputs it spends and those it creates.
pub struct TransactionView {
    pub inputs: Seq<TransactionInput>,
    pub outputs: Seq<TransactionOutput>,
}

impl TransactionView {
    /// The transaction as bytes: each list as its length in eight bytes,
    /// least significant first, and then its items.
    pub open spec fn encoding(self) -> Seq<u8> {
        le_bytes(self.inputs.len(), 8) + encode_inputs(self.inputs) + le_bytes(
            self.outputs.len(),
            8,
        ) + encode_outputs(self.outputs)
    }

    /// The number of bytes of the encoding.
    pub open spec fn encoded_len(self) -> nat {
        16 + 36 * self.inputs.len() + 28 * self.outputs.len()
    }

    /// The digest that names the transaction.
    pub open spec fn hash(self) -> H256 {
        H256::spec_from_bytes(sha256(self.encoding()))
    }

    /// The encoding has the length that the counts of inputs and outputs give.
    pub proof fn lemma_encoding_len(self)
        ensures
            self.encoding().len() == self.encoded_len(),
    {
        lemma_le_bytes_len(self.inputs.len(), 8);
        lemma_le_bytes_len(self.outputs.len(), 8);
        lemma_encode_inputs_len(self.inputs);
        lemma_encode_outputs_len(self.outputs);
    }
}

/// A transaction. Its lists are short enough for the encoding to stay within
/// `MAX_TRANSACTION_BYTES`.
pub struct Transaction {
    inputs: Vec<TransactionInput>,
    outputs: Vec<TransactionOutput>,
}

impl View for Transaction {
    type V = TransactionView;

    closed spec fn view(&self) -> TransactionView {
        TransactionView { inputs: self.inputs@, outputs: self.outputs@ }
    }
}

impl Transaction {
    #[verifier::type_invariant]
    spec fn inv(self) -> bool {
        16 + 36 * self.inputs@.len() + 28 * self.outputs@.len() <= MAX_TRANSACTION_BYTES
    }

    /// The transaction with these inputs and outputs; `None` where its
    /// encoding would be longer than `MAX_TRANSACTION_BYTES`.
    pub fn new(inputs: Vec<TransactionInput>, outputs: Vec<TransactionOutput>) -> (r: Option<
        Transaction,
    >)
        ensures
            r.is_some() == (16 + 36 * inputs@.len() + 28 * outputs@.len()
                <= MAX_TRANSACTION_BYTES),
            r matches Some(t) ==> t@.inputs == inputs@ && t@.outputs == outputs@,
    {
        let size: u128 = 16 + 36 * (inputs.len() as u128) + 28 * (outputs.len() as u128);
        if size <= MAX_TRANSACTION_BYTES as u128 {
            Some(Transaction { inputs, outputs })
        } else {
            None
        }
    }

    /// The outputs that the transaction spends.
    pub fn inputs(&self) -> (r: &Vec<TransactionInput>)
        ensures
            r@ == self@.inputs,
    {
        &self.inputs
    }

    /// The outputs that the transaction creates.
    pub fn outputs(&self) -> (r: &Vec<TransactionOutput>)
        ensures
            r@ == self@.outputs,
    {
        &self.outputs
    }

    /// The transaction as bytes.
    pub fn encode(&self) -> (out: Vec<u8>)
        ensures
            out@ == self@.encoding(),
            out@.len() <= MAX_TRANSACTION_BYTES,
    {
        proof {
            use_type_invariant(self);
            self@.lemma_encoding_len();
        }
        let mut out: Vec<u8> = Vec::new();
        write_le(&mut out, self.inputs.len() as u128, 8);
        assert(out@ =~= le_bytes(self.inputs@.len(), 8));
        let mut i: usize = 0;
        while i < self.inputs.len()
            invariant
                i <= self.inputs@.len(),
                out@ == le_bytes(self.inputs@.len(), 8) + encode_inputs(
                    self.inputs@.take(i as int),
                ),
            decreases self.inputs@.len() - i,
        {
            self.inputs[i].encode(&mut out);
            proof {
                let next = self.inputs@.take(i + 1);
                assert(next.drop_last() =~= self.inputs@.take(i as int));
                assert(next.last() == self.inputs@[i as int]);
                assert(out@ =~= le_bytes(self.inputs@.len(), 8) + encode_inputs(next));
            }
            i += 1;
        }
        assert(self.inputs@.take(i as int) =~= self.inputs@);
        write_le(&mut out, self.outputs.len() as u128, 8);
        let ghost head = out@;
        let mut k: usize = 0;
        while k < self.outputs.len()
            invariant
                k <= self.outputs@.len(),
                out@ == head + encode_outputs(self.outputs@.take(k as int)),
            decreases self.outputs@.len() - k,
        {
            self.outputs[k].encode(&mut out);
            proof {
                let next = self.outputs@.take(k + 1);
                assert(next.drop_last() =~= self.outputs@.take(k as int));
                assert(next.last() == self.outputs@[k as int]);
                assert(out@ =~= head + encode_outputs(next));
            }
            k += 1;
        }
        assert(self.outputs@.take(k as int) =~= self.outputs@);
        out
    }

    /// The digest that names the transaction.
    pub fn hash(&self) -> (h: H256)
        ensures
            h == self@.hash(),
    {
        let bytes = self.encode();
        H256::digest(bytes.as_slice())
    }
}

impl Clone for Transaction {
    fn clone(&self) -> (r: Self)
        ensures
            r@ == self@,
    {
        proof {
            use_type_invariant(self);
        }
        let inputs = self.inputs.clone();
        let outputs = self.outputs.clone();
        assert(inputs@ =~= self.inputs@);
        assert(outputs@ =~= self.outputs@);
        Transaction { inputs, outputs }
    }
}

impl Default for Transaction {
    fn default() -> (r: Self)
        ensures
            r@.inputs == Seq::<TransactionInput>::empty(),
            r@.outputs == Seq::<TransactionOutput>::empty(),
    {
        Transaction { inputs: Vec::new(), outputs: Vec::new() }
    }
}

/// A signed transaction as a value.
pub struct SignedTransactionView {
    pub raw: TransactionView,
    pub public_key: Seq<u8>,
    pub signature: Seq<u8>,
}

impl SignedTransactionView {
    /// The signed transaction as bytes: the transaction, then the key and the
    /// signature, each behind its length in eight bytes.
    pub open spec fn encoding(self) -> Seq<u8> {
        self.raw.encoding() + le_bytes(self.public_key.len(), 8) + self.public_key + le_bytes(
            self.signature.len(),
            8,
        ) + self.signature
    }

    /// The digest that names the signed transaction.
    pub open spec fn hash(self) -> H256 {
        H256::spec_from_bytes(sha256(self.encoding()))
    }

    /// The signature verifies over the bytes of the transaction under the
    /// public key.
    pub open spec fn signature_valid(self) -> bool {
        ed25519_verifies(self.public_key, self.raw.encoding(), self.signature)
    }

    /// The address of the signing key.
    pub open spec fn signer(self) -> H160 {
        H160::spec_from_pubkey(self.public_key)
    }
}

/// A transaction with the public key that signed it and the signature.
pub struct SignedTransaction {
    raw: Transaction,
    public_key: Vec<u8>,
    signature: Vec<u8>,
}

impl View for SignedTransaction {
    type V = SignedTransactionView;

    closed spec fn view(&self) -> SignedTransactionView {
        SignedTransactionView {
            raw: self.raw@,
            public_key: self.public_key@,
            signature: self.signature@,
        }
    }
}

impl SignedTransaction {
    #[verifier::type_invariant]
    spec fn inv(self) -> bool {
        self.public_key@.len() + self.signature@.len() <= MAX_WITNESS_BYTES
    }

    /// The signed transaction with these parts; `None` where key and
    /// signature together are longer than `MAX_WITNESS_BYTES`.
    pub fn new(raw: Transaction, public_key: Vec<u8>, signature: Vec<u8>) -> (r: Option<
        SignedTransaction,
    >)
        ensures
            r.is_some() == (public_key@.len() + signature@.len() <= MAX_WITNESS_BYTES),
            r matches Some(t) ==> t@.raw == raw@ && t@.public_key == public_key@ && t@.signature
                == signature@,
    {
        let size: u128 = (public_key.len() as u128) + (signature.len() as u128);
        if size <= MAX_WITNESS_BYTES as u128 {
            Some(SignedTransaction { raw, public_key, signature })
        } else {
            None
        }
    }

    /// Signs `raw` with `key`.
    pub fn from_raw(raw: Transaction, key: &KeyPair) -> (t: SignedTransaction)
        ensures
            t@.raw == raw@,
            t@.public_key == key.spec_public_key(),
            t@.signature == ed25519_signature(key.seed(), raw@.encoding()),
    {
        let public_key = key.public_key();
        let signature = sign(&raw, key);
        SignedTransaction { raw, public_key, signature }
    }

    /// The transaction that was signed.
    pub fn raw(&self) -> (r: &Transaction)
        ensures
            r@ == self@.raw,
    {
        &self.raw
    }

    /// The public key of the signer.
    pub fn public_key(&self) -> (r: &Vec<u8>)
        ensures
            r@ == self@.public_key,
            r@.len() <= MAX_WITNESS_BYTES,
    {
        proof {
            use_type_invariant(self);
        }
        &self.public_key
    }

    /// The signature.
    pub fn signature(&self) -> (r: &Vec<u8>)
        ensures
            r@ == self@.signature,
    {
        &self.signature
    }

    /// Whether the signature verifies over the bytes of the transaction.
    pub fn verify_signature(&self) -> (ok: bool)
        ensures
            ok == self@.signature_valid(),
    {
        verify(&self.raw, self.public_key.as_slice(), self.signature.as_slice())
    }

    /// The address of the signing key.
    pub fn signer(&self) -> (a: H160)
        ensures
            a == self@.signer(),
    {
        proof {
            use_type_invariant(self);
        }
        H160::from_pubkey(self.public_key.as_slice())
    }

    /// The signed transaction as bytes.
    pub fn encode(&self) -> (out: Vec<u8>)
        ensures
            out@ == self@.encoding(),
            out@.len() < 2 * MAX_WITNESS_BYTES + 32,
    {
        proof {
            use_type_invariant(self);
            lemma_le_bytes_len(self.public_key@.len(), 8);
            lemma_le_bytes_len(self.signature@.len(), 8);
        }
        let mut out = self.raw.encode();
        let mut key = self.public_key.clone();
        let mut signature = self.signature.clone();
        assert(key@ =~= self.public_key@);
        assert(signature@ =~= self.signature@);
        write_le(&mut out, self.public_key.len() as u128, 8);
        out.append(&mut key);
        write_le(&mut out, self.signature.len() as u128, 8);
        out.append(&mut signature);
        out
    }

    /// The digest that names the signed transaction.
    pub fn hash(&self) -> (h: H256)
        ensures
            h == self@.hash(),
    {
        let bytes = self.encode();
        H256::digest(bytes.as_slice())
    }
}

impl Clone for SignedTransaction {
    fn clone(&self) -> (r: Self)
        ensures
            r@ == self@,
    {
        proof {
            use_type_invariant(self);
        }
        let public_key = self.public_key.clone();
        let signature = self.signature.clone();
        assert(public_key@ =~= self.public_key@);
        assert(signature@ =~= self.signature@);
        SignedTransaction { raw: self.raw.clone(), public_key, signature }
    }
}

impl Default for SignedTransaction {
    fn default() -> (r: Self)
        ensures
            r@.raw.inputs == Seq::<TransactionInput>::empty(),
            r@.raw.outputs == Seq::<TransactionOutput>::empty(),
            r@.public_key == Seq::<u8>::empty(),
            r@.signature == Seq::<u8>::empty(),
    {
        SignedTransaction {
            raw: Transaction::default(),
            public_key: Vec::new(),
            signature: Vec::new(),
        }
    }
}

/// The signature of the bytes of `t` under `key`.
pub fn sign(t: &Transaction, key: &KeyPair) -> (signature: Vec<u8>)
    ensures
        signature@ == ed25519_signature(key.seed(), t@.encoding()),
        signature@.len() == 64,
{
    let bytes = t.encode();
    key.sign(bytes.as_slice())
}

/// Whether `signature` is a valid signature of the bytes of `t` under
/// `public_key`.
pub fn verify(t: &Transaction, public_key: &[u8], signature: &[u8]) -> (ok: bool)
    ensures
        ok == ed25519_verifies(public_key@, t@.encoding(), signature@),
{
    let bytes = t.encode();
    verify_bytes(public_key, bytes.as_slice(), signature)
}

} // verus!
