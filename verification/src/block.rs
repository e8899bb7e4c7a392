//! Blocks: a header that names its parent and carries the proof of work, and
//! the transactions it holds.

use crate::bytes::{le_bytes, lemma_be_bytes_len, lemma_le_bytes_len, write_le};
use crate::crypto::hash::{sha256, H256};
use crate::transaction::{SignedTransaction, SignedTransactionView};
use vstd::prelude::*;

verus! {

/// The block header.
#[derive(Clone, Copy, PartialEq, Eq, Structural, Debug)]
pub struct Header {
    pub parent: H256,
    pub nonce: u32,
    pub difficulty: H256,
    pub timestamp: u128,
    pub merkle_root: H256,
}

impl Header {
    /// The 116 bytes of a header: its fields in order, the digests most
    /// significant byte first and the numbers least significant byte first.
    pub open spec fn encoding(self) -> Seq<u8> {
        self.parent.bytes() + le_bytes(self.nonce as nat, 4) + self.difficulty.bytes() + le_bytes(
            self.timestamp as nat,
            16,
        ) + self.merkle_root.bytes()
    }

    /// The digest of the header, which names the block.
    pub open spec fn spec_hash(self) -> H256 {
        H256::spec_from_bytes(sha256(self.encoding()))
    }

    /// A header is written in 116 bytes.
    pub proof fn lemma_encoding_len(self)
        ensures
            self.encoding().len() == 116,
    {
        lemma_le_bytes_len(self.nonce as nat, 4);
        lemma_le_bytes_len(self.timestamp as nat, 16);
        lemma_be_bytes_len(self.parent.hi as nat, 16);
        lemma_be_bytes_len(self.parent.lo as nat, 16);
        lemma_be_bytes_len(self.difficulty.hi as nat, 16);
        lemma_be_bytes_len(self.difficulty.lo as nat, 16);
        lemma_be_bytes_len(self.merkle_root.hi as nat, 16);
        lemma_be_bytes_len(self.merkle_root.lo as nat, 16);
    }

    /// The header as bytes.
    pub fn encode(&self) -> (out: Vec<u8>)
        ensures
            out@ == self.encoding(),
            out@.len() == 116,
    {
        proof {
            self.lemma_encoding_len();
        }
        let mut out = self.parent.to_bytes();
        let mut difficulty = self.difficulty.to_bytes();
        let mut merkle_root = self.merkle_root.to_bytes();
        write_le(&mut out, self.nonce as u128, 4);
        out.append(&mut difficulty);
        write_le(&mut out, self.timestamp, 16);
        out.append(&mut merkle_root);
        out
    }

    /// The digest of the header.
    pub fn hash(&self) -> (h: H256)
        ensures
            h == self.spec_hash(),
    {
        let bytes = self.encode();
        H256::digest(bytes.as_slice())
    }
}

/// Transactions contained in a block.
pub struct Content {
    pub transactions: Vec<SignedTransaction>,
}

/// A block in the blockchain.
pub struct Block {
    pub header: Header,
    pub content: Content,
}

/// The values of a list of signed transactions.
pub open spec fn transaction_views(s: Seq<SignedTransaction>) -> Seq<SignedTransactionView> {
    Seq::new(s.len(), |i: int| s[i]@)
}

/// The signed transactions of `s` written one after another.
pub open spec fn encode_transactions(s: Seq<SignedTransactionView>) -> Seq<u8>
    decreases s.len(),
{
    if s.len() == 0 {
        Seq::empty()
    } else {
        encode_transactions(s.drop_last()) + s.last().encoding()
    }
}

/// A block as a value.
pub struct BlockView {
    pub header: Header,
    pub transactions: Seq<SignedTransactionView>,
}

impl BlockView {
    /// The digest of the header: the block's name.
    pub open spec fn hash(self) -> H256 {
        self.header.spec_hash()
    }

    /// The block as bytes: the header, the number of transactions in eight
    /// bytes, and the transactions.
    pub open spec fn encoding(self) -> Seq<u8> {
        self.header.encoding() + le_bytes(self.transactions.len(), 8) + encode_transactions(
            self.transactions,
        )
    }
}

impl View for Content {
    type V = Seq<SignedTransactionView>;

    open spec fn view(&self) -> Seq<SignedTransactionView> {
        transaction_views(self.transactions@)
    }
}

impl View for Block {
    type V = BlockView;

    open spec fn view(&self) -> BlockView {
        BlockView { header: self.header, transactions: self.content@ }
    }
}

/// The values of a list of blocks.
pub open spec fn block_seq_views(s: Seq<Block>) -> Seq<BlockView> {
    Seq::new(s.len(), |i: int| s[i]@)
}

/// The default difficulty: the number whose 32 bytes are a one and then
/// zeros. A valid block's hash is at most its difficulty, so the smaller the
/// difficulty, the harder a block is to mine.
pub open spec fn spec_default_difficulty() -> H256 {
    H256 { hi: 0x0100_0000_0000_0000_0000_0000_0000_0000, lo: 0 }
}

/// The default difficulty.
pub fn default_difficulty() -> (d: H256)
    ensures
        d == spec_default_difficulty(),
{
    H256 { hi: 0x0100_0000_0000_0000_0000_0000_0000_0000, lo: 0 }
}

/// The header of the genesis block.
pub open spec fn spec_genesis_header() -> Header {
    Header {
        parent: H256::spec_zero(),
        nonce: 0,
        difficulty: spec_default_difficulty(),
        timestamp: 0,
        merkle_root: H256::spec_zero(),
    }
}

/// The genesis block: no transactions under the genesis header.
pub open spec fn spec_genesis() -> BlockView {
    BlockView { header: spec_genesis_header(), transactions: Seq::empty() }
}

impl Clone for Content {
    fn clone(&self) -> (r: Self)
        ensures
            r@ == self@,
    {
        let mut transactions: Vec<SignedTransaction> = Vec::new();
        let mut i: usize = 0;
        while i < self.transactions.len()
            invariant
                i <= self.transactions@.len(),
                transactions@.len() == i,
                forall|j: int| 0 <= j < i ==> transactions@[j]@ == self.transactions@[j]@,
            decreases self.transactions@.len() - i,
        {
            transactions.push(self.transactions[i].clone());
            i += 1;
        }
        let r = Content { transactions };
        assert(r@ =~= self@);
        r
    }
}

impl Clone for Block {
    fn clone(&self) -> (r: Self)
        ensures
            r@ == self@,
    {
        Block { header: self.header, content: self.content.clone() }
    }
}

impl Block {
    /// Construct the (totally deterministic) genesis block.
    pub fn genesis() -> (b: Block)
        ensures
            b@ == spec_genesis(),
    {
        let transactions: Vec<SignedTransaction> = Vec::new();
        let header = Header {
            parent: H256::zero(),
            nonce: 0,
            difficulty: default_difficulty(),
            timestamp: 0,
            merkle_root: H256::zero(),
        };
        let content = Content { transactions };
        let b = Block { header, content };
        assert(b@.transactions =~= Seq::empty());
        b
    }

    /// The block as bytes.
    pub fn encode(&self) -> (out: Vec<u8>)
        ensures
            out@ == self@.encoding(),
    {
        let mut out = self.header.encode();
        write_le(&mut out, self.content.transactions.len() as u128, 8);
        let ghost head = out@;
        let ghost views = self@.transactions;
        let mut i: usize = 0;
        while i < self.content.transactions.len()
            invariant
                i <= self.content.transactions@.len(),
                views == transaction_views(self.content.transactions@),
                out@ == head + encode_transactions(views.take(i as int)),
            decreases self.content.transactions@.len() - i,
        {
            let mut bytes = self.content.transactions[i].encode();
            out.append(&mut bytes);
            proof {
                let next = views.take(i + 1);
                assert(next.drop_last() =~= views.take(i as int));
                assert(next.last() == self.content.transactions@[i as int]@);
                assert(out@ =~= head + encode_transactions(next));
            }
            i += 1;
        }
        assert(views.take(i as int) =~= views);
        out
    }

    /// Obtain the block size in bytes.
    pub fn size(&self) -> (n: usize)
        ensures
            n == self@.encoding().len(),
    {
        self.encode().len()
    }

    /// Hash only the block header.
    pub fn hash(&self) -> (h: H256)
        ensures
            h == self@.hash(),
    {
        self.header.hash()
    }
}

} // verus!
