//! The messages that nodes exchange.

use crate::block::{block_seq_views, Block, BlockView};
use crate::block::transaction_views;
use crate::crypto::hash::H256;
use crate::transaction::{SignedTransaction, SignedTransactionView};
use vstd::prelude::*;

verus! {

/// A message between two nodes.
pub enum Message {
    Ping(u32),
    Pong(String),
    NewBlockHashes(Vec<H256>),
    GetBlocks(Vec<H256>),
    Blocks(Vec<Block>),
    NewTransactionHashes(Vec<H256>),
    GetTransactions(Vec<H256>),
    Transactions(Vec<SignedTransaction>),
}

/// A message as a value.
pub enum MessageView {
    Ping(u32),
    Pong(Seq<char>),
    NewBlockHashes(Seq<H256>),
    GetBlocks(Seq<H256>),
    Blocks(Seq<BlockView>),
    NewTransactionHashes(Seq<H256>),
    GetTransactions(Seq<H256>),
    Transactions(Seq<SignedTransactionView>),
}

impl View for Message {
    type V = MessageView;

    open spec fn view(&self) -> MessageView {
        match self {
            Message::Ping(nonce) => MessageView::Ping(*nonce),
            Message::Pong(text) => MessageView::Pong(text@),
            Message::NewBlockHashes(hashes) => MessageView::NewBlockHashes(hashes@),
            Message::GetBlocks(hashes) => MessageView::GetBlocks(hashes@),
            Message::Blocks(blocks) => MessageView::Blocks(block_seq_views(blocks@)),
            Message::NewTransactionHashes(hashes) => MessageView::NewTransactionHashes(hashes@),
            Message::GetTransactions(hashes) => MessageView::GetTransactions(hashes@),
            Message::Transactions(transactions) => MessageView::Transactions(
                transaction_views(transactions@),
            ),
        }
    }
}

/// What a node does with a message of its own: sends it to the peer whose
/// message it answers, or to every peer.
pub enum Action {
    Reply(Message),
    Broadcast(Message),
}

/// An action as a value.
pub enum ActionView {
    Reply(MessageView),
    Broadcast(MessageView),
}

impl View for Action {
    type V = ActionView;

    open spec fn view(&self) -> ActionView {
        match self {
            Action::Reply(message) => ActionView::Reply(message@),
            Action::Broadcast(message) => ActionView::Broadcast(message@),
        }
    }
}

/// The values of a list of actions.
pub open spec fn action_views(s: Seq<Action>) -> Seq<ActionView> {
    Seq::new(s.len(), |i: int| s[i]@)
}

} // verus!
