//! What a node does on each message: the handlers that the workers run, one
//! message at a time, on the ledger and the pool.

use crate::block::{block_seq_views, transaction_views, Block};
use crate::blockchain::Blockchain;
use crate::crypto::hash::H256;
use crate::mempool::Mempool;
use crate::network::message::{action_views, Action, ActionView, Message, MessageView};
use crate::network::protocol::{
    admissible, consider_all, decimal, delay, digit, intake_actions, intake_start,
    known_blocks, pooled_transactions, receive_block, receive_blocks, respond, spends_own,
    unknown_hashes, unpooled_hashes, Admission, Intake,
};
use crate::state::State;
use crate::transaction::{SignedTransaction, SignedTransactionView};
use vstd::prelude::*;
use vstd::string::StringExecFns;

verus! {

fn digit_str(d: u32) -> (s: &'static str)
    requires
        d < 10,
    ensures
        s@ == seq![digit(d as nat)],
{
    proof {
        reveal_strlit("0");
        reveal_strlit("1");
        reveal_strlit("2");
        reveal_strlit("3");
        reveal_strlit("4");
        reveal_strlit("5");
        reveal_strlit("6");
        reveal_strlit("7");
        reveal_strlit("8");
        reveal_strlit("9");
    }
    let s = if d == 0 {
        "0"
    } else if d == 1 {
        "1"
    } else if d == 2 {
        "2"
    } else if d == 3 {
        "3"
    } else if d == 4 {
        "4"
    } else if d == 5 {
        "5"
    } else if d == 6 {
        "6"
    } else if d == 7 {
        "7"
    } else if d == 8 {
        "8"
    } else {
        "9"
    };
    assert(s@ =~= seq![digit(d as nat)]);
    s
}

/// The number `n` written in decimal digits.
pub fn decimal_string(n: u32) -> (s: String)
    ensures
        s@ == decimal(n as nat),
    decreases n,
{
    if n < 10 {
        String::from_str(digit_str(n))
    } else {
        let mut s = decimal_string(n / 10);
        s.append(digit_str(n % 10));
        assert(s@ =~= decimal(n as nat));
        s
    }
}

/// On `Ping`: the `Pong` that carries the nonce in decimal digits.
pub fn handle_ping(nonce: u32) -> (reply: Message)
    ensures
        reply@ == MessageView::Pong(decimal(nonce as nat)),
{
    Message::Pong(decimal_string(nonce))
}

/// On `NewBlockHashes`: a request for the blocks that the ledger does not
/// know, if there are any.
pub fn handle_new_block_hashes(chain: &Blockchain, hashes: &Vec<H256>) -> (reply: Option<Message>)
    ensures
        match reply {
            Some(message) => unknown_hashes(chain@, hashes@).len() > 0 && message@
                == MessageView::GetBlocks(unknown_hashes(chain@, hashes@)),
            None => unknown_hashes(chain@, hashes@).len() == 0,
        },
{
    let mut missing: Vec<H256> = Vec::new();
    let mut i: usize = 0;
    while i < hashes.len()
        invariant
            i <= hashes@.len(),
            missing@ == unknown_hashes(chain@, hashes@.take(i as int)),
        decreases hashes@.len() - i,
    {
        proof {
            let next = hashes@.take(i + 1);
            assert(next.drop_last() =~= hashes@.take(i as int));
            assert(next.last() == hashes@[i as int]);
        }
        if !chain.contains_block(&hashes[i]) {
            missing.push(hashes[i]);
        }
        i += 1;
    }
    assert(hashes@.take(i as int) =~= hashes@);
    if missing.len() > 0 {
        Some(Message::GetBlocks(missing))
    } else {
        None
    }
}

/// On `GetBlocks`: the blocks that the ledger knows among those asked for,
/// if there are any.
pub fn handle_get_blocks(chain: &Blockchain, hashes: &Vec<H256>) -> (reply: Option<Message>)
    requires
        chain.wf(),
    ensures
        match reply {
            Some(message) => known_blocks(chain@, hashes@).len() > 0 && message@
                == MessageView::Blocks(known_blocks(chain@, hashes@)),
            None => known_blocks(chain@, hashes@).len() == 0,
        },
{
    let mut blocks: Vec<Block> = Vec::new();
    let mut i: usize = 0;
    while i < hashes.len()
        invariant
            chain.wf(),
            i <= hashes@.len(),
            block_seq_views(blocks@) == known_blocks(chain@, hashes@.take(i as int)),
        decreases hashes@.len() - i,
    {
        proof {
            let next = hashes@.take(i + 1);
            assert(next.drop_last() =~= hashes@.take(i as int));
            assert(next.last() == hashes@[i as int]);
        }
        if chain.contains_block(&hashes[i]) {
            let block = chain.get_block(&hashes[i]).clone();
            proof {
                assert(block_seq_views(blocks@.push(block)) =~= block_seq_views(blocks@).push(
                    block@,
                ));
            }
            blocks.push(block);
        }
        i += 1;
    }
    assert(hashes@.take(i as int) =~= hashes@);
    if blocks.len() > 0 {
        Some(Message::Blocks(blocks))
    } else {
        None
    }
}

/// The time that a block stamped `timestamp` took to arrive by `now`.
pub fn delay_ms(now: u128, timestamp: u128) -> (d: u128)
    ensures
        d == delay(now, timestamp),
{
    if now >= timestamp {
        now - timestamp
    } else {
        0
    }
}

/// The replies that forward the transaction lists of `forwarded`.
pub open spec fn forward_views(forwarded: Seq<Seq<SignedTransactionView>>) -> Seq<ActionView> {
    Seq::new(
        forwarded.len(),
        |i: int| ActionView::Reply(MessageView::Transactions(forwarded[i])),
    )
}

/// Handles one block of a `Blocks` message.
fn handle_block(
    chain: &mut Blockchain,
    block: &Block,
    now: u128,
    actions: &mut Vec<Action>,
    missing: &mut Vec<H256>,
    relay: &mut Vec<H256>,
    Ghost(before): Ghost<Intake>,
)
    requires
        old(chain).wf(),
        before.ledger == old(chain)@,
        forward_views(before.forwarded) == action_views(old(actions)@),
        before.missing == old(missing)@,
        before.relay == old(relay)@,
    ensures
        final(chain).wf(),
        receive_block(before, block@, now).ledger == final(chain)@,
        forward_views(receive_block(before, block@, now).forwarded) == action_views(
            final(actions)@,
        ),
        receive_block(before, block@, now).missing == final(missing)@,
        receive_block(before, block@, now).relay == final(relay)@,
{
    let hash = block.hash();
    chain.record_received(hash, delay_ms(now, block.header.timestamp));
    if chain.contains_block(&hash) {
        return ;
    }
    if !chain.pow_validity_check(block) {
        return ;
    }
    if !chain.parent_check(block) {
        chain.add_to_orphan_buffer(block);
        missing.push(block.header.parent);
        return ;
    }
    let forwarded = block.content.clone().transactions;
    proof {
        let message = Message::Transactions(forwarded);
        let sent = action_views(actions@.push(Action::Reply(message)));
        let owed = forward_views(before.forwarded.push(block@.transactions));
        assert(forward_views(before.forwarded).len() == before.forwarded.len());
        assert(action_views(actions@).len() == actions@.len());
        assert(before.forwarded.len() == actions@.len());
        assert(owed.len() == before.forwarded.len() + 1);
        assert(sent.len() == actions@.len() + 1);
        assert(message@ == MessageView::Transactions(block@.transactions));
        assert forall|j: int| 0 <= j < sent.len() implies sent[j] == owed[j] by {
            if j < actions@.len() {
                assert(sent[j] == action_views(actions@)[j]);
                assert(owed[j] == forward_views(before.forwarded)[j]);
            }
        }
        assert(sent =~= owed);
    }
    actions.push(Action::Reply(Message::Transactions(forwarded)));
    chain.insert_recursively(block, relay);
}

/// On `Blocks`: takes in each block in order, and returns the messages to
/// send.
pub fn handle_blocks(chain: &mut Blockchain, blocks: &Vec<Block>, now: u128) -> (actions: Vec<
    Action,
>)
    requires
        old(chain).wf(),
    ensures
        final(chain).wf(),
        final(chain)@ == receive_blocks(
            intake_start(old(chain)@),
            block_seq_views(blocks@),
            now,
        ).ledger,
        action_views(actions@) == intake_actions(
            receive_blocks(intake_start(old(chain)@), block_seq_views(blocks@), now),
        ),
        old(chain)@.pow_sound() ==> final(chain)@.pow_sound(),
{
    proof {
        chain.lemma_view_wf();
        if chain@.pow_sound() {
            crate::network::soundness::lemma_receive_blocks_sound(
                intake_start(chain@),
                block_seq_views(blocks@),
                now,
            );
        }
    }
    let ghost start = intake_start(chain@);
    let ghost views = block_seq_views(blocks@);
    let mut actions: Vec<Action> = Vec::new();
    let mut missing: Vec<H256> = Vec::new();
    let mut relay: Vec<H256> = Vec::new();
    let mut i: usize = 0;
    proof {
        assert(forward_views(start.forwarded) =~= action_views(actions@));
    }
    while i < blocks.len()
        invariant
            chain.wf(),
            i <= blocks@.len(),
            views == block_seq_views(blocks@),
            receive_blocks(start, views.take(i as int), now).ledger == chain@,
            forward_views(receive_blocks(start, views.take(i as int), now).forwarded)
                == action_views(actions@),
            receive_blocks(start, views.take(i as int), now).missing == missing@,
            receive_blocks(start, views.take(i as int), now).relay == relay@,
        decreases blocks@.len() - i,
    {
        let ghost before = receive_blocks(start, views.take(i as int), now);
        proof {
            let next = views.take(i + 1);
            assert(next.drop_last() =~= views.take(i as int));
            assert(next.last() == blocks@[i as int]@);
        }
        handle_block(chain, &blocks[i], now, &mut actions, &mut missing, &mut relay, Ghost(before));
        i += 1;
    }
    let ghost done = receive_blocks(start, views, now);
    proof {
        assert(views.take(i as int) =~= views);
    }
    let ghost sent = actions@;
    if missing.len() > 0 {
        actions.push(Action::Reply(Message::GetBlocks(missing)));
    }
    let ghost asked = actions@;
    if relay.len() > 0 {
        actions.push(Action::Broadcast(Message::NewBlockHashes(relay)));
    }
    proof {
        assert(action_views(actions@) =~= intake_actions(done));
    }
    actions
}

/// On `NewTransactionHashes`: a request for the transactions that the pool
/// does not hold, if there are any.
pub fn handle_new_transaction_hashes(pool: &Mempool, hashes: &Vec<H256>) -> (reply: Option<
    Message,
>)
    requires
        pool.wf(),
    ensures
        match reply {
            Some(message) => unpooled_hashes(pool@, hashes@).len() > 0 && message@
                == MessageView::GetTransactions(unpooled_hashes(pool@, hashes@)),
            None => unpooled_hashes(pool@, hashes@).len() == 0,
        },
{
    let mut missing: Vec<H256> = Vec::new();
    let mut i: usize = 0;
    while i < hashes.len()
        invariant
            pool.wf(),
            i <= hashes@.len(),
            missing@ == unpooled_hashes(pool@, hashes@.take(i as int)),
        decreases hashes@.len() - i,
    {
        proof {
            let next = hashes@.take(i + 1);
            assert(next.drop_last() =~= hashes@.take(i as int));
            assert(next.last() == hashes@[i as int]);
        }
        if !pool.contains(&hashes[i]) {
            missing.push(hashes[i]);
        }
        i += 1;
    }
    assert(hashes@.take(i as int) =~= hashes@);
    if missing.len() > 0 {
        Some(Message::GetTransactions(missing))
    } else {
        None
    }
}

/// On `GetTransactions`: the transactions that the pool holds among those
/// asked for, if there are any.
pub fn handle_get_transactions(pool: &Mempool, hashes: &Vec<H256>) -> (reply: Option<Message>)
    requires
        pool.wf(),
    ensures
        match reply {
            Some(message) => pooled_transactions(pool@, hashes@).len() > 0 && message@
                == MessageView::Transactions(pooled_transactions(pool@, hashes@)),
            None => pooled_transactions(pool@, hashes@).len() == 0,
        },
{
    let mut found: Vec<SignedTransaction> = Vec::new();
    let mut i: usize = 0;
    while i < hashes.len()
        invariant
            pool.wf(),
            i <= hashes@.len(),
            transaction_views(found@) == pooled_transactions(pool@, hashes@.take(i as int)),
        decreases hashes@.len() - i,
    {
        proof {
            let next = hashes@.take(i + 1);
            assert(next.drop_last() =~= hashes@.take(i as int));
            assert(next.last() == hashes@[i as int]);
        }
        match pool.get_transaction(&hashes[i]) {
            Some(tx) => {
                let tx = tx.clone();
                proof {
                    assert(transaction_views(found@.push(tx)) =~= transaction_views(found@).push(
                        tx@,
                    ));
                }
                found.push(tx);
            },
            None => {},
        }
        i += 1;
    }
    assert(hashes@.take(i as int) =~= hashes@);
    if found.len() > 0 {
        Some(Message::Transactions(found))
    } else {
        None
    }
}

/// Whether each output that `tx` spends is unspent in `state` and payable to
/// the signer of `tx`.
pub fn check_inputs(state: &State, tx: &SignedTransaction) -> (ok: bool)
    requires
        state.wf(),
    ensures
        ok == spends_own(state@, tx@),
{
    let signer = tx.signer();
    let inputs = tx.raw().inputs();
    let mut i: usize = 0;
    while i < inputs.len()
        invariant
            state.wf(),
            i <= inputs@.len(),
            inputs@ == tx@.raw.inputs,
            signer == tx@.signer(),
            forall|j: int|
                0 <= j < i ==> state@.contains_key(#[trigger] inputs@[j]) && state@[inputs@[j]].recipient
                    == signer,
        decreases inputs@.len() - i,
    {
        match state.get(&inputs[i]) {
            Some(output) => {
                if output.recipient != signer {
                    return false;
                }
            },
            None => {
                return false;
            },
        }
        i += 1;
    }
    true
}

/// Whether the pool takes `tx`: its signature is valid, and each output it
/// spends is unspent in `state` and payable to its signer.
pub fn check_transaction(state: &State, tx: &SignedTransaction) -> (ok: bool)
    requires
        state.wf(),
    ensures
        ok == admissible(state@, tx@),
{
    tx.verify_signature() && check_inputs(state, tx)
}

/// On `Transactions`: puts into the pool each transaction that passes the
/// checks against the unspent outputs at the tip, and returns the hashes of
/// those to announce to all peers, if there are any.
pub fn handle_transactions(
    chain: &Blockchain,
    pool: &mut Mempool,
    transactions: Vec<SignedTransaction>,
) -> (announce: Option<Message>)
    requires
        chain.wf(),
        old(pool).wf(),
    ensures
        final(pool).wf(),
        ({
            let done = consider_all(
                Admission { pool: old(pool)@, accepted: Seq::empty() },
                chain@.entries[chain@.tip].state,
                transaction_views(transactions@),
            );
            &&& final(pool)@ == done.pool
            &&& match announce {
                Some(message) => done.accepted.len() > 0 && message@
                    == MessageView::NewTransactionHashes(done.accepted),
                None => done.accepted.len() == 0,
            }
        }),
{
    proof {
        chain.lemma_view_wf();
        crate::ledger::lemma_wf_basics(chain@);
    }
    let tip = chain.tip();
    let state = chain.get_state(&tip);
    let ghost start = Admission { pool: pool@, accepted: Seq::empty() };
    let ghost views = transaction_views(transactions@);
    let mut transactions = transactions;
    let mut rest = reversed_transactions(transactions);
    let mut accepted: Vec<H256> = Vec::new();
    let ghost mut i: int = 0;
    while rest.len() > 0
        invariant
            state.wf(),
            pool.wf(),
            0 <= i,
            i + rest@.len() == views.len(),
            forall|j: int| 0 <= j < rest@.len() ==> (#[trigger] rest@[j])@ == views[views.len() - 1 - j],
            consider_all(start, state@, views.take(i)).pool == pool@,
            consider_all(start, state@, views.take(i)).accepted == accepted@,
        decreases rest@.len(),
    {
        let tx = rest.pop().unwrap();
        proof {
            let next = views.take(i + 1);
            assert(next.drop_last() =~= views.take(i));
            assert(next.last() == tx@);
        }
        if check_transaction(state, &tx) {
            accepted.push(tx.hash());
            pool.insert(tx);
        }
        proof {
            i = i + 1;
        }
    }
    proof {
        assert(views.take(i) =~= views);
    }
    if accepted.len() > 0 {
        Some(Message::NewTransactionHashes(accepted))
    } else {
        None
    }
}

/// The transactions of `transactions`, last first.
fn reversed_transactions(transactions: Vec<SignedTransaction>) -> (r: Vec<SignedTransaction>)
    ensures
        r@ == transactions@.reverse(),
{
    let mut transactions = transactions;
    let ghost all = transactions@;
    let mut r: Vec<SignedTransaction> = Vec::new();
    while transactions.len() > 0
        invariant
            transactions@ == all.take(transactions@.len() as int),
            transactions@.len() <= all.len(),
            r@.len() == all.len() - transactions@.len(),
            forall|i: int| 0 <= i < r@.len() ==> r@[i] == all[all.len() - 1 - i],
        decreases transactions@.len(),
    {
        let ghost n = transactions@.len();
        let tx = transactions.pop().unwrap();
        r.push(tx);
        proof {
            assert(transactions@ =~= all.take(n - 1));
        }
    }
    assert(r@ =~= all.reverse());
    r
}

/// Handles one message that arrived at time `now`: changes the ledger and
/// the pool as the message asks, and returns the messages to send, in order.
pub fn handle_message(
    message: Message,
    now: u128,
    chain: &mut Blockchain,
    pool: &mut Mempool,
) -> (actions: Vec<Action>)
    requires
        old(chain).wf(),
        old(pool).wf(),
    ensures
        final(chain).wf(),
        final(pool).wf(),
        (final(chain)@, final(pool)@, action_views(actions@)) == respond(
            old(chain)@,
            old(pool)@,
            message@,
            now,
        ),
        old(chain)@.pow_sound() ==> final(chain)@.pow_sound(),
{
    proof {
        chain.lemma_view_wf();
        if chain@.pow_sound() {
            crate::network::soundness::lemma_respond_sound(chain@, pool@, message@, now);
        }
    }
    let mut actions: Vec<Action> = Vec::new();
    match message {
        Message::Ping(nonce) => {
            actions.push(Action::Reply(handle_ping(nonce)));
            proof {
                assert(action_views(actions@) =~= seq![
                    ActionView::Reply(MessageView::Pong(decimal(nonce as nat))),
                ]);
            }
        },
        Message::Pong(_) => {
            proof {
                assert(action_views(actions@) =~= Seq::<ActionView>::empty());
            }
        },
        Message::NewBlockHashes(hashes) => {
            let reply = handle_new_block_hashes(chain, &hashes);
            push_reply(&mut actions, reply);
        },
        Message::GetBlocks(hashes) => {
            let reply = handle_get_blocks(chain, &hashes);
            push_reply(&mut actions, reply);
        },
        Message::Blocks(blocks) => {
            actions = handle_blocks(chain, &blocks, now);
        },
        Message::NewTransactionHashes(hashes) => {
            let reply = handle_new_transaction_hashes(pool, &hashes);
            push_reply(&mut actions, reply);
        },
        Message::GetTransactions(hashes) => {
            let reply = handle_get_transactions(pool, &hashes);
            push_reply(&mut actions, reply);
        },
        Message::Transactions(transactions) => {
            let announce = handle_transactions(chain, pool, transactions);
            match announce {
                Some(message) => {
                    proof {
                        assert(action_views(seq![Action::Broadcast(message)]) =~= seq![
                            ActionView::Broadcast(message@),
                        ]);
                    }
                    actions.push(Action::Broadcast(message));
                },
                None => {
                    proof {
                        assert(action_views(actions@) =~= Seq::<ActionView>::empty());
                    }
                },
            }
        },
    }
    actions
}

/// Puts a reply on an empty list of actions, if there is one.
fn push_reply(actions: &mut Vec<Action>, reply: Option<Message>)
    requires
        old(actions)@.len() == 0,
    ensures
        action_views(final(actions)@) == match reply {
            Some(message) => seq![ActionView::Reply(message@)],
            None => Seq::<ActionView>::empty(),
        },
{
    match reply {
        Some(message) => {
            actions.push(Action::Reply(message));
            proof {
                assert(action_views(actions@) =~= seq![ActionView::Reply(message@)]);
            }
        },
        None => {
            proof {
                assert(action_views(actions@) =~= Seq::<ActionView>::empty());
            }
        },
    }
}

} // verus!
