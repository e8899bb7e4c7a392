use bitcoin::address::H160;
use bitcoin::block::{default_difficulty, Block, Content, Header};
use bitcoin::blockchain::{BlockOrigin, Blockchain};
use bitcoin::crypto::hash::H256;
use bitcoin::crypto::key_pair::KeyPair;
use bitcoin::mempool::Mempool;
use bitcoin::network::message::{Action, Message};
use bitcoin::network::worker::{
    check_inputs, check_transaction, decimal_string, delay_ms, handle_blocks, handle_get_blocks,
    handle_get_transactions, handle_message, handle_new_block_hashes,
    handle_new_transaction_hashes, handle_ping, handle_transactions,
};
use bitcoin::transaction::{
    SignedTransaction, Transaction, TransactionInput, TransactionOutput,
};

fn mined_on(parent: &H256, salt: u128) -> Block {
    let mut nonce = 0u32;
    loop {
        let block = Block {
            header: Header {
                parent: *parent,
                nonce,
                difficulty: default_difficulty(),
                timestamp: salt,
                merkle_root: H256::zero(),
            },
            content: Content { transactions: vec![SignedTransaction::default()] },
        };
        if block.hash().le(&default_difficulty()) {
            return block;
        }
        nonce += 1;
    }
}

fn unmined_on(parent: &H256, salt: u128) -> Block {
    let mut nonce = 0u32;
    loop {
        let block = Block {
            header: Header {
                parent: *parent,
                nonce,
                difficulty: default_difficulty(),
                timestamp: salt,
                merkle_root: H256::zero(),
            },
            content: Content { transactions: vec![] },
        };
        if !block.hash().le(&default_difficulty()) {
            return block;
        }
        nonce += 1;
    }
}

fn hashes_of(message: &Message) -> Vec<H256> {
    match message {
        Message::NewBlockHashes(h)
        | Message::GetBlocks(h)
        | Message::NewTransactionHashes(h)
        | Message::GetTransactions(h) => h.clone(),
        _ => panic!("the message carries no hashes"),
    }
}

fn block_hashes(message: &Message) -> Vec<H256> {
    match message {
        Message::Blocks(blocks) => blocks.iter().map(|b| b.hash()).collect(),
        _ => panic!("the message carries no blocks"),
    }
}

fn transaction_hashes(message: &Message) -> Vec<H256> {
    match message {
        Message::Transactions(txs) => txs.iter().map(|t| t.hash()).collect(),
        _ => panic!("the message carries no transactions"),
    }
}

#[test]
fn decimal_strings() {
    assert_eq!(decimal_string(0), "0");
    assert_eq!(decimal_string(7), "7");
    assert_eq!(decimal_string(10), "10");
    assert_eq!(decimal_string(1905), "1905");
    assert_eq!(decimal_string(u32::MAX), "4294967295");
}

#[test]
fn ping_is_answered_with_pong() {
    assert!(matches!(handle_ping(42), Message::Pong(text) if text == "42"));
    let mut chain = Blockchain::new();
    let mut pool = Mempool::new();
    let actions = handle_message(Message::Ping(123456), 0, &mut chain, &mut pool);
    assert_eq!(actions.len(), 1);
    assert!(matches!(&actions[0], Action::Reply(Message::Pong(text)) if text == "123456"));
}

#[test]
fn pong_is_only_observed() {
    let mut chain = Blockchain::new();
    let mut pool = Mempool::new();
    let actions = handle_message(Message::Pong("9".to_string()), 0, &mut chain, &mut pool);
    assert!(actions.is_empty());
    assert_eq!(chain.block_count(), 1);
    assert_eq!(pool.len(), 0);
}

#[test]
fn new_block_hashes_asks_for_the_unknown() {
    let mut chain = Blockchain::new();
    let genesis = chain.tip();
    let a = mined_on(&genesis, 1);
    chain.insert(&a);
    let x = H256::digest(b"x");
    let y = H256::digest(b"y");
    let reply = handle_new_block_hashes(&chain, &vec![x, a.hash(), y, genesis, x]).unwrap();
    assert!(matches!(reply, Message::GetBlocks(_)));
    assert_eq!(hashes_of(&reply), vec![x, y, x]);
    assert!(handle_new_block_hashes(&chain, &vec![a.hash(), genesis]).is_none());
    assert!(handle_new_block_hashes(&chain, &vec![]).is_none());
    let mut pool = Mempool::new();
    let actions = handle_message(Message::NewBlockHashes(vec![x]), 0, &mut chain, &mut pool);
    assert_eq!(actions.len(), 1);
    assert!(matches!(&actions[0], Action::Reply(Message::GetBlocks(h)) if h == &vec![x]));
}

#[test]
fn get_blocks_sends_the_known() {
    let mut chain = Blockchain::new();
    let genesis = chain.tip();
    let a = mined_on(&genesis, 1);
    chain.insert(&a);
    let x = H256::digest(b"x");
    let reply = handle_get_blocks(&chain, &vec![x, a.hash(), genesis, a.hash()]).unwrap();
    assert_eq!(block_hashes(&reply), vec![a.hash(), genesis, a.hash()]);
    assert!(handle_get_blocks(&chain, &vec![x]).is_none());
    let mut pool = Mempool::new();
    let actions = handle_message(Message::GetBlocks(vec![x]), 0, &mut chain, &mut pool);
    assert!(actions.is_empty());
    let actions = handle_message(Message::GetBlocks(vec![genesis]), 0, &mut chain, &mut pool);
    assert!(matches!(&actions[0], Action::Reply(Message::Blocks(b)) if b.len() == 1));
}

#[test]
fn delay_is_time_since_the_stamp() {
    assert_eq!(delay_ms(1500, 1000), 500);
    assert_eq!(delay_ms(1000, 1000), 0);
    assert_eq!(delay_ms(1000, 1500), 0);
}

#[test]
fn blocks_are_inserted_forwarded_and_relayed() {
    let mut chain = Blockchain::new();
    let genesis = chain.tip();
    let a = mined_on(&genesis, 100);
    let b = mined_on(&a.hash(), 200);
    let actions = handle_blocks(&mut chain, &vec![a.clone(), b.clone()], 1000);
    assert_eq!(actions.len(), 3);
    assert!(matches!(&actions[0], Action::Reply(Message::Transactions(t)) if t.len() == 1));
    assert!(matches!(&actions[1], Action::Reply(Message::Transactions(t)) if t.len() == 1));
    match &actions[2] {
        Action::Broadcast(m) => assert_eq!(hashes_of(m), vec![a.hash(), b.hash()]),
        _ => panic!("the last action is a broadcast"),
    }
    assert_eq!(chain.tip(), b.hash());
    assert_eq!(chain.block_delays_ms(), vec![800, 900]);
    assert_eq!(chain.origin_at(0), BlockOrigin::Received { delay_ms: 900 });
}

#[test]
fn known_blocks_are_skipped_and_delay_is_recorded_once() {
    let mut chain = Blockchain::new();
    let genesis = chain.tip();
    let a = mined_on(&genesis, 100);
    let first = handle_blocks(&mut chain, &vec![a.clone()], 1000);
    assert_eq!(first.len(), 2);
    let second = handle_blocks(&mut chain, &vec![a.clone(), a.clone()], 5000);
    assert!(second.is_empty());
    assert_eq!(chain.block_count(), 2);
    assert_eq!(chain.block_delays_ms(), vec![900]);
}

#[test]
fn blocks_without_proof_of_work_are_dropped() {
    let mut chain = Blockchain::new();
    let genesis = chain.tip();
    let bad = unmined_on(&genesis, 1);
    let mut easier = unmined_on(&genesis, 2);
    easier.header.difficulty = H256 { hi: u128::MAX, lo: u128::MAX };
    let orphan_bad = unmined_on(&H256::digest(b"unknown"), 3);
    let actions = handle_blocks(
        &mut chain,
        &vec![bad.clone(), easier.clone(), orphan_bad.clone()],
        10,
    );
    assert!(actions.is_empty());
    assert_eq!(chain.block_count(), 1);
    assert_eq!(chain.orphan_count(), 0);
    assert!(!chain.contains_block(&bad.hash()));
    assert!(!chain.contains_block(&easier.hash()));
    assert_eq!(chain.tip(), genesis);
    assert_eq!(chain.origin_count(), 3);
}

#[test]
fn orphans_are_buffered_and_their_parents_requested() {
    let mut chain = Blockchain::new();
    let genesis = chain.tip();
    let a = mined_on(&genesis, 1);
    let b = mined_on(&a.hash(), 2);
    let c = mined_on(&b.hash(), 3);
    let actions = handle_blocks(&mut chain, &vec![c.clone(), b.clone()], 10);
    assert_eq!(actions.len(), 1);
    match &actions[0] {
        Action::Reply(m) => {
            assert!(matches!(m, Message::GetBlocks(_)));
            assert_eq!(hashes_of(m), vec![b.hash(), a.hash()]);
        }
        _ => panic!("the request goes to the sender"),
    }
    assert_eq!(chain.orphan_count(), 2);
    assert_eq!(chain.tip(), genesis);

    let actions = handle_blocks(&mut chain, &vec![a.clone()], 10);
    assert_eq!(actions.len(), 2);
    assert!(matches!(&actions[0], Action::Reply(Message::Transactions(_))));
    match &actions[1] {
        Action::Broadcast(m) => {
            assert!(matches!(m, Message::NewBlockHashes(_)));
            assert_eq!(hashes_of(m), vec![a.hash(), b.hash(), c.hash()]);
        }
        _ => panic!("acceptance is announced to all"),
    }
    assert_eq!(chain.tip(), c.hash());
    assert_eq!(chain.height_of(&c.hash()), 3);
    assert_eq!(chain.orphan_count(), 0);
}

#[test]
fn a_parent_later_in_the_list_unlocks_the_orphan() {
    let mut chain = Blockchain::new();
    let genesis = chain.tip();
    let a = mined_on(&genesis, 1);
    let b = mined_on(&a.hash(), 2);
    let mut pool = Mempool::new();
    let actions = handle_message(
        Message::Blocks(vec![b.clone(), a.clone()]),
        10,
        &mut chain,
        &mut pool,
    );
    assert_eq!(actions.len(), 3);
    assert!(matches!(&actions[0], Action::Reply(Message::Transactions(_))));
    assert!(matches!(&actions[1], Action::Reply(Message::GetBlocks(h)) if h == &vec![a.hash()]));
    assert!(
        matches!(&actions[2], Action::Broadcast(Message::NewBlockHashes(h)) if h == &vec![a.hash(), b.hash()])
    );
    assert_eq!(chain.tip(), b.hash());
}

fn exchange(from: &mut Blockchain, to: &mut Blockchain, announced: Vec<H256>) -> usize {
    let mut pool = Mempool::new();
    let mut rounds = 0;
    let mut inbox = vec![Message::NewBlockHashes(announced)];
    while let Some(message) = inbox.pop() {
        rounds += 1;
        assert!(rounds < 100);
        let requests: Vec<Message> = handle_message(message, 0, to, &mut pool)
            .into_iter()
            .filter_map(|action| match action {
                Action::Reply(m @ Message::GetBlocks(_)) => Some(m),
                _ => None,
            })
            .collect();
        for request in requests {
            for action in handle_message(request, 0, from, &mut pool) {
                if let Action::Reply(m @ Message::Blocks(_)) = action {
                    inbox.push(m);
                }
            }
        }
    }
    rounds
}

#[test]
fn isolated_ledgers_converge_by_gossip() {
    let genesis = Blockchain::new().tip();
    let a1 = mined_on(&genesis, 1);
    let a2 = mined_on(&a1.hash(), 2);
    let a3 = mined_on(&a2.hash(), 3);
    let b1 = mined_on(&genesis, 11);
    let b2 = mined_on(&b1.hash(), 12);
    let mut left = Blockchain::new();
    let mut right = Blockchain::new();
    for b in [&a1, &a2, &a3] {
        left.insert(b);
    }
    for b in [&b1, &b2] {
        right.insert(b);
    }
    let rounds = exchange(&mut left, &mut right, vec![a3.hash()]);
    assert!(rounds <= 4);
    let rounds = exchange(&mut right, &mut left, vec![b2.hash()]);
    assert!(rounds <= 3);
    assert_eq!(left.tip(), a3.hash());
    assert_eq!(right.tip(), a3.hash());
    assert_eq!(left.block_count(), 6);
    assert_eq!(right.block_count(), 6);
    for b in [&a1, &a2, &a3, &b1, &b2] {
        assert!(left.contains_block(&b.hash()));
        assert!(right.contains_block(&b.hash()));
    }
    assert_eq!(right.orphan_count(), 0);
    assert_eq!(left.all_blocks_in_longest_chain(), right.all_blocks_in_longest_chain());
}

#[test]
fn announcing_every_block_brings_every_block() {
    let genesis = Blockchain::new().tip();
    let a1 = mined_on(&genesis, 1);
    let a2 = mined_on(&a1.hash(), 2);
    let mut left = Blockchain::new();
    left.insert(&a1);
    left.insert(&a2);
    let mut right = Blockchain::new();
    let rounds = exchange(&mut left, &mut right, vec![a2.hash(), genesis, a1.hash()]);
    assert_eq!(rounds, 3);
    assert_eq!(right.tip(), a2.hash());
    assert_eq!(right.block_count(), 3);
    assert_eq!(right.orphan_count(), 0);
}

fn pay(to: &H160, value: u64) -> TransactionOutput {
    TransactionOutput { recipient: *to, value }
}

fn funded_chain(owner: &KeyPair) -> (Blockchain, TransactionInput, TransactionInput) {
    let mut chain = Blockchain::new();
    let address = H160::from_pubkey(&owner.public_key());
    let other = H160::from_pubkey(b"someone else");
    let mint = Transaction::new(vec![], vec![pay(&address, 5), pay(&other, 6)]).unwrap();
    let hash = mint.hash();
    let block = Block {
        header: Header {
            parent: chain.tip(),
            nonce: 0,
            difficulty: default_difficulty(),
            timestamp: 0,
            merkle_root: H256::zero(),
        },
        content: Content { transactions: vec![SignedTransaction::from_raw(mint, owner)] },
    };
    chain.insert(&block);
    (
        chain,
        TransactionInput { output_index: 0, source_tx: hash },
        TransactionInput { output_index: 1, source_tx: hash },
    )
}

#[test]
fn only_checked_transactions_enter_the_pool() {
    let owner = KeyPair::from_seed([11u8; 32]);
    let (chain, own, foreign) = funded_chain(&owner);
    let address = H160::from_pubkey(&owner.public_key());
    let spend = |inputs: Vec<TransactionInput>, value: u64| {
        Transaction::new(inputs, vec![pay(&address, value)]).unwrap()
    };

    let good = SignedTransaction::from_raw(spend(vec![own], 1), &owner);
    let no_inputs = SignedTransaction::from_raw(spend(vec![], 2), &owner);
    let mut bad_signature = SignedTransaction::from_raw(spend(vec![own], 3), &owner).signature().clone();
    bad_signature[0] ^= 0xff;
    let forged =
        SignedTransaction::new(spend(vec![own], 3), owner.public_key(), bad_signature).unwrap();
    let absent = TransactionInput { output_index: 9, source_tx: H256::digest(b"nothing") };
    let missing = SignedTransaction::from_raw(spend(vec![own, absent], 4), &owner);
    let theft = SignedTransaction::from_raw(spend(vec![own, foreign], 5), &owner);
    let stranger = KeyPair::from_seed([12u8; 32]);
    let wrong_key = SignedTransaction::from_raw(spend(vec![own], 6), &stranger);

    let state = chain.get_state(&chain.tip());
    assert!(check_transaction(state, &good));
    assert!(check_transaction(state, &no_inputs));
    assert!(!check_transaction(state, &forged));
    assert!(check_inputs(state, &forged));
    assert!(!check_transaction(state, &missing));
    assert!(!check_inputs(state, &missing));
    assert!(!check_transaction(state, &theft));
    assert!(!check_transaction(state, &wrong_key));
    assert!(wrong_key.verify_signature());

    let mut pool = Mempool::new();
    let announce = handle_transactions(
        &chain,
        &mut pool,
        vec![
            forged.clone(),
            good.clone(),
            missing.clone(),
            theft.clone(),
            no_inputs.clone(),
            wrong_key.clone(),
            good.clone(),
        ],
    )
    .unwrap();
    assert!(matches!(announce, Message::NewTransactionHashes(_)));
    assert_eq!(hashes_of(&announce), vec![good.hash(), no_inputs.hash(), good.hash()]);
    assert_eq!(pool.len(), 2);
    assert!(pool.contains(&good.hash()));
    assert!(pool.contains(&no_inputs.hash()));
    assert!(!pool.contains(&forged.hash()));
    assert!(!pool.contains(&missing.hash()));
    assert!(!pool.contains(&theft.hash()));
    assert!(!pool.contains(&wrong_key.hash()));

    let none = handle_transactions(&chain, &mut pool, vec![forged, missing, theft]);
    assert!(none.is_none());
    assert_eq!(pool.len(), 2);
}

#[test]
fn transactions_message_broadcasts_the_accepted() {
    let owner = KeyPair::from_seed([11u8; 32]);
    let (mut chain, own, _) = funded_chain(&owner);
    let address = H160::from_pubkey(&owner.public_key());
    let good = SignedTransaction::from_raw(
        Transaction::new(vec![own], vec![pay(&address, 1)]).unwrap(),
        &owner,
    );
    let mut pool = Mempool::new();
    let actions = handle_message(
        Message::Transactions(vec![good.clone(), SignedTransaction::default()]),
        0,
        &mut chain,
        &mut pool,
    );
    assert_eq!(actions.len(), 1);
    assert!(
        matches!(&actions[0], Action::Broadcast(Message::NewTransactionHashes(h)) if h == &vec![good.hash()])
    );
    let actions = handle_message(
        Message::Transactions(vec![SignedTransaction::default()]),
        0,
        &mut chain,
        &mut pool,
    );
    assert!(actions.is_empty());
}

#[test]
fn transaction_hashes_are_requested_and_served_from_the_pool() {
    let key = KeyPair::from_seed([13u8; 32]);
    let tx = |value: u64| {
        let address = H160::from_pubkey(&key.public_key());
        SignedTransaction::from_raw(
            Transaction::new(vec![], vec![pay(&address, value)]).unwrap(),
            &key,
        )
    };
    let mut pool = Mempool::new();
    let (one, two, three) = (tx(1), tx(2), tx(3));
    pool.insert(one.clone());
    pool.insert(two.clone());
    let wanted = vec![three.hash(), one.hash(), three.hash()];
    let reply = handle_new_transaction_hashes(&pool, &wanted).unwrap();
    assert!(matches!(reply, Message::GetTransactions(_)));
    assert_eq!(hashes_of(&reply), vec![three.hash(), three.hash()]);
    assert!(handle_new_transaction_hashes(&pool, &vec![one.hash(), two.hash()]).is_none());

    let served = handle_get_transactions(&pool, &vec![two.hash(), three.hash(), one.hash()]).unwrap();
    assert_eq!(transaction_hashes(&served), vec![two.hash(), one.hash()]);
    assert!(handle_get_transactions(&pool, &vec![three.hash()]).is_none());

    let mut chain = Blockchain::new();
    let actions = handle_message(
        Message::NewTransactionHashes(vec![three.hash()]),
        0,
        &mut chain,
        &mut pool,
    );
    assert!(
        matches!(&actions[0], Action::Reply(Message::GetTransactions(h)) if h == &vec![three.hash()])
    );
    let actions =
        handle_message(Message::GetTransactions(vec![one.hash()]), 0, &mut chain, &mut pool);
    assert!(matches!(&actions[0], Action::Reply(Message::Transactions(t)) if t.len() == 1));
    assert_eq!(pool.len(), 2);
}

struct Node {
    chain: Blockchain,
    pool: Mempool,
}

fn run_network(nodes: &mut Vec<Node>, first: Vec<(usize, usize, Message)>) -> usize {
    let mut queue: std::collections::VecDeque<(usize, usize, Message)> = first.into();
    let mut delivered = 0;
    while let Some((from, to, message)) = queue.pop_front() {
        delivered += 1;
        assert!(delivered < 1000);
        let node = &mut nodes[to];
        let actions = handle_message(message, 50, &mut node.chain, &mut node.pool);
        for action in actions {
            match action {
                Action::Reply(reply) => queue.push_back((to, from, reply)),
                Action::Broadcast(Message::NewBlockHashes(h)) => {
                    for peer in 0..nodes.len() {
                        if peer != to {
                            queue.push_back((to, peer, Message::NewBlockHashes(h.clone())));
                        }
                    }
                }
                Action::Broadcast(Message::NewTransactionHashes(h)) => {
                    for peer in 0..nodes.len() {
                        if peer != to {
                            queue.push_back((to, peer, Message::NewTransactionHashes(h.clone())));
                        }
                    }
                }
                Action::Broadcast(_) => panic!("only hashes are announced to all"),
            }
        }
    }
    delivered
}

#[test]
fn three_nodes_settle_on_the_longest_chain() {
    let genesis = Blockchain::new().tip();
    let a1 = mined_on(&genesis, 1);
    let a2 = mined_on(&a1.hash(), 2);
    let a3 = mined_on(&a2.hash(), 3);
    let b1 = mined_on(&genesis, 11);
    let mut nodes: Vec<Node> = (0..3)
        .map(|_| Node { chain: Blockchain::new(), pool: Mempool::new() })
        .collect();
    for b in [&a1, &a2, &a3] {
        nodes[0].chain.insert(b);
    }
    nodes[1].chain.insert(&b1);
    let delivered = run_network(
        &mut nodes,
        vec![
            (0, 1, Message::NewBlockHashes(vec![a3.hash()])),
            (0, 2, Message::NewBlockHashes(vec![a3.hash()])),
            (1, 0, Message::NewBlockHashes(vec![b1.hash()])),
            (1, 2, Message::NewBlockHashes(vec![b1.hash()])),
        ],
    );
    assert!(delivered > 4);
    for node in &nodes {
        assert_eq!(node.chain.tip(), a3.hash());
        assert_eq!(node.chain.block_count(), 5);
        assert_eq!(node.chain.orphan_count(), 0);
        assert_eq!(
            node.chain.all_blocks_in_longest_chain(),
            vec![genesis, a1.hash(), a2.hash(), a3.hash()]
        );
    }
}

#[test]
fn equal_chains_leave_each_node_on_its_own_tip() {
    let genesis = Blockchain::new().tip();
    let x = mined_on(&genesis, 1);
    let y = mined_on(&genesis, 2);
    let mut nodes: Vec<Node> = (0..2)
        .map(|_| Node { chain: Blockchain::new(), pool: Mempool::new() })
        .collect();
    nodes[0].chain.insert(&x);
    nodes[1].chain.insert(&y);
    run_network(
        &mut nodes,
        vec![
            (0, 1, Message::NewBlockHashes(vec![x.hash()])),
            (1, 0, Message::NewBlockHashes(vec![y.hash()])),
        ],
    );
    assert_eq!(nodes[0].chain.block_count(), 3);
    assert_eq!(nodes[1].chain.block_count(), 3);
    assert_eq!(nodes[0].chain.tip(), x.hash());
    assert_eq!(nodes[1].chain.tip(), y.hash());
}

#[test]
fn transactions_spread_to_every_pool() {
    let owner = KeyPair::from_seed([11u8; 32]);
    let address = H160::from_pubkey(&owner.public_key());
    let mut nodes: Vec<Node> = (0..3)
        .map(|_| {
            let (chain, _, _) = funded_chain(&owner);
            Node { chain, pool: Mempool::new() }
        })
        .collect();
    let (_, own, _) = funded_chain(&owner);
    let good = SignedTransaction::from_raw(
        Transaction::new(vec![own], vec![pay(&address, 1)]).unwrap(),
        &owner,
    );
    let stranger = KeyPair::from_seed([12u8; 32]);
    let theft = SignedTransaction::from_raw(
        Transaction::new(vec![own], vec![pay(&address, 2)]).unwrap(),
        &stranger,
    );
    let delivered = run_network(
        &mut nodes,
        vec![(1, 0, Message::Transactions(vec![good.clone(), theft.clone()]))],
    );
    assert!(delivered >= 7);
    for node in &nodes {
        assert_eq!(node.pool.len(), 1);
        assert!(node.pool.contains(&good.hash()));
        assert!(!node.pool.contains(&theft.hash()));
    }
}
