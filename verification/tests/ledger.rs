use bitcoin::address::H160;
use bitcoin::block::{default_difficulty, Block, Content, Header};
use bitcoin::blockchain::{BlockOrigin, Blockchain};
use bitcoin::crypto::hash::H256;
use bitcoin::crypto::key_pair::KeyPair;
use bitcoin::crypto::merkle::merkle_root;
use bitcoin::state::State;
use bitcoin::transaction::{
    SignedTransaction, Transaction, TransactionInput, TransactionOutput,
};

fn generate_random_block(parent: &H256) -> Block {
    let transactions: Vec<SignedTransaction> = vec![Default::default()];
    let hashes: Vec<H256> = transactions.iter().map(|t| t.hash()).collect();
    let root = merkle_root(&hashes);
    let header = Header {
        parent: *parent,
        nonce: rand::random(),
        difficulty: default_difficulty(),
        timestamp: rand::random(),
        merkle_root: root,
    };
    let content = Content { transactions };
    Block { header, content }
}

fn block_on(parent: &H256, nonce: u32) -> Block {
    Block {
        header: Header {
            parent: *parent,
            nonce,
            difficulty: default_difficulty(),
            timestamp: 1000,
            merkle_root: H256::zero(),
        },
        content: Content { transactions: vec![] },
    }
}

fn block_with(parent: &H256, transactions: Vec<SignedTransaction>) -> Block {
    Block {
        header: Header {
            parent: *parent,
            nonce: 0,
            difficulty: default_difficulty(),
            timestamp: 5,
            merkle_root: H256::zero(),
        },
        content: Content { transactions },
    }
}

#[test]
fn insert_one() {
    let mut blockchain = Blockchain::new();
    let genesis_hash = blockchain.tip();
    let block = generate_random_block(&genesis_hash);
    blockchain.insert(&block);
    assert_eq!(blockchain.tip(), block.hash());
}

#[test]
fn new_ledger_holds_genesis_only() {
    let chain = Blockchain::new();
    let genesis = Block::genesis();
    assert_eq!(chain.tip(), genesis.hash());
    assert_eq!(chain.block_count(), 1);
    assert!(chain.contains_block(&genesis.hash()));
    assert_eq!(chain.height_of(&genesis.hash()), 0);
    assert_eq!(chain.get_state(&genesis.hash()).len(), 0);
    assert_eq!(chain.difficulty(), default_difficulty());
    assert_eq!(chain.get_block(&genesis.hash()).encode(), genesis.encode());
    assert_eq!(chain.all_blocks_in_longest_chain(), vec![genesis.hash()]);
    assert_eq!(chain.orphan_count(), 0);
    assert_eq!(chain.origin_count(), 0);
    assert!(chain.block_delays_ms().is_empty());
}

#[test]
fn insert_sets_height_and_tip() {
    let mut chain = Blockchain::new();
    let genesis = chain.tip();
    let a = block_on(&genesis, 1);
    let b = block_on(&a.hash(), 2);
    chain.insert(&a);
    assert_eq!(chain.height_of(&a.hash()), 1);
    chain.insert(&b);
    assert_eq!(chain.height_of(&b.hash()), 2);
    assert_eq!(chain.tip(), b.hash());
    assert_eq!(chain.block_count(), 3);
    assert!(chain.parent_check(&b));
    assert!(!chain.parent_check(&block_on(&H256::digest(b"nobody"), 0)));
    assert_eq!(
        chain.all_blocks_in_longest_chain(),
        vec![genesis, a.hash(), b.hash()]
    );
}

#[test]
fn taller_chain_wins_in_either_order() {
    let genesis = Blockchain::new().tip();
    let a1 = block_on(&genesis, 1);
    let a2 = block_on(&a1.hash(), 2);
    let a3 = block_on(&a2.hash(), 3);
    let b1 = block_on(&genesis, 11);
    let b2 = block_on(&b1.hash(), 12);

    let mut first = Blockchain::new();
    for b in [&a1, &a2, &a3, &b1, &b2] {
        first.insert(b);
    }
    let mut second = Blockchain::new();
    for b in [&b1, &b2, &a1, &a2, &a3] {
        second.insert(b);
    }
    let mut mixed = Blockchain::new();
    for b in [&b1, &a1, &b2, &a2, &a3] {
        mixed.insert(b);
    }
    assert_eq!(first.tip(), a3.hash());
    assert_eq!(second.tip(), a3.hash());
    assert_eq!(mixed.tip(), a3.hash());
    assert_eq!(second.all_blocks_in_longest_chain(), vec![genesis, a1.hash(), a2.hash(), a3.hash()]);
}

#[test]
fn equal_heights_keep_the_first_tip() {
    let genesis = Blockchain::new().tip();
    let a1 = block_on(&genesis, 1);
    let a2 = block_on(&a1.hash(), 2);
    let b1 = block_on(&genesis, 11);
    let b2 = block_on(&b1.hash(), 12);

    let mut first = Blockchain::new();
    for b in [&a1, &a2, &b1, &b2] {
        first.insert(b);
    }
    assert_eq!(first.tip(), a2.hash());
    let mut second = Blockchain::new();
    for b in [&b1, &b2, &a1, &a2] {
        second.insert(b);
    }
    assert_eq!(second.tip(), b2.hash());
    let mut third = Blockchain::new();
    third.insert(&a1);
    third.insert(&b1);
    assert_eq!(third.tip(), a1.hash());
}

#[test]
fn recursive_insert_is_idempotent() {
    let mut chain = Blockchain::new();
    let genesis = chain.tip();
    let a = block_on(&genesis, 1);
    let mut out = Vec::new();
    chain.insert_recursively(&a, &mut out);
    assert_eq!(out, vec![a.hash()]);
    let tip = chain.tip();
    let count = chain.block_count();
    chain.insert_recursively(&a, &mut out);
    assert_eq!(out, vec![a.hash()]);
    assert_eq!(chain.tip(), tip);
    assert_eq!(chain.block_count(), count);
    assert_eq!(chain.height_of(&a.hash()), 1);
    chain.insert_recursively(&Block::genesis(), &mut out);
    assert_eq!(out, vec![a.hash()]);
    assert_eq!(chain.block_count(), count);
}

#[test]
fn orphans_resolve_when_the_ancestor_arrives() {
    let mut chain = Blockchain::new();
    let genesis = chain.tip();
    let a = block_on(&genesis, 1);
    let b = block_on(&a.hash(), 2);
    let c = block_on(&b.hash(), 3);
    for block in [&c, &b] {
        assert!(!chain.contains_block(&block.hash()));
        assert!(!chain.parent_check(block));
        chain.add_to_orphan_buffer(block);
    }
    assert_eq!(chain.orphan_count(), 2);
    assert_eq!(chain.tip(), genesis);
    assert!(chain.parent_check(&a));
    let mut out = Vec::new();
    chain.insert_recursively(&a, &mut out);
    assert_eq!(out, vec![a.hash(), b.hash(), c.hash()]);
    assert_eq!(chain.tip(), c.hash());
    assert_eq!(chain.height_of(&c.hash()), 3);
    assert_eq!(chain.orphan_count(), 0);
    assert_eq!(chain.block_count(), 4);
}

#[test]
fn unlocked_orphans_come_depth_first_in_arrival_order() {
    let mut chain = Blockchain::new();
    let genesis = chain.tip();
    let a = block_on(&genesis, 1);
    let b1 = block_on(&a.hash(), 21);
    let b2 = block_on(&a.hash(), 22);
    let c1 = block_on(&b1.hash(), 31);
    let c2 = block_on(&b2.hash(), 32);
    let stray = block_on(&H256::digest(b"unknown"), 99);
    for block in [&c2, &b1, &stray, &c1, &b2, &b1] {
        chain.add_to_orphan_buffer(block);
    }
    let mut out = vec![H256::zero()];
    chain.insert_recursively(&a, &mut out);
    assert_eq!(
        out,
        vec![H256::zero(), a.hash(), b1.hash(), c1.hash(), b2.hash(), c2.hash()]
    );
    assert_eq!(chain.orphan_count(), 1);
    assert_eq!(chain.tip(), c1.hash());
    assert_eq!(chain.block_count(), 6);
}

fn pay(to: &H160, value: u64) -> TransactionOutput {
    TransactionOutput { recipient: *to, value }
}

#[test]
fn transaction_spends_inputs_and_creates_outputs() {
    let alice = H160::from_pubkey(b"alice");
    let bob = H160::from_pubkey(b"bob");
    let key = KeyPair::from_seed([1u8; 32]);
    let mut state = State::new();
    let source = H256::digest(b"earlier");
    let i1 = TransactionInput { output_index: 0, source_tx: source };
    let i2 = TransactionInput { output_index: 1, source_tx: source };
    let i3 = TransactionInput { output_index: 2, source_tx: source };
    state.insert(i1, pay(&alice, 10));
    state.insert(i2, pay(&alice, 20));
    state.insert(i3, pay(&bob, 30));
    assert_eq!(state.len(), 3);

    let raw = Transaction::new(
        vec![i1, i2],
        vec![pay(&bob, 1), pay(&bob, 2), pay(&alice, 3)],
    )
    .unwrap();
    let hash = raw.hash();
    let signed = SignedTransaction::from_raw(raw, &key);
    let mut chain = Blockchain::new();
    chain.process_one_transaction(&signed, &mut state);

    assert_eq!(state.len(), 4);
    assert!(!state.contains_key(&i1));
    assert!(!state.contains_key(&i2));
    assert_eq!(state.get(&i3), Some(&pay(&bob, 30)));
    for (index, output) in [pay(&bob, 1), pay(&bob, 2), pay(&alice, 3)].iter().enumerate() {
        let key = TransactionInput { output_index: index as u32, source_tx: hash };
        assert_eq!(state.get(&key), Some(output));
    }
    let beyond = TransactionInput { output_index: 3, source_tx: hash };
    assert_eq!(state.get(&beyond), None);
    assert_eq!(chain.block_count(), 1);
}

#[test]
fn state_follows_the_block() {
    let alice = H160::from_pubkey(b"alice");
    let key = KeyPair::from_seed([1u8; 32]);
    let mut chain = Blockchain::new();
    let genesis = chain.tip();
    let mint = Transaction::new(vec![], vec![pay(&alice, 7), pay(&alice, 8)]).unwrap();
    let mint_hash = mint.hash();
    let a = block_with(&genesis, vec![SignedTransaction::from_raw(mint, &key)]);
    chain.insert(&a);
    let first = TransactionInput { output_index: 0, source_tx: mint_hash };
    let second = TransactionInput { output_index: 1, source_tx: mint_hash };
    {
        let state = chain.get_state(&a.hash());
        assert_eq!(state.len(), 2);
        assert_eq!(state.get(&first), Some(&pay(&alice, 7)));
        assert_eq!(state.entry_at(1), (second, pay(&alice, 8)));
    }
    let spend = Transaction::new(vec![first], vec![pay(&alice, 7)]).unwrap();
    let spend_hash = spend.hash();
    let b = block_with(&a.hash(), vec![SignedTransaction::from_raw(spend, &key)]);
    chain.insert(&b);
    let state = chain.get_state(&b.hash());
    assert_eq!(state.len(), 2);
    assert!(!state.contains_key(&first));
    assert!(state.contains_key(&second));
    assert!(state.contains_key(&TransactionInput { output_index: 0, source_tx: spend_hash }));
    assert_eq!(chain.get_state(&a.hash()).len(), 2);
    assert_eq!(chain.get_state(&genesis).len(), 0);

    let mut scratch = State::new();
    chain.process_all_transactions(&b, &mut scratch);
    assert_eq!(scratch.len(), 1);
    let copy = chain.get_state(&b.hash()).clone();
    assert_eq!(copy.len(), 2);
    let mut copy = copy;
    assert_eq!(copy.remove(&second), Some(pay(&alice, 8)));
    assert_eq!(copy.remove(&second), None);
}

#[test]
fn pow_check_wants_small_hash_and_canonical_difficulty() {
    let chain = Blockchain::new();
    let genesis = chain.tip();
    let mut valid = None;
    let mut invalid = None;
    for nonce in 0..100_000u32 {
        let block = block_on(&genesis, nonce);
        if block.hash().le(&default_difficulty()) {
            valid.get_or_insert(block);
        } else {
            invalid.get_or_insert(block);
        }
        if valid.is_some() && invalid.is_some() {
            break;
        }
    }
    let valid = valid.unwrap();
    let invalid = invalid.unwrap();
    assert!(chain.pow_validity_check(&valid));
    assert!(!chain.pow_validity_check(&invalid));
    let mut easier = invalid.clone();
    easier.header.difficulty = H256 { hi: u128::MAX, lo: u128::MAX };
    assert!(easier.hash().le(&easier.header.difficulty));
    assert!(!chain.pow_validity_check(&easier));
}

#[test]
fn average_block_size_rounds_down() {
    let mut chain = Blockchain::new();
    assert_eq!(chain.average_block_size(), 124);
    let genesis = chain.tip();
    let a = block_with(&genesis, vec![SignedTransaction::default()]);
    assert_eq!(a.size(), 156);
    chain.insert(&a);
    assert_eq!(chain.average_block_size(), 140);
    let b = block_with(&a.hash(), vec![]);
    chain.insert(&b);
    assert_eq!(chain.average_block_size(), (124 + 156 + 124) / 3);
    assert_eq!(chain.block_at(1).hash(), a.hash());
}

#[test]
fn delays_come_sorted_and_mined_blocks_have_none() {
    let mut chain = Blockchain::new();
    let h = |s: &[u8]| H256::digest(s);
    chain.record_received(h(b"a"), 30);
    chain.record_received(h(b"b"), 10);
    chain.record_mined(h(b"c"));
    chain.record_received(h(b"d"), 20);
    chain.record_received(h(b"e"), 10);
    chain.record_received(h(b"a"), 5);
    assert_eq!(chain.block_delays_ms(), vec![10, 10, 20, 30]);
    assert_eq!(chain.origin_count(), 5);
    assert_eq!(chain.origin_at(0), BlockOrigin::Received { delay_ms: 30 });
    assert_eq!(chain.origin_at(2), BlockOrigin::Mined);
    chain.record_mined(h(b"b"));
    assert_eq!(chain.block_delays_ms(), vec![10, 20, 30]);
    chain.record_received(h(b"c"), 1);
    assert_eq!(chain.block_delays_ms(), vec![10, 20, 30]);
}
