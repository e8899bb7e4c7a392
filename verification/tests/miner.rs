use bitcoin::address::H160;
use bitcoin::block::default_difficulty;
use bitcoin::blockchain::{BlockOrigin, Blockchain};
use bitcoin::crypto::hash::H256;
use bitcoin::crypto::key_pair::KeyPair;
use bitcoin::crypto::merkle::merkle_root;
use bitcoin::mempool::Mempool;
use bitcoin::miner::{
    assemble_content, mine_with_nonce, ControlSignal, Miner, MinerStep, OperatingState,
    MAX_BLOCK_TRANSACTIONS,
};
use bitcoin::network::message::Message;
use bitcoin::transaction::{SignedTransaction, Transaction, TransactionInput, TransactionOutput};
use bitcoin::transaction_generator::{generate_transaction, spendable};

fn payment(value: u64) -> SignedTransaction {
    let key = KeyPair::from_seed([21u8; 32]);
    let output =
        TransactionOutput { recipient: H160::from_pubkey(&key.public_key()), value };
    SignedTransaction::from_raw(Transaction::new(vec![], vec![output]).unwrap(), &key)
}

#[test]
fn mempool_is_first_in_first_out_and_takes_each_hash_once() {
    let mut pool = Mempool::new();
    assert_eq!(pool.len(), 0);
    assert!(pool.pop().is_none());
    let (a, b) = (payment(1), payment(2));
    pool.insert(a.clone());
    pool.insert(b.clone());
    pool.insert(a.clone());
    assert_eq!(pool.len(), 2);
    assert!(pool.contains(&a.hash()));
    assert_eq!(pool.get_transaction(&b.hash()).unwrap().hash(), b.hash());
    assert!(pool.get_transaction(&payment(3).hash()).is_none());
    assert_eq!(pool.pop().unwrap().hash(), a.hash());
    assert!(!pool.contains(&a.hash()));
    assert_eq!(pool.pop().unwrap().hash(), b.hash());
    assert!(pool.pop().is_none());
}

#[test]
fn content_starts_with_the_empty_transaction() {
    let mut pool = Mempool::new();
    for value in 0..3 {
        pool.insert(payment(value));
    }
    let content = assemble_content(&mut pool);
    assert_eq!(content.len(), 4);
    assert_eq!(content[0].hash(), SignedTransaction::default().hash());
    for value in 0..3u64 {
        assert_eq!(content[value as usize + 1].hash(), payment(value).hash());
    }
    assert_eq!(pool.len(), 0);
    assert_eq!(assemble_content(&mut pool).len(), 1);
}

#[test]
fn content_is_bounded() {
    let mut pool = Mempool::new();
    for value in 0..25 {
        pool.insert(payment(value));
    }
    let content = assemble_content(&mut pool);
    assert_eq!(MAX_BLOCK_TRANSACTIONS, 20);
    assert_eq!(content.len(), 20);
    assert_eq!(content[19].hash(), payment(18).hash());
    assert_eq!(pool.len(), 6);
    assert_eq!(pool.pop().unwrap().hash(), payment(19).hash());
}

#[test]
fn mining_inserts_a_block_that_meets_the_difficulty() {
    let mut chain = Blockchain::new();
    let mut pool = Mempool::new();
    pool.insert(payment(1));
    let genesis = chain.tip();
    let mut failures = 0;
    let mut nonce = 0u32;
    let hash = loop {
        match mine_with_nonce(&mut chain, &mut pool, 77, nonce) {
            Some(hash) => break hash,
            None => {
                failures += 1;
                assert_eq!(chain.block_count(), 1);
                assert_eq!(chain.tip(), genesis);
                assert_eq!(chain.origin_count(), 0);
            }
        }
        nonce += 1;
        assert!(nonce < 100_000);
    };
    assert!(hash.le(&default_difficulty()));
    assert_eq!(chain.tip(), hash);
    assert_eq!(chain.block_count(), 2);
    assert_eq!(chain.origin_at(0), BlockOrigin::Mined);
    assert!(chain.block_delays_ms().is_empty());
    let block = chain.get_block(&hash);
    assert_eq!(block.header.parent, genesis);
    assert_eq!(block.header.nonce, nonce);
    assert_eq!(block.header.timestamp, 77);
    assert_eq!(block.header.difficulty, default_difficulty());
    let hashes: Vec<H256> = block.content.transactions.iter().map(|t| t.hash()).collect();
    assert_eq!(block.header.merkle_root, merkle_root(&hashes));
    assert_eq!(hashes[0], SignedTransaction::default().hash());
    if failures == 0 {
        assert_eq!(hashes.len(), 2);
    } else {
        assert_eq!(hashes.len(), 1);
    }
    assert_eq!(pool.len(), 0);
    assert!(chain.pow_validity_check(block));
}

#[test]
fn the_same_block_is_not_mined_twice() {
    let mut first = Blockchain::new();
    let mut nonce = 0u32;
    while mine_with_nonce(&mut first, &mut Mempool::new(), 5, nonce).is_none() {
        nonce += 1;
    }
    let mut second = Blockchain::new();
    let hash = mine_with_nonce(&mut second, &mut Mempool::new(), 5, nonce).unwrap();
    assert_eq!(first.tip(), hash);
    let block = second.get_block(&hash).clone();
    let mut third = Blockchain::new();
    third.insert(&block);
    assert!(mine_with_nonce(&mut third, &mut Mempool::new(), 5, nonce).is_none());
    assert_eq!(third.block_count(), 2);
    assert_eq!(third.origin_count(), 0);
}

#[test]
fn miner_follows_its_signals() {
    let mut miner = Miner::new();
    assert_eq!(miner.operating_state, OperatingState::Paused);
    assert_eq!(miner.next_step(), MinerStep::AwaitSignal);
    assert_eq!(miner.start_time, None);
    miner.handle_control_signal(ControlSignal::Start(250), 1000);
    assert_eq!(miner.operating_state, OperatingState::Run(250));
    assert_eq!(miner.next_step(), MinerStep::Attempt(250));
    assert_eq!(miner.start_time, Some(1000));
    miner.handle_control_signal(ControlSignal::Start(0), 2000);
    assert_eq!(miner.next_step(), MinerStep::Attempt(0));
    assert_eq!(miner.start_time, Some(1000));
    miner.handle_control_signal(ControlSignal::Exit, 3000);
    assert_eq!(miner.operating_state, OperatingState::ShutDown);
    assert_eq!(miner.next_step(), MinerStep::Stop);
    assert_eq!(miner.start_time, Some(1000));
    assert_eq!(miner.total_blocks_mined, 0);
}

#[test]
fn miner_counts_and_announces_what_it_mines() {
    let mut miner = Miner::new();
    assert!(miner.announce(None).is_none());
    assert_eq!(miner.total_blocks_mined, 0);
    let hash = H256::digest(b"mined");
    let message = miner.announce(Some(hash)).unwrap();
    assert!(matches!(message, Message::NewBlockHashes(h) if h == vec![hash]));
    assert_eq!(miner.total_blocks_mined, 1);
    miner.total_blocks_mined = u64::MAX;
    assert!(miner.announce(Some(hash)).is_some());
    assert_eq!(miner.total_blocks_mined, u64::MAX);
}

#[test]
fn miner_mines_with_random_nonces() {
    let mut miner = Miner::new();
    let mut chain = Blockchain::new();
    let mut pool = Mempool::new();
    let mut attempts = 0;
    let message = loop {
        attempts += 1;
        assert!(attempts < 100_000);
        if let Some(message) = miner.mine(&mut chain, &mut pool, 123) {
            break message;
        }
        assert_eq!(chain.block_count(), 1);
    };
    assert!(matches!(message, Message::NewBlockHashes(h) if h == vec![chain.tip()]));
    assert_eq!(miner.total_blocks_mined, 1);
    assert_eq!(chain.block_count(), 2);
    assert_eq!(chain.get_block(&chain.tip()).header.timestamp, 123);
}

#[test]
fn generator_respends_what_the_owner_holds() {
    let owner = KeyPair::from_seed([31u8; 32]);
    let address = H160::from_pubkey(&owner.public_key());
    let other = H160::from_pubkey(b"other");
    let mut chain = Blockchain::new();
    let mint = Transaction::new(
        vec![],
        vec![
            TransactionOutput { recipient: address, value: 1 },
            TransactionOutput { recipient: other, value: 2 },
            TransactionOutput { recipient: address, value: 3 },
        ],
    )
    .unwrap();
    let source = mint.hash();
    let block = bitcoin::block::Block {
        header: bitcoin::block::Header {
            parent: chain.tip(),
            nonce: 0,
            difficulty: default_difficulty(),
            timestamp: 0,
            merkle_root: H256::zero(),
        },
        content: bitcoin::block::Content {
            transactions: vec![SignedTransaction::from_raw(mint, &owner)],
        },
    };
    chain.insert(&block);
    let state = chain.get_state(&chain.tip());
    let (inputs, outputs) = spendable(state, &address);
    assert_eq!(
        inputs,
        vec![
            TransactionInput { output_index: 0, source_tx: source },
            TransactionInput { output_index: 2, source_tx: source },
        ]
    );
    assert_eq!(outputs.iter().map(|o| o.value).collect::<Vec<_>>(), vec![1, 3]);
    assert!(outputs.iter().all(|o| o.recipient == address));

    let signer = KeyPair::from_seed([32u8; 32]);
    let mut pool = Mempool::new();
    let announce = generate_transaction(state, &mut pool, &address, &signer).unwrap();
    let hashes = match announce {
        Message::NewTransactionHashes(h) => h,
        _ => panic!("the transaction is announced by hash"),
    };
    assert_eq!(hashes.len(), 1);
    assert_eq!(pool.len(), 1);
    let made = pool.get_transaction(&hashes[0]).unwrap();
    assert_eq!(made.raw().inputs(), &inputs);
    assert_eq!(made.raw().outputs(), &outputs);
    assert_eq!(made.public_key(), &signer.public_key());
    assert!(made.verify_signature());

    let (none_in, none_out) = spendable(state, &H160::from_pubkey(b"nobody"));
    assert!(none_in.is_empty() && none_out.is_empty());
}
