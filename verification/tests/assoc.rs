use bitcoin::assoc::{AssocList, Key};
use bitcoin::crypto::hash::H256;
use bitcoin::state::State;
use bitcoin::transaction::{TransactionInput, TransactionOutput};
use bitcoin::address::H160;

fn key(n: u128) -> H256 {
    H256 { hi: n, lo: !n }
}

#[test]
fn keys_compare_by_value() {
    assert!(key(1).same(&key(1)));
    assert!(!key(1).same(&key(2)));
    assert!(!H256 { hi: 1, lo: 2 }.same(&H256 { hi: 1, lo: 3 }));
    let a = TransactionInput { output_index: 1, source_tx: key(5) };
    assert!(a.same(&TransactionInput { output_index: 1, source_tx: key(5) }));
    assert!(!a.same(&TransactionInput { output_index: 2, source_tx: key(5) }));
    assert!(!a.same(&TransactionInput { output_index: 1, source_tx: key(6) }));
}

#[test]
fn list_keeps_insertion_order_and_one_value_per_key() {
    let mut list: AssocList<H256, u32> = AssocList::new();
    assert_eq!(list.len(), 0);
    assert_eq!(list.find(&key(1)), None);
    list.insert(key(1), 10);
    list.insert(key(2), 20);
    list.insert(key(3), 30);
    list.insert(key(2), 21);
    assert_eq!(list.len(), 3);
    assert_eq!(list.find(&key(2)), Some(1));
    assert_eq!(list.get(&key(2)), Some(&21));
    assert_eq!(list.get(&key(4)), None);
    assert!(list.contains_key(&key(3)));
    assert!(!list.contains_key(&key(4)));
    assert_eq!(list.key_at(2), key(3));
    assert_eq!(*list.value_at(0), 10);
}

#[test]
fn list_removes_by_key_and_by_position() {
    let mut list: AssocList<H256, u32> = AssocList::new();
    for n in 1..=4u32 {
        list.insert(key(n as u128), n * 10);
    }
    assert_eq!(list.remove(&key(2)), Some(20));
    assert_eq!(list.remove(&key(2)), None);
    assert_eq!(list.len(), 3);
    assert_eq!(list.key_at(1), key(3));
    assert_eq!(list.remove_at(0), (key(1), 10));
    assert_eq!(list.key_at(0), key(3));
    assert_eq!(list.len(), 2);
}

#[test]
fn state_is_a_map_of_unspent_outputs() {
    let mut state = State::new();
    let a = TransactionInput { output_index: 0, source_tx: key(1) };
    let b = TransactionInput { output_index: 1, source_tx: key(1) };
    let out = |value: u64| TransactionOutput { recipient: H160 { hi: 1, lo: 2 }, value };
    state.insert(a, out(1));
    state.insert(b, out(2));
    state.insert(a, out(3));
    assert_eq!(state.len(), 2);
    assert_eq!(state.get(&a), Some(&out(3)));
    assert_eq!(state.entry_at(0), (a, out(3)));
    assert_eq!(state.entry_at(1), (b, out(2)));
    assert_eq!(state.remove(&a), Some(out(3)));
    assert!(!state.contains_key(&a));
    assert!(state.contains_key(&b));
    assert_eq!(state.len(), 1);
}
