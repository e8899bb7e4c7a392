use bitcoin::address::H160;
use bitcoin::block::default_difficulty;
use bitcoin::bytes::{read_be, write_be, write_le};
use bitcoin::crypto::hash::H256;
use bitcoin::crypto::key_pair::KeyPair;
use bitcoin::crypto::merkle::merkle_root;

fn hex(s: &str) -> Vec<u8> {
    (0..s.len() / 2).map(|i| u8::from_str_radix(&s[2 * i..2 * i + 2], 16).unwrap()).collect()
}

fn digest_of(hex_digest: &str) -> H256 {
    let bytes = hex(hex_digest);
    let mut array = [0u8; 32];
    array.copy_from_slice(&bytes);
    H256::from_bytes(&array)
}

#[test]
fn sha256_of_abc() {
    let expected = hex("ba7816bf8f01cfea414140de5dae2223b00361a396177a9cb410ff61f20015ad");
    assert_eq!(H256::digest(b"abc").to_bytes(), expected);
}

#[test]
fn sha256_of_nothing() {
    let expected = hex("e3b0c44298fc1c149afbf4c8996fb92427ae41e4649b934ca495991b7852b855");
    assert_eq!(H256::digest(b"").to_bytes(), expected);
}

#[test]
fn digest_is_held_most_significant_half_first() {
    let h = H256::digest(b"abc");
    assert_eq!(h.hi, 0xba7816bf8f01cfea414140de5dae2223);
    assert_eq!(h.lo, 0xb00361a396177a9cb410ff61f20015ad);
}

#[test]
fn digest_bytes_round_trip() {
    let mut bytes = [0u8; 32];
    for (i, b) in bytes.iter_mut().enumerate() {
        *b = (i * 7 + 3) as u8;
    }
    let h = H256::from_bytes(&bytes);
    assert_eq!(h.to_bytes(), bytes.to_vec());
    let back = H256 { hi: h.hi, lo: h.lo };
    assert_eq!(back, h);
}

#[test]
fn digest_from_bytes_is_big_endian() {
    let mut bytes = [0u8; 32];
    bytes[15] = 2;
    bytes[31] = 5;
    assert_eq!(H256::from_bytes(&bytes), H256 { hi: 2, lo: 5 });
    bytes[0] = 0x80;
    assert_eq!(H256::from_bytes(&bytes), H256 { hi: (0x80u128 << 120) + 2, lo: 5 });
}

#[test]
fn default_difficulty_is_one_then_zeros() {
    let mut bytes = [0u8; 32];
    bytes[0] = 1;
    assert_eq!(default_difficulty(), H256::from_bytes(&bytes));
    assert_eq!(default_difficulty().to_bytes(), bytes.to_vec());
}

#[test]
fn zero_and_default_digest_agree() {
    assert_eq!(H256::zero(), H256::default());
    assert_eq!(H256::zero().to_bytes(), vec![0u8; 32]);
}

#[test]
fn digest_order_is_numeric() {
    let small = H256 { hi: 1, lo: u128::MAX };
    let large = H256 { hi: 2, lo: 0 };
    assert!(small.le(&large));
    assert!(!large.le(&small));
    assert!(small.le(&small));
    assert!(H256 { hi: 2, lo: 3 }.le(&H256 { hi: 2, lo: 4 }));
    assert!(!H256 { hi: 2, lo: 5 }.le(&H256 { hi: 2, lo: 4 }));
}

#[test]
fn numbers_are_read_most_significant_byte_first() {
    let bytes = [1u8, 2, 3, 4, 5];
    assert_eq!(read_be(&bytes, 1, 4), 0x020304);
    assert_eq!(read_be(&bytes, 2, 2), 0);
    assert_eq!(read_be(&bytes, 0, 5), 0x0102030405);
    assert_eq!(read_be(&[0xff; 16], 0, 16), u128::MAX);
}

#[test]
fn numbers_are_written_in_either_byte_order() {
    let mut out = vec![9u8];
    write_le(&mut out, 0x01020304, 4);
    assert_eq!(out, vec![9, 4, 3, 2, 1]);
    write_be(&mut out, 0x01020304, 4);
    assert_eq!(out, vec![9, 4, 3, 2, 1, 1, 2, 3, 4]);
    let mut low = Vec::new();
    write_le(&mut low, 0x0102, 1);
    write_be(&mut low, 0x0102, 1);
    write_le(&mut low, 7, 0);
    assert_eq!(low, vec![2, 2]);
    let mut wide = Vec::new();
    write_be(&mut wide, 5, 3);
    write_le(&mut wide, u64::MAX as u128, 8);
    assert_eq!(wide, vec![0, 0, 5, 255, 255, 255, 255, 255, 255, 255, 255]);
    let mut all = Vec::new();
    write_be(&mut all, u128::MAX - 1, 16);
    assert_eq!(read_be(&all, 0, 16), u128::MAX - 1);
}

#[test]
fn address_is_tail_of_key_digest() {
    let key = b"some public key";
    let digest = H256::digest(key).to_bytes();
    let address = H160::from_pubkey(key);
    assert_eq!(address.to_bytes(), digest[12..32].to_vec());
    let mut tail = [0u8; 20];
    tail.copy_from_slice(&digest[12..32]);
    assert_eq!(H160::from_bytes(&tail), address);
}

#[test]
fn address_bytes_round_trip() {
    let mut bytes = [0u8; 20];
    for (i, b) in bytes.iter_mut().enumerate() {
        *b = (200 - i) as u8;
    }
    let a = H160::from_bytes(&bytes);
    assert_eq!(a.to_bytes(), bytes.to_vec());
    assert_eq!(a.hi, u32::from_be_bytes([200, 199, 198, 197]));
    assert_eq!(H160::default(), H160 { hi: 0, lo: 0 });
}

#[test]
fn ed25519_public_key_of_known_seed() {
    let seed = hex("9d61b19deffd5a60ba844af492ec2cc44449c5697b326919703bac031cae7f60");
    let mut array = [0u8; 32];
    array.copy_from_slice(&seed);
    let pair = KeyPair::from_seed(array);
    assert_eq!(
        pair.public_key(),
        hex("d75a980182b10ab7d54bfed3c964073a0ee172f3daa62325af021a68f707511a")
    );
}

#[test]
fn ed25519_signature_of_known_seed() {
    let seed = hex("9d61b19deffd5a60ba844af492ec2cc44449c5697b326919703bac031cae7f60");
    let mut array = [0u8; 32];
    array.copy_from_slice(&seed);
    let pair = KeyPair::from_seed(array);
    let expected = hex(concat_signature());
    assert_eq!(pair.sign(b""), expected);
}

fn concat_signature() -> &'static str {
    "e5564300c360ac729086e2cc806e828a84877f1eb8e5d974d873e06522490155\
5fb8821590a33bacc61e39701cf9b46bd25bf5f0595bbe24655141438e7a100b"
}

#[test]
fn drawn_seed_gives_its_key_pair() {
    let seed = hex("9d61b19deffd5a60ba844af492ec2cc44449c5697b326919703bac031cae7f60");
    let mut array = [0u8; 32];
    array.copy_from_slice(&seed);
    let pair = KeyPair::from_drawn(Some(array)).unwrap();
    assert_eq!(
        pair.public_key(),
        hex("d75a980182b10ab7d54bfed3c964073a0ee172f3daa62325af021a68f707511a")
    );
    assert_eq!(pair.public_key(), KeyPair::from_seed(array).public_key());
    assert!(KeyPair::from_drawn(None).is_none());
}

#[test]
fn random_key_pairs_differ() {
    let a = KeyPair::random().unwrap();
    let b = KeyPair::random().unwrap();
    assert_ne!(a.public_key(), b.public_key());
    assert_eq!(a.public_key().len(), 32);
}

#[test]
fn merkle_root_of_no_leaves_is_zero() {
    assert_eq!(merkle_root(&vec![]), H256::zero());
}

#[test]
fn merkle_root_of_one_leaf_is_the_leaf() {
    let leaf = H256::digest(b"leaf");
    assert_eq!(merkle_root(&vec![leaf]), leaf);
}

fn pair(left: &H256, right: &H256) -> H256 {
    let mut bytes = left.to_bytes();
    bytes.extend(right.to_bytes());
    H256::digest(&bytes)
}

#[test]
fn merkle_root_of_two_leaves() {
    let a = H256::digest(b"a");
    let b = H256::digest(b"b");
    assert_eq!(merkle_root(&vec![a, b]), pair(&a, &b));
    assert_ne!(merkle_root(&vec![a, b]), merkle_root(&vec![b, a]));
}

#[test]
fn merkle_root_of_three_leaves_pairs_the_last_with_itself() {
    let a = H256::digest(b"a");
    let b = H256::digest(b"b");
    let c = H256::digest(b"c");
    let expected = pair(&pair(&a, &b), &pair(&c, &c));
    assert_eq!(merkle_root(&vec![a, b, c]), expected);
}

#[test]
fn merkle_root_of_known_digests() {
    let a = digest_of("0a0b0c0d0e0f0e0d0a0b0c0d0e0f0e0d0a0b0c0d0e0f0e0d0a0b0c0d0e0f0e0d");
    let b = digest_of("0101010101010101010101010101010101010101010101010101010101010202");
    let leaves = vec![H256::digest(&a.to_bytes()), H256::digest(&b.to_bytes())];
    assert_eq!(
        leaves[0],
        digest_of("b69566be6e1720872f73651d1851a0eae0060a132cf0f64a0ffaea248de6cba0")
    );
    let root = merkle_root(&leaves);
    assert_eq!(
        root,
        digest_of("6b787718210e0b3b608814e04e61fde06d0df794319a12162f287412df3ec920")
    );
}
