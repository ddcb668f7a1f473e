use utxo_chain::block::Block;
use utxo_chain::codec::{put_bytes, put_u64_be, put_u64_le};
use utxo_chain::error::Error;
use utxo_chain::merkle::MerkleTree;
use utxo_chain::transaction::Transaction;
use utxo_chain::tx::{TxInput, TxOutput, TxOutputs};
use utxo_chain::wallet::{
    address_of_public_key, checksum, public_key_hash_from_address, validate_address, Wallet,
};

fn sha256(b: &[u8]) -> Vec<u8> {
    <sha2::Sha256 as sha2::Digest>::digest(b).to_vec()
}

fn ripemd160(b: &[u8]) -> Vec<u8> {
    <ripemd::Ripemd160 as ripemd::Digest>::digest(b).to_vec()
}

fn base58_encode(b: &[u8]) -> String {
    bs58::encode(b).into_string()
}

fn base58_decode(s: &str) -> Vec<u8> {
    bs58::decode(s).into_vec().unwrap()
}

#[test]
fn checksum_is_double_sha256_head() {
    let sum = checksum(b"abc");
    assert_eq!(sum, sha256(&sha256(b"abc"))[..4].to_vec());
    assert_eq!(hex::encode(sha256(b"abc")), "ba7816bf8f01cfea414140de5dae2223b00361a396177a9cb410ff61f20015ad");
    assert_eq!(hex::encode(&sum), "4f8b42c2");
}

#[test]
fn address_text_is_base58_of_payload() {
    let w = Wallet::from_secret_key(vec![7; 32]).unwrap();
    let mut payload = vec![0u8];
    payload.extend_from_slice(&ripemd160(&sha256(w.public_key())));
    let sum = sha256(&sha256(&payload));
    payload.extend_from_slice(&sum[..4]);
    assert_eq!(w.address(), base58_encode(&payload));
    assert_eq!(base58_decode(&w.address()), payload);
}

#[test]
fn integer_encodings() {
    let mut out = vec![];
    put_u64_le(&mut out, 0x0102030405060708);
    assert_eq!(out, vec![8, 7, 6, 5, 4, 3, 2, 1]);
    let mut out = vec![];
    put_u64_be(&mut out, 12);
    assert_eq!(out, vec![0, 0, 0, 0, 0, 0, 0, 12]);
    let mut out = vec![];
    put_bytes(&mut out, &[9, 9]);
    assert_eq!(out, vec![2, 0, 0, 0, 0, 0, 0, 0, 9, 9]);
}

#[test]
fn outputs_encoding_is_exact() {
    let outs = TxOutputs {
        outputs: vec![TxOutput { value: 7, public_key_hash: vec![0xaa] }],
    };
    assert_eq!(
        outs.serialize(),
        vec![1, 0, 0, 0, 0, 0, 0, 0, 7, 0, 0, 0, 0, 0, 0, 0, 1, 0, 0, 0, 0, 0, 0, 0, 0xaa]
    );
}

#[test]
fn transaction_encoding_is_exact() {
    let tx = Transaction {
        id: vec![1],
        inputs: vec![TxInput::with_key_hash(vec![2], -1, vec![], vec![3])],
        outputs: vec![],
    };
    let mut expected = vec![1, 0, 0, 0, 0, 0, 0, 0, 1];
    expected.extend_from_slice(&[1, 0, 0, 0, 0, 0, 0, 0]);
    expected.extend_from_slice(&[1, 0, 0, 0, 0, 0, 0, 0, 2]);
    expected.extend_from_slice(&[0xff; 8]);
    expected.extend_from_slice(&[0, 0, 0, 0, 0, 0, 0, 0]);
    expected.extend_from_slice(&[1, 0, 0, 0, 0, 0, 0, 0, 3]);
    expected.extend_from_slice(&[0, 0, 0, 0, 0, 0, 0, 0]);
    assert_eq!(tx.serialize(), expected);
}

#[test]
fn transaction_hash_is_idempotent() {
    let mut tx = Transaction {
        id: vec![],
        inputs: vec![TxInput::with_key_hash(vec![], -1, vec![], vec![5, 6])],
        outputs: vec![TxOutput { value: 20, public_key_hash: vec![1; 20] }],
    };
    tx.hash();
    let id1 = tx.id.clone();
    tx.hash();
    assert_eq!(tx.id, id1);
    assert_eq!(id1.len(), 32);
    let mut cleared = tx.clone();
    cleared.id = vec![];
    assert_eq!(id1, sha256(&cleared.serialize()));
}

#[test]
fn coinbase_is_detected() {
    let a = Wallet::from_secret_key(vec![1; 32]).unwrap().address();
    let cb = Transaction::coinbase_tx(&a).unwrap();
    assert!(cb.is_coinbase());
    assert_eq!(cb.outputs.len(), 1);
    assert_eq!(cb.outputs[0].value, 20);
    let plain = Transaction {
        id: vec![],
        inputs: vec![TxInput::with_key_hash(vec![1], 0, vec![], vec![])],
        outputs: vec![],
    };
    assert!(!plain.is_coinbase());
}

#[test]
fn address_round_trip() {
    let w = Wallet::from_secret_key(vec![7; 32]).unwrap();
    let addr = w.address();
    assert_eq!(validate_address(&addr), Ok(true));
    let expected = ripemd160(&sha256(w.public_key()));
    assert_eq!(public_key_hash_from_address(&addr), Ok(expected.clone()));
    assert_eq!(addr, address_of_public_key(w.public_key()));
    let mut payload = vec![0u8];
    payload.extend_from_slice(&expected);
    let sum = checksum(&payload);
    assert_eq!(sum, sha256(&sha256(&payload))[..4].to_vec());
}

#[test]
fn fresh_wallet_address_validates() {
    let w = Wallet::new().unwrap();
    assert_eq!(w.public_key().len(), 33);
    assert_eq!(validate_address(&w.address()), Ok(true));
}

#[test]
fn address_errors() {
    assert_eq!(validate_address("0OIl"), Err(Error::Base58));
    assert_eq!(public_key_hash_from_address("0OIl"), Err(Error::Base58));
    let short = base58_encode(&[0, 1, 2]);
    assert_eq!(validate_address(&short), Ok(false));
    assert_eq!(public_key_hash_from_address(&short), Err(Error::InvalidAddress));
    let w = Wallet::from_secret_key(vec![7; 32]).unwrap();
    let mut bytes = base58_decode(&w.address());
    let last = bytes.len() - 1;
    bytes[last] ^= 1;
    assert_eq!(validate_address(&base58_encode(&bytes)), Ok(false));
    assert_eq!(Wallet::from_secret_key(vec![0; 32]).err(), Some(Error::Key));
}

#[test]
fn merkle_root_of_one_datum() {
    let d = vec![1u8, 2, 3];
    let tree = MerkleTree::new(vec![d.clone()]).unwrap();
    let leaf = sha256(&d);
    let mut pair = leaf.clone();
    pair.extend_from_slice(&leaf);
    assert_eq!(tree.root_hash(), sha256(&pair));
}

#[test]
fn merkle_root_of_three_data() {
    let ds = vec![vec![1u8], vec![2u8], vec![3u8]];
    let tree = MerkleTree::new(ds.clone()).unwrap();
    let h: Vec<Vec<u8>> = vec![sha256(&ds[0]), sha256(&ds[1]), sha256(&ds[2]), sha256(&ds[0])];
    let p0 = sha256(&[h[0].clone(), h[1].clone()].concat());
    let p1 = sha256(&[h[2].clone(), h[3].clone()].concat());
    assert_eq!(tree.root_hash(), sha256(&[p0, p1].concat()));
}

#[test]
fn merkle_of_nothing_fails() {
    assert_eq!(MerkleTree::new(vec![]).err(), Some(Error::EmptyData));
}

#[test]
fn created_block_meets_target() {
    let a = Wallet::from_secret_key(vec![1; 32]).unwrap().address();
    let cb = Transaction::coinbase_tx(&a).unwrap();
    let b = Block::create_block_at(vec![cb], vec![4; 32], 3, 1000).unwrap();
    assert_eq!(b.validate(), Ok(true));
    assert_eq!(b.height, 3);
    assert_eq!(b.timestamp, 1000);
    assert_eq!(b.hash[0], 0);
    assert!(b.hash[1] < 16);
    let mut pre = b.prevhash.clone();
    pre.extend_from_slice(&b.hash_transactions().unwrap());
    pre.extend_from_slice(&b.nonce.to_be_bytes());
    pre.extend_from_slice(&12u64.to_be_bytes());
    assert_eq!(b.hash, sha256(&pre));
    let mut tampered = b.clone();
    tampered.nonce = tampered.nonce.wrapping_add(1);
    let again = tampered.validate().unwrap();
    let mut pre2 = tampered.prevhash.clone();
    pre2.extend_from_slice(&tampered.hash_transactions().unwrap());
    pre2.extend_from_slice(&tampered.nonce.to_be_bytes());
    pre2.extend_from_slice(&12u64.to_be_bytes());
    let d = sha256(&pre2);
    assert_eq!(again, d[0] == 0 && d[1] < 16);
}

#[test]
fn block_without_transactions_fails() {
    assert_eq!(Block::create_block(vec![], vec![], 0).err(), Some(Error::EmptyData));
}
