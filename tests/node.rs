use utxo_chain::block::Block;
use utxo_chain::chain::BlockChain;
use utxo_chain::error::Error;
use utxo_chain::network::{
    handle_block, handle_get_blocks, handle_get_data, handle_inv, handle_message, handle_tx, handle_version,
    startup, InvKind, Message, Network,
};
use utxo_chain::transaction::Transaction;
use utxo_chain::utxo::{send_coin_mined, UTXOSet};
use utxo_chain::wallet::{Wallet, Wallets};

fn wallets() -> (Wallets, String, String) {
    let mut ws = Wallets::new();
    let a = ws.insert(Wallet::from_secret_key(vec![1; 32]).unwrap());
    let b = ws.insert(Wallet::from_secret_key(vec![2; 32]).unwrap());
    (ws, a, b)
}

fn minted(a: &str) -> UTXOSet {
    let chain = BlockChain::init_blockchain(a).unwrap();
    let mut utxo = UTXOSet::new(chain);
    utxo.reindex();
    utxo
}

fn sent() -> (UTXOSet, Wallets, String, String, Block) {
    let (ws, a, b) = wallets();
    let mut utxo = minted(&a);
    let block = send_coin_mined(&mut utxo, &ws, &a, &b, 7).unwrap();
    (utxo, ws, a, b, block)
}

#[test]
fn single_node_mint() {
    let (_, a, _) = wallets();
    let utxo = minted(&a);
    assert_eq!(utxo.chain.blocks().len(), 1);
    assert_eq!(utxo.chain.get_best_height(), 0);
    let g = &utxo.chain.blocks()[0];
    assert_eq!(g.height, 0);
    assert!(g.prevhash.is_empty());
    assert_eq!(g.transactions.len(), 1);
    assert!(g.transactions[0].is_coinbase());
    assert_eq!(g.transactions[0].outputs[0].value, 20);
    assert_eq!(g.validate(), Ok(true));
    assert_eq!(utxo.get_balance(&a), Ok(20));
    assert_eq!(utxo.count_transaction(), 1);
}

#[test]
fn send_and_mine() {
    let (utxo, _, a, b, block) = sent();
    assert_eq!(utxo.chain.get_best_height(), 1);
    assert_eq!(block.height, 1);
    assert_eq!(block.transactions.len(), 2);
    assert!(block.transactions[0].is_coinbase());
    let pay = &block.transactions[1];
    assert_eq!(pay.inputs.len(), 1);
    assert_eq!(pay.outputs.len(), 2);
    assert_eq!(pay.outputs[0].value, 7);
    assert_eq!(pay.outputs[1].value, 13);
    assert_eq!(utxo.get_balance(&a), Ok(33));
    assert_eq!(utxo.get_balance(&b), Ok(7));
    assert_eq!(utxo.chain.verify_transaction(pay), Ok(()));
}

#[test]
fn reindex_equivalence() {
    let (mut utxo, _, a, b, _) = sent();
    utxo.reindex();
    assert_eq!(utxo.get_balance(&a), Ok(33));
    assert_eq!(utxo.get_balance(&b), Ok(7));
}

#[test]
fn duplicate_block_changes_nothing() {
    let (mut utxo, _, a, b, block) = sent();
    let tip = utxo.chain.last_hash().clone();
    let count = utxo.chain.blocks().len();
    let mut net = Network::new("127.0.0.1:3001".to_string(), String::new(), "127.0.0.1:3000".to_string());
    let out = handle_block(&mut net, &mut utxo, &"127.0.0.1:3000".to_string(), &block);
    assert!(out.unwrap().is_empty());
    assert_eq!(utxo.chain.last_hash(), &tip);
    assert_eq!(utxo.chain.blocks().len(), count);
    assert_eq!(utxo.chain.get_best_height(), 1);
    assert_eq!(utxo.get_balance(&a), Ok(33));
    assert_eq!(utxo.get_balance(&b), Ok(7));
}

#[test]
fn insufficient_funds() {
    let (utxo, ws, a, b, _) = sent();
    let tip = utxo.chain.last_hash().clone();
    let r = Transaction::new(&ws, &b, &a, 100, &utxo);
    assert_eq!(r.err(), Some(Error::InsufficientFunds));
    assert_eq!(Error::InsufficientFunds.message(), "Not enough funds");
    assert_eq!(utxo.chain.last_hash(), &tip);
    let mut utxo = utxo;
    assert_eq!(send_coin_mined(&mut utxo, &ws, &b, &a, 100).err(), Some(Error::InsufficientFunds));
    assert_eq!(utxo.chain.last_hash(), &tip);
    assert_eq!(utxo.get_balance(&b), Ok(7));
}

#[test]
fn tampered_signature_fails_verification() {
    let (utxo, _, _, _, block) = sent();
    let mut pay = block.transactions[1].clone();
    assert_eq!(utxo.chain.verify_transaction(&pay), Ok(()));
    let n = pay.inputs[0].signature.len();
    pay.inputs[0].signature[n - 1] ^= 1;
    assert!(utxo.chain.verify_transaction(&pay).is_err());
    let mut moved = block.transactions[1].clone();
    moved.inputs[0].out = 5;
    assert!(utxo.chain.verify_transaction(&moved).is_err());
}

#[test]
fn signing_then_verifying_succeeds() {
    let (ws, a, b) = wallets();
    let utxo = minted(&a);
    let tx = Transaction::new(&ws, &a, &b, 20, &utxo).unwrap();
    assert_eq!(tx.outputs.len(), 1);
    assert_eq!(tx.inputs[0].public_key_hash, ws.get_wallet(&a).unwrap().public_key().clone());
    let prev = vec![utxo.chain.blocks()[0].transactions[0].clone()];
    assert_eq!(tx.verify(&prev), Ok(()));
    assert_eq!(tx.verify(&vec![]), Err(Error::TransactionNotFound));
}

#[test]
fn wallet_errors() {
    let (ws, _, _) = wallets();
    let other = Wallet::from_secret_key(vec![3; 32]).unwrap().address();
    assert_eq!(ws.get_wallet(&other).err(), Some(Error::WalletNotFound));
    assert_eq!(ws.get_wallet("0OIl").err(), Some(Error::Base58));
    assert_eq!(ws.list_addresses().len(), 2);
}

#[test]
fn tip_moves_only_to_taller_blocks() {
    let (_, a, _) = wallets();
    let mut chain = BlockChain::init_blockchain(&a).unwrap();
    let tip = chain.last_hash().clone();
    let low = Block::create_block(vec![Transaction::coinbase_tx(&a).unwrap()], vec![9; 32], 0).unwrap();
    assert_eq!(chain.add_block(&low), Ok(()));
    assert_eq!(chain.last_hash(), &tip);
    assert_eq!(chain.blocks().len(), 2);
    let high = Block::create_block(vec![Transaction::coinbase_tx(&a).unwrap()], tip.clone(), 1).unwrap();
    assert_eq!(chain.add_block(&high), Ok(()));
    assert_eq!(chain.last_hash(), &high.hash);
    assert_eq!(chain.get_best_height(), 1);
    assert_eq!(chain.get_block_hashes(), vec![high.hash.clone(), tip.clone()]);
}

#[test]
fn update_matches_reindex_after_mining() {
    let (mut utxo, ws, a, b, _) = sent();
    let block = send_coin_mined(&mut utxo, &ws, &b, &a, 5).unwrap();
    assert_eq!(block.height, 2);
    assert_eq!(utxo.get_balance(&a), Ok(38));
    assert_eq!(utxo.get_balance(&b), Ok(22));
    let entries = utxo.count_transaction();
    utxo.reindex();
    assert_eq!(utxo.count_transaction(), entries);
    assert_eq!(utxo.get_balance(&a), Ok(38));
    assert_eq!(utxo.get_balance(&b), Ok(22));
}

#[test]
fn update_needs_the_tip() {
    let (_, a, _) = wallets();
    let mut utxo = minted(&a);
    let before = utxo.count_transaction();
    let other = Block::create_block(vec![Transaction::coinbase_tx(&a).unwrap()], vec![1; 32], 1).unwrap();
    assert_eq!(utxo.update(&other), Err(Error::BlockNotFound));
    assert_eq!(utxo.count_transaction(), before);
    let tip = utxo.chain.blocks()[0].clone();
    assert_eq!(utxo.update(&tip), Ok(()));
    assert_eq!(utxo.get_balance(&a), Ok(20));
}

#[test]
fn input_from_address() {
    let (_, a, _) = wallets();
    let w = Wallet::from_secret_key(vec![1; 32]).unwrap();
    let i = utxo_chain::tx::TxInput::new(vec![1], 0, vec![], &a).unwrap();
    let h = utxo_chain::wallet::public_key_hash_from_address(&w.address()).unwrap();
    assert_eq!(i.public_key_hash, h);
    assert!(utxo_chain::tx::TxInput::new(vec![1], 0, vec![], "").unwrap().public_key_hash.is_empty());
    assert!(utxo_chain::tx::TxInput::new(vec![1], 0, vec![], "0OIl").is_err());
}

#[test]
fn get_data_errors() {
    let (_, a, _) = wallets();
    let utxo = minted(&a);
    let net = Network::new("n".to_string(), String::new(), "c".to_string());
    let from = "p".to_string();
    assert_eq!(handle_get_data(&net, &utxo, &from, InvKind::Block, &vec![1; 32]).err(), Some(Error::BlockNotFound));
    assert_eq!(handle_get_data(&net, &utxo, &from, InvKind::Tx, &vec![1; 32]).err(), Some(Error::TransactionNotFound));
}

fn deliver(net: &mut Network, utxo: &mut UTXOSet, m: Message) -> Vec<(String, Message)> {
    handle_message(net, utxo, m).unwrap().into_iter().map(|o| (o.to, o.message)).collect()
}

#[test]
fn version_handshake_syncs_chain() {
    let (ws, a, _) = wallets();
    let central = "127.0.0.1:3000".to_string();
    let node = "127.0.0.1:3001".to_string();
    let mut c_utxo = minted(&a);
    let genesis = c_utxo.chain.blocks()[0].clone();
    for _ in 0..2 {
        let cb = Transaction::coinbase_tx(&a).unwrap();
        let b = c_utxo.chain.mine_block(vec![cb]).unwrap();
        c_utxo.update(&b).unwrap();
    }
    assert_eq!(c_utxo.chain.get_best_height(), 2);
    let mut c_net = Network::new(central.clone(), String::new(), central.clone());
    let mut n_utxo = UTXOSet::new(BlockChain::from_genesis(genesis));
    n_utxo.reindex();
    let mut n_net = Network::new(node.clone(), String::new(), central.clone());
    let mut to_c: Vec<Message> = startup(&n_net, &n_utxo).into_iter().map(|o| o.message).collect();
    let mut to_n: Vec<Message> = vec![];
    let mut steps = 0;
    while (!to_c.is_empty() || !to_n.is_empty()) && steps < 50 {
        steps += 1;
        for m in std::mem::take(&mut to_c) {
            for (to, reply) in deliver(&mut c_net, &mut c_utxo, m) {
                assert_eq!(to, node);
                to_n.push(reply);
            }
        }
        for m in std::mem::take(&mut to_n) {
            for (to, reply) in deliver(&mut n_net, &mut n_utxo, m) {
                assert_eq!(to, central);
                to_c.push(reply);
            }
        }
    }
    assert_eq!(n_utxo.chain.get_best_height(), 2);
    assert_eq!(n_utxo.chain.last_hash(), c_utxo.chain.last_hash());
    assert_eq!(n_utxo.get_balance(&a), Ok(60));
    assert_eq!(n_utxo.get_balance(&a), c_utxo.get_balance(&a));
    assert_eq!(n_utxo.count_transaction(), c_utxo.count_transaction());
    assert!(c_net.knows(&node));
    let _ = ws;
}

#[test]
fn inventory_and_transactions() {
    let (ws, a, b) = wallets();
    let mut utxo = minted(&a);
    let from = "peer".to_string();
    let mut net = Network::new("me".to_string(), String::new(), "c".to_string());
    let out = handle_inv(&mut net, &from, InvKind::Block, vec![vec![1], vec![2], vec![3]]);
    assert_eq!(out.len(), 1);
    assert_eq!(net.blocks_in_transit, vec![vec![1], vec![2], vec![3]]);
    assert!(handle_inv(&mut net, &from, InvKind::Tx, vec![]).is_empty());
    let tx = Transaction::new(&ws, &a, &b, 5, &utxo).unwrap();
    let out = handle_inv(&mut net, &from, InvKind::Tx, vec![tx.id.clone()]);
    assert_eq!(out.len(), 1);
    let out = handle_tx(&mut net, &mut utxo, &from, &tx).unwrap();
    assert!(out.is_empty());
    assert_eq!(net.memory_pool.len(), 1);
    assert_eq!(net.memory_pool[0].0, hex::encode(&tx.id));
    assert!(net.pool_contains(&tx.id));
    assert!(handle_inv(&mut net, &from, InvKind::Tx, vec![tx.id.clone()]).is_empty());
    let got = handle_get_data(&net, &utxo, &from, InvKind::Tx, &tx.id).unwrap();
    assert_eq!(got.len(), 1);
    let out = handle_get_blocks(&net, &utxo, &from);
    assert_eq!(out.len(), 1);
    let out = handle_version(&mut net, &utxo, 5, &from);
    assert_eq!(out.len(), 1);
    assert!(matches!(out[0].message, Message::GetBlocks { .. }));
    assert!(net.knows(&from));
    net.drop_peer(&from);
    assert!(!net.knows(&from));
}

#[test]
fn miner_mines_pool() {
    let (ws, a, b) = wallets();
    let mut utxo = minted(&a);
    let peer = "peer".to_string();
    let mut net = Network::new("me".to_string(), b.clone(), "c".to_string());
    net.add_peer(&peer);
    let tx = Transaction::new(&ws, &a, &b, 5, &utxo).unwrap();
    let out = handle_tx(&mut net, &mut utxo, &peer, &tx).unwrap();
    assert_eq!(utxo.chain.get_best_height(), 1);
    assert!(net.memory_pool.is_empty());
    assert_eq!(out.len(), 2);
    assert_eq!(utxo.get_balance(&b), Ok(25));
    assert_eq!(utxo.get_balance(&a), Ok(15));
}

#[test]
fn central_relays_transactions() {
    let (ws, a, b) = wallets();
    let mut utxo = minted(&a);
    let c = "c".to_string();
    let mut net = Network::new(c.clone(), String::new(), c.clone());
    net.add_peer(&"x".to_string());
    net.add_peer(&"y".to_string());
    let tx = Transaction::new(&ws, &a, &b, 5, &utxo).unwrap();
    let out = handle_tx(&mut net, &mut utxo, &"x".to_string(), &tx).unwrap();
    assert_eq!(out.len(), 1);
    assert_eq!(out[0].to, "y");
    assert_eq!(utxo.chain.get_best_height(), 0);
}

#[test]
fn iterator_walks_to_genesis() {
    let (utxo, _, _, _, block) = sent();
    let mut it = utxo.chain.iterator();
    let first = it.next(&utxo.chain).unwrap();
    assert_eq!(first.hash, block.hash);
    let second = it.next(&utxo.chain).unwrap();
    assert_eq!(second.height, 0);
    assert!(it.next(&utxo.chain).is_none());
}

#[test]
fn continue_blockchain_checks_parts() {
    let (utxo, _, _, _, _) = sent();
    let blocks = utxo.chain.blocks().clone();
    let tip = utxo.chain.last_hash().clone();
    let again = BlockChain::continue_blockchain(blocks.clone(), tip.clone()).unwrap();
    assert_eq!(again.get_best_height(), 1);
    assert_eq!(BlockChain::continue_blockchain(blocks.clone(), vec![0; 32]).err(), Some(Error::ChainMissing));
    let mut doubled = blocks.clone();
    doubled.push(blocks[0].clone());
    assert_eq!(BlockChain::continue_blockchain(doubled, tip).err(), Some(Error::Store));
}

#[test]
fn gossiped_block_with_bad_signature_is_refused() {
    let (ws, a, b) = wallets();
    let mut utxo = minted(&a);
    let mut tx = Transaction::new(&ws, &a, &b, 5, &utxo).unwrap();
    tx.inputs[0].signature[4] ^= 1;
    let tip = utxo.chain.last_hash().clone();
    let cb = Transaction::coinbase_tx(&a).unwrap();
    let bad = Block::create_block(vec![cb, tx], tip.clone(), 1).unwrap();
    let mut net = Network::new("me".to_string(), String::new(), "c".to_string());
    let r = handle_block(&mut net, &mut utxo, &"peer".to_string(), &bad);
    assert_eq!(r.err(), Some(Error::InvalidTransaction));
    assert_eq!(utxo.chain.last_hash(), &tip);
    assert_eq!(utxo.chain.blocks().len(), 1);
}
