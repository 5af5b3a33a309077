use bitcoincash_addr::Address;
use blockchain::blockchain::BlockChain;
use blockchain::transaction::{Transaction, Wallet};
use blockchain::utxoset::Utxoset;
use blockchain::Error;

struct TestWallet {
    wallet: Wallet,
    address: String,
    pub_key_hash: Vec<u8>,
}

fn make_wallet(seed: &[u8]) -> TestWallet {
    let (secret, public) = crypto::ed25519::keypair(seed);
    let mut hash = public.to_vec();
    blockchain::hashing::hash_pub_key(&mut hash);
    let address = Address { body: hash.clone(), ..Default::default() }.encode().unwrap();
    TestWallet {
        wallet: Wallet { secret_key: secret.to_vec(), public_key: public.to_vec() },
        address,
        pub_key_hash: hash,
    }
}

fn balance(ut: &Utxoset, hash: &[u8]) -> i64 {
    let outs = ut.find_utxo(hash).unwrap();
    outs.outputs.iter().map(|o| o.value as i64).sum()
}

#[test]
fn genesis_balance_is_the_subsidy() {
    let w = make_wallet(&[1; 32]);
    let bc = BlockChain::create_blockchain(w.address.clone(), "/tmp/bcv_genesis_blocks").unwrap();
    let mut ut = Utxoset::new(bc, "/tmp/bcv_genesis_utxos").unwrap();
    ut.reindex().unwrap();
    let outs = ut.find_utxo(&w.pub_key_hash).unwrap();
    assert_eq!(outs.outputs.len(), 1);
    assert_eq!(outs.outputs[0].value, 100);
    assert_eq!(ut.blockchain.get_best_height().unwrap(), 0);
}

#[test]
fn mined_block_hash_meets_target_and_height_advances() {
    let w = make_wallet(&[2; 32]);
    let mut bc = BlockChain::create_blockchain(w.address.clone(), "/tmp/bcv_mine_blocks").unwrap();
    let h0 = bc.get_best_height().unwrap();
    let cb = Transaction::new_coinbase(w.address.clone(), String::from("extra")).unwrap();
    let block = bc.mine_block(vec![cb]).unwrap();
    assert!(block.get_hash().starts_with("0000"));
    assert!(block.validate());
    assert_eq!(bc.get_best_height().unwrap(), h0 + 1);
    assert_eq!(bc.get_block(&block.get_hash()).unwrap().get_height(), h0 + 1);
    let tip = bc.get_block_hashes().unwrap();
    assert_eq!(tip[0], block.get_hash());
}

#[test]
fn add_block_is_idempotent() {
    let w = make_wallet(&[3; 32]);
    let mut bc = BlockChain::create_blockchain(w.address.clone(), "/tmp/bcv_idem_blocks").unwrap();
    let cb = Transaction::new_coinbase(w.address.clone(), String::from("again")).unwrap();
    let block = bc.mine_block(vec![cb]).unwrap();
    let hashes_before = bc.get_block_hashes().unwrap();
    let best_before = bc.get_best_height().unwrap();
    bc.add_block(block.clone()).unwrap();
    assert_eq!(bc.get_block_hashes().unwrap(), hashes_before);
    assert_eq!(bc.get_best_height().unwrap(), best_before);
}

#[test]
fn simple_spend_with_local_mine() {
    let a = make_wallet(&[4; 32]);
    let b = make_wallet(&[5; 32]);
    let bc = BlockChain::create_blockchain(a.address.clone(), "/tmp/bcv_spend_blocks").unwrap();
    let mut ut = Utxoset::new(bc, "/tmp/bcv_spend_utxos").unwrap();
    ut.reindex().unwrap();
    let tx = Transaction::new_utxo(&a.wallet, b.address.clone(), 30, &ut).unwrap();
    let cb = Transaction::new_coinbase(a.address.clone(), String::from("Mining Reward")).unwrap();
    let new_block = ut.blockchain.mine_block(vec![cb, tx]).unwrap();
    ut.update(&new_block).unwrap();
    assert_eq!(balance(&ut, &a.pub_key_hash), 170);
    assert_eq!(balance(&ut, &b.pub_key_hash), 30);
    assert_eq!(ut.blockchain.get_best_height().unwrap(), 1);
}

#[test]
fn tampered_signature_fails_verification() {
    let a = make_wallet(&[6; 32]);
    let b = make_wallet(&[7; 32]);
    let bc = BlockChain::create_blockchain(a.address.clone(), "/tmp/bcv_tamper_blocks").unwrap();
    let mut ut = Utxoset::new(bc, "/tmp/bcv_tamper_utxos").unwrap();
    ut.reindex().unwrap();
    let mut tx = Transaction::new_utxo(&a.wallet, b.address.clone(), 10, &ut).unwrap();
    assert!(ut.blockchain.verify_transaction(&tx).unwrap());
    tx.vin[0].signature[0] ^= 0x01;
    assert!(!ut.blockchain.verify_transaction(&tx).unwrap());
}

#[test]
fn double_spend_is_rejected() {
    let a = make_wallet(&[8; 32]);
    let b = make_wallet(&[9; 32]);
    let bc = BlockChain::create_blockchain(a.address.clone(), "/tmp/bcv_double_blocks").unwrap();
    let mut ut = Utxoset::new(bc, "/tmp/bcv_double_utxos").unwrap();
    ut.reindex().unwrap();
    // First spend consumes the genesis output.
    let tx1 = Transaction::new_utxo(&a.wallet, b.address.clone(), 40, &ut).unwrap();
    let block = ut.blockchain.mine_block(vec![tx1]).unwrap();
    ut.update(&block).unwrap();
    // The index no longer offers the spent output: only the 60 of change
    // remains, so a second spend of the full 100 cannot be built.
    assert_eq!(balance(&ut, &a.pub_key_hash), 60);
    match Transaction::new_utxo(&a.wallet, b.address.clone(), 100, &ut) {
        Err(Error::InsufficientFunds) => (),
        _ => panic!("expected the double spend to be refused"),
    }
    // A transaction that fails verification aborts mining and leaves the
    // chain height unchanged.
    let mut bad = Transaction::new_utxo(&a.wallet, b.address.clone(), 10, &ut).unwrap();
    bad.vin[0].signature[0] ^= 0x01;
    let before = ut.blockchain.get_best_height().unwrap();
    match ut.blockchain.mine_block(vec![bad]) {
        Err(Error::InvalidTransaction) => (),
        other => panic!("expected an invalid transaction, got ok={:?}", other.is_ok()),
    }
    assert_eq!(ut.blockchain.get_best_height().unwrap(), before);
}

#[test]
fn insufficient_funds_is_reported() {
    let a = make_wallet(&[10; 32]);
    let b = make_wallet(&[11; 32]);
    let bc = BlockChain::create_blockchain(a.address.clone(), "/tmp/bcv_poor_blocks").unwrap();
    let mut ut = Utxoset::new(bc, "/tmp/bcv_poor_utxos").unwrap();
    ut.reindex().unwrap();
    match Transaction::new_utxo(&a.wallet, b.address.clone(), 1000, &ut) {
        Err(Error::InsufficientFunds) => (),
        _ => panic!("expected insufficient funds"),
    }
}

#[test]
fn spendable_outputs_cover_requested_amount() {
    let a = make_wallet(&[12; 32]);
    let bc = BlockChain::create_blockchain(a.address.clone(), "/tmp/bcv_spendable_blocks")
        .unwrap();
    let mut ut = Utxoset::new(bc, "/tmp/bcv_spendable_utxos").unwrap();
    ut.reindex().unwrap();
    let (acc, picked) = ut.find_spendable_outputs(&a.pub_key_hash, 50).unwrap();
    assert!(acc >= 50);
    assert_eq!(acc, 100);
    assert_eq!(picked.len(), 1);
    let (acc2, picked2) = ut.find_spendable_outputs(&a.pub_key_hash, 101).unwrap();
    assert_eq!(acc2, 100);
    assert!(acc2 < 101);
    assert_eq!(picked2.len(), 1);
    assert_eq!(ut.count_transaction().unwrap(), 1);
}

#[test]
fn coinbase_shape_is_detected() {
    let a = make_wallet(&[13; 32]);
    let cb = Transaction::new_coinbase(a.address.clone(), String::from("")).unwrap();
    assert!(cb.is_coinbase());
    assert_eq!(cb.vin.len(), 1);
    assert_eq!(cb.vin[0].txid, "");
    assert_eq!(cb.vin[0].vout, -1);
    assert_eq!(cb.vin[0].pub_key, format!("Reward to {}", a.address).into_bytes());
    let mut not_cb = cb.clone();
    not_cb.vin[0].vout = 0;
    assert!(!not_cb.is_coinbase());
}

#[test]
fn short_prefixed_addresses_are_rejected_not_panicked() {
    // Strings of the shape prefix:payload with at most nine payload
    // characters would panic inside the address dependency's CashAddr
    // decoder; the library must refuse them as undecodable instead.
    let hostile = [
        "bitcoincash:",
        "bitcoincash:q",
        "bitcoincash:qqqqqqqq",
        "bchtest:qqqqqqqqq",
        "bchreg:pp",
        "x:y",
    ];
    for addr in hostile {
        match blockchain::tx::TXOutput::new(7, addr.to_string()) {
            Err(Error::SerializationError) => (),
            _ => panic!("expected the address to be refused"),
        }
        assert!(Transaction::new_coinbase(addr.to_string(), String::from("d")).is_err());
    }
    // A genuine address still decodes.
    let w = make_wallet(&[14; 32]);
    let out = blockchain::tx::TXOutput::new(7, w.address.clone()).unwrap();
    assert_eq!(out.pub_key_hash, w.pub_key_hash);
    assert_eq!(out.value, 7);
}
