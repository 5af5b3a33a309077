use bitcoincash_addr::Address;
use blockchain::blockchain::BlockChain;
use blockchain::node::{
    bytes_to_cmd, msg_bytes, Action, GetBlockMsg, GetDataMsg, Message, Node, VersionMsg,
};
use blockchain::transaction::Transaction;
use blockchain::utxoset::Utxoset;

fn make_address(seed: &[u8]) -> String {
    let (_, public) = crypto::ed25519::keypair(seed);
    let mut hash = public.to_vec();
    blockchain::hashing::hash_pub_key(&mut hash);
    Address { body: hash, ..Default::default() }.encode().unwrap()
}

fn chain_with_height(addr: &str, blocks_path: &str, utxos_path: &str, height: i32) -> Utxoset {
    let mut bc = BlockChain::create_blockchain(addr.to_string(), blocks_path).unwrap();
    for i in 0..height {
        let cb = Transaction::new_coinbase(addr.to_string(), format!("reward {}", i)).unwrap();
        bc.mine_block(vec![cb]).unwrap();
    }
    let mut ut = Utxoset::new(bc, utxos_path).unwrap();
    ut.reindex().unwrap();
    ut
}

#[test]
fn message_frames_roundtrip() {
    let addr = make_address(&[21; 32]);
    let cb = Transaction::new_coinbase(addr, String::from("hello")).unwrap();
    let msg = Message::Tx(blockchain::node::TxMsg {
        addr_from: String::from("localhost:3001"),
        transaction: cb.clone(),
    });
    let bytes = msg_bytes(&msg);
    match bytes_to_cmd(&bytes).unwrap() {
        Message::Tx(m) => {
            assert_eq!(m.addr_from, "localhost:3001");
            assert_eq!(m.transaction.id, cb.id);
        },
        _ => panic!("wrong message kind"),
    }

    let msg2 = Message::Version(VersionMsg {
        addr_from: String::from("localhost:3000"),
        version: 1,
        best_height: 7,
    });
    let bytes2 = msg_bytes(&msg2);
    match bytes_to_cmd(&bytes2).unwrap() {
        Message::Version(m) => {
            assert_eq!(m.best_height, 7);
            assert_eq!(m.version, 1);
        },
        _ => panic!("wrong message kind"),
    }

    let mut garbage = bytes2.clone();
    garbage[0] = b'z';
    assert!(bytes_to_cmd(&garbage).is_err());
    assert!(bytes_to_cmd(&[0u8; 4]).is_err());
}

/// Delivers every pending send to its destination node, collecting the
/// replies, until the network goes quiet.
fn pump(n0: &mut Node, n1: &mut Node, mut pending: Vec<Action>) {
    let mut rounds = 0;
    while !pending.is_empty() {
        rounds += 1;
        assert!(rounds < 100, "gossip did not settle");
        let mut next: Vec<Action> = Vec::new();
        for act in pending {
            let target: &mut Node = if act.addr == n0.node_address {
                &mut *n0
            } else if act.addr == n1.node_address {
                &mut *n1
            } else {
                continue;
            };
            match act.msg {
                Message::Addr(list) => target.handle_addr(&list),
                Message::Version(m) => next.extend(target.handle_version(&m).unwrap()),
                Message::GetBlock(m) => next.extend(target.handle_get_block(&m).unwrap()),
                Message::GetData(m) => next.extend(target.handle_get_data(&m).unwrap()),
                Message::Inv(m) => next.extend(target.handle_inv(&m).unwrap()),
                Message::Block(m) => next.extend(target.handle_block(&m).unwrap()),
                Message::Tx(m) => next.extend(target.handle_tx(&m).unwrap()),
            }
        }
        pending = next;
    }
}

#[test]
fn follower_converges_to_the_bootstrap_chain() {
    let a0 = make_address(&[22; 32]);
    let a1 = make_address(&[23; 32]);
    let ut0 = chain_with_height(&a0, "/tmp/bcv_g0_blocks", "/tmp/bcv_g0_utxos", 3);
    let ut1 = chain_with_height(&a1, "/tmp/bcv_g1_blocks", "/tmp/bcv_g1_utxos", 0);
    let mut n0 = Node::new("3000", "", ut0);
    let mut n1 = Node::new("3001", "", ut1);
    let n0_tip = n0.utxo.blockchain.get_block_hashes().unwrap();
    assert_eq!(n0.utxo.blockchain.get_best_height().unwrap(), 3);

    // The follower introduces itself to the bootstrap node.
    let hello = VersionMsg {
        addr_from: n1.node_address.clone(),
        version: 1,
        best_height: n1.utxo.blockchain.get_best_height().unwrap(),
    };
    let replies = n0.handle_version(&hello).unwrap();
    pump(&mut n0, &mut n1, replies);

    assert_eq!(n1.utxo.blockchain.get_best_height().unwrap(), 3);
    let n1_tip = n1.utxo.blockchain.get_block_hashes().unwrap();
    assert_eq!(n1_tip, n0_tip);
}

#[test]
fn miner_drains_the_pool_and_announces_a_block() {
    let a0 = make_address(&[24; 32]);
    let miner_addr = make_address(&[25; 32]);
    let ut = chain_with_height(&a0, "/tmp/bcv_m_blocks", "/tmp/bcv_m_utxos", 0);
    let mut miner = Node::new("3005", &miner_addr, ut);
    let before = miner.utxo.blockchain.get_best_height().unwrap();

    // Hand the miner one transaction: a fresh coinbase always verifies.
    let tx = Transaction::new_coinbase(a0.clone(), String::from("pooled")).unwrap();
    let acts = miner
        .handle_tx(&blockchain::node::TxMsg {
            addr_from: String::from("localhost:3000"),
            transaction: tx,
        })
        .unwrap();
    assert_eq!(miner.utxo.blockchain.get_best_height().unwrap(), before + 1);
    assert!(miner.mempool.is_empty());
    // The new block is announced to the bootstrap peer.
    assert_eq!(acts.len(), 1);
    match &acts[0].msg {
        Message::Inv(m) => {
            assert_eq!(m.kind, "block");
            assert_eq!(m.items.len(), 1);
            assert!(m.items[0].starts_with("0000"));
        },
        _ => panic!("expected a block inventory"),
    }

    // The bootstrap relay forwards transaction ids instead of mining.
    let ut0 = chain_with_height(&a0, "/tmp/bcv_r_blocks", "/tmp/bcv_r_utxos", 0);
    let mut relay = Node::new("3000", "", ut0);
    relay.add_nodes(&String::from("localhost:3002"));
    let tx2 = Transaction::new_coinbase(a0, String::from("relayed")).unwrap();
    let tx2_id = tx2.id.clone();
    let acts2 = relay
        .handle_tx(&blockchain::node::TxMsg {
            addr_from: String::from("localhost:3001"),
            transaction: tx2,
        })
        .unwrap();
    assert_eq!(acts2.len(), 1);
    assert_eq!(acts2[0].addr, "localhost:3002");
    match &acts2[0].msg {
        Message::Inv(m) => {
            assert_eq!(m.kind, "tx");
            assert_eq!(m.items, vec![tx2_id]);
        },
        _ => panic!("expected a tx inventory"),
    }
}

#[test]
fn get_block_lists_every_hash() {
    let a0 = make_address(&[26; 32]);
    let ut = chain_with_height(&a0, "/tmp/bcv_h_blocks", "/tmp/bcv_h_utxos", 2);
    let n = Node::new("3000", "", ut);
    let acts = n
        .handle_get_block(&GetBlockMsg { addr_from: String::from("localhost:3009") })
        .unwrap();
    assert_eq!(acts.len(), 1);
    assert_eq!(acts[0].addr, "localhost:3009");
    match &acts[0].msg {
        Message::Inv(m) => {
            assert_eq!(m.kind, "block");
            assert_eq!(m.items.len(), 3);
        },
        _ => panic!("expected an inventory"),
    }
    // And a peer can fetch a listed block.
    let tip = n.utxo.blockchain.get_block_hashes().unwrap()[0].clone();
    let acts2 = n
        .handle_get_data(&GetDataMsg {
            addr_from: String::from("localhost:3009"),
            kind: String::from("block"),
            id: tip.clone(),
        })
        .unwrap();
    match &acts2[0].msg {
        Message::Block(m) => assert_eq!(m.block.get_hash(), tip),
        _ => panic!("expected a block"),
    }
}
