use blockchain::codec;
use blockchain::transaction::Transaction;
use blockchain::tx::{TXInput, TXOutput, TXOutputs};

fn sample_tx() -> Transaction {
    Transaction {
        id: String::from("cafe0123"),
        vin: vec![
            TXInput {
                txid: String::from("aa"),
                vout: 1,
                signature: vec![1, 2, 3],
                pub_key: vec![4, 5],
            },
            TXInput {
                txid: String::from(""),
                vout: -1,
                signature: vec![],
                pub_key: vec![0, 255],
            },
        ],
        vout: vec![
            TXOutput { value: 100, pub_key_hash: vec![9; 20] },
            TXOutput { value: -7, pub_key_hash: vec![] },
        ],
    }
}

fn tx_eq(a: &Transaction, b: &Transaction) -> bool {
    if a.id != b.id || a.vin.len() != b.vin.len() || a.vout.len() != b.vout.len() {
        return false;
    }
    for (x, y) in a.vin.iter().zip(b.vin.iter()) {
        if x.txid != y.txid || x.vout != y.vout || x.signature != y.signature
            || x.pub_key != y.pub_key
        {
            return false;
        }
    }
    for (x, y) in a.vout.iter().zip(b.vout.iter()) {
        if x.value != y.value || x.pub_key_hash != y.pub_key_hash {
            return false;
        }
    }
    true
}

#[test]
fn transaction_roundtrip() {
    let tx = sample_tx();
    let bytes = codec::serialize_transaction(&tx);
    let back = codec::deserialize_transaction(&bytes).expect("decodes");
    assert!(tx_eq(&tx, &back));
}

#[test]
fn transaction_decode_rejects_trailing_bytes() {
    let tx = sample_tx();
    let mut bytes = codec::serialize_transaction(&tx);
    bytes.push(0);
    assert!(codec::deserialize_transaction(&bytes).is_none());
}

#[test]
fn transaction_roundtrip_non_ascii_strings() {
    let mut tx = sample_tx();
    tx.id = String::from("Grüße-\u{1F600}");
    let bytes = codec::serialize_transaction(&tx);
    let back = codec::deserialize_transaction(&bytes).expect("decodes");
    assert_eq!(back.id, tx.id);
}

#[test]
fn outputs_roundtrip() {
    let outs = TXOutputs {
        outputs: vec![
            TXOutput { value: 1, pub_key_hash: vec![1, 2, 3] },
            TXOutput { value: i32::MIN, pub_key_hash: vec![] },
            TXOutput { value: i32::MAX, pub_key_hash: vec![0; 20] },
        ],
    };
    let bytes = codec::serialize_outputs(&outs);
    let back = codec::deserialize_outputs(&bytes).expect("decodes");
    assert_eq!(back.outputs.len(), 3);
    assert_eq!(back.outputs[0].value, 1);
    assert_eq!(back.outputs[1].value, i32::MIN);
    assert_eq!(back.outputs[2].value, i32::MAX);
    assert_eq!(back.outputs[2].pub_key_hash, vec![0; 20]);
}

#[test]
fn corrupt_outputs_do_not_decode() {
    let outs = TXOutputs { outputs: vec![TXOutput { value: 5, pub_key_hash: vec![7; 20] }] };
    let mut bytes = codec::serialize_outputs(&outs);
    bytes.truncate(bytes.len() - 1);
    assert!(codec::deserialize_outputs(&bytes).is_none());
}
