use vstd::prelude::*;

use crate::blockchain::{chain_of, utxo_of_chain, BlockChain};
use crate::codec::{self, enc_list, fenc_tx_out, sdec_list, fdec_tx_out};
use crate::errors::Error;
use crate::store::{db_view, StoreDb};
use crate::transaction::spec_is_coinbase;
use crate::tx::{TXOutputs, TxInV, TxOutV};
use vstd::utf8::{decode_utf8, encode_utf8, valid_utf8};

verus! {

broadcast use vstd::utf8::encode_utf8_valid_utf8, vstd::utf8::encode_utf8_decode_utf8, vstd::utf8::decode_utf8_encode_utf8;

/// The secondary index from transaction id to its unspent outputs, kept
/// beside the block store.
pub struct Utxoset {
    pub blockchain: BlockChain,
    pub db: StoreDb,
}

/// Whether `es` lists exactly the pairs of `m`, each key once.
pub open spec fn entries_of(m: Map<Seq<u8>, Seq<u8>>, es: Seq<(Seq<u8>, Seq<u8>)>) -> bool {
    &&& forall|i: int|
        0 <= i < es.len() ==> m.contains_key((#[trigger] es[i]).0) && m[es[i].0] == es[i].1
    &&& forall|i: int, j: int|
        0 <= i < j < es.len() ==> (#[trigger] es[i]).0 != (#[trigger] es[j]).0
    &&& forall|k: Seq<u8>|
        #[trigger] m.contains_key(k) ==> exists|i: int| 0 <= i < es.len() && (#[trigger] es[i]).0
            == k
}

/// The record of unspent outputs stored under a value, when it decodes
/// completely.
pub open spec fn stored_outputs(bytes: Seq<u8>) -> Option<Seq<TxOutV>> {
    match sdec_list(bytes, 0, fdec_tx_out()) {
        Some((outs, p)) => if p == bytes.len() {
            Some(outs)
        } else {
            None
        },
        None => None,
    }
}

/// What a rebuilt index holds: exactly the UTF-8-keyed encodings of `u`,
/// the map of unspent outputs the chain determines.
pub open spec fn reindex_post(u: Map<Seq<char>, Seq<TxOutV>>, m: Map<Seq<u8>, Seq<u8>>) -> bool {
    &&& forall|k: Seq<char>|
        #[trigger] u.contains_key(k) ==> m.contains_key(encode_utf8(k)) && m[encode_utf8(k)]
            == enc_list(u[k], fenc_tx_out())
    &&& forall|kb: Seq<u8>|
        #[trigger] m.contains_key(kb) ==> exists|k: Seq<char>|
            u.contains_key(k) && #[trigger] encode_utf8(k) == kb
}

impl Utxoset {
    /// Opens the index beside an existing chain.
    pub fn new(blockchain: BlockChain, path: &str) -> (r: Result<Utxoset, Error>)
        ensures
            r matches Ok(u) ==> u.blockchain == blockchain,
            r matches Err(e) ==> e == Error::IoError,
    {
        let db = match StoreDb::open(path) {
            Ok(d) => d,
            Err(e) => {
                return Err(e);
            },
        };
        Ok(Utxoset { blockchain, db })
    }

    /// Truncates the index and rebuilds it from a full chain scan: one
    /// entry per transaction id that still has unspent outputs.
    #[verifier::loop_isolation(false)]
    pub fn reindex(&mut self) -> (r: Result<(), Error>)
        ensures
            final(self).blockchain == old(self).blockchain,
            r is Ok ==> reindex_post(
                utxo_of_chain(
                    chain_of(
                        db_view(old(self).blockchain.db),
                        old(self).blockchain.current_hash@,
                    ),
                ),
                db_view(final(self).db),
            ),
    {
        let us = match self.blockchain.find_utxo() {
            Ok(us) => us,
            Err(e) => {
                return Err(e);
            },
        };
        match self.db.clear() {
            Ok(()) => (),
            Err(e) => {
                return Err(e);
            },
        }
        let ghost u = crate::kv::map_of(crate::blockchain::views_of_upairs(us@));
        proof {
            crate::kv::lemma_map_of_props(crate::blockchain::views_of_upairs(us@));
        }
        let mut i: usize = 0;
        while i < us.len()
            invariant
                i <= us@.len(),
                self.blockchain == old(self).blockchain,
                u == crate::kv::map_of(crate::blockchain::views_of_upairs(us@)),
                forall|j: int|
                    0 <= j < i ==> db_view(self.db).contains_key(
                        encode_utf8((#[trigger] us@[j]).0@),
                    ) && db_view(self.db)[encode_utf8(us@[j].0@)] == enc_list(
                        us@[j].1@,
                        fenc_tx_out(),
                    ),
                forall|kb: Seq<u8>|
                    #[trigger] db_view(self.db).contains_key(kb) ==> exists|j: int|
                        0 <= j < i && encode_utf8((#[trigger] us@[j]).0@) == kb,
            decreases us@.len() - i,
        {
            let key = <str as vstd::string::StrSliceExecFns>::as_bytes_vec(us[i].0.as_str());
            let data = codec::serialize_outputs(&us[i].1);
            match self.db.insert(key.as_slice(), data.as_slice()) {
                Ok(()) => (),
                Err(e) => {
                    return Err(e);
                },
            }
            proof {
                assert forall|j: int|
                    0 <= j < i + 1 implies db_view(self.db).contains_key(
                    encode_utf8((#[trigger] us@[j]).0@),
                ) && db_view(self.db)[encode_utf8(us@[j].0@)] == enc_list(
                    us@[j].1@,
                    fenc_tx_out(),
                ) by {
                    if j < i && encode_utf8(us@[j].0@) == encode_utf8(us@[i as int].0@) {
                        assert(decode_utf8(encode_utf8(us@[j].0@)) == us@[j].0@);
                        assert(us@[j].0@ == us@[i as int].0@);
                        assert(crate::blockchain::views_of_upairs(us@)[j].0
                            == crate::blockchain::views_of_upairs(us@)[i as int].0);
                    }
                }
            }
            i += 1;
        }
        proof {
            assert forall|k: Seq<char>| #[trigger]
                u.contains_key(k) implies db_view(self.db).contains_key(encode_utf8(k)) && db_view(
                self.db,
            )[encode_utf8(k)] == enc_list(u[k], fenc_tx_out()) by {
                let vv = crate::blockchain::views_of_upairs(us@);
                let j = choose|j: int| 0 <= j < vv.len() && (#[trigger] vv[j]).0 == k;
                assert(vv[j] == (us@[j].0@, us@[j].1@));
                assert(us@[j].0@ == k);
                assert(u[k] == vv[j].1);
            }
            assert forall|kb: Seq<u8>| #[trigger]
                db_view(self.db).contains_key(kb) implies exists|k: Seq<char>|
                u.contains_key(k) && #[trigger] encode_utf8(k) == kb by {
                let j = choose|j: int|
                    0 <= j < us@.len() && encode_utf8((#[trigger] us@[j]).0@) == kb;
                let vv = crate::blockchain::views_of_upairs(us@);
                assert(vv[j] == (us@[j].0@, us@[j].1@));
                assert(u.contains_key(us@[j].0@));
            }
        }
        Ok(())
    }

    /// The number of transaction ids the index holds.
    pub fn count_transaction(&self) -> (r: Result<usize, Error>)
        ensures
            r matches Ok(n) ==> exists|es: Seq<(Seq<u8>, Seq<u8>)>|
                #[trigger] entries_of(db_view(self.db), es) && n == es.len(),
            r matches Err(e) ==> e == Error::IoError,
    {
        match self.db.entries() {
            Ok(es) => {
                proof {
                    let esv = es@.map_values(|p: (Vec<u8>, Vec<u8>)| (p.0@, p.1@));
                    assert forall|i: int| 0 <= i < esv.len() implies (#[trigger] esv[i]) == (
                        es@[i].0@,
                        es@[i].1@,
                    ) by {}
                    assert forall|k: Seq<u8>| #[trigger]
                        db_view(self.db).contains_key(k) implies exists|i: int|
                        0 <= i < esv.len() && (#[trigger] esv[i]).0 == k by {
                        let i = choose|i: int| 0 <= i < es@.len() && #[trigger] es@[i].0@ == k;
                        assert(esv[i].0 == k);
                    }
                    assert(entries_of(db_view(self.db), esv));
                }
                Ok(es.len())
            },
            Err(e) => Err(e),
        }
    }
}

} // verus!

verus! {

/// The outputs of `outs` from `idx` on, without the one at position `v`.
pub open spec fn keep_except(outs: Seq<TxOutV>, v: int, idx: int) -> Seq<TxOutV>
    decreases outs.len() - idx,
{
    if idx < 0 || idx >= outs.len() {
        Seq::empty()
    } else {
        (if idx == v {
            Seq::empty()
        } else {
            seq![outs[idx]]
        }) + keep_except(outs, v, idx + 1)
    }
}

/// Consumes the output one input claims: the entry shrinks, and disappears
/// when nothing remains. Nothing when the entry is missing or undecodable.
pub open spec fn upd_input(m: Map<Seq<u8>, Seq<u8>>, inp: TxInV) -> Option<Map<Seq<u8>, Seq<u8>>> {
    let key = encode_utf8(inp.txid);
    if !m.contains_key(key) {
        None
    } else {
        match stored_outputs(m[key]) {
            Some(outs) => {
                let rem = keep_except(outs, inp.vout as int, 0);
                if rem.len() == 0 {
                    Some(m.remove(key))
                } else {
                    Some(m.insert(key, enc_list(rem, fenc_tx_out())))
                }
            },
            None => None,
        }
    }
}

pub open spec fn upd_inputs(m: Map<Seq<u8>, Seq<u8>>, t: crate::transaction::TxV, idx: int) -> Option<
    Map<Seq<u8>, Seq<u8>>,
>
    decreases t.vin.len() - idx,
{
    if idx < 0 || idx >= t.vin.len() {
        Some(m)
    } else {
        match upd_input(m, t.vin[idx]) {
            Some(m2) => upd_inputs(m2, t, idx + 1),
            None => None,
        }
    }
}

/// One transaction's effect on the index: its inputs consume outputs
/// (unless it is a coinbase), then all its own outputs are written under
/// its id.
pub open spec fn upd_tx(m: Map<Seq<u8>, Seq<u8>>, t: crate::transaction::TxV) -> Option<
    Map<Seq<u8>, Seq<u8>>,
> {
    let m1 = if spec_is_coinbase(t) {
        Some(m)
    } else {
        upd_inputs(m, t, 0)
    };
    match m1 {
        Some(m2) => Some(m2.insert(encode_utf8(t.id), enc_list(t.vout, fenc_tx_out()))),
        None => None,
    }
}

pub open spec fn upd_txs(m: Map<Seq<u8>, Seq<u8>>, txs: Seq<crate::transaction::TxV>, idx: int) -> Option<
    Map<Seq<u8>, Seq<u8>>,
>
    decreases txs.len() - idx,
{
    if idx < 0 || idx >= txs.len() {
        Some(m)
    } else {
        match upd_tx(m, txs[idx]) {
            Some(m2) => upd_txs(m2, txs, idx + 1),
            None => None,
        }
    }
}

impl Utxoset {
    /// Applies one block to the index: every non-coinbase input consumes
    /// the output it claims, then each transaction's outputs are written
    /// in full under its id.
    #[verifier::loop_isolation(false)]
    #[verifier::rlimit(100)]
    pub fn update(&mut self, block: &crate::block::Block) -> (r: Result<(), Error>)
        ensures
            final(self).blockchain == old(self).blockchain,
            r is Ok ==> upd_txs(db_view(old(self).db), block@.transactions, 0) == Some(
                db_view(final(self).db),
            ),
            r matches Err(e) ==> e == Error::IoError || e == Error::NotFound || e
                == Error::SerializationError,
    {
        let ghost txsv = block@.transactions;
        let ghost m0 = db_view(self.db);
        let txs = block.get_transactions();
        let mut ti: usize = 0;
        while ti < txs.len()
            invariant
                ti <= txsv.len(),
                self.blockchain == old(self).blockchain,
                txsv == block@.transactions,
                upd_txs(m0, txsv, 0) == upd_txs(db_view(self.db), txsv, ti as int),
            decreases txsv.len() - ti,
        {
            let t = &txs[ti];
            let ghost tv = txsv[ti as int];
            let ghost m_tx = db_view(self.db);
            if !t.is_coinbase() {
                let mut ji: usize = 0;
                while ji < t.vin.len()
                    invariant
                        ji <= tv.vin.len(),
                        self.blockchain == old(self).blockchain,
                        tv == txsv[ti as int],
                        upd_inputs(m_tx, tv, 0) == upd_inputs(db_view(self.db), tv, ji as int),
                    decreases tv.vin.len() - ji,
                {
                    let inp = &t.vin[ji];
                    let ghost m_in = db_view(self.db);
                    let key = <str as vstd::string::StrSliceExecFns>::as_bytes_vec(
                        inp.txid.as_str(),
                    );
                    let data = match self.db.get(key.as_slice()) {
                        Err(e) => {
                            return Err(e);
                        },
                        Ok(None) => {
                            return Err(Error::NotFound);
                        },
                        Ok(Some(d)) => d,
                    };
                    let outs = match codec::deserialize_outputs(data.as_slice()) {
                        Some(o) => o,
                        None => {
                            return Err(Error::SerializationError);
                        },
                    };
                    // Keep every output except the claimed position.
                    let mut rem: Vec<crate::tx::TXOutput> = Vec::new();
                    let mut oi: usize = 0;
                    while oi < outs.outputs.len()
                        invariant
                            oi <= outs.outputs@.len(),
                            codec::views_of_outputs(rem@) + keep_except(
                                outs@,
                                tv.vin[ji as int].vout as int,
                                oi as int,
                            ) =~= keep_except(outs@, tv.vin[ji as int].vout as int, 0),
                        decreases outs.outputs@.len() - oi,
                    {
                        let ghost pre = codec::views_of_outputs(rem@);
                        proof {
                            assert(keep_except(outs@, tv.vin[ji as int].vout as int, oi as int)
                                == (if oi as int == tv.vin[ji as int].vout as int {
                                Seq::<TxOutV>::empty()
                            } else {
                                seq![outs@[oi as int]]
                            }) + keep_except(outs@, tv.vin[ji as int].vout as int, oi + 1));
                        }
                        if !(inp.vout >= 0 && (inp.vout as usize) == oi) {
                            rem.push(outs.outputs[oi].clone());
                            proof {
                                assert(codec::views_of_outputs(rem@) =~= pre.push(
                                    outs@[oi as int],
                                ));
                                assert(pre.push(outs@[oi as int]) + keep_except(
                                    outs@,
                                    tv.vin[ji as int].vout as int,
                                    oi + 1,
                                ) =~= pre + (seq![outs@[oi as int]] + keep_except(
                                    outs@,
                                    tv.vin[ji as int].vout as int,
                                    oi + 1,
                                )));
                            }
                        } else {
                            proof {
                                assert(pre + (Seq::<TxOutV>::empty() + keep_except(
                                    outs@,
                                    tv.vin[ji as int].vout as int,
                                    oi + 1,
                                )) =~= pre + keep_except(
                                    outs@,
                                    tv.vin[ji as int].vout as int,
                                    oi + 1,
                                ));
                            }
                        }
                        oi += 1;
                    }
                    proof {
                        assert(keep_except(
                            outs@,
                            tv.vin[ji as int].vout as int,
                            outs.outputs@.len() as int,
                        ) =~= Seq::<TxOutV>::empty());
                        assert(codec::views_of_outputs(rem@) + Seq::<TxOutV>::empty()
                            =~= codec::views_of_outputs(rem@));
                    }
                    if rem.len() == 0 {
                        match self.db.remove(key.as_slice()) {
                            Ok(()) => (),
                            Err(e) => {
                                return Err(e);
                            },
                        }
                    } else {
                        let newdata = codec::serialize_outputs(
                            &crate::tx::TXOutputs { outputs: rem },
                        );
                        match self.db.insert(key.as_slice(), newdata.as_slice()) {
                            Ok(()) => (),
                            Err(e) => {
                                return Err(e);
                            },
                        }
                    }
                    proof {
                        assert(upd_input(m_in, tv.vin[ji as int]) == Some(db_view(self.db)));
                        assert(upd_inputs(m_in, tv, ji as int) == upd_inputs(
                            db_view(self.db),
                            tv,
                            ji + 1,
                        ));
                    }
                    ji += 1;
                }
                proof {
                    assert(upd_inputs(db_view(self.db), tv, tv.vin.len() as int) == Some(
                        db_view(self.db),
                    ));
                }
            }
            // Write this transaction's own outputs in full.
            let own_key = <str as vstd::string::StrSliceExecFns>::as_bytes_vec(t.id.as_str());
            let mut own: Vec<crate::tx::TXOutput> = Vec::new();
            let mut ki: usize = 0;
            while ki < t.vout.len()
                invariant
                    ki <= tv.vout.len(),
                    tv == txsv[ti as int],
                    codec::views_of_outputs(own@) =~= tv.vout.take(ki as int),
                decreases tv.vout.len() - ki,
            {
                own.push(t.vout[ki].clone());
                proof {
                    assert(codec::views_of_outputs(own@) =~= tv.vout.take(ki + 1));
                }
                ki += 1;
            }
            proof {
                assert(tv.vout.take(tv.vout.len() as int) =~= tv.vout);
            }
            let owndata = codec::serialize_outputs(&crate::tx::TXOutputs { outputs: own });
            match self.db.insert(own_key.as_slice(), owndata.as_slice()) {
                Ok(()) => (),
                Err(e) => {
                    return Err(e);
                },
            }
            proof {
                assert(upd_tx(m_tx, tv) == Some(db_view(self.db)));
                assert(upd_txs(m_tx, txsv, ti as int) == upd_txs(db_view(self.db), txsv, ti + 1));
            }
            ti += 1;
        }
        proof {
            assert(upd_txs(db_view(self.db), txsv, txsv.len() as int) == Some(db_view(self.db)));
        }
        Ok(())
    }
}

} // verus!

verus! {

/// The greedy pass over one entry's outputs: while the running total is
/// below the target, every output locked to `h` is taken.
pub open spec fn outs_scan(outs: Seq<TxOutV>, h: Seq<u8>, amount: i32, acc: int, oi: int) -> (
    int,
    Seq<i32>,
)
    decreases outs.len() - oi,
{
    if oi < 0 || oi >= outs.len() {
        (acc, Seq::empty())
    } else {
        if outs[oi].pub_key_hash == h && acc < amount {
            let rest = outs_scan(outs, h, amount, acc + outs[oi].value, oi + 1);
            (rest.0, seq![oi as i32] + rest.1)
        } else {
            outs_scan(outs, h, amount, acc, oi + 1)
        }
    }
}

/// The greedy pass over the listed entries, in order. Nothing when an
/// entry's key is not UTF-8 or its value does not decode.
pub open spec fn spend_scan(
    es: Seq<(Seq<u8>, Seq<u8>)>,
    h: Seq<u8>,
    amount: i32,
    acc: int,
    ei: int,
) -> Option<(int, Seq<(Seq<char>, Seq<i32>)>)>
    decreases es.len() - ei,
{
    if ei < 0 || ei >= es.len() {
        Some((acc, Seq::empty()))
    } else if !valid_utf8(es[ei].0) {
        None
    } else {
        match stored_outputs(es[ei].1) {
            None => None,
            Some(outs) => {
                let p = outs_scan(outs, h, amount, acc, 0);
                match spend_scan(es, h, amount, p.0, ei + 1) {
                    Some((facc, rest)) => Some(
                        (
                            facc,
                            (if p.1.len() > 0 {
                                seq![(decode_utf8(es[ei].0), p.1)]
                            } else {
                                Seq::empty()
                            }) + rest,
                        ),
                    ),
                    None => None,
                }
            },
        }
    }
}

/// Whether an output is locked to the hash `h`.
pub open spec fn locked_to(h: Seq<u8>) -> spec_fn(TxOutV) -> bool {
    |o: TxOutV| o.pub_key_hash == h
}

/// All stored outputs locked to `h`, in entry order.
pub open spec fn utxo_scan(es: Seq<(Seq<u8>, Seq<u8>)>, h: Seq<u8>, ei: int) -> Option<
    Seq<TxOutV>,
>
    decreases es.len() - ei,
{
    if ei < 0 || ei >= es.len() {
        Some(Seq::empty())
    } else {
        match stored_outputs(es[ei].1) {
            None => None,
            Some(outs) => match utxo_scan(es, h, ei + 1) {
                Some(rest) => Some(outs.filter(locked_to(h)) + rest),
                None => None,
            },
        }
    }
}

impl Utxoset {
    /// Greedily collects outputs locked to `address` until the running
    /// total reaches `amount`: the total reached and, per transaction id,
    /// the indices taken.
    #[verifier::loop_isolation(false)]
    #[verifier::rlimit(100)]
    pub fn find_spendable_outputs(&self, address: &[u8], amount: i32) -> (r: Result<
        (i64, Vec<(String, Vec<i32>)>),
        Error,
    >)
        ensures
            r matches Ok(p) ==> -0x5000_0000_0000_0000i64 < p.0 < 0x1_0000_0000i64,
            r matches Ok(p) ==> exists|es: Seq<(Seq<u8>, Seq<u8>)>|
                #[trigger] entries_of(db_view(self.db), es) && spend_scan(es, address@, amount, 0, 0)
                    == Some((p.0 as int, crate::blockchain::views_of_spairs(p.1@))),
            r matches Err(e) ==> e == Error::IoError || e == Error::SerializationError,
    {
        let es = match self.db.entries() {
            Ok(es) => es,
            Err(e) => {
                return Err(e);
            },
        };
        let ghost esv = es@.map_values(|p: (Vec<u8>, Vec<u8>)| (p.0@, p.1@));
        proof {
            assert forall|i: int| 0 <= i < esv.len() implies (#[trigger] esv[i]) == (
                es@[i].0@,
                es@[i].1@,
            ) by {}
            assert forall|k: Seq<u8>| #[trigger]
                db_view(self.db).contains_key(k) implies exists|i: int|
                0 <= i < esv.len() && (#[trigger] esv[i]).0 == k by {
                let i = choose|i: int| 0 <= i < es@.len() && #[trigger] es@[i].0@ == k;
                assert(esv[i].0 == k);
            }
            assert(entries_of(db_view(self.db), esv));
        }
        let mut acc: i64 = 0;
        let mut picked: Vec<(String, Vec<i32>)> = Vec::new();
        let mut ei: usize = 0;
        while ei < es.len()
            invariant
                ei <= esv.len(),
                esv == es@.map_values(|p: (Vec<u8>, Vec<u8>)| (p.0@, p.1@)),
                -0x5000_0000_0000_0000i64 < acc < 0x1_0000_0000i64,
                spend_scan(esv, address@, amount, 0, 0) == (match spend_scan(
                    esv,
                    address@,
                    amount,
                    acc as int,
                    ei as int,
                ) {
                    Some((facc, rest)) => Some(
                        (facc, crate::blockchain::views_of_spairs(picked@) + rest),
                    ),
                    None => None::<(int, Seq<(Seq<char>, Seq<i32>)>)>,
                }),
            decreases esv.len() - ei,
        {
            let txid = match codec::bytes_to_string(crate::tx::clone_bytes(&es[ei].0)) {
                Some(s) => s,
                None => {
                    return Err(Error::SerializationError);
                },
            };
            let outs = match codec::deserialize_outputs(es[ei].1.as_slice()) {
                Some(o) => o,
                None => {
                    return Err(Error::SerializationError);
                },
            };
            let ghost outsv = outs@;
            let ghost acc0 = acc as int;
            let mut idxs: Vec<i32> = Vec::new();
            let mut oi: usize = 0;
            if outs.outputs.len() > 0x7fff_ffffusize {
                return Err(Error::SerializationError);
            }
            while oi < outs.outputs.len()
                invariant
                    oi <= outsv.len(),
                    outsv.len() <= 0x7fff_ffff,
                    outsv == outs@,
                    -0x5000_0000_0000_0000i64 < acc < 0x1_0000_0000i64,
                    outs_scan(outsv, address@, amount, acc0, 0) == {
                        let p = outs_scan(outsv, address@, amount, acc as int, oi as int);
                        (p.0, idxs@ + p.1)
                    },
                decreases outsv.len() - oi,
            {
                let ghost pre = idxs@;
                proof {
                    assert(outs_scan(outsv, address@, amount, acc as int, oi as int) == (if outsv[
                        oi as int].pub_key_hash == address@ && (acc as int) < amount {
                        let rest = outs_scan(
                            outsv,
                            address@,
                            amount,
                            acc as int + outsv[oi as int].value,
                            oi + 1,
                        );
                        (rest.0, seq![oi as i32] + rest.1)
                    } else {
                        outs_scan(outsv, address@, amount, acc as int, oi + 1)
                    }));
                }
                if outs.outputs[oi].can_be_unlock_with(address) && acc < amount as i64 {
                    if acc < -0x4000_0000_0000_0000i64 {
                        // The running total left any realistic range.
                        return Err(Error::SerializationError);
                    }
                    acc = acc + outs.outputs[oi].value as i64;
                    idxs.push(oi as i32);
                    proof {
                        assert(idxs@ =~= pre.push(oi as i32));
                        let rest = outs_scan(outsv, address@, amount, acc as int, oi + 1);
                        assert(pre.push(oi as i32) + rest.1 =~= pre + (seq![oi as i32] + rest.1));
                    }
                } else {
                }
                oi += 1;
            }
            proof {
                let pend = outs_scan(outsv, address@, amount, acc as int, outsv.len() as int);
                assert(pend.1 =~= Seq::<i32>::empty());
                assert(idxs@ + pend.1 =~= idxs@);
                assert(outs_scan(outsv, address@, amount, acc0, 0) == (acc as int, idxs@));
            }
            let ghost pickedv0 = crate::blockchain::views_of_spairs(picked@);
            if idxs.len() > 0 {
                picked.push((txid, idxs));
            }
            proof {
                assert(esv[ei as int].1 == es@[ei as int].1@);
                assert(decode_utf8(esv[ei as int].0) == txid@);
                if pickedv0.len() + 1 == crate::blockchain::views_of_spairs(picked@).len() {
                }
                assert(crate::blockchain::views_of_spairs(picked@) =~= pickedv0 + (if idxs@.len()
                    > 0 {
                    seq![(decode_utf8(esv[ei as int].0), idxs@)]
                } else {
                    Seq::<(Seq<char>, Seq<i32>)>::empty()
                }));
                if let Some((facc, rest)) = spend_scan(esv, address@, amount, acc as int, ei + 1) {
                    assert(pickedv0 + ((if idxs@.len() > 0 {
                        seq![(decode_utf8(esv[ei as int].0), idxs@)]
                    } else {
                        Seq::<(Seq<char>, Seq<i32>)>::empty()
                    }) + rest) =~= (pickedv0 + (if idxs@.len() > 0 {
                        seq![(decode_utf8(esv[ei as int].0), idxs@)]
                    } else {
                        Seq::<(Seq<char>, Seq<i32>)>::empty()
                    })) + rest);
                }
            }
            ei += 1;
        }
        proof {
            assert(spend_scan(esv, address@, amount, acc as int, esv.len() as int) == Some(
                (acc as int, Seq::<(Seq<char>, Seq<i32>)>::empty()),
            ));
            assert(crate::blockchain::views_of_spairs(picked@) + Seq::<(
                Seq<char>,
                Seq<i32>,
            )>::empty() =~= crate::blockchain::views_of_spairs(picked@));
        }
        Ok((acc, picked))
    }

    /// Every stored output locked to `pub_key_hash`.
    #[verifier::loop_isolation(false)]
    pub fn find_utxo(&self, pub_key_hash: &[u8]) -> (r: Result<TXOutputs, Error>)
        ensures
            r matches Ok(outs) ==> exists|es: Seq<(Seq<u8>, Seq<u8>)>|
                #[trigger] entries_of(db_view(self.db), es) && utxo_scan(es, pub_key_hash@, 0)
                    == Some(outs@),
            r matches Err(e) ==> e == Error::IoError || e == Error::SerializationError,
    {
        let es = match self.db.entries() {
            Ok(es) => es,
            Err(e) => {
                return Err(e);
            },
        };
        let ghost esv = es@.map_values(|p: (Vec<u8>, Vec<u8>)| (p.0@, p.1@));
        proof {
            assert forall|i: int| 0 <= i < esv.len() implies (#[trigger] esv[i]) == (
                es@[i].0@,
                es@[i].1@,
            ) by {}
            assert forall|k: Seq<u8>| #[trigger]
                db_view(self.db).contains_key(k) implies exists|i: int|
                0 <= i < esv.len() && (#[trigger] esv[i]).0 == k by {
                let i = choose|i: int| 0 <= i < es@.len() && #[trigger] es@[i].0@ == k;
                assert(esv[i].0 == k);
            }
            assert(entries_of(db_view(self.db), esv));
        }
        let mut collected: Vec<crate::tx::TXOutput> = Vec::new();
        let mut ei: usize = 0;
        while ei < es.len()
            invariant
                ei <= esv.len(),
                esv == es@.map_values(|p: (Vec<u8>, Vec<u8>)| (p.0@, p.1@)),
                utxo_scan(esv, pub_key_hash@, 0) == (match utxo_scan(
                    esv,
                    pub_key_hash@,
                    ei as int,
                ) {
                    Some(rest) => Some(codec::views_of_outputs(collected@) + rest),
                    None => None::<Seq<TxOutV>>,
                }),
            decreases esv.len() - ei,
        {
            let outs = match codec::deserialize_outputs(es[ei].1.as_slice()) {
                Some(o) => o,
                None => {
                    return Err(Error::SerializationError);
                },
            };
            let ghost outsv = outs@;
            let ghost pre = codec::views_of_outputs(collected@);
            let mut oi: usize = 0;
            while oi < outs.outputs.len()
                invariant
                    oi <= outsv.len(),
                    outsv == outs@,
                    codec::views_of_outputs(collected@) =~= pre + outsv.take(oi as int).filter(
                        locked_to(pub_key_hash@),
                    ),
                decreases outsv.len() - oi,
            {
                proof {
                    reveal(Seq::filter);
                    let tk = outsv.take(oi as int);
                    assert(outsv.take(oi + 1) =~= tk.push(outsv[oi as int]));
                    assert(tk.push(outsv[oi as int]).drop_last() =~= tk);
                    assert(tk.push(outsv[oi as int]).last() == outsv[oi as int]);
                }
                let ghost mid = codec::views_of_outputs(collected@);
                if outs.outputs[oi].can_be_unlock_with(pub_key_hash) {
                    collected.push(outs.outputs[oi].clone());
                    proof {
                        reveal(Seq::filter);
                        let tk = outsv.take(oi as int);
                        assert(codec::views_of_outputs(collected@) =~= mid.push(outsv[oi as int]));
                        assert(tk.push(outsv[oi as int]).filter(locked_to(pub_key_hash@))
                            == tk.filter(locked_to(pub_key_hash@)).push(outsv[oi as int]));
                        assert(mid.push(outsv[oi as int]) =~= pre + outsv.take(oi + 1).filter(
                            locked_to(pub_key_hash@),
                        ));
                    }
                } else {
                    proof {
                        reveal(Seq::filter);
                        let tk = outsv.take(oi as int);
                        assert(tk.push(outsv[oi as int]).filter(locked_to(pub_key_hash@))
                            == tk.filter(locked_to(pub_key_hash@)));
                    }
                }
                oi += 1;
            }
            proof {
                assert(outsv.take(outsv.len() as int) =~= outsv);
                assert(esv[ei as int].1 == es@[ei as int].1@);
                if let Some(rest) = utxo_scan(esv, pub_key_hash@, ei + 1) {
                    assert(pre + (outsv.filter(locked_to(pub_key_hash@)) + rest) =~= (pre
                        + outsv.filter(locked_to(pub_key_hash@))) + rest);
                }
            }
            ei += 1;
        }
        proof {
            assert(utxo_scan(esv, pub_key_hash@, esv.len() as int) == Some(Seq::<TxOutV>::empty()));
            assert(codec::views_of_outputs(collected@) + Seq::<TxOutV>::empty()
                =~= codec::views_of_outputs(collected@));
        }
        Ok(TXOutputs { outputs: collected })
    }
}

} // verus!

verus! {

/// The total value of the outputs locked to `h`, from index `oi` on.
pub open spec fn outs_total(outs: Seq<TxOutV>, h: Seq<u8>, oi: int) -> int
    decreases outs.len() - oi,
{
    if oi < 0 || oi >= outs.len() {
        0
    } else {
        (if outs[oi].pub_key_hash == h {
            outs[oi].value as int
        } else {
            0
        }) + outs_total(outs, h, oi + 1)
    }
}

/// The total value locked to `h` across the listed entries, from entry
/// `ei` on; nothing when an entry does not decode.
pub open spec fn scan_total(es: Seq<(Seq<u8>, Seq<u8>)>, h: Seq<u8>, ei: int) -> Option<int>
    decreases es.len() - ei,
{
    if ei < 0 || ei >= es.len() {
        Some(0)
    } else {
        match stored_outputs(es[ei].1) {
            None => None,
            Some(outs) => match scan_total(es, h, ei + 1) {
                Some(rest) => Some(outs_total(outs, h, 0) + rest),
                None => None,
            },
        }
    }
}

/// Whether every listed entry decodes, with a UTF-8 key and no negative
/// output value.
pub open spec fn entries_decodable_nonneg(es: Seq<(Seq<u8>, Seq<u8>)>) -> bool {
    forall|ei: int|
        0 <= ei < es.len() ==> valid_utf8((#[trigger] es[ei]).0) && (stored_outputs(es[ei].1)
            matches Some(outs) && forall|oi: int| 0 <= oi < outs.len() ==> (#[trigger] outs[oi]).value >= 0)
}

proof fn lemma_outs_scan_total(outs: Seq<TxOutV>, h: Seq<u8>, amount: i32, acc: int, oi: int)
    requires
        forall|k: int| 0 <= k < outs.len() ==> (#[trigger] outs[k]).value >= 0,
    ensures
        acc <= crate::utxoset::outs_scan(outs, h, amount, acc, oi).0 <= acc + outs_total(
            outs,
            h,
            oi,
        ),
        crate::utxoset::outs_scan(outs, h, amount, acc, oi).0 >= amount <==> acc + outs_total(
            outs,
            h,
            oi,
        ) >= amount,
        outs_total(outs, h, oi) >= 0,
        crate::utxoset::outs_scan(outs, h, amount, acc, oi).0 < amount ==> crate::utxoset::outs_scan(
            outs,
            h,
            amount,
            acc,
            oi,
        ).0 == acc + outs_total(outs, h, oi),
    decreases outs.len() - oi,
{
    if 0 <= oi < outs.len() {
        assert(outs[oi].value >= 0);
        if outs[oi].pub_key_hash == h && acc < amount {
            lemma_outs_scan_total(outs, h, amount, acc + outs[oi].value, oi + 1);
        } else {
            lemma_outs_scan_total(outs, h, amount, acc, oi + 1);
        }
    }
}

proof fn lemma_spend_scan_total(
    es: Seq<(Seq<u8>, Seq<u8>)>,
    h: Seq<u8>,
    amount: i32,
    acc: int,
    ei: int,
)
    requires
        entries_decodable_nonneg(es),
    ensures
        spend_scan(es, h, amount, acc, ei) matches Some(p) && acc <= p.0 <= acc + (scan_total(
            es,
            h,
            ei,
        )->0) && (p.0 >= amount <==> acc + (scan_total(es, h, ei)->0) >= amount) && scan_total(
            es,
            h,
            ei,
        ) is Some,
    decreases es.len() - ei,
{
    if 0 <= ei < es.len() {
        let outs = stored_outputs(es[ei].1)->0;
        let mid = crate::utxoset::outs_scan(outs, h, amount, acc, 0).0;
        lemma_outs_scan_total(outs, h, amount, acc, 0);
        lemma_spend_scan_total(es, h, amount, mid, ei + 1);
    }
}

/// The greedy pass reaches the requested amount exactly when the total of
/// all stored outputs locked to the hash reaches it, provided every entry
/// decodes and no stored value is negative.
pub proof fn lemma_spendable_reaches_amount(es: Seq<(Seq<u8>, Seq<u8>)>, h: Seq<u8>, amount: i32)
    requires
        entries_decodable_nonneg(es),
    ensures
        spend_scan(es, h, amount, 0, 0) matches Some(p) && (p.0 >= amount <==> scan_total(
            es,
            h,
            0,
        )->0 >= amount),
{
    lemma_spend_scan_total(es, h, amount, 0, 0);
}

} // verus!
