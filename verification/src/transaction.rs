use vstd::prelude::*;

use crate::tx::{TXInput, TXOutput, TxInV, TxOutV};

verus! {

/// Model of a transaction.
pub struct TxV {
    pub id: Seq<char>,
    pub vin: Seq<TxInV>,
    pub vout: Seq<TxOutV>,
}

/// A transaction: an id (hash of the body with the id blanked), ordered
/// inputs, and ordered outputs.
#[derive(Debug)]
pub struct Transaction {
    pub id: String,
    pub vin: Vec<TXInput>,
    pub vout: Vec<TXOutput>,
}

impl View for Transaction {
    type V = TxV;

    open spec fn view(&self) -> TxV {
        TxV {
            id: self.id@,
            vin: self.vin@.map_values(|i: TXInput| i@),
            vout: self.vout@.map_values(|o: TXOutput| o@),
        }
    }
}

/// Whether a transaction model is a coinbase: a single input whose claimed
/// transaction id is empty and whose output index is -1.
pub open spec fn spec_is_coinbase(t: TxV) -> bool {
    t.vin.len() == 1 && t.vin[0].txid.len() == 0 && t.vin[0].vout == -1
}

impl Transaction {
    /// Whether this transaction is a coinbase.
    pub fn is_coinbase(&self) -> (r: bool)
        ensures
            r == spec_is_coinbase(self@),
    {
        self.vin.len() == 1 && self.vin[0].txid.as_str().is_empty() && self.vin[0].vout == -1
    }

    /// A structural erasure of this transaction: the same id, inputs with
    /// empty signature and empty public key, and outputs copied as they are.
    pub fn trim_copy(&self) -> (r: Transaction)
        ensures
            r@ == spec_trim(self@),
    {
        let mut vin: Vec<TXInput> = Vec::new();
        let mut vout: Vec<TXOutput> = Vec::new();
        let mut i: usize = 0;
        while i < self.vin.len()
            invariant
                i <= self.vin@.len(),
                vin@.len() == i,
                forall|j: int| 0 <= j < i ==> vin@[j]@ == spec_trim_in(self@.vin[j]),
            decreases self.vin@.len() - i,
        {
            let inp = &self.vin[i];
            vin.push(TXInput {
                txid: inp.txid.clone(),
                vout: inp.vout,
                signature: Vec::new(),
                pub_key: Vec::new(),
            });
            i += 1;
        }
        let mut j: usize = 0;
        while j < self.vout.len()
            invariant
                j <= self.vout@.len(),
                vout@.len() == j,
                forall|k: int| 0 <= k < j ==> vout@[k]@ == self@.vout[k],
            decreases self.vout@.len() - j,
        {
            let out = &self.vout[j];
            vout.push(TXOutput { value: out.value, pub_key_hash: out.pub_key_hash.clone() });
            j += 1;
        }
        let r = Transaction { id: self.id.clone(), vin, vout };
        proof {
            assert(r@.vin =~= spec_trim(self@).vin);
            assert(r@.vout =~= spec_trim(self@).vout);
        }
        r
    }
}

impl Clone for Transaction {
    /// A copy whose model is the same.
    fn clone(&self) -> (r: Self)
        ensures
            r@ == self@,
    {
        let mut vin: Vec<TXInput> = Vec::new();
        let mut vout: Vec<TXOutput> = Vec::new();
        let mut i: usize = 0;
        while i < self.vin.len()
            invariant
                i <= self.vin@.len(),
                vin@.len() == i,
                forall|j: int| 0 <= j < i ==> vin@[j]@ == self@.vin[j],
            decreases self.vin@.len() - i,
        {
            vin.push(self.vin[i].clone());
            i += 1;
        }
        let mut j: usize = 0;
        while j < self.vout.len()
            invariant
                j <= self.vout@.len(),
                vout@.len() == j,
                forall|k: int| 0 <= k < j ==> vout@[k]@ == self@.vout[k],
            decreases self.vout@.len() - j,
        {
            vout.push(self.vout[j].clone());
            j += 1;
        }
        let r = Transaction { id: self.id.clone(), vin, vout };
        proof {
            assert(r@.vin =~= self@.vin);
            assert(r@.vout =~= self@.vout);
        }
        r
    }
}

/// The erasure of one input: signature and public key emptied.
pub open spec fn spec_trim_in(i: TxInV) -> TxInV {
    TxInV { txid: i.txid, vout: i.vout, signature: Seq::empty(), pub_key: Seq::empty() }
}

/// The trimmed copy of a transaction model.
pub open spec fn spec_trim(t: TxV) -> TxV {
    TxV { id: t.id, vin: t.vin.map_values(|i: TxInV| spec_trim_in(i)), vout: t.vout }
}

} // verus!

use crate::codec;
use crate::errors::Error;
use crate::hashing::sha256_hex_of;

verus! {

/// The transaction with its id blanked: the body that the id hashes.
pub open spec fn spec_blank_id(t: TxV) -> TxV {
    TxV { id: Seq::empty(), vin: t.vin, vout: t.vout }
}

/// The id a transaction body determines: the hex SHA-256 digest of the
/// encoding of the body with the id blanked.
pub open spec fn tx_id_of(t: TxV) -> Seq<char> {
    sha256_hex_of(codec::enc_tx(spec_blank_id(t)))
}

/// The id of this transaction's body.
pub fn compute_id(t: &Transaction) -> (r: String)
    ensures
        r@ == tx_id_of(t@),
{
    let mut out: Vec<u8> = Vec::new();
    codec::write_string(&mut out, "");
    codec::write_tx_in_list(&mut out, &t.vin);
    codec::write_tx_out_list(&mut out, &t.vout);
    proof {
        reveal_strlit("");
        assert(""@ =~= Seq::<char>::empty());
        assert(codec::views_of_inputs(t.vin@) =~= t@.vin);
        assert(codec::views_of_outputs(t.vout@) =~= t@.vout);
        assert(out@ =~= codec::enc_tx(spec_blank_id(t@)));
    }
    crate::hashing::sha256_hex(out.as_slice())
}

impl Transaction {
    /// Blanks the id and returns the hash of the resulting body.
    pub fn hash(&mut self) -> (r: Result<String, Error>)
        ensures
            final(self)@ == spec_blank_id(old(self)@),
            r matches Ok(s) && s@ == tx_id_of(old(self)@),
    {
        self.id = String::new();
        proof {
            assert(self@.id =~= Seq::<char>::empty());
            assert(self@ == spec_blank_id(old(self)@));
            assert(spec_blank_id(self@) == spec_blank_id(old(self)@));
        }
        let r = compute_id(self);
        Ok(r)
    }

    /// A coinbase paying the fixed reward to `to`; the single input carries
    /// the data string (or a default note naming `to`) in its key field.
    pub fn new_coinbase(to: String, data: String) -> (r: Result<Transaction, Error>)
        ensures
            r is Ok <==> (!crate::tx::short_prefixed(to@) && crate::tx::address_payload_of(to@)
                is Some),
            r matches Ok(t) ==> spec_is_coinbase(t@) && t@.vout.len() == 1 && t@.vout[0].value
                == crate::SUBSIDY && crate::tx::address_payload_of(to@) == Some(
                t@.vout[0].pub_key_hash,
            ) && t@.id == tx_id_of(t@) && t@.vin[0].signature.len() == 0 && t@.vin[0].pub_key
                == vstd::utf8::encode_utf8(
                if data@.len() == 0 {
                    "Reward to "@ + to@
                } else {
                    data@
                },
            ),
            r matches Err(e) ==> e == Error::SerializationError,
    {
        let data2: String = if data.as_str().is_empty() {
            let prefix = <String as vstd::string::StringExecFns>::from_str("Reward to ");
            <String as vstd::string::StringExecFns>::concat(prefix, to.as_str())
        } else {
            data
        };
        let pub_key: Vec<u8> =
            <str as vstd::string::StrSliceExecFns>::as_bytes_vec(data2.as_str());
        let out0 = match TXOutput::new(crate::SUBSIDY, to) {
            Ok(o) => o,
            Err(e) => {
                return Err(e);
            },
        };
        let mut tx = Transaction {
            id: String::new(),
            vin: Vec::new(),
            vout: Vec::new(),
        };
        tx.vin.push(TXInput { txid: String::new(), vout: -1, signature: Vec::new(), pub_key });
        tx.vout.push(out0);
        let id = compute_id(&tx);
        let ghost before = tx@;
        tx.id = id;
        proof {
            assert(tx@.vin =~= before.vin);
            assert(tx@.vout =~= before.vout);
            assert(spec_blank_id(tx@) == spec_blank_id(before));
        }
        Ok(tx)
    }
}

} // verus!

use crate::hashing::{ed25519_check, ed25519_ok, ed25519_sig_of, ed25519_sign};
use crate::tx::clone_bytes;
use vstd::utf8::encode_utf8;

verus! {

/// The first transaction with the given id, if any.
pub open spec fn find_tx(txs: Seq<TxV>, id: Seq<char>) -> Option<TxV>
    decreases txs.len(),
{
    if txs.len() == 0 {
        None
    } else if txs[0].id == id {
        Some(txs[0])
    } else {
        find_tx(txs.drop_first(), id)
    }
}

/// Views of a sequence of transactions.
pub open spec fn views_of_tx_vec(s: Seq<Transaction>) -> Seq<TxV> {
    s.map_values(|t: Transaction| t@)
}

proof fn lemma_find_tx_skip(s: Seq<TxV>, id: Seq<char>, i: int)
    requires
        0 <= i <= s.len(),
        forall|j: int| 0 <= j < i ==> s[j].id != id,
    ensures
        find_tx(s, id) == find_tx(s.skip(i), id),
    decreases i,
{
    if i > 0 {
        assert(find_tx(s, id) == find_tx(s.drop_first(), id));
        assert(s.drop_first() =~= s.skip(1));
        lemma_find_tx_skip(s.drop_first(), id, i - 1);
        assert(s.drop_first().skip(i - 1) =~= s.skip(i));
    } else {
        assert(s.skip(0) =~= s);
    }
}

/// The first stored transaction with the given id.
pub(crate) fn lookup_tx<'a>(txs: &'a Vec<Transaction>, id: &String) -> (r: Option<&'a Transaction>)
    ensures
        r is Some <==> find_tx(views_of_tx_vec(txs@), id@) is Some,
        r matches Some(t) ==> find_tx(views_of_tx_vec(txs@), id@) == Some(t@),
{
    let ghost s = views_of_tx_vec(txs@);
    let mut i: usize = 0;
    while i < txs.len()
        invariant
            i <= txs@.len(),
            s == views_of_tx_vec(txs@),
            forall|j: int| 0 <= j < i ==> s[j].id != id@,
        decreases txs@.len() - i,
    {
        if txs[i].id == *id {
            proof {
                lemma_find_tx_skip(s, id@, i as int);
                assert(s.skip(i as int)[0] == s[i as int]);
                assert(find_tx(s.skip(i as int), id@) == Some(s[i as int]));
            }
            return Some(&txs[i]);
        }
        i += 1;
    }
    proof {
        lemma_find_tx_skip(s, id@, txs@.len() as int);
        assert(s.skip(s.len() as int) =~= Seq::<TxV>::empty());
    }
    None
}

/// The trimmed copy used by the two-step scheme for input `i`: id blanked,
/// every input erased, and input `i` carrying `lock` in its key field.
pub open spec fn trim_for(t: TxV, i: int, lock: Seq<u8>) -> TxV {
    TxV {
        id: Seq::empty(),
        vin: Seq::new(
            t.vin.len(),
            |j: int|
                if j == i {
                    TxInV {
                        txid: t.vin[j].txid,
                        vout: t.vin[j].vout,
                        signature: Seq::empty(),
                        pub_key: lock,
                    }
                } else {
                    spec_trim_in(t.vin[j])
                },
        ),
        vout: t.vout,
    }
}

/// Whether every input of `t` links to a previous transaction: its claimed
/// id is found with a nonempty id, and its output index is in range.
pub open spec fn inputs_linkable(t: TxV, prevs: Seq<TxV>) -> bool {
    forall|i: int|
        0 <= i < t.vin.len() ==> (#[trigger] find_tx(prevs, t.vin[i].txid) matches Some(p)
            && p.id.len() > 0 && 0 <= t.vin[i].vout < p.vout.len())
}

/// The hex digest that input `i` signs: the hash of the trimmed copy
/// carrying the lock of the output it claims.
pub open spec fn sign_digest_of(t: TxV, prevs: Seq<TxV>, i: int) -> Seq<char> {
    let p = find_tx(prevs, t.vin[i].txid)->0;
    let lock = p.vout[t.vin[i].vout as int].pub_key_hash;
    sha256_hex_of(codec::enc_tx(trim_for(t, i, lock)))
}

/// Whether input `i` of `t` carries a signature that checks out against the
/// lock of the output it claims.
pub open spec fn input_verifies(t: TxV, prevs: Seq<TxV>, i: int) -> bool {
    t.vin[i].pub_key.len() == 32 && t.vin[i].signature.len() == 64 && ed25519_ok(
        encode_utf8(sign_digest_of(t, prevs, i)),
        t.vin[i].pub_key,
        t.vin[i].signature,
    )
}

/// Whether a non-coinbase transaction verifies: every input does.
pub open spec fn tx_verifies(t: TxV, prevs: Seq<TxV>) -> bool {
    forall|i: int| 0 <= i < t.vin.len() ==> #[trigger] input_verifies(t, prevs, i)
}

/// The hex digest that input `i` signs, as a string.
#[verifier::loop_isolation(false)]
fn input_digest(t: &Transaction, i: usize, lock: &Vec<u8>) -> (r: String)
    requires
        i < t.vin@.len(),
    ensures
        r@ == sha256_hex_of(codec::enc_tx(trim_for(t@, i as int, lock@))),
{
    let mut tc = t.trim_copy();
    proof {
        assert(tc@.vin.len() == t@.vin.len());
        assert(tc.vin@.len() == t.vin@.len());
    }
    let new_in = TXInput {
        txid: t.vin[i].txid.clone(),
        vout: t.vin[i].vout,
        signature: Vec::new(),
        pub_key: clone_bytes(lock),
    };
    let ghost tc0 = tc@;
    let ghost niv = new_in@;
    tc.vin.set(i, new_in);
    proof {
        let target = trim_for(t@, i as int, lock@);
        assert(tc0 == spec_trim(t@));
        assert(tc0.vin[i as int] == spec_trim_in(t@.vin[i as int]));
        assert(niv == (TxInV {
            txid: t@.vin[i as int].txid,
            vout: t@.vin[i as int].vout,
            signature: Seq::empty(),
            pub_key: lock@,
        }));
        assert forall|j: int| 0 <= j < tc@.vin.len() implies tc@.vin[j] == target.vin[j] by {
            if j == i as int {
                assert(tc@.vin[j] == niv);
            } else {
                assert(tc@.vin[j] == tc0.vin[j]);
                assert(tc0.vin[j] == spec_trim_in(t@.vin[j]));
            }
        }
        assert(spec_blank_id(tc@).vin =~= target.vin);
        assert(spec_blank_id(tc@).vout =~= target.vout);
        assert(spec_blank_id(tc@) == target);
    }
    compute_id(&tc)
}

impl Transaction {
    /// Signs every input against the previous transactions it claims.
    /// Fails exactly when some input cannot be linked to a previous
    /// transaction; a coinbase is left untouched.
    #[verifier::loop_isolation(false)]
    pub fn sign(&mut self, private_key: &[u8], prev_txs: &Vec<Transaction>) -> (r: Result<
        (),
        Error,
    >)
        requires
            private_key@.len() == 64,
        ensures
            spec_is_coinbase(old(self)@) ==> r is Ok && final(self)@ == old(self)@,
            !spec_is_coinbase(old(self)@) ==> (r is Ok <==> inputs_linkable(
                old(self)@,
                views_of_tx_vec(prev_txs@),
            )),
            r matches Err(e) ==> e == Error::InvalidTransaction && final(self)@ == old(self)@,
            !spec_is_coinbase(old(self)@) && r is Ok ==> {
                &&& final(self)@.id == old(self)@.id
                &&& final(self)@.vout == old(self)@.vout
                &&& final(self)@.vin.len() == old(self)@.vin.len()
                &&& forall|i: int|
                    0 <= i < old(self)@.vin.len() ==> final(self)@.vin[i] == (TxInV {
                        signature: ed25519_sig_of(
                            encode_utf8(
                                sign_digest_of(old(self)@, views_of_tx_vec(prev_txs@), i),
                            ),
                            private_key@,
                        ),
                        ..old(self)@.vin[i]
                    }) && (#[trigger] final(self)@.vin[i]).signature.len() == 64
            },
    {
        if self.is_coinbase() {
            return Ok(());
        }
        let ghost prevs = views_of_tx_vec(prev_txs@);
        let ghost orig = self@;
        // First pass: check that every input links to a previous transaction.
        let mut i: usize = 0;
        while i < self.vin.len()
            invariant
                i <= self.vin@.len(),
                self@ == orig,
                prevs == views_of_tx_vec(prev_txs@),
                forall|j: int|
                    0 <= j < i ==> (#[trigger] find_tx(prevs, orig.vin[j].txid) matches Some(p)
                        && p.id.len() > 0 && 0 <= orig.vin[j].vout < p.vout.len()),
            decreases self.vin@.len() - i,
        {
            match lookup_tx(prev_txs, &self.vin[i].txid) {
                Some(p) => {
                    proof {
                        assert(find_tx(prevs, orig.vin[i as int].txid) == Some(p@));
                    }
                    if p.id.as_str().is_empty() {
                        proof {
                            assert(!(find_tx(prevs, orig.vin[i as int].txid) matches Some(q)
                                && q.id.len() > 0 && 0 <= orig.vin[i as int].vout
                                < q.vout.len()));
                            assert(!inputs_linkable(orig, prevs));
                        }
                        return Err(Error::InvalidTransaction);
                    }
                    if self.vin[i].vout < 0 || (self.vin[i].vout as usize) >= p.vout.len() {
                        proof {
                            assert(!(find_tx(prevs, orig.vin[i as int].txid) matches Some(q)
                                && q.id.len() > 0 && 0 <= orig.vin[i as int].vout
                                < q.vout.len()));
                            assert(!inputs_linkable(orig, prevs));
                        }
                        return Err(Error::InvalidTransaction);
                    }
                },
                None => {
                    proof {
                        assert(!(find_tx(prevs, orig.vin[i as int].txid) matches Some(q)
                            && q.id.len() > 0 && 0 <= orig.vin[i as int].vout < q.vout.len()));
                        assert(!inputs_linkable(orig, prevs));
                    }
                    return Err(Error::InvalidTransaction);
                },
            }
            i += 1;
        }
        // Second pass: sign each input over its trimmed digest.
        let mut k: usize = 0;
        while k < self.vin.len()
            invariant
                k <= self.vin@.len(),
                prevs == views_of_tx_vec(prev_txs@),
                inputs_linkable(orig, prevs),
                private_key@.len() == 64,
                self@.id == orig.id,
                self@.vout == orig.vout,
                self@.vin.len() == orig.vin.len(),
                forall|j: int| k <= j < orig.vin.len() ==> self@.vin[j] == orig.vin[j],
                forall|j: int|
                    0 <= j < k ==> self@.vin[j] == (TxInV {
                        signature: ed25519_sig_of(
                            encode_utf8(sign_digest_of(orig, prevs, j)),
                            private_key@,
                        ),
                        ..orig.vin[j]
                    }) && (#[trigger] self@.vin[j]).signature.len() == 64,
            decreases self.vin@.len() - k,
        {
            let prev = match lookup_tx(prev_txs, &self.vin[k].txid) {
                Some(p) => p,
                None => {
                    proof {
                        assert(find_tx(prevs, orig.vin[k as int].txid) is Some);
                        assert(false);
                    }
                    return Err(Error::InvalidTransaction);
                },
            };
            proof {
                assert(find_tx(prevs, orig.vin[k as int].txid) == Some(prev@));
                assert(0 <= orig.vin[k as int].vout < prev@.vout.len());
            }
            let lock = clone_bytes(&prev.vout[self.vin[k].vout as usize].pub_key_hash);
            let ghost tfk = trim_for(orig, k as int, lock@);
            let digest = input_digest(self, k, &lock);
            proof {
                assert forall|j: int|
                    0 <= j < self@.vin.len() implies trim_for(self@, k as int, lock@).vin[j]
                    == tfk.vin[j] by {
                    assert(self@.vin[j].txid == orig.vin[j].txid);
                    assert(self@.vin[j].vout == orig.vin[j].vout);
                }
                assert(trim_for(self@, k as int, lock@).vin =~= tfk.vin);
                assert(trim_for(self@, k as int, lock@).vout =~= tfk.vout);
                assert(trim_for(self@, k as int, lock@) == tfk);
                assert(lock@ == find_tx(prevs, orig.vin[k as int].txid)->0.vout[orig.vin[
                    k as int].vout as int].pub_key_hash);
                assert(digest@ == sign_digest_of(orig, prevs, k as int));
            }
            let msg = <str as vstd::string::StrSliceExecFns>::as_bytes_vec(digest.as_str());
            let sig = ed25519_sign(msg.as_slice(), private_key);
            let signed_in = TXInput {
                txid: self.vin[k].txid.clone(),
                vout: self.vin[k].vout,
                signature: sig,
                pub_key: clone_bytes(&self.vin[k].pub_key),
            };
            let ghost siv = signed_in@;
            let ghost before = self@;
            self.vin.set(k, signed_in);
            proof {
                assert(siv == (TxInV { signature: sig@, ..orig.vin[k as int] }));
                assert forall|j: int| 0 <= j < self@.vin.len() implies #[trigger] self@.vin[j]
                    == (if j == k as int { siv } else { before.vin[j] }) by {
                }
            }
            k += 1;
        }
        Ok(())
    }

    /// Checks every input's signature against the previous transactions it
    /// claims. A coinbase verifies; a missing or id-less previous
    /// transaction is an error; any other failure yields `false`.
    #[verifier::loop_isolation(false)]
    pub fn verify(&self, prev_txs: &Vec<Transaction>) -> (r: Result<bool, Error>)
        ensures
            spec_is_coinbase(self@) ==> (r matches Ok(b) && b),
            !spec_is_coinbase(self@) ==> {
                &&& (r is Err <==> !(forall|i: int|
                    0 <= i < self@.vin.len() ==> (#[trigger] find_tx(
                        views_of_tx_vec(prev_txs@),
                        self@.vin[i].txid,
                    ) matches Some(p) && p.id.len() > 0)))
                &&& (r matches Ok(b) ==> (b <==> (inputs_linkable(self@, views_of_tx_vec(prev_txs@))
                    && tx_verifies(self@, views_of_tx_vec(prev_txs@)))))
            },
            r matches Err(e) ==> e == Error::InvalidTransaction,
    {
        if self.is_coinbase() {
            return Ok(true);
        }
        let ghost prevs = views_of_tx_vec(prev_txs@);
        // First pass: every claimed previous transaction must be present.
        let mut i: usize = 0;
        while i < self.vin.len()
            invariant
                i <= self.vin@.len(),
                prevs == views_of_tx_vec(prev_txs@),
                forall|j: int|
                    0 <= j < i ==> (#[trigger] find_tx(prevs, self@.vin[j].txid) matches Some(p)
                        && p.id.len() > 0),
            decreases self.vin@.len() - i,
        {
            match lookup_tx(prev_txs, &self.vin[i].txid) {
                Some(p) => {
                    proof {
                        assert(find_tx(prevs, self@.vin[i as int].txid) == Some(p@));
                    }
                    if p.id.as_str().is_empty() {
                        proof {
                            assert(!(find_tx(prevs, self@.vin[i as int].txid) matches Some(q)
                                && q.id.len() > 0));
                        }
                        return Err(Error::InvalidTransaction);
                    }
                },
                None => {
                    proof {
                        assert(!(find_tx(prevs, self@.vin[i as int].txid) matches Some(q)
                            && q.id.len() > 0));
                    }
                    return Err(Error::InvalidTransaction);
                },
            }
            i += 1;
        }
        // Second pass: check each input.
        let mut k: usize = 0;
        while k < self.vin.len()
            invariant
                k <= self.vin@.len(),
                prevs == views_of_tx_vec(prev_txs@),
                forall|j: int|
                    0 <= j < self@.vin.len() ==> (#[trigger] find_tx(
                        prevs,
                        self@.vin[j].txid,
                    ) matches Some(p) && p.id.len() > 0),
                forall|j: int|
                    0 <= j < k ==> (#[trigger] find_tx(prevs, self@.vin[j].txid) matches Some(p)
                        && 0 <= self@.vin[j].vout < p.vout.len()) && input_verifies(
                        self@,
                        prevs,
                        j,
                    ),
            decreases self.vin@.len() - k,
        {
            let prev = match lookup_tx(prev_txs, &self.vin[k].txid) {
                Some(p) => p,
                None => {
                    proof {
                        assert(find_tx(prevs, self@.vin[k as int].txid) is Some);
                        assert(false);
                    }
                    return Err(Error::InvalidTransaction);
                },
            };
            proof {
                assert(find_tx(prevs, self@.vin[k as int].txid) == Some(prev@));
            }
            if self.vin[k].vout < 0 || (self.vin[k].vout as usize) >= prev.vout.len() {
                proof {
                    assert(!(find_tx(prevs, self@.vin[k as int].txid) matches Some(q)
                        && q.id.len() > 0 && 0 <= self@.vin[k as int].vout < q.vout.len()));
                    assert(!inputs_linkable(self@, prevs));
                }
                return Ok(false);
            }
            let lock = clone_bytes(&prev.vout[self.vin[k].vout as usize].pub_key_hash);
            let digest = input_digest(self, k, &lock);
            proof {
                assert(lock@ == find_tx(prevs, self@.vin[k as int].txid)->0.vout[self@.vin[
                    k as int].vout as int].pub_key_hash);
                assert(digest@ == sign_digest_of(self@, prevs, k as int));
            }
            let msg = <str as vstd::string::StrSliceExecFns>::as_bytes_vec(digest.as_str());
            if self.vin[k].pub_key.len() != 32 || self.vin[k].signature.len() != 64 {
                proof {
                    assert(!input_verifies(self@, prevs, k as int));
                    assert(!tx_verifies(self@, prevs));
                }
                return Ok(false);
            }
            let ok = ed25519_check(
                msg.as_slice(),
                self.vin[k].pub_key.as_slice(),
                self.vin[k].signature.as_slice(),
            );
            if !ok {
                proof {
                    assert(!input_verifies(self@, prevs, k as int));
                    assert(!tx_verifies(self@, prevs));
                }
                return Ok(false);
            }
            proof {
                assert(input_verifies(self@, prevs, k as int));
            }
            k += 1;
        }
        proof {
            let ghost n = self@.vin.len() as int;
            assert forall|j: int| 0 <= j < n implies (#[trigger] find_tx(
                prevs,
                self@.vin[j].txid,
            ) matches Some(p) && p.id.len() > 0 && 0 <= self@.vin[j].vout < p.vout.len()) by {
                assert(find_tx(prevs, self@.vin[j].txid) is Some);
            }
            assert(inputs_linkable(self@, prevs));
            assert forall|j: int| 0 <= j < n implies #[trigger] input_verifies(
                self@,
                prevs,
                j,
            ) by {
                assert(find_tx(prevs, self@.vin[j].txid) is Some);
            }
            assert(tx_verifies(self@, prevs));
        }
        Ok(true)
    }
}

} // verus!

use crate::hashing::pub_key_hash_of;
use crate::utxoset::Utxoset;

verus! {

/// The key material a wallet provides: a 64-byte expanded Ed25519 secret
/// key and the raw public key.
pub struct Wallet {
    pub secret_key: Vec<u8>,
    pub public_key: Vec<u8>,
}

/// A transaction's inputs with their signatures cleared.
pub open spec fn unsigned_vins(vin: Seq<TxInV>) -> Seq<TxInV> {
    vin.map_values(|i: TxInV| TxInV { signature: Seq::empty(), ..i })
}

/// The unsigned inputs one scanned pick yields: one per listed index, all
/// carrying the sender's raw public key.
pub open spec fn pick_inputs(txid: Seq<char>, idxs: Seq<i32>, pk: Seq<u8>) -> Seq<TxInV> {
    Seq::new(
        idxs.len(),
        |q: int| TxInV { txid: txid, vout: idxs[q], signature: Seq::empty(), pub_key: pk },
    )
}

/// The unsigned inputs a whole scan yields, in scan order.
pub open spec fn flatten_picks(picked: Seq<(Seq<char>, Seq<i32>)>, pk: Seq<u8>) -> Seq<TxInV>
    decreases picked.len(),
{
    if picked.len() == 0 {
        Seq::empty()
    } else {
        pick_inputs(picked[0].0, picked[0].1, pk) + flatten_picks(picked.drop_first(), pk)
    }
}

proof fn lemma_flatten_picks_push(
    picked: Seq<(Seq<char>, Seq<i32>)>,
    x: (Seq<char>, Seq<i32>),
    pk: Seq<u8>,
)
    ensures
        flatten_picks(picked.push(x), pk) == flatten_picks(picked, pk) + pick_inputs(
            x.0,
            x.1,
            pk,
        ),
    decreases picked.len(),
{
    if picked.len() == 0 {
        assert(picked.push(x).drop_first() =~= Seq::<(Seq<char>, Seq<i32>)>::empty());
        assert(picked.push(x)[0] == x);
        assert(flatten_picks(picked.push(x).drop_first(), pk) == Seq::<TxInV>::empty());
        assert(flatten_picks(picked.push(x), pk) == pick_inputs(x.0, x.1, pk) + Seq::<
            TxInV,
        >::empty());
        assert(pick_inputs(x.0, x.1, pk) + Seq::<TxInV>::empty() =~= pick_inputs(x.0, x.1, pk));
        assert(flatten_picks(picked, pk) + pick_inputs(x.0, x.1, pk) =~= pick_inputs(
            x.0,
            x.1,
            pk,
        ));
    } else {
        assert(picked.push(x).drop_first() =~= picked.drop_first().push(x));
        assert(picked.push(x)[0] == picked[0]);
        lemma_flatten_picks_push(picked.drop_first(), x, pk);
        assert(flatten_picks(picked.push(x), pk) == pick_inputs(picked[0].0, picked[0].1, pk) + (
        flatten_picks(picked.drop_first(), pk) + pick_inputs(x.0, x.1, pk)));
        assert(pick_inputs(picked[0].0, picked[0].1, pk) + (flatten_picks(picked.drop_first(), pk)
            + pick_inputs(x.0, x.1, pk)) =~= (pick_inputs(picked[0].0, picked[0].1, pk)
            + flatten_picks(picked.drop_first(), pk)) + pick_inputs(x.0, x.1, pk));
    }
}

impl Transaction {
    /// Builds and signs a spend of `amount` to `to`: outputs locked to the
    /// sender's key hash are gathered greedily until they cover the
    /// amount, a change output returns any excess to the sender, and every
    /// input is signed with the wallet's secret key.
    #[verifier::loop_isolation(false)]
    #[verifier::rlimit(100)]
    pub fn new_utxo(wallet: &Wallet, to: String, amount: i32, ut: &Utxoset) -> (r: Result<
        Transaction,
        Error,
    >)
        requires
            wallet.secret_key@.len() == 64,
        ensures
            r matches Ok(t) ==> {
                let chain = crate::blockchain::chain_txs(
                    crate::blockchain::chain_of(
                        crate::store::db_view(ut.blockchain.db),
                        ut.blockchain.current_hash@,
                    ),
                );
                &&& 1 <= t@.vout.len() <= 2
                &&& t@.vout[0].value == amount
                &&& crate::tx::address_payload_of(to@) == Some(t@.vout[0].pub_key_hash)
                &&& (t@.vout.len() == 2 ==> t@.vout[1].pub_key_hash == pub_key_hash_of(
                    wallet.public_key@,
                ) && t@.vout[1].value > 0)
                &&& forall|i: int|
                    0 <= i < t@.vin.len() ==> (#[trigger] t@.vin[i]).pub_key
                        == wallet.public_key@
                &&& t@.id == tx_id_of(TxV { id: t@.id, vin: unsigned_vins(t@.vin), vout: t@.vout })
                &&& !spec_is_coinbase(t@) ==> forall|i: int|
                    0 <= i < t@.vin.len() ==> (#[trigger] t@.vin[i]).signature
                        == crate::hashing::ed25519_sig_of(
                        vstd::utf8::encode_utf8(sign_digest_of(t@, chain, i)),
                        wallet.secret_key@,
                    ) && t@.vin[i].signature.len() == 64
            },
            r matches Ok(t) ==> exists|es: Seq<(Seq<u8>, Seq<u8>)>|
                #[trigger] crate::utxoset::entries_of(crate::store::db_view(ut.db), es) && (
                crate::utxoset::spend_scan(
                    es,
                    pub_key_hash_of(wallet.public_key@),
                    amount,
                    0,
                    0,
                ) matches Some(p) && p.0 >= amount && unsigned_vins(t@.vin) == flatten_picks(
                    p.1,
                    wallet.public_key@,
                ) && (p.0 > amount ==> t@.vout.len() == 2 && t@.vout[1].value == p.0 - amount) && (
                p.0 == amount ==> t@.vout.len() == 1)),
            r matches Err(e) && e == Error::InsufficientFunds ==> exists|
                es: Seq<(Seq<u8>, Seq<u8>)>,
            |
                #[trigger] crate::utxoset::entries_of(crate::store::db_view(ut.db), es) && (
                crate::utxoset::spend_scan(
                    es,
                    pub_key_hash_of(wallet.public_key@),
                    amount,
                    0,
                    0,
                ) matches Some(p) && p.0 < amount),
    {
        let mut sender_hash = crate::tx::clone_bytes(&wallet.public_key);
        crate::hashing::hash_pub_key(&mut sender_hash);
        let (acc, picked) = match ut.find_spendable_outputs(sender_hash.as_slice(), amount) {
            Ok(p) => p,
            Err(e) => {
                return Err(e);
            },
        };
        if acc < amount as i64 {
            return Err(Error::InsufficientFunds);
        }
        let ghost pickedv = crate::blockchain::views_of_spairs(picked@);
        let mut vin: Vec<TXInput> = Vec::new();
        let mut pi: usize = 0;
        proof {
            assert(codec::views_of_inputs(vin@) =~= flatten_picks(
                pickedv.take(0),
                wallet.public_key@,
            ));
        }
        while pi < picked.len()
            invariant
                pi <= picked@.len(),
                pickedv == crate::blockchain::views_of_spairs(picked@),
                codec::views_of_inputs(vin@) == flatten_picks(
                    pickedv.take(pi as int),
                    wallet.public_key@,
                ),
                forall|i: int|
                    0 <= i < vin@.len() ==> (#[trigger] vin@[i]@).pub_key == wallet.public_key@
                        && vin@[i]@.signature.len() == 0,
            decreases picked@.len() - pi,
        {
            let pair = &picked[pi];
            let ghost base = codec::views_of_inputs(vin@);
            let mut qi: usize = 0;
            proof {
                assert(pick_inputs(
                    pickedv[pi as int].0,
                    pickedv[pi as int].1.take(0),
                    wallet.public_key@,
                ) =~= Seq::<TxInV>::empty());
                assert(base + Seq::<TxInV>::empty() =~= base);
            }
            while qi < pair.1.len()
                invariant
                    qi <= pair.1@.len(),
                    pickedv == crate::blockchain::views_of_spairs(picked@),
                    pickedv[pi as int] == (picked@[pi as int].0@, picked@[pi as int].1@),
                    pair.0@ == pickedv[pi as int].0,
                    pair.1@ == pickedv[pi as int].1,
                    codec::views_of_inputs(vin@) == base + pick_inputs(
                        pickedv[pi as int].0,
                        pickedv[pi as int].1.take(qi as int),
                        wallet.public_key@,
                    ),
                    forall|i: int|
                        0 <= i < vin@.len() ==> (#[trigger] vin@[i]@).pub_key
                            == wallet.public_key@ && vin@[i]@.signature.len() == 0,
                decreases pair.1@.len() - qi,
            {
                vin.push(TXInput {
                    txid: pair.0.clone(),
                    vout: pair.1[qi],
                    signature: Vec::new(),
                    pub_key: crate::tx::clone_bytes(&wallet.public_key),
                });
                proof {
                    assert(pick_inputs(
                        pickedv[pi as int].0,
                        pickedv[pi as int].1.take(qi + 1),
                        wallet.public_key@,
                    ) =~= pick_inputs(
                        pickedv[pi as int].0,
                        pickedv[pi as int].1.take(qi as int),
                        wallet.public_key@,
                    ).push(
                        TxInV {
                            txid: pickedv[pi as int].0,
                            vout: pickedv[pi as int].1[qi as int],
                            signature: Seq::empty(),
                            pub_key: wallet.public_key@,
                        },
                    ));
                    assert(codec::views_of_inputs(vin@) =~= (base + pick_inputs(
                        pickedv[pi as int].0,
                        pickedv[pi as int].1.take(qi as int),
                        wallet.public_key@,
                    )).push(
                        TxInV {
                            txid: pickedv[pi as int].0,
                            vout: pickedv[pi as int].1[qi as int],
                            signature: Seq::empty(),
                            pub_key: wallet.public_key@,
                        },
                    ));
                    assert(codec::views_of_inputs(vin@) =~= base + pick_inputs(
                        pickedv[pi as int].0,
                        pickedv[pi as int].1.take(qi + 1),
                        wallet.public_key@,
                    ));
                }
                qi += 1;
            }
            proof {
                assert(pickedv[pi as int].1.take(pair.1@.len() as int) =~= pickedv[pi as int].1);
                lemma_flatten_picks_push(
                    pickedv.take(pi as int),
                    pickedv[pi as int],
                    wallet.public_key@,
                );
                assert(pickedv.take(pi + 1) =~= pickedv.take(pi as int).push(pickedv[pi as int]));
            }
            pi += 1;
        }
        proof {
            assert(pickedv.take(pickedv.len() as int) =~= pickedv);
        }
        let out0 = match TXOutput::new(amount, to) {
            Ok(o) => o,
            Err(e) => {
                return Err(e);
            },
        };
        let mut vout: Vec<TXOutput> = Vec::new();
        vout.push(out0);
        if acc > amount as i64 {
            let change = acc - (amount as i64);
            if change > 0x7fff_ffffi64 {
                return Err(Error::InvalidTransaction);
            }
            vout.push(
                TXOutput { value: change as i32, pub_key_hash: crate::tx::clone_bytes(
                    &sender_hash,
                ) },
            );
        }
        let ghost vin_flat = codec::views_of_inputs(vin@);
        let ghost two_outs = acc > amount as i64;
        let mut tx = Transaction { id: String::new(), vin, vout };
        proof {
            assert(tx@.vin =~= vin_flat);
        }
        let id = compute_id(&tx);
        tx.id = id;
        let ghost presign = tx@;
        match ut.blockchain.sign_transaction(&mut tx, wallet.secret_key.as_slice()) {
            Ok(()) => (),
            Err(e) => {
                return Err(e);
            },
        }
        proof {
            let chain = crate::blockchain::chain_txs(
                crate::blockchain::chain_of(
                    crate::store::db_view(ut.blockchain.db),
                    ut.blockchain.current_hash@,
                ),
            );
            if !spec_is_coinbase(presign) {
                assert forall|i: int| 0 <= i < tx@.vin.len() implies #[trigger] sign_digest_of(
                    presign,
                    chain,
                    i,
                ) == sign_digest_of(tx@, chain, i) by {
                    assert(find_tx(chain, presign.vin[i].txid) == find_tx(chain, tx@.vin[i].txid));
                    let p = find_tx(chain, presign.vin[i].txid)->0;
                    let lock = p.vout[presign.vin[i].vout as int].pub_key_hash;
                    assert(trim_for(presign, i, lock).vin =~= trim_for(tx@, i, lock).vin);
                    assert(trim_for(presign, i, lock) == trim_for(tx@, i, lock));
                }
            }
            assert forall|i: int| 0 <= i < tx@.vin.len() implies unsigned_vins(tx@.vin)[i]
                == presign.vin[i] by {
                assert(presign.vin[i].signature =~= Seq::<u8>::empty());
                if !spec_is_coinbase(presign) {
                    assert(tx@.vin[i] == (TxInV {
                        signature: tx@.vin[i].signature,
                        ..presign.vin[i]
                    }));
                }
            }
            assert(unsigned_vins(tx@.vin) =~= presign.vin);
            assert(spec_blank_id(
                TxV { id: tx@.id, vin: unsigned_vins(tx@.vin), vout: tx@.vout },
            ) == spec_blank_id(presign));
            assert(sender_hash@ == pub_key_hash_of(wallet.public_key@));
            let es = choose|es: Seq<(Seq<u8>, Seq<u8>)>|
                #[trigger] crate::utxoset::entries_of(crate::store::db_view(ut.db), es)
                    && crate::utxoset::spend_scan(es, sender_hash@, amount, 0, 0) == Some(
                    (acc as int, crate::blockchain::views_of_spairs(picked@)),
                );
            assert(crate::utxoset::entries_of(crate::store::db_view(ut.db), es) && (
            crate::utxoset::spend_scan(
                es,
                pub_key_hash_of(wallet.public_key@),
                amount,
                0,
                0,
            ) matches Some(p) && p.0 >= amount && unsigned_vins(tx@.vin) == flatten_picks(
                p.1,
                wallet.public_key@,
            ) && (p.0 > amount ==> tx@.vout.len() == 2 && tx@.vout[1].value == p.0 - amount) && (
            p.0 == amount ==> tx@.vout.len() == 1)));
        }
        Ok(tx)
    }
}

} // verus!
