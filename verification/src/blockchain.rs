use vstd::prelude::*;

use crate::block::{pow_valid, Block, BlockV};
use crate::codec::{self, enc_block, sdec_block};
use crate::errors::Error;
use crate::store::{db_view, StoreDb};
use crate::transaction::{spec_is_coinbase, Transaction};
use vstd::utf8::encode_utf8;

verus! {

broadcast use vstd::utf8::encode_utf8_valid_utf8, vstd::utf8::encode_utf8_decode_utf8, vstd::utf8::decode_utf8_encode_utf8, vstd::string::is_ascii_spec_bytes;

/// The distinguished key under which the tip's hash is stored.
pub open spec fn last_key() -> Seq<u8> {
    seq![76u8, 65u8, 83u8, 84u8]
}

/// The block stored under `key`, when the value there decodes completely.
#[verifier::opaque]
pub open spec fn stored_block(m: Map<Seq<u8>, Seq<u8>>, key: Seq<u8>) -> Option<BlockV> {
    if m.contains_key(key) {
        match sdec_block(m[key], 0) {
            Some((b, p)) => if p == m[key].len() {
                Some(b)
            } else {
                None
            },
            None => None,
        }
    } else {
        None
    }
}

/// The best height a store shows: zero with no tip pointer, the tip block's
/// height, or the error met reading it.
pub open spec fn spec_best_height(m: Map<Seq<u8>, Seq<u8>>) -> Result<int, Error> {
    if !m.contains_key(last_key()) {
        Ok(0)
    } else if !m.contains_key(m[last_key()]) {
        Err(Error::NotFound)
    } else {
        match stored_block(m, m[last_key()]) {
            Some(b) => Ok(b.height as int),
            None => Err(Error::SerializationError),
        }
    }
}

/// What adding one block does to a store and its tip: a no-op when the
/// block's hash is already a key; otherwise the block is stored under its
/// hash, and the tip pointer and tip hash move to it exactly when its
/// height beats the best the grown store shows.
pub open spec fn add_block_post(
    m0: Map<Seq<u8>, Seq<u8>>,
    tip0: Seq<char>,
    m1: Map<Seq<u8>, Seq<u8>>,
    tip1: Seq<char>,
    b: BlockV,
) -> bool {
    let key = encode_utf8(b.hash);
    if m0.contains_key(key) {
        m1 == m0 && tip1 == tip0
    } else {
        let grown = m0.insert(key, enc_block(b));
        &&& spec_best_height(grown) matches Ok(h)
        &&& (b.height > h ==> m1 == grown.insert(last_key(), key) && tip1 == b.hash)
        &&& (b.height <= h ==> m1 == grown && tip1 == tip0)
    }
}

/// The append-only block store, keyed by block hash, with the hash of the
/// current tip.
pub struct BlockChain {
    pub current_hash: String,
    pub db: StoreDb,
}

/// The bytes of the tip-pointer key.
fn last_key_bytes() -> (r: Vec<u8>)
    ensures
        r@ == last_key(),
{
    let mut v: Vec<u8> = Vec::new();
    v.push(76);
    v.push(65);
    v.push(83);
    v.push(84);
    proof {
        assert(v@ =~= last_key());
    }
    v
}

/// The store key of a block-hash string.
fn hash_key(h: &str) -> (r: Vec<u8>)
    ensures
        r@ == encode_utf8(h@),
{
    <str as vstd::string::StrSliceExecFns>::as_bytes_vec(h)
}

/// A 64-character ASCII hash string never collides with the tip-pointer
/// key.
proof fn lemma_hash_key_not_last(h: Seq<char>)
    requires
        vstd::utf8::is_ascii_chars(h),
        h.len() == 64,
    ensures
        encode_utf8(h) != last_key(),
{
    vstd::utf8::is_ascii_chars_encode_utf8(h);
    assert(encode_utf8(h).len() == 64);
    assert(last_key().len() == 4);
}

impl BlockChain {
    /// Opens an existing chain: the store must already hold a tip pointer.
    pub fn new(path: &str) -> (r: Result<BlockChain, Error>)
        ensures
            r matches Ok(bc) ==> db_view(bc.db).dom().finite() && db_view(bc.db).contains_key(
                last_key(),
            ) && db_view(bc.db)[last_key()] == encode_utf8(bc.current_hash@),
            r matches Err(e) ==> e == Error::IoError || e == Error::StoreMissing || e
                == Error::SerializationError,
    {
        let db = match StoreDb::open(path) {
            Ok(d) => d,
            Err(e) => {
                return Err(e);
            },
        };
        let lk = last_key_bytes();
        match db.get(lk.as_slice()) {
            Err(e) => Err(e),
            Ok(None) => Err(Error::StoreMissing),
            Ok(Some(bytes)) => {
                match codec::bytes_to_string(bytes) {
                    Some(s) => Ok(BlockChain { current_hash: s, db }),
                    None => Err(Error::SerializationError),
                }
            },
        }
    }

    /// Creates a fresh chain at `path`: truncates the store, mines a
    /// genesis block whose single transaction is a coinbase to `address`,
    /// stores it and points the tip at it.
    pub fn create_blockchain(address: String, path: &str) -> (r: Result<BlockChain, Error>)
        ensures
            r matches Ok(bc) ==> {
                let m = db_view(bc.db);
                &&& m.dom().finite()
                &&& m.contains_key(last_key()) && m[last_key()] == encode_utf8(bc.current_hash@)
                &&& (stored_block(m, encode_utf8(bc.current_hash@)) matches Some(g) && pow_valid(g)
                    && g.height == 0 && g.prev_block_hash.len() == 0 && g.transactions.len() == 1
                    && spec_is_coinbase(g.transactions[0]) && g.transactions[0].vout.len() == 1
                    && g.transactions[0].vout[0].value == crate::SUBSIDY
                    && crate::tx::address_payload_of(address@) == Some(
                    g.transactions[0].vout[0].pub_key_hash,
                ) && g.hash == bc.current_hash@)
                &&& spec_best_height(m) == Ok::<int, Error>(0)
                &&& forall|kb: Seq<u8>|
                    #[trigger] m.contains_key(kb) ==> kb == last_key() || kb == encode_utf8(
                        bc.current_hash@,
                    )
            },
    {
        let mut db = match StoreDb::open(path) {
            Ok(d) => d,
            Err(e) => {
                return Err(e);
            },
        };
        match db.clear() {
            Ok(()) => (),
            Err(e) => {
                return Err(e);
            },
        }
        let ctx = match Transaction::new_coinbase(
            address,
            <String as vstd::string::StringExecFns>::from_str("Genesis Block"),
        ) {
            Ok(t) => t,
            Err(e) => {
                return Err(e);
            },
        };
        let genesis = match Block::new_genesis_block(ctx) {
            Ok(b) => b,
            Err(e) => {
                return Err(e);
            },
        };
        let hash = genesis.get_hash();
        let key = hash_key(hash.as_str());
        let data = codec::serialize_block(&genesis);
        match db.insert(key.as_slice(), data.as_slice()) {
            Ok(()) => (),
            Err(e) => {
                return Err(e);
            },
        }
        let lk = last_key_bytes();
        match db.insert(lk.as_slice(), key.as_slice()) {
            Ok(()) => (),
            Err(e) => {
                return Err(e);
            },
        }
        match db.flush() {
            Ok(()) => (),
            Err(e) => {
                return Err(e);
            },
        }
        let bc = BlockChain { current_hash: hash, db };
        proof {
            reveal(stored_block);
            let m = db_view(bc.db);
            lemma_hash_key_not_last(genesis@.hash);
            assert(m.contains_key(key@));
            assert(m[key@] == enc_block(genesis@));
            assert(enc_block(genesis@).len() == data@.len());
            assert(vstd::std_specs::vec::spec_vec_len(&data) == data@.len());
            assert(data@.len() <= usize::MAX);
            assert(enc_block(genesis@).subrange(0, enc_block(genesis@).len() as int) =~= enc_block(
                genesis@,
            ));
            assert(genesis@.transactions.len() == 1);
            assert(genesis@.transactions[0].vin.len() == 1);
            assert(genesis@.transactions[0].vout.len() == 1);
            codec::lemma_rt_block(enc_block(genesis@), 0, genesis@);
            assert(stored_block(m, encode_utf8(bc.current_hash@)) == Some(genesis@));
        }
        Ok(bc)
    }

    /// The block stored under the given hash.
    pub fn get_block(&self, block_hash: &str) -> (r: Result<Block, Error>)
        ensures
            r matches Ok(b) ==> stored_block(db_view(self.db), encode_utf8(block_hash@)) == Some(
                b@,
            ),
            r matches Err(e) ==> e == Error::IoError || (e == Error::NotFound && !db_view(
                self.db,
            ).contains_key(encode_utf8(block_hash@))) || (e == Error::SerializationError
                && db_view(self.db).contains_key(encode_utf8(block_hash@)) && stored_block(
                db_view(self.db),
                encode_utf8(block_hash@),
            ) is None),
    {
        proof {
            reveal(stored_block);
        }
        let key = hash_key(block_hash);
        match self.db.get(key.as_slice()) {
            Err(e) => Err(e),
            Ok(None) => Err(Error::NotFound),
            Ok(Some(data)) => {
                match codec::deserialize_block(data.as_slice()) {
                    Some(b) => Ok(b),
                    None => Err(Error::SerializationError),
                }
            },
        }
    }

    /// The height of the tip block, or zero when no tip pointer exists.
    pub fn get_best_height(&self) -> (r: Result<i32, Error>)
        ensures
            r matches Ok(h) ==> spec_best_height(db_view(self.db)) == Ok::<int, Error>(h as int),
            r matches Err(e) ==> e == Error::IoError || spec_best_height(db_view(self.db))
                == Err::<int, Error>(e),
    {
        proof {
            reveal(stored_block);
        }
        let lk = last_key_bytes();
        let tip = match self.db.get(lk.as_slice()) {
            Err(e) => {
                return Err(e);
            },
            Ok(None) => {
                return Ok(0);
            },
            Ok(Some(t)) => t,
        };
        let data = match self.db.get(tip.as_slice()) {
            Err(e) => {
                return Err(e);
            },
            Ok(None) => {
                return Err(Error::NotFound);
            },
            Ok(Some(d)) => d,
        };
        match codec::deserialize_block(data.as_slice()) {
            Some(b) => Ok(b.get_height()),
            None => Err(Error::SerializationError),
        }
    }

    /// Adds a block: a no-op when the hash is already present; otherwise
    /// the block is stored, and the tip moves to it exactly when its height
    /// beats the stored best.
    pub fn add_block(&mut self, block: Block) -> (r: Result<(), Error>)
        ensures
            r is Ok ==> add_block_post(
                db_view(old(self).db),
                old(self).current_hash@,
                db_view(final(self).db),
                final(self).current_hash@,
                block@,
            ),
    {
        proof {
            reveal(stored_block);
        }
        let hash = block.get_hash();
        let key = hash_key(hash.as_str());
        match self.db.get(key.as_slice()) {
            Err(e) => {
                return Err(e);
            },
            Ok(Some(_)) => {
                return Ok(());
            },
            Ok(None) => (),
        }
        let data = codec::serialize_block(&block);
        match self.db.insert(key.as_slice(), data.as_slice()) {
            Ok(()) => (),
            Err(e) => {
                return Err(e);
            },
        }
        let last_height = match self.get_best_height() {
            Ok(h) => h,
            Err(e) => {
                return Err(e);
            },
        };
        if block.get_height() > last_height {
            let lk = last_key_bytes();
            match self.db.insert(lk.as_slice(), key.as_slice()) {
                Ok(()) => (),
                Err(e) => {
                    return Err(e);
                },
            }
            self.current_hash = hash;
            match self.db.flush() {
                Ok(()) => (),
                Err(e) => {
                    return Err(e);
                },
            }
        }
        Ok(())
    }
}

} // verus!

use crate::transaction::{
    find_tx, inputs_linkable, sign_digest_of, tx_verifies, views_of_tx_vec, TxV,
};

verus! {

/// One step of the chain walk: the block stored under a hash; none for the
/// empty hash that ends a chain.
pub open spec fn walk_step(m: Map<Seq<u8>, Seq<u8>>, h: Seq<char>) -> Option<BlockV> {
    if h.len() == 0 {
        None
    } else {
        stored_block(m, encode_utf8(h))
    }
}

/// The hash that step `i` of a walk reads: the start hash, then each
/// block's predecessor hash.
pub open spec fn walk_hash(start: Seq<char>, ws: Seq<BlockV>, i: int) -> Seq<char> {
    if i == 0 {
        start
    } else {
        ws[i - 1].prev_block_hash
    }
}

/// Whether `ws` is the complete walk from `start`: every step reads the
/// next block, and the step after the last reads nothing.
pub open spec fn is_chain_walk(m: Map<Seq<u8>, Seq<u8>>, start: Seq<char>, ws: Seq<BlockV>) -> bool {
    &&& forall|i: int|
        0 <= i < ws.len() ==> walk_step(m, walk_hash(start, ws, i)) == Some(#[trigger] ws[i])
    &&& walk_step(m, walk_hash(start, ws, ws.len() as int)) is None
}

/// The complete walk from `start`, where one exists.
pub open spec fn chain_of(m: Map<Seq<u8>, Seq<u8>>, start: Seq<char>) -> Seq<BlockV> {
    choose|ws: Seq<BlockV>| is_chain_walk(m, start, ws)
}

/// What remains of a walk after its first block is the walk from that
/// block's predecessor hash.
pub proof fn lemma_walk_tail(m: Map<Seq<u8>, Seq<u8>>, start: Seq<char>, ws: Seq<BlockV>)
    requires
        is_chain_walk(m, start, ws),
        ws.len() > 0,
    ensures
        is_chain_walk(m, ws[0].prev_block_hash, ws.drop_first()),
{
    let h = ws[0].prev_block_hash;
    let t = ws.drop_first();
    assert forall|i: int| 0 <= i < t.len() implies walk_step(m, walk_hash(h, t, i)) == Some(
        #[trigger] t[i],
    ) by {
        assert(t[i] == ws[i + 1]);
        assert(walk_step(m, walk_hash(start, ws, i + 1)) == Some(ws[i + 1]));
        if i > 0 {
            assert(t[i - 1] == ws[i]);
        }
        assert(walk_hash(h, t, i) == walk_hash(start, ws, i + 1));
    }
    if t.len() == 0 {
        assert(walk_hash(h, t, 0) == walk_hash(start, ws, 1));
    } else {
        assert(t[t.len() - 1] == ws[ws.len() - 1]);
        assert(walk_hash(h, t, t.len() as int) == walk_hash(start, ws, ws.len() as int));
    }
}

/// A complete walk is unique.
#[verifier::rlimit(100)]
pub proof fn lemma_walk_unique(
    m: Map<Seq<u8>, Seq<u8>>,
    start: Seq<char>,
    ws1: Seq<BlockV>,
    ws2: Seq<BlockV>,
)
    requires
        is_chain_walk(m, start, ws1),
        is_chain_walk(m, start, ws2),
    ensures
        ws1 == ws2,
    decreases ws1.len(),
{
    if ws1.len() == 0 {
        if ws2.len() > 0 {
            assert(walk_step(m, walk_hash(start, ws2, 0)) == Some(ws2[0]));
            assert(walk_hash(start, ws2, 0) == walk_hash(start, ws1, 0));
        }
        assert(ws2 =~= ws1);
    } else {
        assert(walk_step(m, walk_hash(start, ws1, 0)) == Some(ws1[0]));
        if ws2.len() == 0 {
            assert(walk_hash(start, ws2, 0) == walk_hash(start, ws1, 0));
        }
        assert(ws2.len() > 0);
        assert(walk_step(m, walk_hash(start, ws2, 0)) == Some(ws2[0]));
        assert(ws1[0] == ws2[0]);
        lemma_walk_tail(m, start, ws1);
        lemma_walk_tail(m, start, ws2);
        lemma_walk_unique(m, ws1[0].prev_block_hash, ws1.drop_first(), ws2.drop_first());
        assert(ws1 =~= seq![ws1[0]] + ws1.drop_first());
        assert(ws2 =~= seq![ws2[0]] + ws2.drop_first());
    }
}

/// Views of a sequence of blocks.
pub open spec fn views_of_blocks(s: Seq<Block>) -> Seq<BlockV> {
    s.map_values(|b: Block| b@)
}

/// Every transaction of a walk, in walk order.
pub open spec fn chain_txs(ws: Seq<BlockV>) -> Seq<TxV>
    decreases ws.len(),
{
    if ws.len() == 0 {
        Seq::empty()
    } else {
        ws[0].transactions + chain_txs(ws.drop_first())
    }
}

/// Flattening distributes over appending one block.
pub proof fn lemma_chain_txs_push(ws: Seq<BlockV>, b: BlockV)
    ensures
        chain_txs(ws.push(b)) == chain_txs(ws) + b.transactions,
    decreases ws.len(),
{
    if ws.len() == 0 {
        assert(ws.push(b).drop_first() =~= Seq::<BlockV>::empty());
        assert(chain_txs(ws.push(b)) == b.transactions + chain_txs(Seq::<BlockV>::empty()));
        assert(b.transactions + Seq::<TxV>::empty() =~= b.transactions);
        assert(Seq::<TxV>::empty() + b.transactions =~= b.transactions);
    } else {
        assert(ws.push(b).drop_first() =~= ws.drop_first().push(b));
        assert(ws.push(b)[0] == ws[0]);
        lemma_chain_txs_push(ws.drop_first(), b);
        assert(chain_txs(ws.push(b)) == ws[0].transactions + (chain_txs(ws.drop_first())
            + b.transactions));
        assert(ws[0].transactions + (chain_txs(ws.drop_first()) + b.transactions) =~= (
        ws[0].transactions + chain_txs(ws.drop_first())) + b.transactions);
    }
}

/// A one-shot cursor over the chain, from the tip toward the genesis.
pub struct BlockChainIter<'a> {
    pub current_hash: String,
    pub bc: &'a BlockChain,
}

impl BlockChain {
    /// A fresh cursor starting at the tip.
    pub fn iter(&self) -> (r: BlockChainIter)
        ensures
            r.current_hash@ == self.current_hash@,
            r.bc == self,
    {
        BlockChainIter { current_hash: self.current_hash.clone(), bc: self }
    }
}

impl<'a> BlockChainIter<'a> {
    /// The next block of the walk, or nothing at the end of the chain.
    pub fn next(&mut self) -> (r: Result<Option<Block>, Error>)
        ensures
            final(self).bc == old(self).bc,
            r matches Ok(Some(b)) ==> walk_step(
                db_view(old(self).bc.db),
                old(self).current_hash@,
            ) == Some(b@) && final(self).current_hash@ == b@.prev_block_hash,
            r matches Ok(None) ==> walk_step(db_view(old(self).bc.db), old(self).current_hash@)
                is None && final(self).current_hash@ == old(self).current_hash@,
            r matches Err(e) ==> e == Error::IoError,
    {
        proof {
            reveal(stored_block);
        }
        if self.current_hash.as_str().is_empty() {
            return Ok(None);
        }
        let key = hash_key(self.current_hash.as_str());
        match self.bc.db.get(key.as_slice()) {
            Err(e) => Err(e),
            Ok(None) => Ok(None),
            Ok(Some(data)) => {
                match codec::deserialize_block(data.as_slice()) {
                    None => Ok(None),
                    Some(b) => {
                        self.current_hash = b.get_prev_hash();
                        Ok(Some(b))
                    },
                }
            },
        }
    }
}

impl BlockChain {
    /// The blocks of the chain, from the tip to the genesis. Fails when the
    /// store misbehaves or the walk outruns the number of stored keys.
    #[verifier::loop_isolation(false)]
    pub fn blocks(&self) -> (r: Result<Vec<Block>, Error>)
        ensures
            r matches Ok(bs) ==> is_chain_walk(
                db_view(self.db),
                self.current_hash@,
                views_of_blocks(bs@),
            ) && views_of_blocks(bs@) == chain_of(db_view(self.db), self.current_hash@),
            r matches Err(e) ==> e == Error::IoError || e == Error::SerializationError,
    {
        let ghost m = db_view(self.db);
        let ghost start = self.current_hash@;
        let es = match self.db.entries() {
            Ok(es) => es,
            Err(e) => {
                return Err(e);
            },
        };
        let mut budget: usize = es.len();
        let mut out: Vec<Block> = Vec::new();
        let mut it = self.iter();
        loop
            invariant
                it.bc == self,
                forall|i: int|
                    0 <= i < out@.len() ==> #[trigger] walk_step(
                        m,
                        walk_hash(start, views_of_blocks(out@), i),
                    ) == Some(views_of_blocks(out@)[i]),
                it.current_hash@ == walk_hash(start, views_of_blocks(out@), out@.len() as int),
            decreases budget,
        {
            match it.next() {
                Err(e) => {
                    return Err(e);
                },
                Ok(None) => {
                    proof {
                        let ws = views_of_blocks(out@);
                        assert(walk_step(m, walk_hash(start, ws, ws.len() as int)) is None);
                        assert(is_chain_walk(m, start, ws));
                        lemma_walk_unique(m, start, ws, chain_of(m, start));
                    }
                    return Ok(out);
                },
                Ok(Some(b)) => {
                    if budget == 0 {
                        return Err(Error::SerializationError);
                    }
                    budget = budget - 1;
                    let ghost pre = views_of_blocks(out@);
                    out.push(b);
                    proof {
                        assert(views_of_blocks(out@) =~= pre.push(b@));
                        assert forall|i: int|
                            0 <= i < out@.len() implies #[trigger] walk_step(
                            m,
                            walk_hash(start, views_of_blocks(out@), i),
                        ) == Some(views_of_blocks(out@)[i]) by {
                            let ws = views_of_blocks(out@);
                            if i < pre.len() {
                                assert(walk_hash(start, ws, i) == walk_hash(start, pre, i));
                                assert(walk_step(m, walk_hash(start, pre, i)) == Some(pre[i]));
                            } else {
                                assert(walk_hash(start, ws, i) == walk_hash(
                                    start,
                                    pre,
                                    pre.len() as int,
                                ));
                            }
                        }
                    }
                },
            }
        }
    }
}

} // verus!

verus! {

/// A found transaction carries the id it was looked up by.
proof fn lemma_find_tx_id(s: Seq<TxV>, id: Seq<char>)
    ensures
        find_tx(s, id) matches Some(t) ==> t.id == id,
    decreases s.len(),
{
    if s.len() > 0 && s[0].id != id {
        lemma_find_tx_id(s.drop_first(), id);
    }
}

/// Looking a transaction up in a collection of chain lookups equals looking
/// it up in the chain, provided the collection holds a match for the id.
proof fn lemma_collected_lookup(ps: Seq<TxV>, chain: Seq<TxV>, id: Seq<char>)
    requires
        forall|k: int| 0 <= k < ps.len() ==> find_tx(chain, (#[trigger] ps[k]).id) == Some(ps[k]),
        exists|k: int| 0 <= k < ps.len() && (#[trigger] ps[k]).id == id,
    ensures
        find_tx(ps, id) == find_tx(chain, id),
    decreases ps.len(),
{
    if ps.len() > 0 {
        if ps[0].id == id {
            assert(find_tx(ps, id) == Some(ps[0]));
            assert(find_tx(chain, ps[0].id) == Some(ps[0]));
        } else {
            let t = ps.drop_first();
            let k0 = choose|k: int| 0 <= k < ps.len() && (#[trigger] ps[k]).id == id;
            assert(t[k0 - 1] == ps[k0]);
            assert forall|k: int| 0 <= k < t.len() implies find_tx(chain, (#[trigger] t[k]).id)
                == Some(t[k]) by {
                assert(t[k] == ps[k + 1]);
            }
            lemma_collected_lookup(t, chain, id);
        }
    }
}

/// Whether one transaction looks its inputs up the same way in two pools.
pub open spec fn same_lookups(t: TxV, p1: Seq<TxV>, p2: Seq<TxV>) -> bool {
    forall|i: int|
        0 <= i < t.vin.len() ==> find_tx(p1, (#[trigger] t.vin[i]).txid) == find_tx(
            p2,
            t.vin[i].txid,
        )
}

/// Linkability, signing digests and verification depend only on what the
/// input lookups return.
pub proof fn lemma_lookup_congruence(t: TxV, p1: Seq<TxV>, p2: Seq<TxV>)
    requires
        same_lookups(t, p1, p2),
    ensures
        inputs_linkable(t, p1) == inputs_linkable(t, p2),
        tx_verifies(t, p1) == tx_verifies(t, p2),
        forall|i: int|
            0 <= i < t.vin.len() ==> #[trigger] sign_digest_of(t, p1, i) == sign_digest_of(
                t,
                p2,
                i,
            ),
{
    assert forall|i: int| 0 <= i < t.vin.len() implies #[trigger] sign_digest_of(t, p1, i)
        == sign_digest_of(t, p2, i) by {
        assert(find_tx(p1, t.vin[i].txid) == find_tx(p2, t.vin[i].txid));
    }
    assert forall|i: int|
        0 <= i < t.vin.len() implies (#[trigger] crate::transaction::input_verifies(t, p1, i))
        == crate::transaction::input_verifies(t, p2, i) by {
        assert(find_tx(p1, t.vin[i].txid) == find_tx(p2, t.vin[i].txid));
        assert(sign_digest_of(t, p1, i) == sign_digest_of(t, p2, i));
    }
    if inputs_linkable(t, p1) {
        assert forall|i: int|
            0 <= i < t.vin.len() implies (#[trigger] find_tx(p2, t.vin[i].txid) matches Some(p)
            && p.id.len() > 0 && 0 <= t.vin[i].vout < p.vout.len()) by {
            assert(find_tx(p1, t.vin[i].txid) matches Some(p) && p.id.len() > 0 && 0 <= t.vin[
                i].vout < p.vout.len());
        }
    }
    if inputs_linkable(t, p2) {
        assert forall|i: int|
            0 <= i < t.vin.len() implies (#[trigger] find_tx(p1, t.vin[i].txid) matches Some(p)
            && p.id.len() > 0 && 0 <= t.vin[i].vout < p.vout.len()) by {
            assert(find_tx(p2, t.vin[i].txid) matches Some(p) && p.id.len() > 0 && 0 <= t.vin[
                i].vout < p.vout.len());
        }
    }
    if tx_verifies(t, p1) {
        assert forall|i: int|
            0 <= i < t.vin.len() implies #[trigger] crate::transaction::input_verifies(
            t,
            p2,
            i,
        ) by {
            assert(crate::transaction::input_verifies(t, p1, i));
        }
    }
    if tx_verifies(t, p2) {
        assert forall|i: int|
            0 <= i < t.vin.len() implies #[trigger] crate::transaction::input_verifies(
            t,
            p1,
            i,
        ) by {
            assert(crate::transaction::input_verifies(t, p2, i));
        }
    }
}

/// Every transaction of the chain, tip first, block order within a block.
#[verifier::loop_isolation(false)]
fn all_txs(bs: &Vec<Block>) -> (r: Vec<Transaction>)
    ensures
        views_of_tx_vec(r@) == chain_txs(views_of_blocks(bs@)),
{
    let mut out: Vec<Transaction> = Vec::new();
    let mut bi: usize = 0;
    proof {
        assert(views_of_blocks(bs@.take(0)) =~= Seq::<BlockV>::empty());
        assert(views_of_tx_vec(out@) =~= chain_txs(views_of_blocks(bs@.take(0))));
    }
    while bi < bs.len()
        invariant
            bi <= bs@.len(),
            views_of_tx_vec(out@) == chain_txs(views_of_blocks(bs@.take(bi as int))),
        decreases bs@.len() - bi,
    {
        let txs = bs[bi].get_transactions();
        let mut tj: usize = 0;
        let ghost base = views_of_tx_vec(out@);
        while tj < txs.len()
            invariant
                tj <= txs@.len(),
                views_of_tx_vec(out@) =~= base + txs@.map_values(|t: Transaction| t@).take(
                    tj as int,
                ),
            decreases txs@.len() - tj,
        {
            let ghost pre = views_of_tx_vec(out@);
            out.push(txs[tj].clone());
            proof {
                assert(views_of_tx_vec(out@) =~= pre.push(txs@[tj as int]@));
                assert(base + txs@.map_values(|t: Transaction| t@).take(tj + 1) =~= (base
                    + txs@.map_values(|t: Transaction| t@).take(tj as int)).push(
                    txs@[tj as int]@,
                ));
            }
            tj += 1;
        }
        proof {
            assert(txs@.map_values(|t: Transaction| t@).take(txs@.len() as int) =~= bs@[
                bi as int]@.transactions);
            lemma_chain_txs_push(views_of_blocks(bs@.take(bi as int)), bs@[bi as int]@);
            assert(views_of_blocks(bs@.take(bi + 1)) =~= views_of_blocks(
                bs@.take(bi as int),
            ).push(bs@[bi as int]@));
        }
        bi += 1;
    }
    proof {
        assert(bs@.take(bs@.len() as int) =~= bs@);
    }
    out
}

impl BlockChain {
    /// The first transaction of the chain with the given id.
    pub fn find_transaction(&self, id: &String) -> (r: Result<Transaction, Error>)
        ensures
            r matches Ok(t) ==> find_tx(
                chain_txs(chain_of(db_view(self.db), self.current_hash@)),
                id@,
            ) == Some(t@),
            r matches Err(e) ==> e == Error::IoError || e == Error::SerializationError || (e
                == Error::NotFound && find_tx(
                chain_txs(chain_of(db_view(self.db), self.current_hash@)),
                id@,
            ) is None),
    {
        let bs = match self.blocks() {
            Ok(bs) => bs,
            Err(e) => {
                return Err(e);
            },
        };
        let txs = all_txs(&bs);
        match crate::transaction::lookup_tx(&txs, id) {
            Some(t) => Ok(t.clone()),
            None => Err(Error::NotFound),
        }
    }

    /// The hashes of the chain's blocks, from the tip to the genesis.
    pub fn get_block_hashes(&self) -> (r: Result<Vec<String>, Error>)
        ensures
            r matches Ok(hs) ==> codec::views_of_strings(hs@) == chain_of(
                db_view(self.db),
                self.current_hash@,
            ).map_values(|b: BlockV| b.hash),
            r matches Err(e) ==> e == Error::IoError || e == Error::SerializationError,
    {
        let bs = match self.blocks() {
            Ok(bs) => bs,
            Err(e) => {
                return Err(e);
            },
        };
        let mut list: Vec<String> = Vec::new();
        let mut i: usize = 0;
        while i < bs.len()
            invariant
                i <= bs@.len(),
                codec::views_of_strings(list@) =~= views_of_blocks(bs@).map_values(
                    |b: BlockV| b.hash,
                ).take(i as int),
            decreases bs@.len() - i,
        {
            let ghost pre = codec::views_of_strings(list@);
            list.push(bs[i].get_hash());
            proof {
                assert(codec::views_of_strings(list@) =~= pre.push(bs@[i as int]@.hash));
                assert(views_of_blocks(bs@).map_values(|b: BlockV| b.hash).take(i + 1) =~= pre.push(
                    bs@[i as int]@.hash,
                ));
            }
            i += 1;
        }
        proof {
            let full = views_of_blocks(bs@).map_values(|b: BlockV| b.hash);
            assert(full.take(full.len() as int) =~= full);
        }
        Ok(list)
    }

    /// The previous transaction claimed by each input, in input order.
    #[verifier::loop_isolation(false)]
    fn get_prev_txs(&self, tx: &Transaction) -> (r: Result<Vec<Transaction>, Error>)
        ensures
            r matches Ok(ps) ==> same_lookups(
                tx@,
                views_of_tx_vec(ps@),
                chain_txs(chain_of(db_view(self.db), self.current_hash@)),
            ),
            r matches Err(e) ==> e == Error::IoError || e == Error::SerializationError || (e
                == Error::NotFound && exists|i: int|
                0 <= i < tx@.vin.len() && find_tx(
                    chain_txs(chain_of(db_view(self.db), self.current_hash@)),
                    (#[trigger] tx@.vin[i]).txid,
                ) is None),
    {
        let ghost chain = chain_txs(chain_of(db_view(self.db), self.current_hash@));
        let mut ps: Vec<Transaction> = Vec::new();
        let mut i: usize = 0;
        while i < tx.vin.len()
            invariant
                i <= tx@.vin.len(),
                ps@.len() == i,
                forall|j: int|
                    0 <= j < i ==> find_tx(chain, (#[trigger] tx@.vin[j]).txid) == Some(ps@[j]@),
            decreases tx@.vin.len() - i,
        {
            let p = match self.find_transaction(&tx.vin[i].txid) {
                Ok(p) => p,
                Err(e) => {
                    proof {
                        if e == Error::NotFound {
                            assert(find_tx(chain, (tx@.vin[i as int]).txid) is None);
                        }
                    }
                    return Err(e);
                },
            };
            ps.push(p);
            i += 1;
        }
        proof {
            let psv = views_of_tx_vec(ps@);
            assert forall|i2: int|
                0 <= i2 < tx@.vin.len() implies find_tx(psv, (#[trigger] tx@.vin[i2]).txid)
                == find_tx(chain, tx@.vin[i2].txid) by {
                assert(find_tx(chain, tx@.vin[i2].txid) == Some(ps@[i2]@));
                lemma_find_tx_id(chain, tx@.vin[i2].txid);
                assert(psv[i2].id == tx@.vin[i2].txid);
                assert forall|k: int| 0 <= k < psv.len() implies find_tx(
                    chain,
                    (#[trigger] psv[k]).id,
                ) == Some(psv[k]) by {
                    assert(find_tx(chain, tx@.vin[k].txid) == Some(ps@[k]@));
                    lemma_find_tx_id(chain, tx@.vin[k].txid);
                }
                lemma_collected_lookup(psv, chain, tx@.vin[i2].txid);
            }
        }
        Ok(ps)
    }

    /// Signs a transaction against the chain; a coinbase is left untouched.
    pub fn sign_transaction(&self, tx: &mut Transaction, private_key: &[u8]) -> (r: Result<
        (),
        Error,
    >)
        requires
            private_key@.len() == 64,
        ensures
            crate::transaction::spec_is_coinbase(old(tx)@) ==> r is Ok && final(tx)@ == old(tx)@,
            !crate::transaction::spec_is_coinbase(old(tx)@) && r is Ok ==> {
                let chain = chain_txs(chain_of(db_view(self.db), self.current_hash@));
                &&& inputs_linkable(old(tx)@, chain)
                &&& final(tx)@.id == old(tx)@.id
                &&& final(tx)@.vout == old(tx)@.vout
                &&& final(tx)@.vin.len() == old(tx)@.vin.len()
                &&& forall|i: int|
                    0 <= i < old(tx)@.vin.len() ==> final(tx)@.vin[i] == (crate::tx::TxInV {
                        signature: crate::hashing::ed25519_sig_of(
                            encode_utf8(sign_digest_of(old(tx)@, chain, i)),
                            private_key@,
                        ),
                        ..(old(tx)@.vin[i])
                    }) && (#[trigger] final(tx)@.vin[i]).signature.len() == 64
            },
            r matches Err(e) ==> e == Error::IoError || e == Error::SerializationError || e
                == Error::NotFound || e == Error::InvalidTransaction,
    {
        if tx.is_coinbase() {
            return Ok(());
        }
        let ghost chain = chain_txs(chain_of(db_view(self.db), self.current_hash@));
        let ps = match self.get_prev_txs(tx) {
            Ok(ps) => ps,
            Err(e) => {
                return Err(e);
            },
        };
        let ghost psv = views_of_tx_vec(ps@);
        let ghost t0 = tx@;
        match tx.sign(private_key, &ps) {
            Ok(()) => {
                proof {
                    lemma_lookup_congruence(t0, psv, chain);
                }
                Ok(())
            },
            Err(e) => Err(e),
        }
    }

    /// Whether a transaction's signatures check out against the chain; a
    /// coinbase verifies.
    pub fn verify_transaction(&self, tx: &Transaction) -> (r: Result<bool, Error>)
        ensures
            crate::transaction::spec_is_coinbase(tx@) ==> (r matches Ok(b) && b),
            !crate::transaction::spec_is_coinbase(tx@) ==> (r matches Ok(b) ==> b == (
            inputs_linkable(tx@, chain_txs(chain_of(db_view(self.db), self.current_hash@)))
                && tx_verifies(
                tx@,
                chain_txs(chain_of(db_view(self.db), self.current_hash@)),
            ))),
            r matches Err(e) ==> e == Error::IoError || e == Error::SerializationError || e
                == Error::NotFound || e == Error::InvalidTransaction,
            r matches Err(e) && e == Error::InvalidTransaction ==> !inputs_linkable(
                tx@,
                chain_txs(chain_of(db_view(self.db), self.current_hash@)),
            ),
    {
        if tx.is_coinbase() {
            return Ok(true);
        }
        let ghost chain = chain_txs(chain_of(db_view(self.db), self.current_hash@));
        let ps = match self.get_prev_txs(tx) {
            Ok(ps) => ps,
            Err(e) => {
                return Err(e);
            },
        };
        let ghost psv = views_of_tx_vec(ps@);
        match tx.verify(&ps) {
            Ok(b) => {
                proof {
                    lemma_lookup_congruence(tx@, psv, chain);
                }
                Ok(b)
            },
            Err(e) => {
                proof {
                    lemma_lookup_congruence(tx@, psv, chain);
                    assert(!inputs_linkable(tx@, psv));
                }
                Err(e)
            },
        }
    }
}

} // verus!

verus! {

/// A store whose tip pointer names a stored, fully decodable block shows
/// that block's height as its best height.
pub proof fn lemma_tip_block(m2: Map<Seq<u8>, Seq<u8>>, b: BlockV)
    requires
        m2.contains_key(last_key()),
        m2[last_key()] == encode_utf8(b.hash),
        m2.contains_key(encode_utf8(b.hash)),
        m2[encode_utf8(b.hash)] == enc_block(b),
        enc_block(b).len() < 0x1_0000_0000_0000_0000,
        b.transactions.len() < 0x1_0000_0000_0000_0000,
        forall|j: int|
            0 <= j < b.transactions.len() ==> (#[trigger] b.transactions[j].vin.len()
                < 0x1_0000_0000_0000_0000 && b.transactions[j].vout.len()
                < 0x1_0000_0000_0000_0000),
    ensures
        spec_best_height(m2) == Ok::<int, Error>(b.height as int),
        stored_block(m2, m2[last_key()]) == Some(b),
{
    reveal(stored_block);
    assert(enc_block(b).subrange(0, enc_block(b).len() as int) =~= enc_block(b));
    codec::lemma_rt_block(enc_block(b), 0, b);
    assert(stored_block(m2, m2[last_key()]) == Some(b));
}

impl BlockChain {
    /// Verifies every given transaction against the chain, then mints a
    /// block over them at the next height and moves the tip to it.
    #[verifier::loop_isolation(false)]
    #[verifier::rlimit(100)]
    #[verifier::spinoff_prover]
    pub fn mine_block(&mut self, txs: Vec<Transaction>) -> (r: Result<Block, Error>)
        ensures
            r matches Ok(b) ==> {
                let m0 = db_view(old(self).db);
                let key = encode_utf8(b@.hash);
                &&& pow_valid(b@)
                &&& b@.transactions == views_of_tx_vec(txs@)
                &&& (spec_best_height(m0) matches Ok(h0) && b@.height == h0 + 1)
                &&& db_view(final(self).db) == m0.insert(key, enc_block(b@)).insert(
                    last_key(),
                    key,
                )
                &&& final(self).current_hash@ == b@.hash
                &&& m0.contains_key(last_key()) && encode_utf8(b@.prev_block_hash) == m0[last_key()]
                &&& spec_best_height(db_view(final(self).db)) == Ok::<int, Error>(
                    b@.height as int,
                )
                &&& stored_block(
                    db_view(final(self).db),
                    db_view(final(self).db)[last_key()],
                ) == Some(b@)
                &&& forall|i: int|
                    0 <= i < txs@.len() ==> crate::transaction::spec_is_coinbase(
                        (#[trigger] txs@[i])@,
                    ) || (inputs_linkable(
                        txs@[i]@,
                        chain_txs(chain_of(m0, old(self).current_hash@)),
                    ) && tx_verifies(txs@[i]@, chain_txs(chain_of(m0, old(self).current_hash@))))
            },
            r matches Err(e) ==> e == Error::IoError || e == Error::InvalidTransaction || e
                == Error::StoreMissing || e == Error::SerializationError || e == Error::NotFound,
            r matches Err(e) && e != Error::IoError ==> db_view(final(self).db) == db_view(
                old(self).db,
            ) && final(self).current_hash == old(self).current_hash,
            r matches Err(e) && e == Error::InvalidTransaction ==> (txs@.len() > usize::MAX / 4
                || exists|i: int|
                0 <= i < txs@.len() && !(crate::transaction::spec_is_coinbase(
                    (#[trigger] txs@[i])@,
                ) || (inputs_linkable(
                    txs@[i]@,
                    chain_txs(chain_of(db_view(old(self).db), old(self).current_hash@)),
                ) && tx_verifies(
                    txs@[i]@,
                    chain_txs(chain_of(db_view(old(self).db), old(self).current_hash@)),
                )))),
    {
        let ghost m0 = db_view(self.db);
        let ghost chain = chain_txs(chain_of(m0, self.current_hash@));
        if txs.len() > usize::MAX / 4 {
            return Err(Error::InvalidTransaction);
        }
        let mut i: usize = 0;
        while i < txs.len()
            invariant
                i <= txs@.len(),
                self == old(self),
                forall|j: int|
                    0 <= j < i ==> crate::transaction::spec_is_coinbase((#[trigger] txs@[j])@)
                        || (inputs_linkable(txs@[j]@, chain) && tx_verifies(txs@[j]@, chain)),
            decreases txs@.len() - i,
        {
            let coin = txs[i].is_coinbase();
            match self.verify_transaction(&txs[i]) {
                Ok(true) => (),
                Ok(false) => {
                    return Err(Error::InvalidTransaction);
                },
                Err(e) => {
                    return Err(e);
                },
            }
            i += 1;
        }
        let lk = last_key_bytes();
        let last_hash_bytes = match self.db.get(lk.as_slice()) {
            Err(e) => {
                return Err(e);
            },
            Ok(None) => {
                return Err(Error::StoreMissing);
            },
            Ok(Some(v)) => v,
        };
        let last_hash = match codec::bytes_to_string(last_hash_bytes) {
            Some(s) => s,
            None => {
                return Err(Error::SerializationError);
            },
        };
        let best = match self.get_best_height() {
            Ok(h) => h,
            Err(e) => {
                return Err(e);
            },
        };
        if best == i32::MAX {
            return Err(Error::SerializationError);
        }
        let ghost txsv = txs@;
        let block = match Block::new_block(txs, last_hash, best + 1) {
            Ok(b) => b,
            Err(e) => {
                return Err(e);
            },
        };
        let hash = block.get_hash();
        let key = hash_key(hash.as_str());
        let data = codec::serialize_block(&block);
        match self.db.insert(key.as_slice(), data.as_slice()) {
            Ok(()) => (),
            Err(e) => {
                return Err(e);
            },
        }
        match self.db.insert(lk.as_slice(), key.as_slice()) {
            Ok(()) => (),
            Err(e) => {
                return Err(e);
            },
        }
        match self.db.flush() {
            Ok(()) => (),
            Err(e) => {
                return Err(e);
            },
        }
        self.current_hash = hash;
        proof {
            let m2 = db_view(self.db);
            lemma_hash_key_not_last(block@.hash);
            assert(m2.contains_key(key@));
            assert(m2[key@] == enc_block(block@));
            assert(enc_block(block@).len() == data@.len());
            assert(vstd::std_specs::vec::spec_vec_len(&data) == data@.len());
            assert forall|j: int|
                0 <= j < block@.transactions.len() implies (#[trigger] block@.transactions[j].vin.len()
                < 0x1_0000_0000_0000_0000 && block@.transactions[j].vout.len()
                < 0x1_0000_0000_0000_0000) by {
                assert(block@.transactions[j] == txsv[j]@);
                assert(vstd::std_specs::vec::spec_vec_len(&txsv[j].vin) == txsv[j].vin@.len());
                assert(vstd::std_specs::vec::spec_vec_len(&txsv[j].vout) == txsv[j].vout@.len());
            }
            lemma_tip_block(m2, block@);
        }
        Ok(block)
    }
}

} // verus!

use crate::kv::{contains_i32, find_key, keys_distinct, map_of};
use crate::tx::{TXOutput, TXOutputs, TxOutV};

verus! {

/// The sequence stored under a key, or empty.
pub open spec fn seq_at<V>(m: Map<Seq<char>, Seq<V>>, k: Seq<char>) -> Seq<V> {
    if m.contains_key(k) {
        m[k]
    } else {
        Seq::empty()
    }
}

/// The outputs of `t` from index `idx` on whose positions are not marked
/// spent.
pub open spec fn surviving(t: TxV, spent: Seq<i32>, idx: int) -> Seq<TxOutV>
    decreases t.vout.len() - idx,
{
    if idx < 0 || idx >= t.vout.len() {
        Seq::empty()
    } else {
        (if spent.contains(idx as i32) {
            Seq::empty()
        } else {
            seq![t.vout[idx]]
        }) + surviving(t, spent, idx + 1)
    }
}

/// Marks the outputs claimed by the inputs of `t`, from input `idx` on, as
/// spent.
pub open spec fn add_spent_from(s: Map<Seq<char>, Seq<i32>>, t: TxV, idx: int) -> Map<
    Seq<char>,
    Seq<i32>,
>
    decreases t.vin.len() - idx,
{
    if idx < 0 || idx >= t.vin.len() {
        s
    } else {
        add_spent_from(
            s.insert(t.vin[idx].txid, seq_at(s, t.vin[idx].txid).push(t.vin[idx].vout)),
            t,
            idx + 1,
        )
    }
}

/// One transaction's effect on the scan: its unspent outputs are appended
/// under its id, then its inputs (unless it is a coinbase) mark spends.
pub open spec fn scan_tx(
    u: Map<Seq<char>, Seq<TxOutV>>,
    s: Map<Seq<char>, Seq<i32>>,
    t: TxV,
) -> (Map<Seq<char>, Seq<TxOutV>>, Map<Seq<char>, Seq<i32>>) {
    let sv = surviving(t, seq_at(s, t.id), 0);
    let u2 = if sv.len() > 0 {
        u.insert(t.id, seq_at(u, t.id) + sv)
    } else {
        u
    };
    let s2 = if spec_is_coinbase(t) {
        s
    } else {
        add_spent_from(s, t, 0)
    };
    (u2, s2)
}

/// The scan over a sequence of transactions, in order.
pub open spec fn scan_txs(
    u: Map<Seq<char>, Seq<TxOutV>>,
    s: Map<Seq<char>, Seq<i32>>,
    txs: Seq<TxV>,
) -> (Map<Seq<char>, Seq<TxOutV>>, Map<Seq<char>, Seq<i32>>)
    decreases txs.len(),
{
    if txs.len() == 0 {
        (u, s)
    } else {
        let p = scan_tx(u, s, txs[0]);
        scan_txs(p.0, p.1, txs.drop_first())
    }
}

/// The unspent outputs a chain determines: txid to surviving outputs, found
/// by scanning every transaction from the tip toward the genesis.
pub open spec fn utxo_of_chain(ws: Seq<BlockV>) -> Map<Seq<char>, Seq<TxOutV>> {
    scan_txs(Map::empty(), Map::empty(), chain_txs(ws)).0
}

pub proof fn lemma_scan_txs_push(
    u: Map<Seq<char>, Seq<TxOutV>>,
    s: Map<Seq<char>, Seq<i32>>,
    txs: Seq<TxV>,
    t: TxV,
)
    ensures
        scan_txs(u, s, txs.push(t)) == scan_txs(
            scan_tx(scan_txs(u, s, txs).0, scan_txs(u, s, txs).1, t).0,
            scan_tx(scan_txs(u, s, txs).0, scan_txs(u, s, txs).1, t).1,
            Seq::empty(),
        ),
    decreases txs.len(),
{
    if txs.len() == 0 {
        assert(txs.push(t)[0] == t);
        assert(txs.push(t).drop_first() =~= Seq::<TxV>::empty());
    } else {
        assert(txs.push(t)[0] == txs[0]);
        assert(txs.push(t).drop_first() =~= txs.drop_first().push(t));
        let p = scan_tx(u, s, txs[0]);
        lemma_scan_txs_push(p.0, p.1, txs.drop_first(), t);
    }
}

/// Views of the utxo association list.
pub open spec fn views_of_upairs(s: Seq<(String, TXOutputs)>) -> Seq<(Seq<char>, Seq<TxOutV>)> {
    s.map_values(|p: (String, TXOutputs)| (p.0@, p.1@))
}

/// Views of the spent association list.
pub open spec fn views_of_spairs(s: Seq<(String, Vec<i32>)>) -> Seq<(Seq<char>, Seq<i32>)> {
    s.map_values(|p: (String, Vec<i32>)| (p.0@, p.1@))
}

/// Applies one transaction's scan step to the accumulators.
#[verifier::loop_isolation(false)]
#[verifier::rlimit(100)]
fn scan_one(
    utxos: &mut Vec<(String, TXOutputs)>,
    spent: &mut Vec<(String, Vec<i32>)>,
    t: &Transaction,
) -> (r: Result<(), Error>)
    requires
        keys_distinct(views_of_upairs(old(utxos)@)),
        keys_distinct(views_of_spairs(old(spent)@)),
    ensures
        r is Ok ==> keys_distinct(views_of_upairs(final(utxos)@)) && keys_distinct(
            views_of_spairs(final(spent)@),
        ) && map_of(views_of_upairs(final(utxos)@)) == scan_tx(
            map_of(views_of_upairs(old(utxos)@)),
            map_of(views_of_spairs(old(spent)@)),
            t@,
        ).0 && map_of(views_of_spairs(final(spent)@)) == scan_tx(
            map_of(views_of_upairs(old(utxos)@)),
            map_of(views_of_spairs(old(spent)@)),
            t@,
        ).1,
        r matches Err(e) ==> e == Error::SerializationError && *final(utxos) == *old(utxos)
            && *final(spent) == *old(spent),
{
    let ghost tv = t@;
    let ghost umap = map_of(views_of_upairs(utxos@));
    let ghost smap = map_of(views_of_spairs(spent@));
    if t.vout.len() > 0x7fff_ffffusize {
        return Err(Error::SerializationError);
    }
    proof {
        crate::kv::lemma_map_of_props(views_of_spairs(spent@));
        crate::kv::lemma_map_of_props(views_of_upairs(utxos@));
    }
    // The spend marks recorded for this transaction's id.
    let sp: Vec<i32> = match find_key(spent, &t.id) {
        Some(i) => {
            proof {
                assert(views_of_spairs(spent@)[i as int] == (
                    spent@[i as int].0@,
                    spent@[i as int].1@,
                ));
                assert(map_of(views_of_spairs(spent@))[views_of_spairs(spent@)[i as int].0]
                    == views_of_spairs(spent@)[i as int].1);
            }
            crate::kv::clone_i32s(&spent[i].1)
        },
        None => {
            proof {
                if map_of(views_of_spairs(spent@)).contains_key(tv.id) {
                    let i = choose|i: int|
                        0 <= i < views_of_spairs(spent@).len() && (#[trigger] views_of_spairs(
                            spent@,
                        )[i]).0 == tv.id;
                    assert(views_of_spairs(spent@)[i] == (spent@[i].0@, spent@[i].1@));
                    assert(spent@[i].0@ == tv.id);
                }
            }
            Vec::new()
        },
    };
    proof {
        assert(sp@ == seq_at(smap, tv.id));
    }
    // The outputs of this transaction that survive.
    let mut sv: Vec<TXOutput> = Vec::new();
    let mut oi: usize = 0;
    while oi < t.vout.len()
        invariant
            oi <= t.vout@.len(),
            codec::views_of_outputs(sv@) + surviving(tv, sp@, oi as int) =~= surviving(
                tv,
                sp@,
                0,
            ),
        decreases t.vout@.len() - oi,
    {
        let ghost pre = codec::views_of_outputs(sv@);
        proof {
            assert(surviving(tv, sp@, oi as int) == (if sp@.contains(oi as i32) {
                Seq::<TxOutV>::empty()
            } else {
                seq![tv.vout[oi as int]]
            }) + surviving(tv, sp@, oi + 1));
        }
        if !contains_i32(&sp, oi as i32) {
            sv.push(t.vout[oi].clone());
            proof {
                assert(codec::views_of_outputs(sv@) =~= pre.push(tv.vout[oi as int]));
                assert(pre.push(tv.vout[oi as int]) + surviving(tv, sp@, oi + 1) =~= pre + (
                seq![tv.vout[oi as int]] + surviving(tv, sp@, oi + 1)));
            }
        } else {
            proof {
                assert(pre + (Seq::<TxOutV>::empty() + surviving(tv, sp@, oi + 1)) =~= pre
                    + surviving(tv, sp@, oi + 1));
            }
        }
        oi += 1;
    }
    proof {
        assert(surviving(tv, sp@, t.vout@.len() as int) =~= Seq::<TxOutV>::empty());
        assert(codec::views_of_outputs(sv@) + Seq::<TxOutV>::empty() =~= codec::views_of_outputs(
            sv@,
        ));
        assert(codec::views_of_outputs(sv@) == surviving(tv, sp@, 0));
    }
    // Fold the survivors into the result.
    if sv.len() > 0 {
        let ghost svv = codec::views_of_outputs(sv@);
        match find_key(utxos, &t.id) {
            Some(i) => {
                let mut newouts = utxos[i].1.clone();
                let ghost oldv = newouts@;
                let mut svm = sv;
                newouts.outputs.append(&mut svm);
                proof {
                    assert(newouts@ =~= oldv + svv);
                    assert(views_of_upairs(utxos@)[i as int].1 == utxos@[i as int].1@);
                    assert(oldv == seq_at(umap, tv.id));
                    crate::kv::lemma_map_of_update(
                        views_of_upairs(utxos@),
                        i as int,
                        oldv + svv,
                    );
                }
                let ghost before = views_of_upairs(utxos@);
                utxos.set(i, (t.id.clone(), newouts));
                proof {
                    assert(views_of_upairs(utxos@) =~= before.update(
                        i as int,
                        (before[i as int].0, oldv + svv),
                    ));
                }
            },
            None => {
                let ghost before = views_of_upairs(utxos@);
                utxos.push((t.id.clone(), TXOutputs { outputs: sv }));
                proof {
                    crate::kv::lemma_map_of_push(before, tv.id, svv);
                    assert(views_of_upairs(utxos@) =~= before.push((tv.id, svv)));
                    assert(seq_at(umap, tv.id) =~= Seq::<TxOutV>::empty());
                    assert(seq_at(umap, tv.id) + svv =~= svv);
                }
            },
        }
    }
    proof {
        assert(map_of(views_of_upairs(utxos@)) == scan_tx(umap, smap, tv).0);
    }
    // Record this transaction's own spends.
    if !t.is_coinbase() {
        let mut ji: usize = 0;
        while ji < t.vin.len()
            invariant
                ji <= t.vin@.len(),
                keys_distinct(views_of_spairs(spent@)),
                add_spent_from(map_of(views_of_spairs(spent@)), tv, ji as int) == add_spent_from(
                    smap,
                    tv,
                    0,
                ),
            decreases t.vin@.len() - ji,
        {
            let ghost scur = map_of(views_of_spairs(spent@));
            proof {
                crate::kv::lemma_map_of_props(views_of_spairs(spent@));
            }
            let inp = &t.vin[ji];
            match find_key(spent, &inp.txid) {
                Some(i) => {
                    let mut newv = crate::kv::clone_i32s(&spent[i].1);
                    proof {
                        assert(views_of_spairs(spent@)[i as int].1 == spent@[i as int].1@);
                        assert(newv@ == seq_at(scur, tv.vin[ji as int].txid));
                    }
                    newv.push(inp.vout);
                    proof {
                        crate::kv::lemma_map_of_update(
                            views_of_spairs(spent@),
                            i as int,
                            seq_at(scur, tv.vin[ji as int].txid).push(tv.vin[ji as int].vout),
                        );
                    }
                    let ghost before = views_of_spairs(spent@);
                    spent.set(i, (inp.txid.clone(), newv));
                    proof {
                        assert(views_of_spairs(spent@) =~= before.update(
                            i as int,
                            (
                                before[i as int].0,
                                seq_at(scur, tv.vin[ji as int].txid).push(
                                    tv.vin[ji as int].vout,
                                ),
                            ),
                        ));
                    }
                },
                None => {
                    let mut newv: Vec<i32> = Vec::new();
                    newv.push(inp.vout);
                    let ghost before = views_of_spairs(spent@);
                    spent.push((inp.txid.clone(), newv));
                    proof {
                        assert(seq_at(scur, tv.vin[ji as int].txid) =~= Seq::<i32>::empty());
                        crate::kv::lemma_map_of_push(
                            before,
                            tv.vin[ji as int].txid,
                            seq_at(scur, tv.vin[ji as int].txid).push(tv.vin[ji as int].vout),
                        );
                        assert(views_of_spairs(spent@) =~= before.push(
                            (
                                tv.vin[ji as int].txid,
                                seq_at(scur, tv.vin[ji as int].txid).push(
                                    tv.vin[ji as int].vout,
                                ),
                            ),
                        ));
                    }
                },
            }
            proof {
                assert(map_of(views_of_spairs(spent@)) == scur.insert(
                    tv.vin[ji as int].txid,
                    seq_at(scur, tv.vin[ji as int].txid).push(tv.vin[ji as int].vout),
                ));
                assert(add_spent_from(scur, tv, ji as int) == add_spent_from(
                    map_of(views_of_spairs(spent@)),
                    tv,
                    ji + 1,
                ));
            }
            ji += 1;
        }
        proof {
            assert(add_spent_from(map_of(views_of_spairs(spent@)), tv, t.vin@.len() as int)
                == map_of(views_of_spairs(spent@)));
        }
    }
    proof {
        assert(map_of(views_of_spairs(spent@)) == scan_tx(umap, smap, tv).1);
    }
    Ok(())
}

impl BlockChain {
    /// A full scan of the chain: for each transaction id, the outputs not
    /// consumed by any transaction scanned before it (that is, any
    /// chronologically later one).
    #[verifier::loop_isolation(false)]
    #[verifier::rlimit(100)]
    #[verifier::spinoff_prover]
    pub fn find_utxo(&self) -> (r: Result<Vec<(String, TXOutputs)>, Error>)
        ensures
            r matches Ok(us) ==> keys_distinct(views_of_upairs(us@)) && map_of(
                views_of_upairs(us@),
            ) == utxo_of_chain(chain_of(db_view(self.db), self.current_hash@)),
            r matches Err(e) ==> e == Error::IoError || e == Error::SerializationError,
    {
        let ghost chain = chain_of(db_view(self.db), self.current_hash@);
        let bs = match self.blocks() {
            Ok(bs) => bs,
            Err(e) => {
                return Err(e);
            },
        };
        let flat = all_txs(&bs);
        let ghost flatv = views_of_tx_vec(flat@);
        let mut utxos: Vec<(String, TXOutputs)> = Vec::new();
        let mut spent: Vec<(String, Vec<i32>)> = Vec::new();
        let mut ti: usize = 0;
        proof {
            assert(views_of_upairs(utxos@) =~= Seq::<(Seq<char>, Seq<TxOutV>)>::empty());
            assert(views_of_spairs(spent@) =~= Seq::<(Seq<char>, Seq<i32>)>::empty());
            assert(flatv.take(0) =~= Seq::<TxV>::empty());
        }
        while ti < flat.len()
            invariant
                ti <= flatv.len(),
                keys_distinct(views_of_upairs(utxos@)),
                keys_distinct(views_of_spairs(spent@)),
                map_of(views_of_upairs(utxos@)) == scan_txs(
                    Map::empty(),
                    Map::empty(),
                    flatv.take(ti as int),
                ).0,
                map_of(views_of_spairs(spent@)) == scan_txs(
                    Map::empty(),
                    Map::empty(),
                    flatv.take(ti as int),
                ).1,
            decreases flatv.len() - ti,
        {
            let ghost tv = flatv[ti as int];
            match scan_one(&mut utxos, &mut spent, &flat[ti]) {
                Ok(()) => (),
                Err(e) => {
                    return Err(e);
                },
            }
            proof {
                lemma_scan_txs_push(Map::empty(), Map::empty(), flatv.take(ti as int), tv);
                assert(flatv.take(ti + 1) =~= flatv.take(ti as int).push(tv));
            }
            ti += 1;
        }
        proof {
            assert(flatv.take(flatv.len() as int) =~= flatv);
        }
        Ok(utxos)
    }
}

} // verus!
