use vstd::prelude::*;

use crate::transaction::{Transaction, TxV};

verus! {

/// Number of leading hex digits of a block hash that must be '0'.
pub const TARGET_HEXT: usize = 4;

/// Model of a block.
pub struct BlockV {
    pub timestamp: u128,
    pub transactions: Seq<TxV>,
    pub prev_block_hash: Seq<char>,
    pub hash: Seq<char>,
    pub height: i32,
    pub nonce: i32,
}

/// A block of the chain: a timestamp, the transactions it carries, the hash
/// of the previous block, its own proof-of-work hash, its height, and the
/// nonce found by the proof-of-work search.
#[derive(Debug)]
pub struct Block {
    pub timestamp: u128,
    pub transactions: Vec<Transaction>,
    pub prev_block_hash: String,
    pub hash: String,
    pub height: i32,
    pub nonce: i32,
}

impl View for Block {
    type V = BlockV;

    open spec fn view(&self) -> BlockV {
        BlockV {
            timestamp: self.timestamp,
            transactions: self.transactions@.map_values(|t: Transaction| t@),
            prev_block_hash: self.prev_block_hash@,
            hash: self.hash@,
            height: self.height,
            nonce: self.nonce,
        }
    }
}

impl Clone for Block {
    /// A copy whose model is the same.
    fn clone(&self) -> (r: Self)
        ensures
            r@ == self@,
    {
        let mut transactions: Vec<Transaction> = Vec::new();
        let mut i: usize = 0;
        while i < self.transactions.len()
            invariant
                i <= self.transactions@.len(),
                transactions@.len() == i,
                forall|j: int| 0 <= j < i ==> transactions@[j]@ == self@.transactions[j],
            decreases self.transactions@.len() - i,
        {
            transactions.push(self.transactions[i].clone());
            i += 1;
        }
        let r = Block {
            timestamp: self.timestamp,
            transactions,
            prev_block_hash: self.prev_block_hash.clone(),
            hash: self.hash.clone(),
            height: self.height,
            nonce: self.nonce,
        };
        proof {
            assert(r@.transactions =~= self@.transactions);
        }
        r
    }
}

impl Block {
    /// The transactions carried by this block.
    pub fn get_transactions(&self) -> (r: &Vec<Transaction>)
        ensures
            r@.map_values(|t: Transaction| t@) == self@.transactions,
    {
        &self.transactions
    }

    /// The proof-of-work hash of this block.
    pub fn get_hash(&self) -> (r: String)
        ensures
            r@ == self@.hash,
    {
        self.hash.clone()
    }

    /// The height of this block.
    pub fn get_height(&self) -> (r: i32)
        ensures
            r == self@.height,
    {
        self.height
    }

    /// The hash of the previous block; empty only for the genesis block.
    pub fn get_prev_hash(&self) -> (r: String)
        ensures
            r@ == self@.prev_block_hash,
    {
        self.prev_block_hash.clone()
    }
}

} // verus!

use crate::codec;
use crate::errors::Error;
use crate::hashing::{sha256_hex, sha256_hex_of};
use crate::merkle::{merkle_root, merkle_root_of};
use crate::transaction::{compute_id, tx_id_of};
use vstd::utf8::encode_utf8;

verus! {

/// The Merkle leaves of a block: each transaction's id string as its UTF-8
/// bytes.
pub open spec fn block_leaves(txs: Seq<TxV>) -> Seq<Seq<u8>> {
    txs.map_values(|t: TxV| encode_utf8(tx_id_of(t)))
}

/// The proof-of-work preimage: previous hash, Merkle root, timestamp, the
/// difficulty constant, and the nonce.
pub open spec fn pow_preimage(prev: Seq<char>, root: Seq<u8>, timestamp: u128, nonce: i32) -> Seq<
    u8,
> {
    codec::enc_string(prev) + codec::enc_bytes(root) + codec::enc_u128(timestamp) + codec::enc_u64(
        TARGET_HEXT as u64,
    ) + codec::enc_i32(nonce)
}

/// The hash a block's header determines.
pub open spec fn pow_hash_of(b: BlockV) -> Seq<char> {
    sha256_hex_of(
        pow_preimage(
            b.prev_block_hash,
            merkle_root_of(block_leaves(b.transactions)),
            b.timestamp,
            b.nonce,
        ),
    )
}

/// Whether a hex digest meets the difficulty target: 64 digits, the first
/// four of them '0'.
pub open spec fn pow_prefix_ok(h: Seq<char>) -> bool {
    h.len() == 64 && h[0] == '0' && h[1] == '0' && h[2] == '0' && h[3] == '0'
}

/// Whether a block carries a valid proof of work: its recorded hash is the
/// hash its header determines, and that hash meets the target.
pub open spec fn pow_valid(b: BlockV) -> bool {
    b.hash == pow_hash_of(b) && pow_prefix_ok(b.hash)
}

/// The same block header with another nonce.
pub open spec fn with_nonce(b: BlockV, n: i32) -> BlockV {
    BlockV { nonce: n, ..b }
}

/// Whether `b`'s nonce is the least one at or above `start` whose header
/// hash meets the target.
pub open spec fn least_nonce_from(b: BlockV, start: i32) -> bool {
    &&& b.nonce >= start
    &&& forall|n: i32|
        start <= n < b.nonce ==> !pow_prefix_ok(pow_hash_of(#[trigger] with_nonce(b, n)))
}

/// Relies on std::time::SystemTime: the milliseconds since the epoch, when
/// the clock is not before the epoch.
#[verifier::external_body]
fn now_millis() -> (r: Option<u128>) {
    std::time::SystemTime::now().duration_since(std::time::SystemTime::UNIX_EPOCH).ok().map(
        |d| d.as_millis(),
    )
}

/// Whether a hex digest string meets the difficulty target.
fn meets_target(h: &str) -> (r: bool)
    ensures
        r == pow_prefix_ok(h@),
{
    if <str as vstd::string::StrSliceExecFns>::unicode_len(h) != 64 {
        return false;
    }
    let c0 = <str as vstd::string::StrSliceExecFns>::get_char(h, 0);
    let c1 = <str as vstd::string::StrSliceExecFns>::get_char(h, 1);
    let c2 = <str as vstd::string::StrSliceExecFns>::get_char(h, 2);
    let c3 = <str as vstd::string::StrSliceExecFns>::get_char(h, 3);
    c0 == '0' && c1 == '0' && c2 == '0' && c3 == '0'
}

impl Block {
    /// The proof-of-work preimage of this block.
    fn prepare_hash_data(&self) -> (r: Vec<u8>)
        requires
            2 * self@.transactions.len() < usize::MAX,
        ensures
            r@ == pow_preimage(
                self@.prev_block_hash,
                merkle_root_of(block_leaves(self@.transactions)),
                self@.timestamp,
                self@.nonce,
            ),
    {
        let mut leaves: Vec<Vec<u8>> = Vec::new();
        let mut i: usize = 0;
        while i < self.transactions.len()
            invariant
                i <= self.transactions@.len(),
                leaves@.len() == i,
                forall|j: int|
                    0 <= j < i ==> leaves@[j]@ == encode_utf8(tx_id_of(self@.transactions[j])),
            decreases self.transactions@.len() - i,
        {
            let id = compute_id(&self.transactions[i]);
            leaves.push(<str as vstd::string::StrSliceExecFns>::as_bytes_vec(id.as_str()));
            i += 1;
        }
        proof {
            assert(leaves@.map_values(|v: Vec<u8>| v@) =~= block_leaves(self@.transactions));
        }
        let root = merkle_root(&leaves);
        let mut out: Vec<u8> = Vec::new();
        codec::write_string(&mut out, self.prev_block_hash.as_str());
        codec::write_bytes(&mut out, root.as_slice());
        codec::write_u128(&mut out, self.timestamp);
        codec::write_u64(&mut out, TARGET_HEXT as u64);
        codec::write_i32(&mut out, self.nonce);
        proof {
            assert(out@ =~= pow_preimage(
                self@.prev_block_hash,
                merkle_root_of(block_leaves(self@.transactions)),
                self@.timestamp,
                self@.nonce,
            ));
        }
        out
    }

    /// Whether this block's header, with its recorded nonce, hashes under
    /// the difficulty target.
    pub fn validate(&self) -> (r: bool)
        requires
            2 * self@.transactions.len() < usize::MAX,
        ensures
            r == pow_prefix_ok(pow_hash_of(self@)),
    {
        let data = self.prepare_hash_data();
        let h = sha256_hex(data.as_slice());
        meets_target(h.as_str())
    }

    /// Searches nonces from the recorded one upward until the header hash
    /// meets the target, then records that hash: the nonce found is the
    /// least one from the starting nonce whose hash meets the target.
    pub fn run_proof_of_work(&mut self) -> (r: Result<(), Error>)
        requires
            2 * old(self)@.transactions.len() < usize::MAX,
        ensures
            r is Ok ==> pow_valid(final(self)@) && vstd::utf8::is_ascii_chars(final(self)@.hash)
                && least_nonce_from(final(self)@, old(self)@.nonce),
            r matches Err(e) ==> e == Error::IoError && (forall|n: i32|
                n >= old(self)@.nonce ==> !pow_prefix_ok(
                    pow_hash_of(#[trigger] with_nonce(old(self)@, n)),
                )),
            final(self)@.transactions == old(self)@.transactions,
            final(self)@.prev_block_hash == old(self)@.prev_block_hash,
            final(self)@.height == old(self)@.height,
            final(self)@.timestamp == old(self)@.timestamp,
    {
        loop
            invariant
                2 * self@.transactions.len() < usize::MAX,
                self@.transactions == old(self)@.transactions,
                self@.prev_block_hash == old(self)@.prev_block_hash,
                self@.height == old(self)@.height,
                self@.timestamp == old(self)@.timestamp,
                self@.nonce >= old(self)@.nonce,
                forall|n: i32|
                    old(self)@.nonce <= n < self@.nonce ==> !pow_prefix_ok(
                        pow_hash_of(#[trigger] with_nonce(self@, n)),
                    ),
            decreases i32::MAX - self@.nonce,
        {
            let data = self.prepare_hash_data();
            let h = sha256_hex(data.as_slice());
            if meets_target(h.as_str()) {
                let ghost at_head = self@;
                self.hash = h;
                proof {
                    assert(pow_hash_of(self@) == h@);
                    assert forall|n: i32|
                        old(self)@.nonce <= n < self@.nonce implies !pow_prefix_ok(
                        pow_hash_of(#[trigger] with_nonce(self@, n)),
                    ) by {
                        assert(!pow_prefix_ok(pow_hash_of(with_nonce(at_head, n))));
                        assert(pow_hash_of(with_nonce(self@, n)) == pow_hash_of(
                            with_nonce(at_head, n),
                        ));
                    }
                }
                return Ok(());
            }
            if self.nonce == i32::MAX {
                // The whole nonce space was searched without a hit.
                proof {
                    assert(pow_hash_of(self@) == h@);
                    assert forall|n: i32| n >= old(self)@.nonce implies !pow_prefix_ok(
                        pow_hash_of(#[trigger] with_nonce(old(self)@, n)),
                    ) by {
                        if n == i32::MAX {
                            assert(pow_hash_of(with_nonce(old(self)@, n)) == pow_hash_of(self@));
                        } else {
                            assert(!pow_prefix_ok(pow_hash_of(with_nonce(self@, n))));
                            assert(pow_hash_of(with_nonce(old(self)@, n)) == pow_hash_of(
                                with_nonce(self@, n),
                            ));
                        }
                    }
                }
                return Err(Error::IoError);
            }
            let ghost pre = self@;
            self.nonce = self.nonce + 1;
            proof {
                assert(pow_hash_of(pre) == h@);
                assert forall|n: i32|
                    old(self)@.nonce <= n < self@.nonce implies !pow_prefix_ok(
                    pow_hash_of(#[trigger] with_nonce(self@, n)),
                ) by {
                    if n == pre.nonce {
                        assert(with_nonce(self@, n) == pre);
                    } else {
                        assert(with_nonce(self@, n) == with_nonce(pre, n));
                    }
                }
            }
        }
    }

    /// Mints a block over the given transactions: stamps the wall clock,
    /// then searches for a nonce under the difficulty target.
    pub fn new_block(data: Vec<Transaction>, prev_block_hash: String, height: i32) -> (r: Result<
        Block,
        Error,
    >)
        requires
            2 * data@.len() < usize::MAX,
        ensures
            r matches Ok(b) ==> pow_valid(b@) && vstd::utf8::is_ascii_chars(b@.hash)
                && b@.transactions == data@.map_values(|t: Transaction| t@)
                && b@.prev_block_hash == prev_block_hash@ && b@.height == height
                && least_nonce_from(b@, 0),
            r matches Err(e) ==> e == Error::IoError,
    {
        let timestamp = match now_millis() {
            Some(t) => t,
            None => {
                return Err(Error::IoError);
            },
        };
        let mut block = Block {
            timestamp,
            transactions: data,
            prev_block_hash,
            hash: String::new(),
            height,
            nonce: 0,
        };
        match block.run_proof_of_work() {
            Ok(()) => Ok(block),
            Err(e) => Err(e),
        }
    }

    /// The genesis block: height zero, no previous hash, one coinbase.
    pub fn new_genesis_block(coinbase: Transaction) -> (r: Result<Block, Error>)
        ensures
            r matches Ok(b) ==> pow_valid(b@) && vstd::utf8::is_ascii_chars(b@.hash)
                && b@.transactions.len() == 1 && b@.transactions[0] == coinbase@
                && b@.prev_block_hash.len() == 0 && b@.height == 0,
    {
        let mut txs: Vec<Transaction> = Vec::new();
        let ghost cv = coinbase@;
        txs.push(coinbase);
        proof {
            assert(txs@.map_values(|t: Transaction| t@) =~= seq![cv]);
        }
        Block::new_block(txs, String::new(), 0)
    }
}

} // verus!
