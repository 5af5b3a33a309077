use vstd::prelude::*;

use crate::errors::Error;
use crate::hashing::{hash_pub_key, pub_key_hash_of};

verus! {

/// The payload carried by a wallet address, when the address is well formed.
pub uninterp spec fn address_payload_of(s: Seq<char>) -> Option<Seq<u8>>;

/// Whether `s` is a prefix, one colon, and a colon-free payload of at most
/// nine characters. On such strings — never valid addresses, whose payload
/// is too short to carry even a version byte — the dependency's CashAddr
/// decoder panics instead of erring, so they are fenced off before the
/// call.
pub open spec fn short_prefixed(s: Seq<char>) -> bool {
    exists|i: int|
        0 <= i < s.len() && #[trigger] s[i] == ':' && s.len() - i - 1 <= 9 && (forall|j: int|
            0 <= j < s.len() && j != i ==> s[j] != ':')
}

/// Model of a transaction input.
pub struct TxInV {
    pub txid: Seq<char>,
    pub vout: i32,
    pub signature: Seq<u8>,
    pub pub_key: Seq<u8>,
}

/// Model of a transaction output.
pub struct TxOutV {
    pub value: i32,
    pub pub_key_hash: Seq<u8>,
}

/// One input of a transaction: a reference to an output of a previous
/// transaction, together with the data that unlocks it.
#[derive(Debug)]
pub struct TXInput {
    pub txid: String,
    pub vout: i32,
    pub signature: Vec<u8>,
    pub pub_key: Vec<u8>,
}

/// One output of a transaction: an amount locked to a public-key hash.
#[derive(Debug)]
pub struct TXOutput {
    pub value: i32,
    pub pub_key_hash: Vec<u8>,
}

/// The outputs of one transaction that remain unspent.
#[derive(Debug)]
pub struct TXOutputs {
    pub outputs: Vec<TXOutput>,
}

impl View for TXInput {
    type V = TxInV;

    open spec fn view(&self) -> TxInV {
        TxInV {
            txid: self.txid@,
            vout: self.vout,
            signature: self.signature@,
            pub_key: self.pub_key@,
        }
    }
}

impl View for TXOutput {
    type V = TxOutV;

    open spec fn view(&self) -> TxOutV {
        TxOutV { value: self.value, pub_key_hash: self.pub_key_hash@ }
    }
}

impl View for TXOutputs {
    type V = Seq<TxOutV>;

    open spec fn view(&self) -> Seq<TxOutV> {
        self.outputs@.map_values(|o: TXOutput| o@)
    }
}

impl Clone for TXInput {
    /// A copy whose model is the same.
    fn clone(&self) -> (r: Self)
        ensures
            r@ == self@,
    {
        TXInput {
            txid: self.txid.clone(),
            vout: self.vout,
            signature: clone_bytes(&self.signature),
            pub_key: clone_bytes(&self.pub_key),
        }
    }
}

impl Clone for TXOutput {
    /// A copy whose model is the same.
    fn clone(&self) -> (r: Self)
        ensures
            r@ == self@,
    {
        TXOutput { value: self.value, pub_key_hash: clone_bytes(&self.pub_key_hash) }
    }
}

impl Clone for TXOutputs {
    /// A copy whose model is the same.
    fn clone(&self) -> (r: Self)
        ensures
            r@ == self@,
    {
        let mut outputs: Vec<TXOutput> = Vec::new();
        let mut i: usize = 0;
        while i < self.outputs.len()
            invariant
                i <= self.outputs@.len(),
                outputs@.len() == i,
                forall|j: int| 0 <= j < i ==> outputs@[j]@ == self@[j],
            decreases self.outputs@.len() - i,
        {
            outputs.push(self.outputs[i].clone());
            i += 1;
        }
        let r = TXOutputs { outputs };
        proof {
            assert(r@ =~= self@);
        }
        r
    }
}

/// A fresh byte vector with the same contents.
pub fn clone_bytes(v: &Vec<u8>) -> (r: Vec<u8>)
    ensures
        r@ == v@,
{
    let mut r: Vec<u8> = Vec::new();
    let mut i: usize = 0;
    while i < v.len()
        invariant
            i <= v@.len(),
            r@ =~= v@.take(i as int),
        decreases v@.len() - i,
    {
        r.push(v[i]);
        proof {
            assert(r@ =~= v@.take((i + 1) as int));
        }
        i += 1;
    }
    proof {
        assert(v@.take(v@.len() as int) =~= v@);
    }
    r
}

/// Relies on bitcoincash_addr::Address::decode: whether an address string
/// decodes, and the payload bytes it decodes to, are functions of the
/// string alone. The requires keeps out the prefix-shaped strings with
/// fewer than ten payload symbols, on which the CashAddr path panics.
#[verifier::external_body]
fn decode_address_checked(address: &str) -> (r: Option<Vec<u8>>)
    requires
        !short_prefixed(address@),
    ensures
        r is Some <==> address_payload_of(address@) is Some,
        r matches Some(v) ==> address_payload_of(address@) == Some(v@),
{
    match bitcoincash_addr::Address::decode(address) {
        Ok(a) => Some(a.body),
        Err(_) => None,
    }
}

/// Whether the string has the panic-prone shape: exactly one colon,
/// followed by at most nine characters.
#[verifier::loop_isolation(false)]
fn is_short_prefixed(address: &str) -> (r: bool)
    ensures
        r == short_prefixed(address@),
{
    let n = <str as vstd::string::StrSliceExecFns>::unicode_len(address);
    let mut count: usize = 0;
    let mut pos: usize = 0;
    let mut i: usize = 0;
    while i < n
        invariant
            i <= n,
            n == address@.len(),
            count <= i,
            count == 0 ==> forall|j: int| 0 <= j < i ==> address@[j] != ':',
            count == 1 ==> pos < i && address@[pos as int] == ':' && (forall|j: int|
                0 <= j < i && j != pos ==> address@[j] != ':'),
            count >= 2 ==> exists|a: int, b: int|
                0 <= a < b < i && #[trigger] address@[a] == ':' && #[trigger] address@[b] == ':',
        decreases n - i,
    {
        if <str as vstd::string::StrSliceExecFns>::get_char(address, i) == ':' {
            proof {
                if count == 1 {
                    assert(address@[pos as int] == ':' && address@[i as int] == ':');
                }
            }
            count = count + 1;
            pos = i;
        }
        i += 1;
    }
    let r = count == 1 && n - pos - 1 <= 9;
    proof {
        if r {
            assert(address@[pos as int] == ':');
            assert(short_prefixed(address@));
        }
        if short_prefixed(address@) {
            let i0 = choose|i0: int|
                0 <= i0 < address@.len() && #[trigger] address@[i0] == ':' && address@.len() - i0
                    - 1 <= 9 && (forall|j: int|
                    0 <= j < address@.len() && j != i0 ==> address@[j] != ':');
            if count == 0 {
                assert(address@[i0] != ':');
            }
            if count >= 2 {
                let (a, b) = choose|a: int, b: int|
                    0 <= a < b < address@.len() && #[trigger] address@[a] == ':' && #[trigger]
                    address@[b] == ':';
                assert(a != i0 || b != i0);
            }
            assert(count == 1);
            assert(pos as int == i0);
        }
    }
    r
}

/// Decodes a wallet address to its payload bytes. The panic-prone short
/// shape is rejected outright; such strings are never valid addresses.
fn decode_address(address: &str) -> (r: Option<Vec<u8>>)
    ensures
        !short_prefixed(address@) ==> (r is Some <==> address_payload_of(address@) is Some),
        !short_prefixed(address@) ==> (r matches Some(v) ==> address_payload_of(address@) == Some(
            v@,
        )),
        short_prefixed(address@) ==> r is None,
{
    if is_short_prefixed(address) {
        None
    } else {
        decode_address_checked(address)
    }
}

impl TXInput {
    /// Whether the key carried by this input hashes to the given lock.
    pub fn can_unlock_output_with(&self, unlocking_data: &[u8]) -> (r: bool)
        ensures
            r == (pub_key_hash_of(self.pub_key@) == unlocking_data@),
    {
        let mut pubkeyhash = clone_bytes(&self.pub_key);
        hash_pub_key(&mut pubkeyhash);
        byte_slices_equal(pubkeyhash.as_slice(), unlocking_data)
    }
}

impl TXOutput {
    /// An output of the given value locked to the decoded address; fails
    /// with a decode error exactly when the address does not parse.
    pub fn new(value: i32, address: String) -> (r: Result<TXOutput, Error>)
        ensures
            r is Ok <==> (!short_prefixed(address@) && address_payload_of(address@) is Some),
            r matches Ok(o) ==> o@.value == value && address_payload_of(address@) == Some(
                o@.pub_key_hash,
            ),
            r matches Err(e) ==> e == Error::SerializationError,
    {
        match decode_address(address.as_str()) {
            Some(h) => Ok(TXOutput { value, pub_key_hash: h }),
            None => Err(Error::SerializationError),
        }
    }

    /// Whether this output is locked to the given public-key hash.
    pub fn can_be_unlock_with(&self, unlocking_data: &[u8]) -> (r: bool)
        ensures
            r == (self.pub_key_hash@ == unlocking_data@),
    {
        byte_slices_equal(self.pub_key_hash.as_slice(), unlocking_data)
    }
}

/// Bytewise equality of two byte slices.
pub fn byte_slices_equal(a: &[u8], b: &[u8]) -> (r: bool)
    ensures
        r == (a@ == b@),
{
    if a.len() != b.len() {
        assert(a@ != b@);
        return false;
    }
    let n: usize = a.len();
    let mut i: usize = 0;
    while i < n
        invariant
            n == a@.len() == b@.len(),
            i <= n,
            forall|j: int| 0 <= j < i ==> a@[j] == b@[j],
        decreases n - i,
    {
        if a[i] != b[i] {
            return false;
        }
        i += 1;
    }
    assert(a@ =~= b@);
    true
}

} // verus!
