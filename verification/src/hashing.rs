use vstd::prelude::*;

use crypto::digest::Digest;

verus! {

/// The lowercase hex string of the SHA-256 digest of a byte string.
pub uninterp spec fn sha256_hex_of(data: Seq<u8>) -> Seq<char>;

/// The raw 32-byte SHA-256 digest of a byte string.
pub uninterp spec fn sha256_of(data: Seq<u8>) -> Seq<u8>;

/// The raw 20-byte RIPEMD-160 digest of a byte string.
pub uninterp spec fn ripemd160_of(data: Seq<u8>) -> Seq<u8>;

/// The Ed25519 signature of a message under a 64-byte expanded secret key.
pub uninterp spec fn ed25519_sig_of(message: Seq<u8>, secret_key: Seq<u8>) -> Seq<u8>;

/// Whether an Ed25519 signature checks out for a message and a public key.
pub uninterp spec fn ed25519_ok(message: Seq<u8>, public_key: Seq<u8>, signature: Seq<u8>) -> bool;

/// The 20-byte hash that locks outputs: RIPEMD-160 of SHA-256 of the key.
pub open spec fn pub_key_hash_of(pub_key: Seq<u8>) -> Seq<u8> {
    ripemd160_of(sha256_of(pub_key))
}

/// Relies on crypto's Sha256 with Digest::result_str: the digest depends on
/// the input bytes alone; its hex form has 64 lowercase ASCII characters.
#[verifier::external_body]
pub fn sha256_hex(data: &[u8]) -> (r: String)
    ensures
        r@ == sha256_hex_of(data@),
        r@.len() == 64,
        vstd::utf8::is_ascii_chars(r@),
{
    let mut hasher = crypto::sha2::Sha256::new();
    hasher.input(data);
    hasher.result_str()
}

/// Relies on crypto's Sha256 with Digest::result: the 32-byte digest depends
/// on the input bytes alone.
#[verifier::external_body]
pub fn sha256_digest(data: &[u8]) -> (r: Vec<u8>)
    ensures
        r@ == sha256_of(data@),
        r@.len() == 32,
{
    let mut hasher = crypto::sha2::Sha256::new();
    hasher.input(data);
    let mut out: [u8; 32] = [0; 32];
    hasher.result(&mut out);
    out.to_vec()
}

/// Relies on crypto's Ripemd160 with Digest::result: the 20-byte digest
/// depends on the input bytes alone.
#[verifier::external_body]
pub fn ripemd160_digest(data: &[u8]) -> (r: Vec<u8>)
    ensures
        r@ == ripemd160_of(data@),
        r@.len() == 20,
{
    let mut hasher = crypto::ripemd160::Ripemd160::new();
    hasher.input(data);
    let mut out: [u8; 20] = [0; 20];
    hasher.result(&mut out);
    out.to_vec()
}

/// Relies on crypto's ed25519::signature: Ed25519 signing is deterministic,
/// so the 64-byte signature depends on the message and the secret key alone.
/// The function indexes the first 64 bytes of the secret key.
#[verifier::external_body]
pub fn ed25519_sign(message: &[u8], secret_key: &[u8]) -> (r: Vec<u8>)
    requires
        secret_key@.len() == 64,
    ensures
        r@ == ed25519_sig_of(message@, secret_key@),
        r@.len() == 64,
{
    crypto::ed25519::signature(message, secret_key).to_vec()
}

/// Relies on crypto's ed25519::verify: the outcome depends on the message,
/// the public key and the signature alone. The function indexes 32 bytes of
/// the public key and 64 bytes of the signature.
#[verifier::external_body]
pub fn ed25519_check(message: &[u8], public_key: &[u8], signature: &[u8]) -> (r: bool)
    requires
        public_key@.len() == 32,
        signature@.len() == 64,
    ensures
        r == ed25519_ok(message@, public_key@, signature@),
{
    crypto::ed25519::verify(message, public_key, signature)
}

/// Replaces a raw public key by the 20-byte hash that locks outputs to it.
pub fn hash_pub_key(pub_key: &mut Vec<u8>)
    ensures
        final(pub_key)@ == pub_key_hash_of(old(pub_key)@),
        final(pub_key)@.len() == 20,
{
    let first = sha256_digest(pub_key.as_slice());
    let second = ripemd160_digest(first.as_slice());
    *pub_key = second;
}

} // verus!
