use vstd::prelude::*;

use vstd::utf8::{decode_utf8, encode_utf8, valid_utf8};

verus! {

broadcast use vstd::utf8::encode_utf8_valid_utf8, vstd::utf8::encode_utf8_decode_utf8, vstd::utf8::decode_utf8_encode_utf8;

// ---------------------------------------------------------------------------
// Little-endian fixed-width integers
// ---------------------------------------------------------------------------
/// 256 raised to the power `n`.
pub open spec fn pow256(n: nat) -> nat
    decreases n,
{
    if n == 0 {
        1
    } else {
        256 * pow256((n - 1) as nat)
    }
}

/// The `n` little-endian base-256 digits of `v`.
pub open spec fn le_bytes(v: nat, n: nat) -> Seq<u8>
    decreases n,
{
    if n == 0 {
        Seq::empty()
    } else {
        seq![(v % 256) as u8] + le_bytes(v / 256, (n - 1) as nat)
    }
}

/// The value of a little-endian base-256 digit string.
pub open spec fn le_val(b: Seq<u8>) -> nat
    decreases b.len(),
{
    if b.len() == 0 {
        0nat
    } else {
        (b[0] + 256 * le_val(b.drop_first())) as nat
    }
}

pub proof fn lemma_le_bytes_len(v: nat, n: nat)
    ensures
        le_bytes(v, n).len() == n,
    decreases n,
{
    if n > 0 {
        lemma_le_bytes_len(v / 256, (n - 1) as nat);
    }
}

pub proof fn lemma_le_val_le_bytes(v: nat, n: nat)
    requires
        v < pow256(n),
    ensures
        le_val(le_bytes(v, n)) == v,
    decreases n,
{
    if n > 0 {
        lemma_le_bytes_len(v / 256, (n - 1) as nat);
        assert(le_bytes(v, n).drop_first() =~= le_bytes(v / 256, (n - 1) as nat));
        lemma_le_val_le_bytes(v / 256, (n - 1) as nat);
    }
}

pub proof fn lemma_le_val_bound(b: Seq<u8>)
    ensures
        le_val(b) < pow256(b.len()),
    decreases b.len(),
{
    if b.len() > 0 {
        lemma_le_val_bound(b.drop_first());
    }
}

pub proof fn lemma_pow256_values()
    ensures
        pow256(4) == 0x1_0000_0000,
        pow256(8) == 0x1_0000_0000_0000_0000,
        pow256(15) == 0x100_0000_0000_0000_0000_0000_0000_0000,
        pow256(16) == 0x1_0000_0000_0000_0000_0000_0000_0000_0000,
{
    reveal_with_fuel(pow256, 17);
}

/// Appends the `n` little-endian bytes of `v` to `out`.
pub fn push_le(out: &mut Vec<u8>, v: u128, n: usize)
    requires
        (v as nat) < pow256(n as nat),
    ensures
        final(out)@ == old(out)@ + le_bytes(v as nat, n as nat),
{
    let mut x = v;
    let mut i: usize = 0;
    while i < n
        invariant
            i <= n,
            out@ + le_bytes(x as nat, (n - i) as nat) == old(out)@ + le_bytes(
                v as nat,
                n as nat,
            ),
        decreases n - i,
    {
        let ghost pre = out@;
        let b: u8 = (x % 256) as u8;
        out.push(b);
        proof {
            assert(le_bytes(x as nat, (n - i) as nat) =~= seq![b] + le_bytes(
                (x / 256) as nat,
                (n - i - 1) as nat,
            ));
            assert(out@ + le_bytes((x / 256) as nat, (n - i - 1) as nat) =~= pre + le_bytes(
                x as nat,
                (n - i) as nat,
            ));
        }
        x = x / 256;
        i += 1;
    }
    proof {
        assert(out@ + le_bytes(x as nat, 0) =~= out@);
    }
}

/// Reads `n` little-endian bytes starting at `pos`; `None` when fewer than
/// `n` bytes remain.
pub fn read_le(b: &[u8], pos: usize, n: usize) -> (r: Option<(u128, usize)>)
    requires
        n <= 16,
    ensures
        pos + n <= b@.len() ==> (r matches Some(p) && p.1 == pos + n && p.0 as nat == le_val(
            b@.subrange(pos as int, pos + n),
        )),
        pos + n > b@.len() ==> r is None,
        r is None ==> pos + n > b@.len(),
    decreases 0nat,
{
    if b.len() < n || pos > b.len() - n {
        return None;
    }
    let blen: usize = b.len();
    let mut acc: u128 = 0;
    let mut i: usize = n;
    proof {
        lemma_pow256_values();
        assert(b@.subrange(pos + n, pos + n) =~= Seq::<u8>::empty());
    }
    while i > 0
        invariant
            i <= n,
            n <= 16,
            pos + n <= b@.len(),
            b@.len() <= usize::MAX,
            acc as nat == le_val(b@.subrange(pos + i, pos + n)),
            (acc as nat) < pow256((n - i) as nat),
            pow256(16) == 0x1_0000_0000_0000_0000_0000_0000_0000_0000,
        decreases i,
    {
        i = i - 1;
        proof {
            lemma_pow256_mono((n - i - 1) as nat, 15);
            lemma_pow256_mono((n - i) as nat, 16);
            lemma_pow256_values();
            assert(256 * (acc as nat) + 255 < pow256((n - i) as nat));
            assert(b@.subrange(pos + i, pos + n).drop_first() =~= b@.subrange(
                pos + i + 1,
                pos + n,
            ));
        }
        acc = (b[pos + i] as u128) + 256 * acc;
    }
    Some((acc, pos + n))
}

pub proof fn lemma_pow256_mono(a: nat, b: nat)
    requires
        a <= b,
    ensures
        pow256(a) <= pow256(b),
    decreases b,
{
    if a < b && b > 0 {
        lemma_pow256_mono(a, (b - 1) as nat);
    }
}

// ---------------------------------------------------------------------------
// Typed scalars
// ---------------------------------------------------------------------------
/// The two's-complement 32-bit value of `v`.
pub open spec fn i32_bits(v: i32) -> nat {
    if v >= 0 {
        v as nat
    } else {
        (v + 0x1_0000_0000) as nat
    }
}

pub open spec fn enc_u32(v: u32) -> Seq<u8> {
    le_bytes(v as nat, 4)
}

pub open spec fn enc_i32(v: i32) -> Seq<u8> {
    le_bytes(i32_bits(v), 4)
}

pub open spec fn enc_u64(v: u64) -> Seq<u8> {
    le_bytes(v as nat, 8)
}

pub open spec fn enc_u128(v: u128) -> Seq<u8> {
    le_bytes(v as nat, 16)
}

/// A length-prefixed byte string: 8 bytes of length, then the bytes.
pub open spec fn enc_bytes(b: Seq<u8>) -> Seq<u8> {
    enc_u64(b.len() as u64) + b
}

/// A string is encoded as the length-prefixed bytes of its UTF-8 form.
pub open spec fn enc_string(s: Seq<char>) -> Seq<u8> {
    enc_bytes(encode_utf8(s))
}

/// The signed value whose two's-complement 32-bit form is `u`.
pub open spec fn i32_from_bits(u: nat) -> i32 {
    if u < 0x8000_0000 {
        u as i32
    } else {
        (u - 0x1_0000_0000) as i32
    }
}

// ---------------------------------------------------------------------------
// Spec-level decoders: each yields the decoded value and the end position.
// ---------------------------------------------------------------------------
pub open spec fn sdec_u32(b: Seq<u8>, pos: int) -> Option<(u32, int)> {
    if 0 <= pos && pos + 4 <= b.len() {
        Some((le_val(b.subrange(pos, pos + 4)) as u32, pos + 4))
    } else {
        None
    }
}

pub open spec fn sdec_i32(b: Seq<u8>, pos: int) -> Option<(i32, int)> {
    if 0 <= pos && pos + 4 <= b.len() {
        Some((i32_from_bits(le_val(b.subrange(pos, pos + 4))), pos + 4))
    } else {
        None
    }
}

pub open spec fn sdec_u64(b: Seq<u8>, pos: int) -> Option<(u64, int)> {
    if 0 <= pos && pos + 8 <= b.len() {
        Some((le_val(b.subrange(pos, pos + 8)) as u64, pos + 8))
    } else {
        None
    }
}

pub open spec fn sdec_u128(b: Seq<u8>, pos: int) -> Option<(u128, int)> {
    if 0 <= pos && pos + 16 <= b.len() {
        Some((le_val(b.subrange(pos, pos + 16)) as u128, pos + 16))
    } else {
        None
    }
}

pub open spec fn sdec_bytes(b: Seq<u8>, pos: int) -> Option<(Seq<u8>, int)> {
    match sdec_u64(b, pos) {
        Some((m, p)) => if p + m <= b.len() {
            Some((b.subrange(p, p + m), p + m))
        } else {
            None
        },
        None => None,
    }
}

pub open spec fn sdec_string(b: Seq<u8>, pos: int) -> Option<(Seq<char>, int)> {
    match sdec_bytes(b, pos) {
        Some((raw, p)) => if valid_utf8(raw) {
            Some((decode_utf8(raw), p))
        } else {
            None
        },
        None => None,
    }
}

// ---------------------------------------------------------------------------
// Subrange algebra
// ---------------------------------------------------------------------------
/// A subrange that equals a concatenation splits into subranges that equal
/// the parts.
pub proof fn lemma_split(b: Seq<u8>, pos: int, x: Seq<u8>, y: Seq<u8>)
    requires
        0 <= pos,
        pos + x.len() + y.len() <= b.len(),
        b.subrange(pos, pos + x.len() + y.len()) == x + y,
    ensures
        b.subrange(pos, pos + x.len()) == x,
        b.subrange(pos + x.len(), pos + x.len() + y.len()) == y,
{
    let whole = b.subrange(pos, pos + x.len() + y.len());
    assert(b.subrange(pos, pos + x.len()) =~= x) by {
        assert forall|i: int| 0 <= i < x.len() implies b.subrange(pos, pos + x.len())[i] == x[i] by {
            assert(whole[i] == (x + y)[i]);
        }
    }
    assert(b.subrange(pos + x.len(), pos + x.len() + y.len()) =~= y) by {
        assert forall|i: int|
            0 <= i < y.len() implies b.subrange(pos + x.len(), pos + x.len() + y.len())[i]
            == y[i] by {
            assert(whole[x.len() + i] == (x + y)[x.len() + i]);
        }
    }
}

// ---------------------------------------------------------------------------
// Round-trip lemmas: decoding an encoding yields the encoded value.
// ---------------------------------------------------------------------------
pub proof fn lemma_rt_u32(b: Seq<u8>, pos: int, v: u32)
    requires
        0 <= pos,
        pos + 4 <= b.len(),
        b.subrange(pos, pos + 4) == enc_u32(v),
    ensures
        sdec_u32(b, pos) == Some((v, pos + 4)),
{
    lemma_pow256_values();
    lemma_le_val_le_bytes(v as nat, 4);
}

pub proof fn lemma_rt_i32(b: Seq<u8>, pos: int, v: i32)
    requires
        0 <= pos,
        pos + 4 <= b.len(),
        b.subrange(pos, pos + 4) == enc_i32(v),
    ensures
        sdec_i32(b, pos) == Some((v, pos + 4)),
{
    lemma_pow256_values();
    lemma_le_val_le_bytes(i32_bits(v), 4);
}

pub proof fn lemma_rt_u64(b: Seq<u8>, pos: int, v: u64)
    requires
        0 <= pos,
        pos + 8 <= b.len(),
        b.subrange(pos, pos + 8) == enc_u64(v),
    ensures
        sdec_u64(b, pos) == Some((v, pos + 8)),
{
    lemma_pow256_values();
    lemma_le_val_le_bytes(v as nat, 8);
}

pub proof fn lemma_rt_u128(b: Seq<u8>, pos: int, v: u128)
    requires
        0 <= pos,
        pos + 16 <= b.len(),
        b.subrange(pos, pos + 16) == enc_u128(v),
    ensures
        sdec_u128(b, pos) == Some((v, pos + 16)),
{
    lemma_pow256_values();
    lemma_le_val_le_bytes(v as nat, 16);
}

pub proof fn lemma_rt_bytes(b: Seq<u8>, pos: int, d: Seq<u8>)
    requires
        0 <= pos,
        d.len() < 0x1_0000_0000_0000_0000,
        pos + enc_bytes(d).len() <= b.len(),
        b.subrange(pos, pos + enc_bytes(d).len()) == enc_bytes(d),
    ensures
        sdec_bytes(b, pos) == Some((d, pos + enc_bytes(d).len())),
{
    lemma_le_bytes_len(d.len() as u64 as nat, 8);
    lemma_split(b, pos, enc_u64(d.len() as u64), d);
    lemma_rt_u64(b, pos, d.len() as u64);
}

pub proof fn lemma_rt_string(b: Seq<u8>, pos: int, s: Seq<char>)
    requires
        0 <= pos,
        encode_utf8(s).len() < 0x1_0000_0000_0000_0000,
        pos + enc_string(s).len() <= b.len(),
        b.subrange(pos, pos + enc_string(s).len()) == enc_string(s),
    ensures
        sdec_string(b, pos) == Some((s, pos + enc_string(s).len())),
{
    lemma_rt_bytes(b, pos, encode_utf8(s));
}

// ---------------------------------------------------------------------------
// Executable writers
// ---------------------------------------------------------------------------
pub fn write_u32(out: &mut Vec<u8>, v: u32)
    ensures
        final(out)@ == old(out)@ + enc_u32(v),
{
    proof {
        lemma_pow256_values();
    }
    push_le(out, v as u128, 4);
}

pub fn write_i32(out: &mut Vec<u8>, v: i32)
    ensures
        final(out)@ == old(out)@ + enc_i32(v),
{
    proof {
        lemma_pow256_values();
    }
    let u: u32 = if v >= 0 {
        v as u32
    } else {
        ((v as i64) + 0x1_0000_0000i64) as u32
    };
    assert(u as nat == i32_bits(v));
    push_le(out, u as u128, 4);
}

pub fn write_u64(out: &mut Vec<u8>, v: u64)
    ensures
        final(out)@ == old(out)@ + enc_u64(v),
{
    proof {
        lemma_pow256_values();
    }
    push_le(out, v as u128, 8);
}

pub fn write_u128(out: &mut Vec<u8>, v: u128)
    ensures
        final(out)@ == old(out)@ + enc_u128(v),
{
    proof {
        lemma_pow256_values();
    }
    push_le(out, v, 16);
}

pub fn write_bytes(out: &mut Vec<u8>, d: &[u8])
    ensures
        final(out)@ == old(out)@ + enc_bytes(d@),
{
    write_u64(out, d.len() as u64);
    let ghost mid = out@;
    let mut i: usize = 0;
    while i < d.len()
        invariant
            i <= d@.len(),
            out@ == mid + d@.take(i as int),
        decreases d@.len() - i,
    {
        out.push(d[i]);
        proof {
            assert(mid + d@.take((i + 1) as int) =~= (mid + d@.take(i as int)).push(d@[i as int]));
        }
        i += 1;
    }
    proof {
        assert(d@.take(d@.len() as int) =~= d@);
        assert(old(out)@ + enc_bytes(d@) =~= (old(out)@ + enc_u64(d@.len() as u64)) + d@);
    }
}

pub fn write_string(out: &mut Vec<u8>, s: &str)
    ensures
        final(out)@ == old(out)@ + enc_string(s@),
{
    write_bytes(out, s.as_bytes());
}

// ---------------------------------------------------------------------------
// Executable readers: each mirrors its spec decoder exactly.
// ---------------------------------------------------------------------------
pub fn read_u32(b: &[u8], pos: usize) -> (r: Option<(u32, usize)>)
    ensures
        r is Some <==> sdec_u32(b@, pos as int) is Some,
        r matches Some(p) ==> sdec_u32(b@, pos as int) == Some((p.0, p.1 as int)),
{
    proof {
        lemma_pow256_values();
        if pos + 4 <= b@.len() {
            lemma_le_val_bound(b@.subrange(pos as int, pos + 4));
        }
    }
    match read_le(b, pos, 4) {
        Some((v, p)) => Some((v as u32, p)),
        None => None,
    }
}

pub fn read_i32(b: &[u8], pos: usize) -> (r: Option<(i32, usize)>)
    ensures
        r is Some <==> sdec_i32(b@, pos as int) is Some,
        r matches Some(p) ==> sdec_i32(b@, pos as int) == Some((p.0, p.1 as int)),
{
    proof {
        lemma_pow256_values();
        if pos + 4 <= b@.len() {
            lemma_le_val_bound(b@.subrange(pos as int, pos + 4));
        }
    }
    match read_le(b, pos, 4) {
        Some((v, p)) => {
            let r: i32 = if v < 0x8000_0000 {
                v as i32
            } else {
                ((v as i64) - 0x1_0000_0000i64) as i32
            };
            Some((r, p))
        },
        None => None,
    }
}

pub fn read_u64(b: &[u8], pos: usize) -> (r: Option<(u64, usize)>)
    ensures
        r is Some <==> sdec_u64(b@, pos as int) is Some,
        r matches Some(p) ==> sdec_u64(b@, pos as int) == Some((p.0, p.1 as int)),
{
    proof {
        lemma_pow256_values();
        if pos + 8 <= b@.len() {
            lemma_le_val_bound(b@.subrange(pos as int, pos + 8));
        }
    }
    match read_le(b, pos, 8) {
        Some((v, p)) => Some((v as u64, p)),
        None => None,
    }
}

pub fn read_u128(b: &[u8], pos: usize) -> (r: Option<(u128, usize)>)
    ensures
        r is Some <==> sdec_u128(b@, pos as int) is Some,
        r matches Some(p) ==> sdec_u128(b@, pos as int) == Some((p.0, p.1 as int)),
{
    match read_le(b, pos, 16) {
        Some((v, p)) => Some((v, p)),
        None => None,
    }
}

pub fn read_bytes(b: &[u8], pos: usize) -> (r: Option<(Vec<u8>, usize)>)
    ensures
        r is Some <==> sdec_bytes(b@, pos as int) is Some,
        r matches Some(p) ==> sdec_bytes(b@, pos as int) == Some((p.0@, p.1 as int)),
{
    let (m, p) = match read_u64(b, pos) {
        Some(x) => x,
        None => {
            return None;
        },
    };
    let blen: usize = b.len();
    if m > (blen - p) as u64 {
        return None;
    }
    let m: usize = m as usize;
    let mut out: Vec<u8> = Vec::new();
    let mut i: usize = 0;
    while i < m
        invariant
            i <= m,
            p + m <= b@.len(),
            b@.len() <= usize::MAX,
            out@ =~= b@.subrange(p as int, p + i),
        decreases m - i,
    {
        out.push(b[p + i]);
        proof {
            assert(b@.subrange(p as int, p + i + 1) =~= b@.subrange(p as int, p + i).push(
                b@[p + i],
            ));
        }
        i += 1;
    }
    Some((out, p + m))
}

/// Relies on String::from_utf8: it succeeds exactly on valid UTF-8 input and
/// yields the string of the decoded characters.
#[verifier::external_body]
pub(crate) fn bytes_to_string(v: Vec<u8>) -> (r: Option<String>)
    ensures
        r is Some <==> valid_utf8(v@),
        r matches Some(s) ==> s@ == decode_utf8(v@),
{
    match String::from_utf8(v) {
        Ok(s) => Some(s),
        Err(_) => None,
    }
}

pub fn read_string(b: &[u8], pos: usize) -> (r: Option<(String, usize)>)
    ensures
        r is Some <==> sdec_string(b@, pos as int) is Some,
        r matches Some(p) ==> sdec_string(b@, pos as int) == Some((p.0@, p.1 as int)),
{
    let (raw, p) = match read_bytes(b, pos) {
        Some(x) => x,
        None => {
            return None;
        },
    };
    match bytes_to_string(raw) {
        Some(s) => Some((s, p)),
        None => None,
    }
}

} // verus!

verus! {

// ---------------------------------------------------------------------------
// Sequences of items
// ---------------------------------------------------------------------------
/// The concatenation of the encodings of the items.
pub open spec fn enc_seq<T>(items: Seq<T>, f: spec_fn(T) -> Seq<u8>) -> Seq<u8>
    decreases items.len(),
{
    if items.len() == 0 {
        Seq::empty()
    } else {
        f(items[0]) + enc_seq(items.drop_first(), f)
    }
}

/// A count-prefixed sequence of items.
pub open spec fn enc_list<T>(items: Seq<T>, f: spec_fn(T) -> Seq<u8>) -> Seq<u8> {
    enc_u64(items.len() as u64) + enc_seq(items, f)
}

/// Decodes `n` consecutive items.
pub open spec fn sdec_seq<T>(
    b: Seq<u8>,
    pos: int,
    n: nat,
    f: spec_fn(Seq<u8>, int) -> Option<(T, int)>,
) -> Option<(Seq<T>, int)>
    decreases n,
{
    if n == 0 {
        Some((Seq::empty(), pos))
    } else {
        match f(b, pos) {
            Some((v, p)) => match sdec_seq(b, p, (n - 1) as nat, f) {
                Some((vs, q)) => Some((seq![v] + vs, q)),
                None => None,
            },
            None => None,
        }
    }
}

/// Decodes a count-prefixed sequence of items.
pub open spec fn sdec_list<T>(
    b: Seq<u8>,
    pos: int,
    f: spec_fn(Seq<u8>, int) -> Option<(T, int)>,
) -> Option<(Seq<T>, int)> {
    match sdec_u64(b, pos) {
        Some((n, p)) => sdec_seq(b, p, n as nat, f),
        None => None,
    }
}

pub proof fn lemma_enc_seq_push<T>(s: Seq<T>, x: T, f: spec_fn(T) -> Seq<u8>)
    ensures
        enc_seq(s.push(x), f) == enc_seq(s, f) + f(x),
    decreases s.len(),
{
    if s.len() == 0 {
        assert(s.push(x).drop_first() =~= Seq::<T>::empty());
        assert(s.push(x)[0] == x);
        assert(enc_seq(s.push(x), f) == f(x) + enc_seq(Seq::<T>::empty(), f));
        assert(f(x) + enc_seq(Seq::<T>::empty(), f) =~= f(x));
        assert(enc_seq(s, f) + f(x) =~= f(x));
    } else {
        assert(s.push(x).drop_first() =~= s.drop_first().push(x));
        assert(s.push(x)[0] == s[0]);
        lemma_enc_seq_push(s.drop_first(), x, f);
        assert(enc_seq(s.push(x), f) == f(s[0]) + (enc_seq(s.drop_first(), f) + f(x)));
        assert(f(s[0]) + (enc_seq(s.drop_first(), f) + f(x)) =~= (f(s[0]) + enc_seq(
            s.drop_first(),
            f,
        )) + f(x));
    }
}

// ---------------------------------------------------------------------------
// Transaction inputs and outputs
// ---------------------------------------------------------------------------
pub open spec fn enc_tx_in(v: crate::tx::TxInV) -> Seq<u8> {
    enc_string(v.txid) + enc_i32(v.vout) + enc_bytes(v.signature) + enc_bytes(v.pub_key)
}

pub open spec fn enc_tx_out(v: crate::tx::TxOutV) -> Seq<u8> {
    enc_i32(v.value) + enc_bytes(v.pub_key_hash)
}

pub open spec fn sdec_tx_in(b: Seq<u8>, pos: int) -> Option<(crate::tx::TxInV, int)> {
    match sdec_string(b, pos) {
        Some((txid, p1)) => match sdec_i32(b, p1) {
            Some((vout, p2)) => match sdec_bytes(b, p2) {
                Some((signature, p3)) => match sdec_bytes(b, p3) {
                    Some((pub_key, p4)) => Some(
                        (crate::tx::TxInV { txid, vout, signature, pub_key }, p4),
                    ),
                    None => None,
                },
                None => None,
            },
            None => None,
        },
        None => None,
    }
}

pub open spec fn sdec_tx_out(b: Seq<u8>, pos: int) -> Option<(crate::tx::TxOutV, int)> {
    match sdec_i32(b, pos) {
        Some((value, p1)) => match sdec_bytes(b, p1) {
            Some((pub_key_hash, p2)) => Some((crate::tx::TxOutV { value, pub_key_hash }, p2)),
            None => None,
        },
        None => None,
    }
}

pub proof fn lemma_rt_tx_in(b: Seq<u8>, pos: int, v: crate::tx::TxInV)
    requires
        0 <= pos,
        pos + enc_tx_in(v).len() <= b.len(),
        b.len() < 0x1_0000_0000_0000_0000,
        b.subrange(pos, pos + enc_tx_in(v).len()) == enc_tx_in(v),
    ensures
        sdec_tx_in(b, pos) == Some((v, pos + enc_tx_in(v).len())),
{
    let e1 = enc_string(v.txid);
    let e2 = enc_i32(v.vout);
    let e3 = enc_bytes(v.signature);
    let e4 = enc_bytes(v.pub_key);
    lemma_le_bytes_len(i32_bits(v.vout), 4);
    lemma_le_bytes_len(v.signature.len() as u64 as nat, 8);
    lemma_le_bytes_len(v.pub_key.len() as u64 as nat, 8);
    lemma_le_bytes_len(encode_utf8(v.txid).len() as u64 as nat, 8);
    assert(enc_tx_in(v) =~= e1 + (e2 + e3 + e4));
    assert(b.subrange(pos, pos + e1.len() + (e2 + e3 + e4).len()) == e1 + (e2 + e3 + e4));
    lemma_split(b, pos, e1, e2 + e3 + e4);
    assert(e2 + e3 + e4 =~= e2 + (e3 + e4));
    lemma_split(b, pos + e1.len(), e2, e3 + e4);
    lemma_split(b, pos + e1.len() + e2.len(), e3, e4);
    lemma_rt_string(b, pos, v.txid);
    lemma_rt_i32(b, pos + e1.len(), v.vout);
    lemma_rt_bytes(b, pos + e1.len() + e2.len(), v.signature);
    lemma_rt_bytes(b, pos + e1.len() + e2.len() + e3.len(), v.pub_key);
}

pub proof fn lemma_rt_tx_out(b: Seq<u8>, pos: int, v: crate::tx::TxOutV)
    requires
        0 <= pos,
        pos + enc_tx_out(v).len() <= b.len(),
        b.len() < 0x1_0000_0000_0000_0000,
        b.subrange(pos, pos + enc_tx_out(v).len()) == enc_tx_out(v),
    ensures
        sdec_tx_out(b, pos) == Some((v, pos + enc_tx_out(v).len())),
{
    let e1 = enc_i32(v.value);
    let e2 = enc_bytes(v.pub_key_hash);
    lemma_le_bytes_len(i32_bits(v.value), 4);
    lemma_le_bytes_len(v.pub_key_hash.len() as u64 as nat, 8);
    lemma_split(b, pos, e1, e2);
    lemma_rt_i32(b, pos, v.value);
    lemma_rt_bytes(b, pos + e1.len(), v.pub_key_hash);
}

pub fn write_tx_in(out: &mut Vec<u8>, v: &crate::tx::TXInput)
    ensures
        final(out)@ == old(out)@ + enc_tx_in(v@),
{
    write_string(out, self_str(&v.txid));
    write_i32(out, v.vout);
    write_bytes(out, v.signature.as_slice());
    write_bytes(out, v.pub_key.as_slice());
    proof {
        lemma_concat4(
            old(out)@,
            enc_string(v.txid@),
            enc_i32(v.vout),
            enc_bytes(v.signature@),
            enc_bytes(v.pub_key@),
        );
    }
}

/// The borrowed string slice of a `String`.
fn self_str(s: &String) -> (r: &str)
    ensures
        r@ == s@,
{
    s.as_str()
}

/// Concatenation is associative: appending four pieces one at a time equals
/// appending their concatenation.
pub proof fn lemma_concat4(o: Seq<u8>, a: Seq<u8>, b: Seq<u8>, c: Seq<u8>, d: Seq<u8>)
    ensures
        (((o + a) + b) + c) + d == o + (((a + b) + c) + d),
        ((o + a) + b) + c == o + ((a + b) + c),
        (o + a) + b == o + (a + b),
{
    assert((((o + a) + b) + c) + d =~= o + (((a + b) + c) + d));
    assert(((o + a) + b) + c =~= o + ((a + b) + c));
    assert((o + a) + b =~= o + (a + b));
}

pub fn write_tx_out(out: &mut Vec<u8>, v: &crate::tx::TXOutput)
    ensures
        final(out)@ == old(out)@ + enc_tx_out(v@),
{
    write_i32(out, v.value);
    write_bytes(out, v.pub_key_hash.as_slice());
    proof {
        lemma_concat4(
            old(out)@,
            enc_i32(v.value),
            enc_bytes(v.pub_key_hash@),
            Seq::empty(),
            Seq::empty(),
        );
    }
}

pub fn read_tx_in(b: &[u8], pos: usize) -> (r: Option<(crate::tx::TXInput, usize)>)
    ensures
        r is Some <==> sdec_tx_in(b@, pos as int) is Some,
        r matches Some(p) ==> sdec_tx_in(b@, pos as int) == Some((p.0@, p.1 as int)),
{
    let (txid, p1) = match read_string(b, pos) {
        Some(x) => x,
        None => {
            return None;
        },
    };
    let (vout, p2) = match read_i32(b, p1) {
        Some(x) => x,
        None => {
            return None;
        },
    };
    let (signature, p3) = match read_bytes(b, p2) {
        Some(x) => x,
        None => {
            return None;
        },
    };
    let (pub_key, p4) = match read_bytes(b, p3) {
        Some(x) => x,
        None => {
            return None;
        },
    };
    Some((crate::tx::TXInput { txid, vout, signature, pub_key }, p4))
}

pub fn read_tx_out(b: &[u8], pos: usize) -> (r: Option<(crate::tx::TXOutput, usize)>)
    ensures
        r is Some <==> sdec_tx_out(b@, pos as int) is Some,
        r matches Some(p) ==> sdec_tx_out(b@, pos as int) == Some((p.0@, p.1 as int)),
{
    let (value, p1) = match read_i32(b, pos) {
        Some(x) => x,
        None => {
            return None;
        },
    };
    let (pub_key_hash, p2) = match read_bytes(b, p1) {
        Some(x) => x,
        None => {
            return None;
        },
    };
    Some((crate::tx::TXOutput { value, pub_key_hash }, p2))
}

} // verus!

verus! {

/// Prepends already-decoded items to the result of decoding the rest.
pub open spec fn glue<T>(pre: Seq<T>, rest: Option<(Seq<T>, int)>) -> Option<(Seq<T>, int)> {
    match rest {
        Some((vs, q)) => Some((pre + vs, q)),
        None => None,
    }
}

pub open spec fn fenc_tx_in() -> spec_fn(crate::tx::TxInV) -> Seq<u8> {
    |v: crate::tx::TxInV| enc_tx_in(v)
}

pub open spec fn fdec_tx_in() -> spec_fn(Seq<u8>, int) -> Option<(crate::tx::TxInV, int)> {
    |b: Seq<u8>, p: int| sdec_tx_in(b, p)
}

pub open spec fn fenc_tx_out() -> spec_fn(crate::tx::TxOutV) -> Seq<u8> {
    |v: crate::tx::TxOutV| enc_tx_out(v)
}

pub open spec fn fdec_tx_out() -> spec_fn(Seq<u8>, int) -> Option<(crate::tx::TxOutV, int)> {
    |b: Seq<u8>, p: int| sdec_tx_out(b, p)
}

pub open spec fn views_of_inputs(s: Seq<crate::tx::TXInput>) -> Seq<crate::tx::TxInV> {
    s.map_values(|x: crate::tx::TXInput| x@)
}

pub open spec fn views_of_outputs(s: Seq<crate::tx::TXOutput>) -> Seq<crate::tx::TxOutV> {
    s.map_values(|x: crate::tx::TXOutput| x@)
}

/// If every item of `items` decodes back from its encoding, then the
/// concatenation of the encodings decodes back to `items`.
pub proof fn lemma_rt_seq<T>(
    b: Seq<u8>,
    pos: int,
    items: Seq<T>,
    fe: spec_fn(T) -> Seq<u8>,
    fd: spec_fn(Seq<u8>, int) -> Option<(T, int)>,
)
    requires
        0 <= pos,
        pos + enc_seq(items, fe).len() <= b.len(),
        b.subrange(pos, pos + enc_seq(items, fe).len()) == enc_seq(items, fe),
        forall|p2: int, i: int|
            #![trigger fd(b, p2), fe(items[i])]
            0 <= i < items.len() && 0 <= p2 && p2 + fe(items[i]).len() <= b.len() && b.subrange(
                p2,
                p2 + fe(items[i]).len(),
            ) == fe(items[i]) ==> fd(b, p2) == Some((items[i], p2 + fe(items[i]).len())),
    ensures
        sdec_seq(b, pos, items.len() as nat, fd) == Some((items, pos + enc_seq(items, fe).len())),
    decreases items.len(),
{
    if items.len() == 0 {
        assert(enc_seq(items, fe).len() == 0);
    } else {
        let head = fe(items[0]);
        let tail = enc_seq(items.drop_first(), fe);
        assert(enc_seq(items, fe) == head + tail);
        lemma_split(b, pos, head, tail);
        assert(fd(b, pos) == Some((items[0], pos + head.len())));
        assert forall|p2: int, i: int|
            #![trigger fd(b, p2), fe(items.drop_first()[i])]
            0 <= i < items.drop_first().len() && 0 <= p2 && p2 + fe(
                items.drop_first()[i],
            ).len() <= b.len() && b.subrange(p2, p2 + fe(items.drop_first()[i]).len()) == fe(
                items.drop_first()[i],
            ) implies fd(b, p2) == Some(
            (items.drop_first()[i], p2 + fe(items.drop_first()[i]).len()),
        ) by {
            assert(items.drop_first()[i] == items[i + 1]);
        }
        lemma_rt_seq(b, pos + head.len(), items.drop_first(), fe, fd);
        assert(seq![items[0]] + items.drop_first() =~= items);
    }
}

/// The count-prefixed form of the sequence round trip.
pub proof fn lemma_rt_list<T>(
    b: Seq<u8>,
    pos: int,
    items: Seq<T>,
    fe: spec_fn(T) -> Seq<u8>,
    fd: spec_fn(Seq<u8>, int) -> Option<(T, int)>,
)
    requires
        0 <= pos,
        items.len() < 0x1_0000_0000_0000_0000,
        pos + enc_list(items, fe).len() <= b.len(),
        b.subrange(pos, pos + enc_list(items, fe).len()) == enc_list(items, fe),
        forall|p2: int, i: int|
            #![trigger fd(b, p2), fe(items[i])]
            0 <= i < items.len() && 0 <= p2 && p2 + fe(items[i]).len() <= b.len() && b.subrange(
                p2,
                p2 + fe(items[i]).len(),
            ) == fe(items[i]) ==> fd(b, p2) == Some((items[i], p2 + fe(items[i]).len())),
    ensures
        sdec_list(b, pos, fd) == Some((items, pos + enc_list(items, fe).len())),
{
    lemma_le_bytes_len(items.len() as u64 as nat, 8);
    lemma_split(b, pos, enc_u64(items.len() as u64), enc_seq(items, fe));
    lemma_rt_u64(b, pos, items.len() as u64);
    lemma_rt_seq(b, pos + 8, items, fe, fd);
}

} // verus!

verus! {

pub fn write_tx_in_list(out: &mut Vec<u8>, items: &Vec<crate::tx::TXInput>)
    ensures
        final(out)@ == old(out)@ + enc_list(views_of_inputs(items@), fenc_tx_in()),
{
    write_u64(out, items.len() as u64);
    let ghost base = out@;
    let mut i: usize = 0;
    while i < items.len()
        invariant
            i <= items@.len(),
            out@ == base + enc_seq(views_of_inputs(items@.take(i as int)), fenc_tx_in()),
        decreases items@.len() - i,
    {
        let ghost pre = out@;
        write_tx_in(out, &items[i]);
        proof {
            lemma_enc_seq_push(
                views_of_inputs(items@.take(i as int)),
                items@[i as int]@,
                fenc_tx_in(),
            );
            assert(views_of_inputs(items@.take(i + 1)) =~= views_of_inputs(
                items@.take(i as int),
            ).push(items@[i as int]@));
            assert(base + (enc_seq(views_of_inputs(items@.take(i as int)), fenc_tx_in())
                + enc_tx_in(items@[i as int]@)) =~= pre + enc_tx_in(items@[i as int]@));
        }
        i += 1;
    }
    proof {
        assert(items@.take(items@.len() as int) =~= items@);
        assert(old(out)@ + enc_list(views_of_inputs(items@), fenc_tx_in()) =~= base + enc_seq(
            views_of_inputs(items@),
            fenc_tx_in(),
        ));
    }
}

pub fn write_tx_out_list(out: &mut Vec<u8>, items: &Vec<crate::tx::TXOutput>)
    ensures
        final(out)@ == old(out)@ + enc_list(views_of_outputs(items@), fenc_tx_out()),
{
    write_u64(out, items.len() as u64);
    let ghost base = out@;
    let mut i: usize = 0;
    while i < items.len()
        invariant
            i <= items@.len(),
            out@ == base + enc_seq(views_of_outputs(items@.take(i as int)), fenc_tx_out()),
        decreases items@.len() - i,
    {
        let ghost pre = out@;
        write_tx_out(out, &items[i]);
        proof {
            lemma_enc_seq_push(
                views_of_outputs(items@.take(i as int)),
                items@[i as int]@,
                fenc_tx_out(),
            );
            assert(views_of_outputs(items@.take(i + 1)) =~= views_of_outputs(
                items@.take(i as int),
            ).push(items@[i as int]@));
            assert(base + (enc_seq(views_of_outputs(items@.take(i as int)), fenc_tx_out())
                + enc_tx_out(items@[i as int]@)) =~= pre + enc_tx_out(items@[i as int]@));
        }
        i += 1;
    }
    proof {
        assert(items@.take(items@.len() as int) =~= items@);
        assert(old(out)@ + enc_list(views_of_outputs(items@), fenc_tx_out()) =~= base + enc_seq(
            views_of_outputs(items@),
            fenc_tx_out(),
        ));
    }
}

pub fn read_tx_in_list(b: &[u8], pos: usize) -> (r: Option<(Vec<crate::tx::TXInput>, usize)>)
    ensures
        r is Some <==> sdec_list(b@, pos as int, fdec_tx_in()) is Some,
        r matches Some(p) ==> sdec_list(b@, pos as int, fdec_tx_in()) == Some(
            (views_of_inputs(p.0@), p.1 as int),
        ),
{
    let (n, p0) = match read_u64(b, pos) {
        Some(x) => x,
        None => {
            return None;
        },
    };
    let mut acc: Vec<crate::tx::TXInput> = Vec::new();
    let mut cur: usize = p0;
    let mut k: u64 = 0;
    while k < n
        invariant
            k <= n,
            sdec_list(b@, pos as int, fdec_tx_in()) == glue(
                views_of_inputs(acc@),
                sdec_seq(b@, cur as int, (n - k) as nat, fdec_tx_in()),
            ),
        decreases n - k,
    {
        let ghost pre = views_of_inputs(acc@);
        match read_tx_in(b, cur) {
            Some((v, p)) => {
                proof {
                    assert(sdec_seq(b@, cur as int, (n - k) as nat, fdec_tx_in()) == (match
                        sdec_seq(b@, p as int, (n - k - 1) as nat, fdec_tx_in()) {
                        Some((vs, q)) => Some((seq![v@] + vs, q)),
                        None => None,
                    }));
                    if let Some((vs, q)) = sdec_seq(b@, p as int, (n - k - 1) as nat, fdec_tx_in()) {
                        assert(pre + (seq![v@] + vs) =~= (pre + seq![v@]) + vs);
                        assert(views_of_inputs(acc@.push(v)) =~= pre + seq![v@]);
                    }
                }
                acc.push(v);
                cur = p;
            },
            None => {
                return None;
            },
        }
        k += 1;
    }
    proof {
        assert(sdec_seq(b@, cur as int, 0, fdec_tx_in()) == Some(
            (Seq::<crate::tx::TxInV>::empty(), cur as int),
        ));
        assert(views_of_inputs(acc@) + Seq::<crate::tx::TxInV>::empty() =~= views_of_inputs(acc@));
    }
    Some((acc, cur))
}

pub fn read_tx_out_list(b: &[u8], pos: usize) -> (r: Option<(Vec<crate::tx::TXOutput>, usize)>)
    ensures
        r is Some <==> sdec_list(b@, pos as int, fdec_tx_out()) is Some,
        r matches Some(p) ==> sdec_list(b@, pos as int, fdec_tx_out()) == Some(
            (views_of_outputs(p.0@), p.1 as int),
        ),
{
    let (n, p0) = match read_u64(b, pos) {
        Some(x) => x,
        None => {
            return None;
        },
    };
    let mut acc: Vec<crate::tx::TXOutput> = Vec::new();
    let mut cur: usize = p0;
    let mut k: u64 = 0;
    while k < n
        invariant
            k <= n,
            sdec_list(b@, pos as int, fdec_tx_out()) == glue(
                views_of_outputs(acc@),
                sdec_seq(b@, cur as int, (n - k) as nat, fdec_tx_out()),
            ),
        decreases n - k,
    {
        let ghost pre = views_of_outputs(acc@);
        match read_tx_out(b, cur) {
            Some((v, p)) => {
                proof {
                    assert(sdec_seq(b@, cur as int, (n - k) as nat, fdec_tx_out()) == (match
                        sdec_seq(b@, p as int, (n - k - 1) as nat, fdec_tx_out()) {
                        Some((vs, q)) => Some((seq![v@] + vs, q)),
                        None => None,
                    }));
                    if let Some((vs, q)) = sdec_seq(
                        b@,
                        p as int,
                        (n - k - 1) as nat,
                        fdec_tx_out(),
                    ) {
                        assert(pre + (seq![v@] + vs) =~= (pre + seq![v@]) + vs);
                        assert(views_of_outputs(acc@.push(v)) =~= pre + seq![v@]);
                    }
                }
                acc.push(v);
                cur = p;
            },
            None => {
                return None;
            },
        }
        k += 1;
    }
    proof {
        assert(sdec_seq(b@, cur as int, 0, fdec_tx_out()) == Some(
            (Seq::<crate::tx::TxOutV>::empty(), cur as int),
        ));
        assert(views_of_outputs(acc@) + Seq::<crate::tx::TxOutV>::empty() =~= views_of_outputs(
            acc@,
        ));
    }
    Some((acc, cur))
}

// ---------------------------------------------------------------------------
// Whole transactions
// ---------------------------------------------------------------------------
pub open spec fn enc_tx(t: crate::transaction::TxV) -> Seq<u8> {
    enc_string(t.id) + enc_list(t.vin, fenc_tx_in()) + enc_list(t.vout, fenc_tx_out())
}

pub open spec fn sdec_tx(b: Seq<u8>, pos: int) -> Option<(crate::transaction::TxV, int)> {
    match sdec_string(b, pos) {
        Some((id, p1)) => match sdec_list(b, p1, fdec_tx_in()) {
            Some((vin, p2)) => match sdec_list(b, p2, fdec_tx_out()) {
                Some((vout, p3)) => Some((crate::transaction::TxV { id, vin, vout }, p3)),
                None => None,
            },
            None => None,
        },
        None => None,
    }
}

pub proof fn lemma_rt_tx(b: Seq<u8>, pos: int, v: crate::transaction::TxV)
    requires
        0 <= pos,
        v.vin.len() < 0x1_0000_0000_0000_0000,
        v.vout.len() < 0x1_0000_0000_0000_0000,
        pos + enc_tx(v).len() <= b.len(),
        b.len() < 0x1_0000_0000_0000_0000,
        b.subrange(pos, pos + enc_tx(v).len()) == enc_tx(v),
    ensures
        sdec_tx(b, pos) == Some((v, pos + enc_tx(v).len())),
{
    let e1 = enc_string(v.id);
    let e2 = enc_list(v.vin, fenc_tx_in());
    let e3 = enc_list(v.vout, fenc_tx_out());
    lemma_le_bytes_len(encode_utf8(v.id).len() as u64 as nat, 8);
    assert(enc_tx(v) =~= e1 + (e2 + e3));
    assert(b.subrange(pos, pos + e1.len() + (e2 + e3).len()) == e1 + (e2 + e3));
    lemma_split(b, pos, e1, e2 + e3);
    lemma_split(b, pos + e1.len(), e2, e3);
    lemma_rt_string(b, pos, v.id);
    assert forall|p2: int, i: int|
        #![trigger fdec_tx_in()(b, p2), fenc_tx_in()(v.vin[i])]
        0 <= i < v.vin.len() && 0 <= p2 && p2 + fenc_tx_in()(v.vin[i]).len() <= b.len()
            && b.subrange(p2, p2 + fenc_tx_in()(v.vin[i]).len()) == fenc_tx_in()(
            v.vin[i],
        ) implies fdec_tx_in()(b, p2) == Some((v.vin[i], p2 + fenc_tx_in()(v.vin[i]).len())) by {
        lemma_rt_tx_in(b, p2, v.vin[i]);
    }
    lemma_rt_list(b, pos + e1.len(), v.vin, fenc_tx_in(), fdec_tx_in());
    assert forall|p2: int, i: int|
        #![trigger fdec_tx_out()(b, p2), fenc_tx_out()(v.vout[i])]
        0 <= i < v.vout.len() && 0 <= p2 && p2 + fenc_tx_out()(v.vout[i]).len() <= b.len()
            && b.subrange(p2, p2 + fenc_tx_out()(v.vout[i]).len()) == fenc_tx_out()(
            v.vout[i],
        ) implies fdec_tx_out()(b, p2) == Some(
        (v.vout[i], p2 + fenc_tx_out()(v.vout[i]).len()),
    ) by {
        lemma_rt_tx_out(b, p2, v.vout[i]);
    }
    lemma_rt_list(b, pos + e1.len() + e2.len(), v.vout, fenc_tx_out(), fdec_tx_out());
}

pub fn write_tx(out: &mut Vec<u8>, t: &crate::transaction::Transaction)
    ensures
        final(out)@ == old(out)@ + enc_tx(t@),
{
    write_string(out, self_str(&t.id));
    write_tx_in_list(out, &t.vin);
    write_tx_out_list(out, &t.vout);
    proof {
        assert(views_of_inputs(t.vin@) =~= t@.vin);
        assert(views_of_outputs(t.vout@) =~= t@.vout);
        lemma_concat4(
            old(out)@,
            enc_string(t@.id),
            enc_list(t@.vin, fenc_tx_in()),
            enc_list(t@.vout, fenc_tx_out()),
            Seq::empty(),
        );
    }
}

pub fn read_tx(b: &[u8], pos: usize) -> (r: Option<(crate::transaction::Transaction, usize)>)
    ensures
        r is Some <==> sdec_tx(b@, pos as int) is Some,
        r matches Some(p) ==> sdec_tx(b@, pos as int) == Some((p.0@, p.1 as int)),
{
    let (id, p1) = match read_string(b, pos) {
        Some(x) => x,
        None => {
            return None;
        },
    };
    let (vin, p2) = match read_tx_in_list(b, p1) {
        Some(x) => x,
        None => {
            return None;
        },
    };
    let (vout, p3) = match read_tx_out_list(b, p2) {
        Some(x) => x,
        None => {
            return None;
        },
    };
    let t = crate::transaction::Transaction { id, vin, vout };
    proof {
        assert(t@.vin =~= views_of_inputs(t.vin@));
        assert(t@.vout =~= views_of_outputs(t.vout@));
    }
    Some((t, p3))
}

/// The byte encoding of a transaction.
pub fn serialize_transaction(t: &crate::transaction::Transaction) -> (r: Vec<u8>)
    ensures
        r@ == enc_tx(t@),
{
    let mut out: Vec<u8> = Vec::new();
    write_tx(&mut out, t);
    proof {
        assert(Seq::<u8>::empty() + enc_tx(t@) =~= enc_tx(t@));
    }
    out
}

/// Decodes a transaction that fills the whole input.
pub fn deserialize_transaction(b: &[u8]) -> (r: Option<crate::transaction::Transaction>)
    ensures
        r is Some <==> (sdec_tx(b@, 0) matches Some(p) && p.1 == b@.len()),
        r matches Some(t) ==> sdec_tx(b@, 0) == Some((t@, b@.len() as int)),
{
    match read_tx(b, 0) {
        Some((t, p)) => {
            if p == b.len() {
                Some(t)
            } else {
                None
            }
        },
        None => None,
    }
}

} // verus!

verus! {

pub open spec fn fenc_tx() -> spec_fn(crate::transaction::TxV) -> Seq<u8> {
    |v: crate::transaction::TxV| enc_tx(v)
}

pub open spec fn fdec_tx() -> spec_fn(Seq<u8>, int) -> Option<(crate::transaction::TxV, int)> {
    |b: Seq<u8>, p: int| sdec_tx(b, p)
}

pub open spec fn fenc_str() -> spec_fn(Seq<char>) -> Seq<u8> {
    |s: Seq<char>| enc_string(s)
}

pub open spec fn fdec_str() -> spec_fn(Seq<u8>, int) -> Option<(Seq<char>, int)> {
    |b: Seq<u8>, p: int| sdec_string(b, p)
}

pub open spec fn views_of_txs(s: Seq<crate::transaction::Transaction>) -> Seq<
    crate::transaction::TxV,
> {
    s.map_values(|x: crate::transaction::Transaction| x@)
}

pub open spec fn views_of_strings(s: Seq<String>) -> Seq<Seq<char>> {
    s.map_values(|x: String| x@)
}

pub fn write_tx_list(out: &mut Vec<u8>, items: &Vec<crate::transaction::Transaction>)
    ensures
        final(out)@ == old(out)@ + enc_list(views_of_txs(items@), fenc_tx()),
{
    write_u64(out, items.len() as u64);
    let ghost base = out@;
    let mut i: usize = 0;
    while i < items.len()
        invariant
            i <= items@.len(),
            out@ == base + enc_seq(views_of_txs(items@.take(i as int)), fenc_tx()),
        decreases items@.len() - i,
    {
        let ghost pre = out@;
        write_tx(out, &items[i]);
        proof {
            lemma_enc_seq_push(views_of_txs(items@.take(i as int)), items@[i as int]@, fenc_tx());
            assert(views_of_txs(items@.take(i + 1)) =~= views_of_txs(items@.take(i as int)).push(
                items@[i as int]@,
            ));
            assert(base + (enc_seq(views_of_txs(items@.take(i as int)), fenc_tx()) + enc_tx(
                items@[i as int]@,
            )) =~= pre + enc_tx(items@[i as int]@));
        }
        i += 1;
    }
    proof {
        assert(items@.take(items@.len() as int) =~= items@);
        assert(old(out)@ + enc_list(views_of_txs(items@), fenc_tx()) =~= base + enc_seq(
            views_of_txs(items@),
            fenc_tx(),
        ));
    }
}

pub fn read_tx_list(b: &[u8], pos: usize) -> (r: Option<
    (Vec<crate::transaction::Transaction>, usize),
>)
    ensures
        r is Some <==> sdec_list(b@, pos as int, fdec_tx()) is Some,
        r matches Some(p) ==> sdec_list(b@, pos as int, fdec_tx()) == Some(
            (views_of_txs(p.0@), p.1 as int),
        ),
{
    let (n, p0) = match read_u64(b, pos) {
        Some(x) => x,
        None => {
            return None;
        },
    };
    let mut acc: Vec<crate::transaction::Transaction> = Vec::new();
    let mut cur: usize = p0;
    let mut k: u64 = 0;
    while k < n
        invariant
            k <= n,
            sdec_list(b@, pos as int, fdec_tx()) == glue(
                views_of_txs(acc@),
                sdec_seq(b@, cur as int, (n - k) as nat, fdec_tx()),
            ),
        decreases n - k,
    {
        let ghost pre = views_of_txs(acc@);
        match read_tx(b, cur) {
            Some((v, p)) => {
                proof {
                    assert(sdec_seq(b@, cur as int, (n - k) as nat, fdec_tx()) == (match sdec_seq(
                        b@,
                        p as int,
                        (n - k - 1) as nat,
                        fdec_tx(),
                    ) {
                        Some((vs, q)) => Some((seq![v@] + vs, q)),
                        None => None,
                    }));
                    if let Some((vs, q)) = sdec_seq(b@, p as int, (n - k - 1) as nat, fdec_tx()) {
                        assert(pre + (seq![v@] + vs) =~= (pre + seq![v@]) + vs);
                        assert(views_of_txs(acc@.push(v)) =~= pre + seq![v@]);
                    }
                }
                acc.push(v);
                cur = p;
            },
            None => {
                return None;
            },
        }
        k += 1;
    }
    proof {
        assert(sdec_seq(b@, cur as int, 0, fdec_tx()) == Some(
            (Seq::<crate::transaction::TxV>::empty(), cur as int),
        ));
        assert(views_of_txs(acc@) + Seq::<crate::transaction::TxV>::empty() =~= views_of_txs(acc@));
    }
    Some((acc, cur))
}

pub fn write_string_list(out: &mut Vec<u8>, items: &Vec<String>)
    ensures
        final(out)@ == old(out)@ + enc_list(views_of_strings(items@), fenc_str()),
{
    write_u64(out, items.len() as u64);
    let ghost base = out@;
    let mut i: usize = 0;
    while i < items.len()
        invariant
            i <= items@.len(),
            out@ == base + enc_seq(views_of_strings(items@.take(i as int)), fenc_str()),
        decreases items@.len() - i,
    {
        let ghost pre = out@;
        write_string(out, self_str(&items[i]));
        proof {
            lemma_enc_seq_push(
                views_of_strings(items@.take(i as int)),
                items@[i as int]@,
                fenc_str(),
            );
            assert(views_of_strings(items@.take(i + 1)) =~= views_of_strings(
                items@.take(i as int),
            ).push(items@[i as int]@));
            assert(base + (enc_seq(views_of_strings(items@.take(i as int)), fenc_str())
                + enc_string(items@[i as int]@)) =~= pre + enc_string(items@[i as int]@));
        }
        i += 1;
    }
    proof {
        assert(items@.take(items@.len() as int) =~= items@);
        assert(old(out)@ + enc_list(views_of_strings(items@), fenc_str()) =~= base + enc_seq(
            views_of_strings(items@),
            fenc_str(),
        ));
    }
}

pub fn read_string_list(b: &[u8], pos: usize) -> (r: Option<(Vec<String>, usize)>)
    ensures
        r is Some <==> sdec_list(b@, pos as int, fdec_str()) is Some,
        r matches Some(p) ==> sdec_list(b@, pos as int, fdec_str()) == Some(
            (views_of_strings(p.0@), p.1 as int),
        ),
{
    let (n, p0) = match read_u64(b, pos) {
        Some(x) => x,
        None => {
            return None;
        },
    };
    let mut acc: Vec<String> = Vec::new();
    let mut cur: usize = p0;
    let mut k: u64 = 0;
    while k < n
        invariant
            k <= n,
            sdec_list(b@, pos as int, fdec_str()) == glue(
                views_of_strings(acc@),
                sdec_seq(b@, cur as int, (n - k) as nat, fdec_str()),
            ),
        decreases n - k,
    {
        let ghost pre = views_of_strings(acc@);
        match read_string(b, cur) {
            Some((v, p)) => {
                proof {
                    assert(sdec_seq(b@, cur as int, (n - k) as nat, fdec_str()) == (match sdec_seq(
                        b@,
                        p as int,
                        (n - k - 1) as nat,
                        fdec_str(),
                    ) {
                        Some((vs, q)) => Some((seq![v@] + vs, q)),
                        None => None,
                    }));
                    if let Some((vs, q)) = sdec_seq(b@, p as int, (n - k - 1) as nat, fdec_str()) {
                        assert(pre + (seq![v@] + vs) =~= (pre + seq![v@]) + vs);
                        assert(views_of_strings(acc@.push(v)) =~= pre + seq![v@]);
                    }
                }
                acc.push(v);
                cur = p;
            },
            None => {
                return None;
            },
        }
        k += 1;
    }
    proof {
        assert(sdec_seq(b@, cur as int, 0, fdec_str()) == Some(
            (Seq::<Seq<char>>::empty(), cur as int),
        ));
        assert(views_of_strings(acc@) + Seq::<Seq<char>>::empty() =~= views_of_strings(acc@));
    }
    Some((acc, cur))
}

// ---------------------------------------------------------------------------
// Blocks and stored output records
// ---------------------------------------------------------------------------
pub open spec fn enc_block(v: crate::block::BlockV) -> Seq<u8> {
    enc_u128(v.timestamp) + enc_list(v.transactions, fenc_tx()) + enc_string(v.prev_block_hash)
        + enc_string(v.hash) + enc_i32(v.height) + enc_i32(v.nonce)
}

pub open spec fn sdec_block(b: Seq<u8>, pos: int) -> Option<(crate::block::BlockV, int)> {
    match sdec_u128(b, pos) {
        Some((timestamp, p1)) => match sdec_list(b, p1, fdec_tx()) {
            Some((transactions, p2)) => match sdec_string(b, p2) {
                Some((prev_block_hash, p3)) => match sdec_string(b, p3) {
                    Some((hash, p4)) => match sdec_i32(b, p4) {
                        Some((height, p5)) => match sdec_i32(b, p5) {
                            Some((nonce, p6)) => Some(
                                (
                                    crate::block::BlockV {
                                        timestamp,
                                        transactions,
                                        prev_block_hash,
                                        hash,
                                        height,
                                        nonce,
                                    },
                                    p6,
                                ),
                            ),
                            None => None,
                        },
                        None => None,
                    },
                    None => None,
                },
                None => None,
            },
            None => None,
        },
        None => None,
    }
}

pub proof fn lemma_rt_block(b: Seq<u8>, pos: int, v: crate::block::BlockV)
    requires
        0 <= pos,
        v.transactions.len() < 0x1_0000_0000_0000_0000,
        forall|i: int|
            0 <= i < v.transactions.len() ==> (#[trigger] v.transactions[i].vin.len()
                < 0x1_0000_0000_0000_0000 && v.transactions[i].vout.len()
                < 0x1_0000_0000_0000_0000),
        pos + enc_block(v).len() <= b.len(),
        b.len() < 0x1_0000_0000_0000_0000,
        b.subrange(pos, pos + enc_block(v).len()) == enc_block(v),
    ensures
        sdec_block(b, pos) == Some((v, pos + enc_block(v).len())),
{
    let e1 = enc_u128(v.timestamp);
    let e2 = enc_list(v.transactions, fenc_tx());
    let e3 = enc_string(v.prev_block_hash);
    let e4 = enc_string(v.hash);
    let e5 = enc_i32(v.height);
    let e6 = enc_i32(v.nonce);
    lemma_le_bytes_len(v.timestamp as nat, 16);
    lemma_le_bytes_len(encode_utf8(v.prev_block_hash).len() as u64 as nat, 8);
    lemma_le_bytes_len(encode_utf8(v.hash).len() as u64 as nat, 8);
    lemma_le_bytes_len(i32_bits(v.height), 4);
    lemma_le_bytes_len(i32_bits(v.nonce), 4);
    assert(enc_block(v) =~= e1 + (e2 + (e3 + (e4 + (e5 + e6)))));
    assert(b.subrange(pos, pos + e1.len() + (e2 + (e3 + (e4 + (e5 + e6)))).len()) == e1 + (e2 + (e3
        + (e4 + (e5 + e6)))));
    lemma_split(b, pos, e1, e2 + (e3 + (e4 + (e5 + e6))));
    let q2 = pos + e1.len();
    lemma_split(b, q2, e2, e3 + (e4 + (e5 + e6)));
    let q3 = q2 + e2.len();
    lemma_split(b, q3, e3, e4 + (e5 + e6));
    let q4 = q3 + e3.len();
    lemma_split(b, q4, e4, e5 + e6);
    let q5 = q4 + e4.len();
    lemma_split(b, q5, e5, e6);
    let q6 = q5 + e5.len();
    lemma_rt_u128(b, pos, v.timestamp);
    assert forall|p2: int, i: int|
        #![trigger fdec_tx()(b, p2), fenc_tx()(v.transactions[i])]
        0 <= i < v.transactions.len() && 0 <= p2 && p2 + fenc_tx()(v.transactions[i]).len()
            <= b.len() && b.subrange(p2, p2 + fenc_tx()(v.transactions[i]).len()) == fenc_tx()(
            v.transactions[i],
        ) implies fdec_tx()(b, p2) == Some(
        (v.transactions[i], p2 + fenc_tx()(v.transactions[i]).len()),
    ) by {
        lemma_rt_tx(b, p2, v.transactions[i]);
    }
    lemma_rt_list(b, q2, v.transactions, fenc_tx(), fdec_tx());
    lemma_rt_string(b, q3, v.prev_block_hash);
    lemma_rt_string(b, q4, v.hash);
    lemma_rt_i32(b, q5, v.height);
    lemma_rt_i32(b, q6, v.nonce);
}

pub fn write_block(out: &mut Vec<u8>, v: &crate::block::Block)
    ensures
        final(out)@ == old(out)@ + enc_block(v@),
{
    write_u128(out, v.timestamp);
    write_tx_list(out, &v.transactions);
    write_string(out, self_str(&v.prev_block_hash));
    write_string(out, self_str(&v.hash));
    write_i32(out, v.height);
    write_i32(out, v.nonce);
    proof {
        assert(views_of_txs(v.transactions@) =~= v@.transactions);
        let o = old(out)@;
        let e1 = enc_u128(v@.timestamp);
        let e2 = enc_list(v@.transactions, fenc_tx());
        let e3 = enc_string(v@.prev_block_hash);
        let e4 = enc_string(v@.hash);
        let e5 = enc_i32(v@.height);
        let e6 = enc_i32(v@.nonce);
        assert((((((o + e1) + e2) + e3) + e4) + e5) + e6 =~= o + (((((e1 + e2) + e3) + e4) + e5)
            + e6));
    }
}

pub fn read_block(b: &[u8], pos: usize) -> (r: Option<(crate::block::Block, usize)>)
    ensures
        r is Some <==> sdec_block(b@, pos as int) is Some,
        r matches Some(p) ==> sdec_block(b@, pos as int) == Some((p.0@, p.1 as int)),
{
    let (timestamp, p1) = match read_u128(b, pos) {
        Some(x) => x,
        None => {
            return None;
        },
    };
    let (transactions, p2) = match read_tx_list(b, p1) {
        Some(x) => x,
        None => {
            return None;
        },
    };
    let (prev_block_hash, p3) = match read_string(b, p2) {
        Some(x) => x,
        None => {
            return None;
        },
    };
    let (hash, p4) = match read_string(b, p3) {
        Some(x) => x,
        None => {
            return None;
        },
    };
    let (height, p5) = match read_i32(b, p4) {
        Some(x) => x,
        None => {
            return None;
        },
    };
    let (nonce, p6) = match read_i32(b, p5) {
        Some(x) => x,
        None => {
            return None;
        },
    };
    let blk = crate::block::Block { timestamp, transactions, prev_block_hash, hash, height, nonce };
    proof {
        assert(blk@.transactions =~= views_of_txs(blk.transactions@));
    }
    Some((blk, p6))
}

/// The byte encoding of a block.
pub fn serialize_block(v: &crate::block::Block) -> (r: Vec<u8>)
    ensures
        r@ == enc_block(v@),
{
    let mut out: Vec<u8> = Vec::new();
    write_block(&mut out, v);
    proof {
        assert(Seq::<u8>::empty() + enc_block(v@) =~= enc_block(v@));
    }
    out
}

/// Decodes a block that fills the whole input.
pub fn deserialize_block(b: &[u8]) -> (r: Option<crate::block::Block>)
    ensures
        r is Some <==> (sdec_block(b@, 0) matches Some(p) && p.1 == b@.len()),
        r matches Some(v) ==> sdec_block(b@, 0) == Some((v@, b@.len() as int)),
{
    match read_block(b, 0) {
        Some((v, p)) => {
            if p == b.len() {
                Some(v)
            } else {
                None
            }
        },
        None => None,
    }
}

/// The byte encoding of a stored record of unspent outputs.
pub fn serialize_outputs(v: &crate::tx::TXOutputs) -> (r: Vec<u8>)
    ensures
        r@ == enc_list(v@, fenc_tx_out()),
{
    let mut out: Vec<u8> = Vec::new();
    write_tx_out_list(&mut out, &v.outputs);
    proof {
        assert(views_of_outputs(v.outputs@) =~= v@);
        assert(Seq::<u8>::empty() + enc_list(v@, fenc_tx_out()) =~= enc_list(v@, fenc_tx_out()));
    }
    out
}

/// Decodes a stored record of unspent outputs that fills the whole input.
pub fn deserialize_outputs(b: &[u8]) -> (r: Option<crate::tx::TXOutputs>)
    ensures
        r is Some <==> (sdec_list(b@, 0, fdec_tx_out()) matches Some(p) && p.1 == b@.len()),
        r matches Some(v) ==> sdec_list(b@, 0, fdec_tx_out()) == Some((v@, b@.len() as int)),
{
    match read_tx_out_list(b, 0) {
        Some((outputs, p)) => {
            if p == b.len() {
                let v = crate::tx::TXOutputs { outputs };
                proof {
                    assert(v@ =~= views_of_outputs(v.outputs@));
                }
                Some(v)
            } else {
                None
            }
        },
        None => None,
    }
}

} // verus!
