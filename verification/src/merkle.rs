use vstd::prelude::*;

use crate::hashing::{sha256_digest, sha256_of};
use crate::tx::clone_bytes;

verus! {

/// An internal node of the Merkle tree: the SHA-256 digest of the
/// concatenation of its children.
pub open spec fn merge_of(l: Seq<u8>, r: Seq<u8>) -> Seq<u8> {
    sha256_of(l + r)
}

/// The node at position `i` of the complete binary Merkle tree over
/// `leaves`: the tree is an array of `2n - 1` nodes whose last `n` entries
/// are the leaves and whose node `i` has children `2i + 1` and `2i + 2`.
pub open spec fn cbmt_node(leaves: Seq<Seq<u8>>, i: int) -> Seq<u8>
    decreases 2 * leaves.len() - 1 - i,
    when 0 <= i < 2 * leaves.len() - 1
{
    let n = leaves.len() as int;
    if i >= n - 1 {
        leaves[i - (n - 1)]
    } else {
        merge_of(cbmt_node(leaves, 2 * i + 1), cbmt_node(leaves, 2 * i + 2))
    }
}

/// The Merkle root over the leaves: the top node, or empty when there are no
/// leaves.
pub open spec fn merkle_root_of(leaves: Seq<Seq<u8>>) -> Seq<u8> {
    if leaves.len() == 0 {
        Seq::empty()
    } else {
        cbmt_node(leaves, 0)
    }
}

/// Merges two nodes into their parent digest.
fn merge(l: &Vec<u8>, r: &Vec<u8>) -> (out: Vec<u8>)
    ensures
        out@ == merge_of(l@, r@),
{
    let mut data = clone_bytes(l);
    let mut i: usize = 0;
    while i < r.len()
        invariant
            i <= r@.len(),
            data@ == l@ + r@.take(i as int),
        decreases r@.len() - i,
    {
        data.push(r[i]);
        proof {
            assert(l@ + r@.take((i + 1) as int) =~= (l@ + r@.take(i as int)).push(r@[i as int]));
        }
        i += 1;
    }
    proof {
        assert(l@ + r@.take(r@.len() as int) =~= l@ + r@);
    }
    sha256_digest(data.as_slice())
}

/// The Merkle root of the given leaves.
pub fn merkle_root(leaves: &Vec<Vec<u8>>) -> (r: Vec<u8>)
    requires
        2 * leaves@.len() < usize::MAX,
    ensures
        r@ == merkle_root_of(leaves@.map_values(|v: Vec<u8>| v@)),
{
    let ghost lv = leaves@.map_values(|v: Vec<u8>| v@);
    let n: usize = leaves.len();
    if n == 0 {
        return Vec::new();
    }
    let mut nodes: Vec<Vec<u8>> = Vec::new();
    let mut k: usize = 0;
    while k < n - 1
        invariant
            k <= n - 1,
            nodes@.len() == k,
        decreases n - 1 - k,
    {
        nodes.push(Vec::new());
        k += 1;
    }
    let mut m: usize = 0;
    while m < n
        invariant
            m <= n,
            n == lv.len(),
            n == leaves@.len(),
            lv == leaves@.map_values(|v: Vec<u8>| v@),
            nodes@.len() == n - 1 + m,
            forall|j: int| 0 <= j < m ==> nodes@[n - 1 + j]@ == lv[j],
        decreases n - m,
    {
        nodes.push(clone_bytes(&leaves[m]));
        m += 1;
    }
    let mut i: usize = n - 1;
    while i > 0
        invariant
            i <= n - 1,
            n == lv.len(),
            2 * n < usize::MAX,
            nodes@.len() == 2 * n - 1,
            forall|j: int| i <= j < 2 * n - 1 ==> nodes@[j]@ == cbmt_node(lv, j),
        decreases i,
    {
        i = i - 1;
        let l = clone_bytes(&nodes[2 * i + 1]);
        let r = clone_bytes(&nodes[2 * i + 2]);
        let parent = merge(&l, &r);
        proof {
            assert(i < n - 1);
            assert(nodes@[2 * i + 1]@ == cbmt_node(lv, 2 * i + 1));
            assert(nodes@[2 * i + 2]@ == cbmt_node(lv, 2 * i + 2));
            assert(cbmt_node(lv, i as int) == merge_of(
                cbmt_node(lv, 2 * i + 1),
                cbmt_node(lv, 2 * i + 2),
            ));
            assert(parent@ == cbmt_node(lv, i as int));
        }
        nodes.set(i, parent);
    }
    clone_bytes(&nodes[0])
}

} // verus!
