//! Keccak-256 Merkle trees over column hashes, with single-leaf membership paths.
use vstd::prelude::*;
use crate::field::BinaryField32b;
use sha3::Digest;

verus! {

/// The Keccak-256 digest of a byte string.
pub uninterp spec fn keccak256(data: Seq<u8>) -> Seq<u8>;

/// Relies on `sha3::Keccak256::digest` (through `digest::Digest`): the
/// 32-byte Keccak-256 digest of the input, a function of the bytes alone.
#[verifier::external_body]
fn keccak256_digest(data: &Vec<u8>) -> (r: Vec<u8>)
    ensures
        r@ == keccak256(data@),
        r@.len() == 32,
{
    sha3::Keccak256::digest(data).to_vec()
}

/// A digest.
#[derive(Debug, Clone)]
pub struct Hash(pub Vec<u8>);

impl Hash {
    pub open spec fn view(&self) -> Seq<u8> {
        self.0@
    }
}

/// Compares two digests byte by byte.
pub fn hash_eq(a: &Hash, b: &Hash) -> (r: bool)
    ensures
        r == (a.0@ == b.0@),
{
    if a.0.len() != b.0.len() {
        return false;
    }
    let mut i: usize = 0;
    while i < a.0.len()
        invariant
            a.0@.len() == b.0@.len(),
            i <= a.0@.len(),
            forall|j: int| 0 <= j < i ==> a.0@[j] == b.0@[j],
        decreases a.0@.len() - i,
    {
        if a.0[i] != b.0[i] {
            return false;
        }
        i = i + 1;
    }
    assert(a.0@ =~= b.0@);
    true
}

impl Hash {
    /// A copy of the digest.
    pub fn copy(&self) -> (r: Hash)
        ensures
            r.0@ == self.0@,
    {
        Hash(self.0.clone())
    }
}

impl PartialEq for Hash {
    fn eq(&self, other: &Hash) -> (r: bool) {
        hash_eq(self, other)
    }
}

impl vstd::std_specs::cmp::PartialEqSpecImpl for Hash {
    open spec fn obeys_eq_spec() -> bool {
        true
    }

    open spec fn eq_spec(&self, other: &Hash) -> bool {
        self.0@ == other.0@
    }
}

/// The views of a sequence of digests.
pub open spec fn hashes_view(s: Seq<Hash>) -> Seq<Seq<u8>> {
    s.map_values(|h: Hash| h.0@)
}

/// The views of the levels of a tree.
pub open spec fn levels_view(s: Seq<Vec<Hash>>) -> Seq<Seq<Seq<u8>>> {
    s.map_values(|l: Vec<Hash>| hashes_view(l@))
}

/// Little-endian encoding of a 32-bit value.
pub open spec fn le_bytes32(v: u32) -> Seq<u8> {
    seq![
        (v & 0xff) as u8,
        ((v >> 8u32) & 0xff) as u8,
        ((v >> 16u32) & 0xff) as u8,
        ((v >> 24u32) & 0xff) as u8,
    ]
}

/// The bytes hashed for a column: each scalar's little-endian encoding, in order.
pub open spec fn column_bytes(col: Seq<BinaryField32b>) -> Seq<u8>
    decreases col.len(),
{
    if col.len() == 0 {
        Seq::empty()
    } else {
        column_bytes(col.drop_last()) + le_bytes32(col.last().0)
    }
}

/// A node's digest: the hash of its two children's digests, left then right.
pub open spec fn node_hash(left: Seq<u8>, right: Seq<u8>) -> Seq<u8> {
    keccak256(left + right)
}

/// Levels `0` (the leaves) up to the last (the single root); each level is half
/// the length of the one below, and each node is the hash of its two children.
pub open spec fn tree_wf(levels: Seq<Seq<Seq<u8>>>) -> bool {
    &&& levels.len() >= 1
    &&& levels.last().len() == 1
    &&& forall|j: int| 0 <= j < levels.len() - 1 ==> #[trigger] levels[j].len() == 2 * levels[j + 1].len()
    &&& forall|j: int, p: int|
        0 <= j < levels.len() - 1 && 0 <= p < levels[j + 1].len() ==> #[trigger] levels[j + 1][p]
            == node_hash(levels[j][2 * p], levels[j][2 * p + 1])
}

/// `n` is a power of two.
pub open spec fn is_pow2(n: nat) -> bool
    decreases n,
{
    if n == 1 {
        true
    } else if n == 0 || n % 2 == 1 {
        false
    } else {
        is_pow2(n / 2)
    }
}

/// Index of the sibling of node `x`.
pub open spec fn sibling(x: nat) -> nat {
    if x % 2 == 0 {
        x + 1
    } else {
        (x - 1) as nat
    }
}

/// Sibling digests from level `j` of node `x` up to (not including) the root.
pub open spec fn auth_path(levels: Seq<Seq<Seq<u8>>>, j: nat, x: nat) -> Seq<Seq<u8>>
    decreases levels.len() - j,
{
    if j + 1 >= levels.len() {
        Seq::empty()
    } else {
        seq![levels[j as int][sibling(x) as int]] + auth_path(levels, j + 1, x / 2)
    }
}

/// The digest reached from `acc` at index `idx` by hashing with each path entry
/// in turn: on the right of `acc` when the current index is even, else on the left.
pub open spec fn fold_path(acc: Seq<u8>, idx: nat, path: Seq<Seq<u8>>) -> Seq<u8>
    decreases path.len(),
{
    if path.len() == 0 {
        acc
    } else {
        let next = if idx % 2 == 0 {
            node_hash(acc, path[0])
        } else {
            node_hash(path[0], acc)
        };
        fold_path(next, idx / 2, path.drop_first())
    }
}

/// Hashes a column of 32-bit scalars: Keccak-256 of their little-endian bytes.
pub fn hash_field(data: &Vec<BinaryField32b>) -> (r: Hash)
    ensures
        r.0@ == keccak256(column_bytes(data@)),
{
    let mut bytes: Vec<u8> = Vec::new();
    let mut i: usize = 0;
    while i < data.len()
        invariant
            i <= data@.len(),
            bytes@ == column_bytes(data@.take(i as int)),
        decreases data@.len() - i,
    {
        let v = data[i].0;
        bytes.push((v & 0xff) as u8);
        bytes.push(((v >> 8u32) & 0xff) as u8);
        bytes.push(((v >> 16u32) & 0xff) as u8);
        bytes.push(((v >> 24u32) & 0xff) as u8);
        assert(data@.take(i + 1).drop_last() =~= data@.take(i as int));
        assert(bytes@ =~= column_bytes(data@.take(i as int)) + le_bytes32(v));
        i = i + 1;
    }
    assert(data@.take(data@.len() as int) =~= data@);
    Hash(keccak256_digest(&bytes))
}

/// Hashes a byte string.
pub fn hash(data: &Vec<u8>) -> (r: Hash)
    ensures
        r.0@ == keccak256(data@),
{
    Hash(keccak256_digest(data))
}

/// Hashes the concatenation of two digests.
pub fn hash_concatenation(data1: &Hash, data2: &Hash) -> (r: Hash)
    ensures
        r.0@ == node_hash(data1.0@, data2.0@),
{
    let mut bytes = data1.0.clone();
    let mut i: usize = 0;
    while i < data2.0.len()
        invariant
            i <= data2.0@.len(),
            bytes@ == data1.0@ + data2.0@.take(i as int),
        decreases data2.0@.len() - i,
    {
        bytes.push(data2.0[i]);
        assert(data2.0@.take(i + 1) =~= data2.0@.take(i as int).push(data2.0@[i as int]));
        i = i + 1;
    }
    assert(data2.0@.take(data2.0@.len() as int) =~= data2.0@);
    hash(&bytes)
}

/// A Merkle tree: `data[0]` holds the leaf digests and each following level
/// the digests of the nodes above, up to the single root.
#[derive(Debug, Clone)]
pub struct MerkleTree {
    pub data: Vec<Vec<Hash>>,
}

impl MerkleTree {
    pub open spec fn view(&self) -> Seq<Seq<Seq<u8>>> {
        levels_view(self.data@)
    }

    /// Builds the tree over the given leaves.
    pub fn new(leaf_hashes: Vec<Hash>) -> (r: Self)
        requires
            is_pow2(leaf_hashes@.len()),
        ensures
            tree_wf(r@),
            r@[0] == hashes_view(leaf_hashes@),
    {
        merklize(leaf_hashes)
    }

    /// The root digest, which is the commitment.
    pub fn get_root(&self) -> (r: Hash)
        requires
            tree_wf(self@),
        ensures
            r.0@ == self@.last()[0],
    {
        let last = self.data.len() - 1;
        assert(self@[last as int] == hashes_view(self.data@[last as int]@));
        assert(self@[last as int][0] == self.data@[last as int]@[0].0@);
        self.data[last][0].copy()
    }

    /// The membership path of a leaf: the sibling digests from the leaves up.
    pub fn get_merkle_path(&self, leaf_index: usize) -> (r: Vec<Hash>)
        requires
            tree_wf(self@),
            leaf_index < self@[0].len(),
        ensures
            hashes_view(r@) == auth_path(self@, 0, leaf_index as nat),
    {
        get_merkle_path(&self.data, leaf_index)
    }
}

/// Builds a Merkle tree; the number of leaves must be a power of two.
pub fn merklize(leaf_hashes: Vec<Hash>) -> (r: MerkleTree)
    requires
        is_pow2(leaf_hashes@.len()),
    ensures
        tree_wf(r@),
        r@[0] == hashes_view(leaf_hashes@),
{
    let ghost leaves = hashes_view(leaf_hashes@);
    let mut data: Vec<Vec<Hash>> = Vec::new();
    data.push(leaf_hashes);
    let mut j: usize = 0;
    let total = data[0].len();
    assert(levels_view(data@) =~= seq![leaves]);
    while data[j].len() > 1
        invariant
            j + 1 == data@.len(),
            levels_view(data@)[0] == leaves,
            is_pow2(data@[j as int]@.len()),
            j + data@[j as int]@.len() <= leaves.len(),
            leaves.len() == data@[0]@.len(),
            total == leaves.len(),
            forall|i: int| 0 <= i < j ==> #[trigger] data@[i]@.len() == 2 * data@[i + 1]@.len(),
            forall|i: int, p: int|
                0 <= i < j && 0 <= p < data@[i + 1]@.len() ==> #[trigger] data@[i + 1]@[p].0@
                    == node_hash(data@[i]@[2 * p].0@, data@[i]@[2 * p + 1].0@),
        decreases data@[j as int]@.len(),
    {
        let len = data[j].len();
        let n = len / 2;
        let mut next: Vec<Hash> = Vec::new();
        let mut p: usize = 0;
        while p < n
            invariant
                j + 1 == data@.len(),
                n * 2 == data@[j as int]@.len(),
                n * 2 <= usize::MAX,
                p <= n,
                next@.len() == p,
                forall|q: int| 0 <= q < p ==> #[trigger] next@[q].0@
                    == node_hash(data@[j as int]@[2 * q].0@, data@[j as int]@[2 * q + 1].0@),
            decreases n - p,
        {
            assert(2 * p + 1 < data@[j as int]@.len());
            let h = hash_concatenation(&data[j][2 * p], &data[j][2 * p + 1]);
            next.push(h);
            p = p + 1;
        }
        data.push(next);
        j = j + 1;
    }
    let r = MerkleTree { data };
    assert forall|i: int| 0 <= i < r@.len() - 1 implies #[trigger] r@[i].len() == 2 * r@[i + 1].len() by {
        assert(r@[i] == hashes_view(r.data@[i]@));
        assert(r@[i + 1] == hashes_view(r.data@[i + 1]@));
    }
    assert forall|i: int, p: int| 0 <= i < r@.len() - 1 && 0 <= p < r@[i + 1].len() implies #[trigger] r@[i + 1][p]
        == node_hash(r@[i][2 * p], r@[i][2 * p + 1]) by {
        assert(r@[i] == hashes_view(r.data@[i]@));
        assert(r@[i + 1] == hashes_view(r.data@[i + 1]@));
    }
    assert(r@.last() == hashes_view(r.data@[j as int]@));
    r
}

/// The membership path of leaf `leaf_index` in a tree given by its levels.
pub fn get_merkle_path(tree: &Vec<Vec<Hash>>, leaf_index: usize) -> (r: Vec<Hash>)
    requires
        tree_wf(levels_view(tree@)),
        leaf_index < tree@[0]@.len(),
    ensures
        hashes_view(r@) == auth_path(levels_view(tree@), 0, leaf_index as nat),
{
    let ghost lv = levels_view(tree@);
    let mut path: Vec<Hash> = Vec::new();
    let mut idx: usize = leaf_index;
    let mut d: usize = 0;
    assert(lv[0] == hashes_view(tree@[0]@));
    while d < tree.len() - 1
        invariant
            tree_wf(lv),
            lv == levels_view(tree@),
            d < tree@.len(),
            idx < lv[d as int].len(),
            hashes_view(path@) + auth_path(lv, d as nat, idx as nat) == auth_path(lv, 0, leaf_index as nat),
        decreases tree@.len() - d,
    {
        assert(lv[d as int] == hashes_view(tree@[d as int]@));
        assert(lv[d + 1] == hashes_view(tree@[d + 1]@));
        let sib = if idx % 2 == 0 {
            idx + 1
        } else {
            idx - 1
        };
        let ghost old_path = hashes_view(path@);
        path.push(tree[d][sib].copy());
        assert(hashes_view(path@) =~= old_path.push(lv[d as int][sib as int]));
        assert(auth_path(lv, d as nat, idx as nat) == seq![lv[d as int][sibling(idx as nat) as int]] + auth_path(lv, (d + 1) as nat, (idx / 2) as nat));
        assert(hashes_view(path@) + auth_path(lv, (d + 1) as nat, (idx / 2) as nat) =~= old_path + auth_path(lv, d as nat, idx as nat));
        idx = idx / 2;
        d = d + 1;
    }
    assert(auth_path(lv, d as nat, idx as nat) =~= Seq::empty());
    assert(hashes_view(path@) + Seq::empty() =~= hashes_view(path@));
    path
}

/// Checks a membership path: folding the leaf digest with the path, by the bits
/// of `leaf_index` from the lowest, must give the commitment.
pub fn verify_merkle_path(commitment: &Hash, leaf_hash: Hash, leaf_index: usize, merkle_path: &Vec<Hash>) -> (r: bool)
    ensures
        r == (fold_path(leaf_hash.0@, leaf_index as nat, hashes_view(merkle_path@)) == commitment.0@),
{
    let mut acc = leaf_hash;
    let mut idx: usize = leaf_index;
    let mut d: usize = 0;
    let ghost full = hashes_view(merkle_path@);
    assert(full.skip(0) =~= full);
    while d < merkle_path.len()
        invariant
            d <= merkle_path@.len(),
            full == hashes_view(merkle_path@),
            fold_path(acc.0@, idx as nat, full.skip(d as int)) == fold_path(leaf_hash.0@, leaf_index as nat, full),
        decreases merkle_path@.len() - d,
    {
        let ghost before = acc.0@;
        if idx % 2 == 0 {
            acc = hash_concatenation(&acc, &merkle_path[d]);
        } else {
            acc = hash_concatenation(&merkle_path[d], &acc);
        }
        assert(full.skip(d as int).drop_first() =~= full.skip(d + 1));
        assert(full.skip(d as int)[0] == merkle_path@[d as int].0@);
        idx = idx / 2;
        d = d + 1;
    }
    assert(full.skip(d as int) =~= Seq::<Seq<u8>>::empty());
    assert(full.skip(0) =~= full);
    hash_eq(&acc, commitment)
}

/// A membership path taken from a well-formed tree leads from its leaf to the root.
pub proof fn lemma_path_reaches_root(levels: Seq<Seq<Seq<u8>>>, j: nat, x: nat)
    requires
        tree_wf(levels),
        j < levels.len(),
        x < levels[j as int].len(),
    ensures
        fold_path(levels[j as int][x as int], x, auth_path(levels, j, x)) == levels.last()[0],
    decreases levels.len() - j,
{
    if j + 1 < levels.len() {
        let path = auth_path(levels, j, x);
        let rest = auth_path(levels, j + 1, x / 2);
        assert(path.drop_first() =~= rest);
        let p = (x / 2) as int;
        assert(levels[(j + 1) as int][p] == node_hash(levels[j as int][2 * p], levels[j as int][2 * p + 1]));
        lemma_path_reaches_root(levels, j + 1, x / 2);
    }
}

/// Completeness of membership proofs: the path that a well-formed tree gives
/// for any leaf verifies that leaf against the tree's root.
pub proof fn lemma_merkle_path_verifies(tree: MerkleTree, leaf_index: nat)
    requires
        tree_wf(tree@),
        leaf_index < tree@[0].len(),
    ensures
        fold_path(tree@[0][leaf_index as int], leaf_index, auth_path(tree@, 0, leaf_index)) == tree@.last()[0],
{
    lemma_path_reaches_root(tree@, 0, leaf_index);
}

} // verus!
