use vstd::prelude::*;

use crate::bytes::{bytes_eq, push_all};
use crate::hash::{keccak160, keccak160_of};

verus! {

/// Domain tag prefixed to a leaf before hashing.
pub const LEAF_TAG: u8 = 0;

/// Domain tag prefixed to a pair of child digests before hashing.
pub const NODE_TAG: u8 = 1;

/// The byte strings that a sequence of vectors holds.
pub open spec fn deep(v: Seq<Vec<u8>>) -> Seq<Seq<u8>> {
    v.map_values(|x: Vec<u8>| x@)
}

pub open spec fn leaf_hash(leaf: Seq<u8>) -> Seq<u8> {
    keccak160_of(seq![LEAF_TAG] + leaf)
}

pub open spec fn node_hash(left: Seq<u8>, right: Seq<u8>) -> Seq<u8> {
    keccak160_of(seq![NODE_TAG] + left + right)
}

pub open spec fn leaf_hashes(leaves: Seq<Seq<u8>>) -> Seq<Seq<u8>> {
    leaves.map_values(|l: Seq<u8>| leaf_hash(l))
}

/// One level up: adjacent digests are paired, an odd last digest is carried
/// forward unchanged.
pub open spec fn next_level(s: Seq<Seq<u8>>) -> Seq<Seq<u8>> {
    Seq::new(
        ((s.len() + 1) / 2) as nat,
        |k: int|
            if 2 * k + 1 < s.len() {
                node_hash(s[2 * k], s[2 * k + 1])
            } else {
                s[2 * k]
            },
    )
}

pub open spec fn root_of(s: Seq<Seq<u8>>) -> Seq<u8>
    decreases s.len(),
{
    if s.len() <= 1 {
        s[0]
    } else {
        root_of(next_level(s))
    }
}

/// The root that a sequence of leaves commits to.
pub open spec fn merkle_root(leaves: Seq<Seq<u8>>) -> Seq<u8> {
    root_of(leaf_hashes(leaves))
}

/// Sibling digests on the way from position `i` of a level to the root;
/// `true` marks a sibling that stands on the left.
pub open spec fn path_of(s: Seq<Seq<u8>>, i: int) -> Seq<(Seq<u8>, bool)>
    decreases s.len(),
{
    if s.len() <= 1 {
        Seq::empty()
    } else {
        let here: Seq<(Seq<u8>, bool)> = if i % 2 == 0 {
            if i + 1 < s.len() {
                seq![(s[i + 1], false)]
            } else {
                Seq::empty()
            }
        } else {
            seq![(s[i - 1], true)]
        };
        here + path_of(next_level(s), i / 2)
    }
}

pub open spec fn apply_step(h: Seq<u8>, step: (Seq<u8>, bool)) -> Seq<u8> {
    if step.1 {
        node_hash(step.0, h)
    } else {
        node_hash(h, step.0)
    }
}

/// The digest reached by folding a proof's sibling chain onto `h`.
pub open spec fn fold_proof(h: Seq<u8>, p: Seq<(Seq<u8>, bool)>) -> Seq<u8>
    decreases p.len(),
{
    if p.len() == 0 {
        h
    } else {
        fold_proof(apply_step(h, p[0]), p.drop_first())
    }
}

/// One step of an inclusion proof.
#[derive(Clone, Debug)]
pub struct ProofStep {
    pub sibling: Vec<u8>,
    pub sibling_on_left: bool,
}

pub open spec fn proof_view(p: Seq<ProofStep>) -> Seq<(Seq<u8>, bool)> {
    p.map_values(|s: ProofStep| (s.sibling@, s.sibling_on_left))
}

/// The first position of `leaf` among `leaves`.
pub open spec fn is_first_index(leaves: Seq<Seq<u8>>, leaf: Seq<u8>, i: int) -> bool {
    0 <= i < leaves.len() && leaves[i] == leaf && forall|j: int| 0 <= j < i ==> leaves[j] != leaf
}

#[derive(Clone, Copy, Debug, PartialEq, Eq)]
pub enum MerkleError {
    EmptyInput,
    LeafNotFound,
}

/// A Merkle tree over an ordered, non-empty sequence of leaves.
pub struct MerkleTree {
    pub leaves: Vec<Vec<u8>>,
    pub root: Vec<u8>,
}

impl MerkleTree {
    pub open spec fn leaves_view(&self) -> Seq<Seq<u8>> {
        deep(self.leaves@)
    }

    pub open spec fn root_view(&self) -> Seq<u8> {
        self.root@
    }

    pub open spec fn wf(&self) -> bool {
        self.leaves@.len() > 0 && self.root@ == merkle_root(self.leaves_view())
    }

    /// Builds the tree; fails on an empty sequence of leaves.
    pub fn build(leaves: &Vec<Vec<u8>>) -> (r: Result<MerkleTree, MerkleError>)
        ensures
            leaves@.len() == 0 <==> r == Err::<MerkleTree, MerkleError>(MerkleError::EmptyInput),
            leaves@.len() > 0 <==> r is Ok,
            r is Ok ==> r->Ok_0.wf() && r->Ok_0.leaves_view() == deep(leaves@),
    {
        if leaves.len() == 0 {
            return Err(MerkleError::EmptyInput);
        }
        let hashes = hash_leaves(leaves);
        let top = root_of_level(hashes);
        let kept = copy_leaves(leaves);
        Ok(MerkleTree { leaves: kept, root: top })
    }

    /// The root digest; for a well-formed tree, the root of its leaves.
    pub fn root(&self) -> (r: Vec<u8>)
        ensures
            r@ == self.root_view(),
            self.wf() ==> r@ == merkle_root(self.leaves_view()),
    {
        copy_bytes(&self.root)
    }

    /// The leaves, in order.
    pub fn leaves(&self) -> (r: &Vec<Vec<u8>>)
        ensures
            deep(r@) == self.leaves_view(),
    {
        &self.leaves
    }

    /// The inclusion proof of the first leaf equal to `leaf`.
    pub fn prove(&self, leaf: &[u8]) -> (r: Result<Vec<ProofStep>, MerkleError>)
        requires
            self.wf(),
        ensures
            !self.leaves_view().contains(leaf@) <==> r == Err::<Vec<ProofStep>, MerkleError>(
                MerkleError::LeafNotFound,
            ),
            self.leaves_view().contains(leaf@) <==> r is Ok,
            r is Ok ==> exists|i: int|
                is_first_index(self.leaves_view(), leaf@, i) && proof_view(r->Ok_0@) == path_of(
                    leaf_hashes(self.leaves_view()),
                    i,
                ),
    {
        let ghost lv = self.leaves_view();
        let mut pos: usize = 0;
        let mut found = false;
        while !found && pos < self.leaves.len()
            invariant
                pos <= self.leaves@.len(),
                lv == deep(self.leaves@),
                forall|j: int| 0 <= j < pos ==> lv[j] != leaf@,
                found ==> pos < self.leaves@.len() && lv[pos as int] == leaf@,
            decreases self.leaves@.len() - pos + (if found { 0int } else { 1int }),
        {
            if bytes_eq(self.leaves[pos].as_slice(), leaf) {
                found = true;
            } else {
                pos = pos + 1;
            }
        }
        if !found {
            assert forall|j: int| 0 <= j < lv.len() implies lv[j] != leaf@ by {}
            assert(!lv.contains(leaf@));
            return Err(MerkleError::LeafNotFound);
        }
        assert(lv.contains(leaf@));
        let hashes = hash_leaves(&self.leaves);
        let ghost start = deep(hashes@);
        let mut cur = hashes;
        let mut idx: usize = pos;
        let mut proof: Vec<ProofStep> = Vec::new();
        while cur.len() > 1
            invariant
                cur@.len() >= 1,
                idx < cur@.len(),
                path_of(start, pos as int) == proof_view(proof@) + path_of(deep(cur@), idx as int),
            decreases cur@.len(),
        {
            let ghost before = proof@;
            let ghost s = deep(cur@);
            if idx % 2 == 0 {
                if idx + 1 < cur.len() {
                    proof.push(ProofStep { sibling: copy_bytes(&cur[idx + 1]), sibling_on_left: false });
                    assert(proof_view(proof@) =~= proof_view(before) + seq![(s[idx + 1], false)]);
                } else {
                    assert(proof_view(proof@) =~= proof_view(before) + Seq::<(Seq<u8>, bool)>::empty());
                }
            } else {
                proof.push(ProofStep { sibling: copy_bytes(&cur[idx - 1]), sibling_on_left: true });
                assert(proof_view(proof@) =~= proof_view(before) + seq![(s[idx - 1], true)]);
            }
            cur = next_level_exec(&cur);
            idx = idx / 2;
            assert(path_of(start, pos as int) =~= proof_view(proof@) + path_of(deep(cur@), idx as int));
        }
        assert(path_of(deep(cur@), idx as int) =~= Seq::<(Seq<u8>, bool)>::empty());
        assert(proof_view(proof@) =~= path_of(start, pos as int));
        assert(is_first_index(lv, leaf@, pos as int));
        Ok(proof)
    }
}

/// Checks an inclusion proof of `leaf` against `root`, independently of how
/// the proof was produced.
pub fn verify(root: &[u8], leaf: &[u8], proof: &Vec<ProofStep>) -> (r: bool)
    ensures
        r == (fold_proof(leaf_hash(leaf@), proof_view(proof@)) == root@),
{
    let mut h = hash_leaf(leaf);
    let mut i: usize = 0;
    assert(proof_view(proof@).skip(0) =~= proof_view(proof@));
    while i < proof.len()
        invariant
            i <= proof@.len(),
            fold_proof(h@, proof_view(proof@).skip(i as int)) == fold_proof(
                leaf_hash(leaf@),
                proof_view(proof@),
            ),
        decreases proof@.len() - i,
    {
        let ghost rest = proof_view(proof@).skip(i as int);
        assert(rest.drop_first() =~= proof_view(proof@).skip(i + 1));
        let step = &proof[i];
        if step.sibling_on_left {
            h = hash_node(step.sibling.as_slice(), h.as_slice());
        } else {
            h = hash_node(h.as_slice(), step.sibling.as_slice());
        }
        i = i + 1;
    }
    assert(proof_view(proof@).skip(proof@.len() as int) =~= Seq::<(Seq<u8>, bool)>::empty());
    assert(proof_view(proof@).skip(0) =~= proof_view(proof@));
    bytes_eq(h.as_slice(), root)
}

fn copy_bytes(v: &Vec<u8>) -> (r: Vec<u8>)
    ensures
        r@ == v@,
{
    let mut out: Vec<u8> = Vec::new();
    push_all(&mut out, v.as_slice());
    assert(out@ =~= v@);
    out
}

fn copy_leaves(v: &Vec<Vec<u8>>) -> (r: Vec<Vec<u8>>)
    ensures
        deep(r@) == deep(v@),
{
    let mut out: Vec<Vec<u8>> = Vec::new();
    let mut i: usize = 0;
    while i < v.len()
        invariant
            i <= v@.len(),
            out@.len() == i,
            forall|j: int| 0 <= j < i ==> out@[j]@ == v@[j]@,
        decreases v@.len() - i,
    {
        out.push(copy_bytes(&v[i]));
        i = i + 1;
    }
    assert(deep(out@) =~= deep(v@));
    out
}

fn hash_leaf(leaf: &[u8]) -> (r: Vec<u8>)
    ensures
        r@ == leaf_hash(leaf@),
{
    let mut buf: Vec<u8> = Vec::new();
    buf.push(LEAF_TAG);
    push_all(&mut buf, leaf);
    assert(buf@ =~= seq![LEAF_TAG] + leaf@);
    keccak160(buf.as_slice())
}

fn hash_node(left: &[u8], right: &[u8]) -> (r: Vec<u8>)
    ensures
        r@ == node_hash(left@, right@),
{
    let mut buf: Vec<u8> = Vec::new();
    buf.push(NODE_TAG);
    push_all(&mut buf, left);
    push_all(&mut buf, right);
    assert(buf@ =~= seq![NODE_TAG] + left@ + right@);
    keccak160(buf.as_slice())
}

fn hash_leaves(leaves: &Vec<Vec<u8>>) -> (r: Vec<Vec<u8>>)
    ensures
        deep(r@) == leaf_hashes(deep(leaves@)),
        r@.len() == leaves@.len(),
{
    let mut out: Vec<Vec<u8>> = Vec::new();
    let mut i: usize = 0;
    while i < leaves.len()
        invariant
            i <= leaves@.len(),
            out@.len() == i,
            forall|j: int| 0 <= j < i ==> out@[j]@ == leaf_hash(leaves@[j]@),
        decreases leaves@.len() - i,
    {
        out.push(hash_leaf(leaves[i].as_slice()));
        i = i + 1;
    }
    assert(deep(out@) =~= leaf_hashes(deep(leaves@)));
    out
}

fn next_level_exec(level: &Vec<Vec<u8>>) -> (r: Vec<Vec<u8>>)
    ensures
        deep(r@) == next_level(deep(level@)),
        r@.len() == (level@.len() + 1) / 2,
{
    let ghost s = deep(level@);
    let mut out: Vec<Vec<u8>> = Vec::new();
    let mut k: usize = 0;
    let n: usize = level.len();
    while k < n - k
        invariant
            n == level@.len(),
            s == deep(level@),
            k <= n,
            k <= (n + 1) / 2,
            out@.len() == k,
            forall|j: int| 0 <= j < k ==> out@[j]@ == next_level(s)[j],
        decreases n - k,
    {
        if k + 1 < n - k {
            out.push(hash_node(level[2 * k].as_slice(), level[2 * k + 1].as_slice()));
        } else {
            out.push(copy_bytes(&level[2 * k]));
        }
        k = k + 1;
    }
    assert(k == (n + 1) / 2);
    assert(deep(out@) =~= next_level(s));
    out
}

fn root_of_level(level: Vec<Vec<u8>>) -> (r: Vec<u8>)
    requires
        level@.len() >= 1,
    ensures
        r@ == root_of(deep(level@)),
{
    let ghost start = deep(level@);
    let mut cur = level;
    while cur.len() > 1
        invariant
            cur@.len() >= 1,
            root_of(deep(cur@)) == root_of(start),
        decreases cur@.len(),
    {
        cur = next_level_exec(&cur);
    }
    copy_bytes(&cur[0])
}

/// A proof accepted against one root is rejected against any other root.
pub proof fn lemma_other_root_rejected(
    root: Seq<u8>,
    other: Seq<u8>,
    leaf: Seq<u8>,
    proof: Seq<(Seq<u8>, bool)>,
)
    requires
        fold_proof(leaf_hash(leaf), proof) == root,
        other != root,
    ensures
        fold_proof(leaf_hash(leaf), proof) != other,
{
}

/// Building twice over the same leaves gives the same root.
pub proof fn lemma_root_determinism(a: MerkleTree, b: MerkleTree)
    requires
        a.wf(),
        b.wf(),
        a.leaves_view() == b.leaves_view(),
    ensures
        a.root_view() == b.root_view(),
{
}

proof fn lemma_level_round_trip(s: Seq<Seq<u8>>, i: int)
    requires
        0 <= i < s.len(),
    ensures
        fold_proof(s[i], path_of(s, i)) == root_of(s),
    decreases s.len(),
{
    if s.len() > 1 {
        let n = next_level(s);
        lemma_level_round_trip(n, i / 2);
        let p = path_of(s, i);
        if i % 2 == 0 && i + 1 >= s.len() {
            assert(p =~= path_of(n, i / 2));
            assert(n[i / 2] == s[i]);
        } else {
            let rest = path_of(n, i / 2);
            assert(p.drop_first() =~= rest);
            if i % 2 == 0 {
                assert(n[i / 2] == node_hash(s[i], s[i + 1]));
            } else {
                assert(n[i / 2] == node_hash(s[i - 1], s[i]));
            }
        }
    }
}

/// Every leaf's path folds back to the root: a proof made for a leaf of the
/// tree is accepted against the tree's root.
pub proof fn lemma_proof_round_trip(leaves: Seq<Seq<u8>>, i: int)
    requires
        0 <= i < leaves.len(),
    ensures
        fold_proof(leaf_hash(leaves[i]), path_of(leaf_hashes(leaves), i)) == merkle_root(leaves),
{
    lemma_level_round_trip(leaf_hashes(leaves), i);
}

} // verus!
