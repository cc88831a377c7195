use vstd::prelude::*;

use crate::bytes::{be_bytes, push_all, push_be};
use crate::bytes::copy_range;
use crate::merkle::{
    fold_proof, is_first_index, leaf_hash, leaf_hashes, lemma_proof_round_trip, path_of,
    proof_view, MerkleError, MerkleTree, ProofStep,
};

verus! {

/// Magic prefix of an accumulator update.
pub const UPDATE_MAGIC: u32 = 0x504e_4155;

/// Proof kind of an update whose root comes in an embedded attestation.
pub const WORMHOLE_MERKLE_KIND: u8 = 0;

/// A message with its inclusion proof.
#[derive(Clone, Debug)]
pub struct MerklePriceUpdate {
    pub message: Vec<u8>,
    pub proof: Vec<ProofStep>,
}

pub open spec fn update_view(u: MerklePriceUpdate) -> (Seq<u8>, Seq<(Seq<u8>, bool)>) {
    (u.message@, proof_view(u.proof@))
}

/// Each proof step: a side byte (1 for a sibling on the left) and the sibling.
pub open spec fn proof_bytes(p: Seq<(Seq<u8>, bool)>) -> Seq<u8>
    decreases p.len(),
{
    if p.len() == 0 {
        Seq::empty()
    } else {
        proof_bytes(p.drop_last()) + seq![if p.last().1 { 1u8 } else { 0u8 }] + p.last().0
    }
}

pub open spec fn update_bytes(u: (Seq<u8>, Seq<(Seq<u8>, bool)>)) -> Seq<u8> {
    be_bytes(u.0.len(), 2) + u.0 + seq![u.1.len() as u8] + proof_bytes(u.1)
}

pub open spec fn updates_bytes(us: Seq<(Seq<u8>, Seq<(Seq<u8>, bool)>)>) -> Seq<u8>
    decreases us.len(),
{
    if us.len() == 0 {
        Seq::empty()
    } else {
        updates_bytes(us.drop_last()) + update_bytes(us.last())
    }
}

/// Wire form of an accumulator update: magic, version 1.0, an empty trailing
/// header, the proof kind, the length-prefixed attestation, then the count of
/// updates and each update.
pub open spec fn accumulator_update_bytes(
    vaa: Seq<u8>,
    us: Seq<(Seq<u8>, Seq<(Seq<u8>, bool)>)>,
) -> Seq<u8> {
    be_bytes(UPDATE_MAGIC as nat, 4) + seq![1u8, 0u8, 0u8, WORMHOLE_MERKLE_KIND] + be_bytes(
        vaa.len(),
        2,
    ) + vaa + seq![us.len() as u8] + updates_bytes(us)
}

/// `u` carries `message` with its proof from the first position of that
/// message among `leaves`.
pub open spec fn is_update_of(leaves: Seq<Seq<u8>>, message: Seq<u8>, u: MerklePriceUpdate) -> bool {
    &&& u.message@ == message
    &&& exists|j: int|
        is_first_index(leaves, message, j) && proof_view(u.proof@) == path_of(leaf_hashes(leaves), j)
}

/// Each message with its inclusion proof in `tree`; fails if any message is
/// not a leaf of the tree.
pub fn price_updates(tree: &MerkleTree, messages: &Vec<Vec<u8>>) -> (r: Result<
    Vec<MerklePriceUpdate>,
    MerkleError,
>)
    requires
        tree.wf(),
    ensures
        r is Err <==> exists|i: int|
            0 <= i < messages@.len() && !tree.leaves_view().contains(#[trigger] messages@[i]@),
        r is Err ==> r == Err::<Vec<MerklePriceUpdate>, MerkleError>(MerkleError::LeafNotFound),
        r is Ok ==> r->Ok_0@.len() == messages@.len() && forall|i: int|
            0 <= i < messages@.len() ==> is_update_of(
                tree.leaves_view(),
                messages@[i]@,
                #[trigger] r->Ok_0@[i],
            ),
{
    let mut out: Vec<MerklePriceUpdate> = Vec::new();
    let mut i: usize = 0;
    while i < messages.len()
        invariant
            tree.wf(),
            i <= messages@.len(),
            out@.len() == i,
            forall|k: int|
                0 <= k < i ==> is_update_of(tree.leaves_view(), messages@[k]@, #[trigger] out@[k]),
            forall|k: int| 0 <= k < i ==> tree.leaves_view().contains(#[trigger] messages@[k]@),
        decreases messages@.len() - i,
    {
        let m = &messages[i];
        match tree.prove(m.as_slice()) {
            Err(e) => {
                assert(!tree.leaves_view().contains(messages@[i as int]@));
                return Err(e);
            },
            Ok(proof) => {
                let message = copy_range(m.as_slice(), 0, m.len());
                assert(m@.subrange(0, m@.len() as int) =~= m@);
                out.push(MerklePriceUpdate { message, proof });
            },
        }
        i = i + 1;
    }
    Ok(out)
}

/// An update made from a well-formed tree verifies against that tree's root.
pub proof fn lemma_update_verifies(tree: MerkleTree, message: Seq<u8>, u: MerklePriceUpdate)
    requires
        tree.wf(),
        is_update_of(tree.leaves_view(), message, u),
    ensures
        fold_proof(leaf_hash(u.message@), proof_view(u.proof@)) == tree.root_view(),
{
    let j = choose|j: int|
        is_first_index(tree.leaves_view(), message, j) && proof_view(u.proof@) == path_of(
            leaf_hashes(tree.leaves_view()),
            j,
        );
    lemma_proof_round_trip(tree.leaves_view(), j);
}

/// Whether an update fits its length fields.
pub open spec fn update_fits(u: MerklePriceUpdate) -> bool {
    u.message@.len() <= 0xffff && u.proof@.len() <= 0xff
}

fn encode_proof(out: &mut Vec<u8>, p: &Vec<ProofStep>)
    ensures
        final(out)@ == old(out)@ + proof_bytes(proof_view(p@)),
{
    let ghost start = old(out)@;
    let mut k: usize = 0;
    while k < p.len()
        invariant
            k <= p@.len(),
            out@ == start + proof_bytes(proof_view(p@).subrange(0, k as int)),
        decreases p@.len() - k,
    {
        let step = &p[k];
        out.push(if step.sibling_on_left { 1u8 } else { 0u8 });
        push_all(out, step.sibling.as_slice());
        let ghost sub = proof_view(p@).subrange(0, k + 1);
        assert(sub.drop_last() =~= proof_view(p@).subrange(0, k as int));
        k = k + 1;
        assert(out@ =~= start + proof_bytes(proof_view(p@).subrange(0, k as int)));
    }
    assert(proof_view(p@).subrange(0, p@.len() as int) =~= proof_view(p@));
}

/// Encodes an accumulator update around an attestation's bytes.
pub fn encode_accumulator_update(vaa: &[u8], updates: &Vec<MerklePriceUpdate>) -> (r: Vec<u8>)
    requires
        vaa@.len() <= 0xffff,
        updates@.len() <= 0xff,
        forall|k: int| 0 <= k < updates@.len() ==> update_fits(#[trigger] updates@[k]),
    ensures
        r@ == accumulator_update_bytes(vaa@, updates@.map_values(|u: MerklePriceUpdate| update_view(u))),
{
    let ghost us = updates@.map_values(|u: MerklePriceUpdate| update_view(u));
    let mut out: Vec<u8> = Vec::new();
    push_be(&mut out, UPDATE_MAGIC as u64, 4);
    out.push(1);
    out.push(0);
    out.push(0);
    out.push(WORMHOLE_MERKLE_KIND);
    push_be(&mut out, vaa.len() as u64, 2);
    push_all(&mut out, vaa);
    out.push(updates.len() as u8);
    let ghost prefix = out@;
    let mut k: usize = 0;
    while k < updates.len()
        invariant
            k <= updates@.len(),
            forall|j: int| 0 <= j < updates@.len() ==> update_fits(#[trigger] updates@[j]),
            us == updates@.map_values(|u: MerklePriceUpdate| update_view(u)),
            out@ == prefix + updates_bytes(us.subrange(0, k as int)),
        decreases updates@.len() - k,
    {
        let u = &updates[k];
        let ghost before = out@;
        push_be(&mut out, u.message.len() as u64, 2);
        push_all(&mut out, u.message.as_slice());
        out.push(u.proof.len() as u8);
        encode_proof(&mut out, &u.proof);
        assert(out@ =~= before + update_bytes(us[k as int]));
        let ghost sub = us.subrange(0, k + 1);
        assert(sub.drop_last() =~= us.subrange(0, k as int));
        k = k + 1;
        assert(out@ =~= prefix + updates_bytes(us.subrange(0, k as int)));
    }
    assert(us.subrange(0, updates@.len() as int) =~= us);
    assert(out@ =~= accumulator_update_bytes(vaa@, us));
    out
}

} // verus!
