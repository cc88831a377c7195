use vstd::prelude::*;

use crate::bytes::{
    be_bytes, bytes_eq, lemma_be_bytes_len, lemma_be_value_of_bytes, pow256, push_all,
    push_be,
};
use crate::hash::{keccak256, keccak256_of};
use crate::merkle::deep;

verus! {

#[derive(Clone, Copy, Debug, PartialEq, Eq)]
pub enum DerivationError {
    AccountDerivationMismatch,
}

/// A byte string prefixed with its length on eight bytes.
pub open spec fn prefixed(b: Seq<u8>) -> Seq<u8> {
    be_bytes(b.len(), 8) + b
}

/// Length-prefixed encoding of the key elements, in order.
pub open spec fn keys_bytes(keys: Seq<Seq<u8>>) -> Seq<u8>
    decreases keys.len(),
{
    if keys.len() == 0 {
        Seq::empty()
    } else {
        prefixed(keys[0]) + keys_bytes(keys.drop_first())
    }
}

/// The bytes hashed to derive an address: every variable-length part is
/// prefixed with its length, so that distinct inputs give distinct bytes.
pub open spec fn derivation_input(tag: Seq<u8>, keys: Seq<Seq<u8>>, program: Seq<u8>) -> Seq<u8> {
    prefixed(tag) + be_bytes(keys.len(), 8) + keys_bytes(keys) + prefixed(program)
}

/// The address derived for a purpose tag and key tuple under a program.
pub open spec fn derived_address(tag: Seq<u8>, keys: Seq<Seq<u8>>, program: Seq<u8>) -> Seq<u8> {
    keccak256_of(derivation_input(tag, keys, program))
}

/// `address` is the one derived from the inputs.
pub open spec fn derivation_matches(
    address: Seq<u8>,
    tag: Seq<u8>,
    keys: Seq<Seq<u8>>,
    program: Seq<u8>,
) -> bool {
    address == derived_address(tag, keys, program)
}

/// Derives the address for a purpose tag and key tuple under a program.
/// This is the library's own scheme (Keccak-256 over length-prefixed
/// inputs); it models a host's program-derived addresses and does not give
/// the addresses that any particular chain computes.
pub fn derive_address(tag: &[u8], keys: &Vec<Vec<u8>>, program: &[u8]) -> (r: Vec<u8>)
    ensures
        r@ == derived_address(tag@, deep(keys@), program@),
        r@.len() == 32,
{
    let mut buf: Vec<u8> = Vec::new();
    push_be(&mut buf, tag.len() as u64, 8);
    push_all(&mut buf, tag);
    push_be(&mut buf, keys.len() as u64, 8);
    let ghost target = buf@ + keys_bytes(deep(keys@));
    let mut k: usize = 0;
    assert(deep(keys@).skip(0) =~= deep(keys@));
    while k < keys.len()
        invariant
            k <= keys@.len(),
            target == buf@ + keys_bytes(deep(keys@).skip(k as int)),
        decreases keys@.len() - k,
    {
        let ghost rest = deep(keys@).skip(k as int);
        assert(rest.drop_first() =~= deep(keys@).skip(k + 1));
        assert(rest[0] == keys@[k as int]@);
        push_be(&mut buf, keys[k].len() as u64, 8);
        push_all(&mut buf, keys[k].as_slice());
        k = k + 1;
        assert(target =~= buf@ + keys_bytes(deep(keys@).skip(k as int)));
    }
    assert(deep(keys@).skip(keys@.len() as int) =~= Seq::<Seq<u8>>::empty());
    assert(buf@ =~= target);
    push_be(&mut buf, program.len() as u64, 8);
    push_all(&mut buf, program);
    assert(buf@ =~= derivation_input(tag@, deep(keys@), program@));
    keccak256(buf.as_slice())
}

/// Accepts `address` exactly when it is the one derived from the inputs.
pub fn verify_derivation(address: &[u8], tag: &[u8], keys: &Vec<Vec<u8>>, program: &[u8]) -> (r:
    Result<(), DerivationError>)
    ensures
        r is Ok <==> derivation_matches(address@, tag@, deep(keys@), program@),
        r is Err ==> r == Err::<(), DerivationError>(DerivationError::AccountDerivationMismatch),
{
    let expected = derive_address(tag, keys, program);
    if bytes_eq(address, expected.as_slice()) {
        Ok(())
    } else {
        Err(DerivationError::AccountDerivationMismatch)
    }
}

/// An address derived from given inputs passes verification against the
/// same inputs.
pub proof fn lemma_derivation_consistency(tag: Seq<u8>, keys: Seq<Seq<u8>>, program: Seq<u8>)
    ensures
        derivation_matches(derived_address(tag, keys, program), tag, keys, program),
{
}

proof fn lemma_count_split(n1: nat, r1: Seq<u8>, n2: nat, r2: Seq<u8>)
    requires
        n1 <= 0xffff_ffff_ffff_ffff,
        n2 <= 0xffff_ffff_ffff_ffff,
        be_bytes(n1, 8) + r1 == be_bytes(n2, 8) + r2,
    ensures
        n1 == n2,
        r1 == r2,
{
    reveal_with_fuel(pow256, 9);
    lemma_be_bytes_len(n1, 8);
    lemma_be_bytes_len(n2, 8);
    let a = be_bytes(n1, 8) + r1;
    assert(a.subrange(0, 8) =~= be_bytes(n1, 8));
    assert((be_bytes(n2, 8) + r2).subrange(0, 8) =~= be_bytes(n2, 8));
    lemma_be_value_of_bytes(n1, 8);
    lemma_be_value_of_bytes(n2, 8);
    assert(a.skip(8) =~= r1);
    assert((be_bytes(n2, 8) + r2).skip(8) =~= r2);
}

proof fn lemma_prefixed_split(x1: Seq<u8>, r1: Seq<u8>, x2: Seq<u8>, r2: Seq<u8>)
    requires
        x1.len() <= 0xffff_ffff_ffff_ffff,
        x2.len() <= 0xffff_ffff_ffff_ffff,
        prefixed(x1) + r1 == prefixed(x2) + r2,
    ensures
        x1 == x2,
        r1 == r2,
{
    assert(prefixed(x1) + r1 =~= be_bytes(x1.len(), 8) + (x1 + r1));
    assert(prefixed(x2) + r2 =~= be_bytes(x2.len(), 8) + (x2 + r2));
    lemma_count_split(x1.len(), x1 + r1, x2.len(), x2 + r2);
    assert((x1 + r1).subrange(0, x1.len() as int) =~= x1);
    assert((x2 + r2).subrange(0, x2.len() as int) =~= x2);
    assert((x1 + r1).skip(x1.len() as int) =~= r1);
    assert((x2 + r2).skip(x2.len() as int) =~= r2);
}

/// Every element of a key tuple fits a length field.
pub open spec fn keys_fit(keys: Seq<Seq<u8>>) -> bool {
    forall|i: int| 0 <= i < keys.len() ==> #[trigger] keys[i].len() <= 0xffff_ffff_ffff_ffff
}

proof fn lemma_keys_split(k1: Seq<Seq<u8>>, r1: Seq<u8>, k2: Seq<Seq<u8>>, r2: Seq<u8>)
    requires
        k1.len() == k2.len(),
        keys_fit(k1),
        keys_fit(k2),
        keys_bytes(k1) + r1 == keys_bytes(k2) + r2,
    ensures
        k1 == k2,
        r1 == r2,
    decreases k1.len(),
{
    if k1.len() == 0 {
        assert(keys_bytes(k1) + r1 =~= r1);
        assert(keys_bytes(k2) + r2 =~= r2);
        assert(k1 =~= k2);
    } else {
        let t1 = k1.drop_first();
        let t2 = k2.drop_first();
        assert(keys_bytes(k1) + r1 =~= prefixed(k1[0]) + (keys_bytes(t1) + r1));
        assert(keys_bytes(k2) + r2 =~= prefixed(k2[0]) + (keys_bytes(t2) + r2));
        assert(k1[0].len() <= 0xffff_ffff_ffff_ffff);
        assert(k2[0].len() <= 0xffff_ffff_ffff_ffff);
        lemma_prefixed_split(k1[0], keys_bytes(t1) + r1, k2[0], keys_bytes(t2) + r2);
        assert(keys_fit(t1)) by {
            assert forall|i: int| 0 <= i < t1.len() implies #[trigger] t1[i].len() <= 0xffff_ffff_ffff_ffff by {
                assert(t1[i] == k1[i + 1]);
            }
        }
        assert(keys_fit(t2)) by {
            assert forall|i: int| 0 <= i < t2.len() implies #[trigger] t2[i].len() <= 0xffff_ffff_ffff_ffff by {
                assert(t2[i] == k2[i + 1]);
            }
        }
        lemma_keys_split(t1, r1, t2, r2);
        assert(k1 =~= seq![k1[0]] + t1);
        assert(k2 =~= seq![k2[0]] + t2);
    }
}

/// Distinct inputs are hashed from distinct bytes: changing the tag, any key
/// element or the program changes what `derived_address` hashes. (That the
/// hash then differs is Keccak-256's collision resistance, which no proof
/// here can give.)
pub proof fn lemma_derivation_input_injective(
    tag1: Seq<u8>,
    keys1: Seq<Seq<u8>>,
    program1: Seq<u8>,
    tag2: Seq<u8>,
    keys2: Seq<Seq<u8>>,
    program2: Seq<u8>,
)
    requires
        tag1.len() <= 0xffff_ffff_ffff_ffff,
        tag2.len() <= 0xffff_ffff_ffff_ffff,
        keys1.len() <= 0xffff_ffff_ffff_ffff,
        keys2.len() <= 0xffff_ffff_ffff_ffff,
        keys_fit(keys1),
        keys_fit(keys2),
        program1.len() <= 0xffff_ffff_ffff_ffff,
        program2.len() <= 0xffff_ffff_ffff_ffff,
        tag1 != tag2 || keys1 != keys2 || program1 != program2,
    ensures
        derivation_input(tag1, keys1, program1) != derivation_input(tag2, keys2, program2),
{
    if derivation_input(tag1, keys1, program1) == derivation_input(tag2, keys2, program2) {
        let rest1 = be_bytes(keys1.len(), 8) + (keys_bytes(keys1) + prefixed(program1));
        let rest2 = be_bytes(keys2.len(), 8) + (keys_bytes(keys2) + prefixed(program2));
        assert(derivation_input(tag1, keys1, program1) =~= prefixed(tag1) + rest1);
        assert(derivation_input(tag2, keys2, program2) =~= prefixed(tag2) + rest2);
        lemma_prefixed_split(tag1, rest1, tag2, rest2);
        lemma_count_split(
            keys1.len(),
            keys_bytes(keys1) + prefixed(program1),
            keys2.len(),
            keys_bytes(keys2) + prefixed(program2),
        );
        lemma_keys_split(keys1, prefixed(program1), keys2, prefixed(program2));
        assert(prefixed(program1) + Seq::<u8>::empty() =~= prefixed(program1));
        assert(prefixed(program2) + Seq::<u8>::empty() =~= prefixed(program2));
        lemma_prefixed_split(program1, Seq::empty(), program2, Seq::empty());
    }
}

} // verus!
