use vstd::prelude::*;

use crate::bytes::{bytes_eq, copy_range};
use crate::hash::{keccak256, keccak256_of};
use crate::vaa::{header_wf, Header};

verus! {

/// The public key that secp256k1 recovery yields from a 32-byte digest and a
/// 65-byte signature (r, s, recovery id), in 65-byte uncompressed form; none
/// where the signature or recovery id does not parse or recovery fails.
pub uninterp spec fn recovered_key(digest: Seq<u8>, signature: Seq<u8>) -> Option<Seq<u8>>;

/// Relies on libsecp256k1::recover (with Message::parse_slice,
/// Signature::parse_standard_slice, RecoveryId::parse and
/// PublicKey::serialize to convert): the recovered key depends on the digest
/// and signature alone, and serialises to 65 bytes.
#[verifier::external_body]
fn recover_key(digest: &[u8], signature: &[u8]) -> (r: Option<Vec<u8>>)
    requires
        digest@.len() == 32,
        signature@.len() == 65,
    ensures
        r is None <==> recovered_key(digest@, signature@) is None,
        r is Some ==> recovered_key(digest@, signature@) == Some(r->Some_0@) && r->Some_0@.len()
            == 65,
{
    let message = libsecp256k1::Message::parse_slice(digest).ok()?;
    let sig = libsecp256k1::Signature::parse_standard_slice(&signature[..64]).ok()?;
    let recovery_id = libsecp256k1::RecoveryId::parse(signature[64]).ok()?;
    let key = libsecp256k1::recover(&message, &sig, &recovery_id).ok()?;
    Some(key.serialize().to_vec())
}

/// A guardian's 20-byte identity: the last 20 bytes of the Keccak-256 of its
/// uncompressed public key without the leading tag byte.
pub open spec fn guardian_address(key: Seq<u8>) -> Seq<u8> {
    keccak256_of(key.subrange(1, 65)).subrange(12, 32)
}

/// The identity of the guardian that produced `signature` over `digest`.
pub open spec fn signer_of(digest: Seq<u8>, signature: Seq<u8>) -> Option<Seq<u8>> {
    match recovered_key(digest, signature) {
        Some(k) => Some(guardian_address(k)),
        None => None,
    }
}

/// A published guardian set.
#[derive(Clone, Debug)]
pub struct GuardianSet {
    pub index: u32,
    pub keys: Vec<Vec<u8>>,
    /// Time after which the set no longer signs; zero for a set without end.
    pub expiration_time: u32,
}

#[derive(Clone, Copy, Debug, PartialEq, Eq)]
pub enum ThresholdError {
    StaleGuardianSet,
    QuorumNotMet,
    UnsortedSignatures,
    InvalidSignature,
}

pub open spec fn is_expired(set: GuardianSet, now: nat) -> bool {
    set.expiration_time != 0 && now > set.expiration_time
}

pub open spec fn strictly_increasing(h: Header) -> bool {
    forall|k: int|
        0 < k < h.signatures@.len() ==> h.signatures@[k - 1].index < #[trigger] h.signatures@[k].index
}

/// Signature `k` names a guardian of the set and was made by that guardian.
pub open spec fn signature_matches(
    h: Header,
    set: GuardianSet,
    signers: Seq<Option<Seq<u8>>>,
    k: int,
) -> bool {
    let idx = h.signatures@[k].index as int;
    idx < set.keys@.len() && signers[k] == Some(set.keys@[idx]@)
}

/// What verifying `h` against `set` yields, given the identity recovered
/// from each signature.
pub open spec fn verdict(
    h: Header,
    set: GuardianSet,
    min_quorum: nat,
    now: nat,
    signers: Seq<Option<Seq<u8>>>,
) -> Result<(), ThresholdError> {
    if h.guardian_set_index != set.index || is_expired(set, now) {
        Err(ThresholdError::StaleGuardianSet)
    } else if h.signatures@.len() < min_quorum {
        Err(ThresholdError::QuorumNotMet)
    } else if !strictly_increasing(h) {
        Err(ThresholdError::UnsortedSignatures)
    } else if exists|k: int|
        0 <= k < h.signatures@.len() && !signature_matches(h, set, signers, k) {
        Err(ThresholdError::InvalidSignature)
    } else {
        Ok(())
    }
}

pub open spec fn opt_views(v: Seq<Option<Vec<u8>>>) -> Seq<Option<Seq<u8>>> {
    v.map_values(
        |o: Option<Vec<u8>>|
            match o {
                Some(a) => Some(a@),
                None => None,
            },
    )
}

/// The identities recovered from each signature of `h` over `digest`.
pub open spec fn signers_of(h: Header, digest: Seq<u8>) -> Seq<Option<Seq<u8>>> {
    Seq::new(h.signatures@.len(), |k: int| signer_of(digest, h.signatures@[k].signature@))
}

/// The conventional quorum for `n` guardians: two thirds, rounded down, plus one.
pub fn quorum(n: usize) -> (r: usize)
    requires
        n < usize::MAX,
    ensures
        r == 2 * n / 3 + 1,
{
    let r = n / 3 * 2 + n % 3 * 2 / 3 + 1;
    assert(n / 3 * 2 + n % 3 * 2 / 3 == 2 * n / 3) by (nonlinear_arith);
    r
}

/// The identity of the guardian that produced `signature` over `digest`.
pub fn signer_address(digest: &[u8], signature: &[u8]) -> (r: Option<Vec<u8>>)
    requires
        digest@.len() == 32,
        signature@.len() == 65,
    ensures
        r is None <==> signer_of(digest@, signature@) is None,
        r is Some ==> signer_of(digest@, signature@) == Some(r->Some_0@),
{
    match recover_key(digest, signature) {
        None => None,
        Some(key) => {
            let body = copy_range(key.as_slice(), 1, 64);
            let h = keccak256(body.as_slice());
            Some(copy_range(h.as_slice(), 12, 20))
        },
    }
}

/// Checks a header against a guardian set, given the identity recovered from
/// each of its signatures.
pub fn check_signers(
    h: &Header,
    set: &GuardianSet,
    min_quorum: usize,
    now: u32,
    signers: &Vec<Option<Vec<u8>>>,
) -> (r: Result<(), ThresholdError>)
    requires
        signers@.len() == h.signatures@.len(),
    ensures
        r == verdict(*h, *set, min_quorum as nat, now as nat, opt_views(signers@)),
{
    let ghost sv = opt_views(signers@);
    if h.guardian_set_index != set.index || (set.expiration_time != 0 && now > set.expiration_time) {
        return Err(ThresholdError::StaleGuardianSet);
    }
    let n: usize = h.signatures.len();
    if n < min_quorum {
        return Err(ThresholdError::QuorumNotMet);
    }
    let mut k: usize = 1;
    while k < n
        invariant
            n == h.signatures@.len(),
            h.guardian_set_index == set.index,
            !is_expired(*set, now as nat),
            n >= min_quorum,
            1 <= k,
            forall|j: int| 0 < j < k && j < n ==> h.signatures@[j - 1].index < #[trigger] h.signatures@[j].index,
        decreases n - k,
    {
        if h.signatures[k - 1].index >= h.signatures[k].index {
            assert(!strictly_increasing(*h)) by {
                assert(h.signatures@[k as int - 1].index >= h.signatures@[k as int].index);
            }
            return Err(ThresholdError::UnsortedSignatures);
        }
        k = k + 1;
    }
    let mut k: usize = 0;
    while k < n
        invariant
            n == h.signatures@.len(),
            n == signers@.len(),
            sv == opt_views(signers@),
            k <= n,
            h.guardian_set_index == set.index,
            !is_expired(*set, now as nat),
            n >= min_quorum,
            strictly_increasing(*h),
            forall|j: int| 0 <= j < k ==> signature_matches(*h, *set, sv, j),
        decreases n - k,
    {
        let idx: usize = h.signatures[k].index as usize;
        if idx >= set.keys.len() {
            assert(!signature_matches(*h, *set, sv, k as int));
            assert(0 <= k < n && !signature_matches(*h, *set, sv, k as int));
            return Err(ThresholdError::InvalidSignature);
        }
        match &signers[k] {
            None => {
                assert(sv[k as int] is None);
                assert(!signature_matches(*h, *set, sv, k as int));
                assert(0 <= k < n && !signature_matches(*h, *set, sv, k as int));
                return Err(ThresholdError::InvalidSignature);
            },
            Some(a) => {
                if !bytes_eq(a.as_slice(), set.keys[idx].as_slice()) {
                    assert(sv[k as int] == Some(a@));
                    assert(!signature_matches(*h, *set, sv, k as int));
                    assert(0 <= k < n && !signature_matches(*h, *set, sv, k as int));
                    return Err(ThresholdError::InvalidSignature);
                }
                assert(sv[k as int] == Some(a@));
            },
        }
        k = k + 1;
    }
    Ok(())
}

/// Verifies a header's signatures over `digest` against a guardian set.
pub fn verify_signatures(
    h: &Header,
    digest: &[u8],
    set: &GuardianSet,
    min_quorum: usize,
    now: u32,
) -> (r: Result<(), ThresholdError>)
    requires
        header_wf(*h),
        digest@.len() == 32,
    ensures
        r == verdict(*h, *set, min_quorum as nat, now as nat, signers_of(*h, digest@)),
{
    let n: usize = h.signatures.len();
    let mut signers: Vec<Option<Vec<u8>>> = Vec::new();
    let mut k: usize = 0;
    while k < n
        invariant
            header_wf(*h),
            digest@.len() == 32,
            n == h.signatures@.len(),
            k <= n,
            signers@.len() == k,
            forall|j: int| 0 <= j < k ==> opt_views(signers@)[j] == signer_of(digest@, h.signatures@[j].signature@),
        decreases n - k,
    {
        let s = signer_address(digest, h.signatures[k].signature.as_slice());
        let ghost before = signers@;
        signers.push(s);
        assert forall|j: int| 0 <= j <= k implies opt_views(signers@)[j] == signer_of(
            digest@,
            h.signatures@[j].signature@,
        ) by {
            if j < k {
                assert(signers@[j] == before[j]);
                assert(opt_views(before)[j] == signer_of(digest@, h.signatures@[j].signature@));
            }
        }
        k = k + 1;
    }
    assert(opt_views(signers@) =~= signers_of(*h, digest@));
    check_signers(h, set, min_quorum, now, &signers)
}

/// For a current set and sorted signatures that each match their guardian,
/// verification succeeds exactly when the count reaches the quorum, and
/// otherwise fails for want of quorum.
pub proof fn lemma_quorum_boundary(
    h: Header,
    set: GuardianSet,
    min_quorum: nat,
    now: nat,
    signers: Seq<Option<Seq<u8>>>,
)
    requires
        h.guardian_set_index == set.index,
        !is_expired(set, now),
        strictly_increasing(h),
        forall|k: int| 0 <= k < h.signatures@.len() ==> signature_matches(h, set, signers, k),
    ensures
        verdict(h, set, min_quorum, now, signers) is Ok <==> h.signatures@.len() >= min_quorum,
        h.signatures@.len() < min_quorum ==> verdict(h, set, min_quorum, now, signers) == Err::<
            (),
            ThresholdError,
        >(ThresholdError::QuorumNotMet),
{
}

/// A single signature that does not match its guardian rejects the whole
/// header, however many others are valid.
pub proof fn lemma_one_bad_signature_rejects(
    h: Header,
    set: GuardianSet,
    min_quorum: nat,
    now: nat,
    signers: Seq<Option<Seq<u8>>>,
    k: int,
)
    requires
        h.guardian_set_index == set.index,
        !is_expired(set, now),
        h.signatures@.len() >= min_quorum,
        strictly_increasing(h),
        0 <= k < h.signatures@.len(),
        !signature_matches(h, set, signers, k),
    ensures
        verdict(h, set, min_quorum, now, signers) == Err::<(), ThresholdError>(
            ThresholdError::InvalidSignature,
        ),
{
}

proof fn lemma_increasing_pairs(h: Header, a: int, b: int)
    requires
        strictly_increasing(h),
        0 <= a < b < h.signatures@.len(),
    ensures
        h.signatures@[a].index < h.signatures@[b].index,
    decreases b - a,
{
    if a + 1 < b {
        lemma_increasing_pairs(h, a, b - 1);
    }
    assert(h.signatures@[b - 1].index < h.signatures@[b].index);
}

/// Two signatures whose guardian indices repeat or go down reject a header
/// for a current set with enough signatures, whatever the signatures
/// themselves recover to.
pub proof fn lemma_unsorted_rejected(
    h: Header,
    set: GuardianSet,
    min_quorum: nat,
    now: nat,
    signers: Seq<Option<Seq<u8>>>,
    a: int,
    b: int,
)
    requires
        h.guardian_set_index == set.index,
        !is_expired(set, now),
        h.signatures@.len() >= min_quorum,
        0 <= a < b < h.signatures@.len(),
        h.signatures@[a].index >= h.signatures@[b].index,
    ensures
        verdict(h, set, min_quorum, now, signers) == Err::<(), ThresholdError>(
            ThresholdError::UnsortedSignatures,
        ),
{
    if strictly_increasing(h) {
        lemma_increasing_pairs(h, a, b);
    }
}

} // verus!
