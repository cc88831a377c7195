use vstd::prelude::*;

use crate::bytes::{
    be_bytes, be_value, copy_range, lemma_be_round_trip, push_all, push_be,
    read_be,
};
use crate::hash::{keccak256, keccak256_of};

verus! {

/// The only envelope version this library reads and writes.
pub const VAA_VERSION: u8 = 1;

/// Bytes of a recoverable signature: r, s and the recovery id.
pub const SIGNATURE_LEN: usize = 65;

/// Bytes of an emitter address.
pub const ADDRESS_LEN: usize = 32;

/// Bytes of the header before the signatures.
pub const HEADER_FIXED_LEN: usize = 6;

/// Bytes of one signature entry: guardian index and signature.
pub const SIGNATURE_ENTRY_LEN: usize = 66;

/// Bytes of the body before the payload.
pub const BODY_FIXED_LEN: usize = 51;

/// A guardian's signature over the body digest.
#[derive(Clone, Debug)]
pub struct GuardianSignature {
    pub index: u8,
    pub signature: Vec<u8>,
}

/// The signed part of an envelope: version, guardian set and signatures.
#[derive(Clone, Debug)]
pub struct Header {
    pub version: u8,
    pub guardian_set_index: u32,
    pub signatures: Vec<GuardianSignature>,
}

/// The attested message.
#[derive(Clone, Debug)]
pub struct Body {
    pub timestamp: u32,
    pub nonce: u32,
    pub emitter_chain: u16,
    pub emitter_address: Vec<u8>,
    pub sequence: u64,
    pub consistency_level: u8,
    pub payload: Vec<u8>,
}

/// A full attestation envelope.
#[derive(Clone, Debug)]
pub struct Vaa {
    pub header: Header,
    pub body: Body,
}

#[derive(Clone, Copy, Debug, PartialEq, Eq)]
pub enum EnvelopeError {
    Malformed,
}

pub open spec fn header_wf(h: Header) -> bool {
    &&& h.signatures@.len() <= 255
    &&& forall|k: int| 0 <= k < h.signatures@.len() ==> h.signatures@[k].signature@.len() == 65
}

pub open spec fn body_wf(b: Body) -> bool {
    b.emitter_address@.len() == 32
}

pub open spec fn vaa_wf(v: Vaa) -> bool {
    header_wf(v.header) && body_wf(v.body)
}

pub open spec fn signature_bytes(s: GuardianSignature) -> Seq<u8> {
    seq![s.index] + s.signature@
}

pub open spec fn signatures_bytes(s: Seq<GuardianSignature>) -> Seq<u8>
    decreases s.len(),
{
    if s.len() == 0 {
        Seq::empty()
    } else {
        signatures_bytes(s.drop_last()) + signature_bytes(s.last())
    }
}

/// Canonical encoding of a header.
pub open spec fn header_bytes(h: Header) -> Seq<u8> {
    seq![h.version] + be_bytes(h.guardian_set_index as nat, 4) + seq![h.signatures@.len() as u8]
        + signatures_bytes(h.signatures@)
}

/// Canonical encoding of a body: the bytes that guardians sign.
pub open spec fn body_bytes(b: Body) -> Seq<u8> {
    be_bytes(b.timestamp as nat, 4) + be_bytes(b.nonce as nat, 4) + be_bytes(
        b.emitter_chain as nat,
        2,
    ) + b.emitter_address@ + be_bytes(b.sequence as nat, 8) + seq![b.consistency_level]
        + b.payload@
}

pub open spec fn vaa_bytes(v: Vaa) -> Seq<u8> {
    header_bytes(v.header) + body_bytes(v.body)
}

/// The digest that guardians sign: Keccak-256 applied twice to the body.
pub open spec fn body_digest(b: Body) -> Seq<u8> {
    keccak256_of(keccak256_of(body_bytes(b)))
}

/// The inputs that `decode` rejects: too short for the header, a version
/// other than the supported one, or too short for the declared signatures
/// and the body.
pub open spec fn malformed(b: Seq<u8>) -> bool {
    ||| b.len() < HEADER_FIXED_LEN
    ||| b[0] != VAA_VERSION
    ||| b.len() < HEADER_FIXED_LEN + SIGNATURE_ENTRY_LEN * (b[5] as int) + BODY_FIXED_LEN
}

/// Canonical encoding of a body.
pub fn encode_body(b: &Body) -> (r: Vec<u8>)
    ensures
        r@ == body_bytes(*b),
{
    let mut out: Vec<u8> = Vec::new();
    push_be(&mut out, b.timestamp as u64, 4);
    push_be(&mut out, b.nonce as u64, 4);
    push_be(&mut out, b.emitter_chain as u64, 2);
    push_all(&mut out, b.emitter_address.as_slice());
    push_be(&mut out, b.sequence, 8);
    out.push(b.consistency_level);
    push_all(&mut out, b.payload.as_slice());
    assert(out@ =~= body_bytes(*b));
    out
}

/// Canonical encoding of a header.
pub fn encode_header(h: &Header) -> (r: Vec<u8>)
    requires
        header_wf(*h),
    ensures
        r@ == header_bytes(*h),
{
    let mut out: Vec<u8> = Vec::new();
    out.push(h.version);
    push_be(&mut out, h.guardian_set_index as u64, 4);
    let n: usize = h.signatures.len();
    out.push(n as u8);
    let ghost prefix = out@;
    let mut k: usize = 0;
    while k < n
        invariant
            n == h.signatures@.len(),
            k <= n,
            out@ == prefix + signatures_bytes(h.signatures@.subrange(0, k as int)),
        decreases n - k,
    {
        let ghost before = out@;
        out.push(h.signatures[k].index);
        push_all(&mut out, h.signatures[k].signature.as_slice());
        let ghost sub = h.signatures@.subrange(0, k + 1);
        assert(sub.drop_last() =~= h.signatures@.subrange(0, k as int));
        k = k + 1;
        assert(out@ =~= prefix + signatures_bytes(h.signatures@.subrange(0, k as int)));
    }
    assert(h.signatures@.subrange(0, n as int) =~= h.signatures@);
    assert(out@ =~= header_bytes(*h));
    out
}

/// Canonical encoding of a whole envelope.
pub fn encode(v: &Vaa) -> (r: Vec<u8>)
    requires
        header_wf(v.header),
    ensures
        r@ == vaa_bytes(*v),
{
    let mut out = encode_header(&v.header);
    let body = encode_body(&v.body);
    push_all(&mut out, body.as_slice());
    out
}

/// The digest of a body that signatures are taken over.
pub fn digest(b: &Body) -> (r: Vec<u8>)
    ensures
        r@ == body_digest(*b),
        r@.len() == 32,
{
    let bytes = encode_body(b);
    let once = keccak256(bytes.as_slice());
    keccak256(once.as_slice())
}

/// Parses an envelope; rejects exactly the inputs that `malformed` names.
pub fn decode(b: &[u8]) -> (r: Result<Vaa, EnvelopeError>)
    ensures
        malformed(b@) <==> r is Err,
        r is Ok ==> vaa_wf(r->Ok_0) && vaa_bytes(r->Ok_0) == b@,
{
    let blen: usize = b.len();
    if blen < HEADER_FIXED_LEN || b[0] != VAA_VERSION {
        return Err(EnvelopeError::Malformed);
    }
    let n: usize = b[5] as usize;
    if blen < HEADER_FIXED_LEN + SIGNATURE_ENTRY_LEN * n + BODY_FIXED_LEN {
        return Err(EnvelopeError::Malformed);
    }
    let guardian_set_index = read_be(b, 1, 4) as u32;
    let mut signatures: Vec<GuardianSignature> = Vec::new();
    let mut k: usize = 0;
    while k < n
        invariant
            blen == b@.len(),
            n == b@[5] as usize,
            n <= 255,
            blen >= HEADER_FIXED_LEN + SIGNATURE_ENTRY_LEN * n + BODY_FIXED_LEN,
            k <= n,
            signatures@.len() == k,
            forall|j: int| 0 <= j < k ==> signatures@[j].signature@.len() == 65,
            signatures_bytes(signatures@) == b@.subrange(6, 6 + 66 * k),
        decreases n - k,
    {
        let at: usize = HEADER_FIXED_LEN + SIGNATURE_ENTRY_LEN * k;
        let sig = copy_range(b, at + 1, SIGNATURE_LEN);
        let ghost before = signatures@;
        signatures.push(GuardianSignature { index: b[at], signature: sig });
        assert(signatures@.drop_last() =~= before);
        k = k + 1;
        assert(signatures_bytes(signatures@) =~= b@.subrange(6, 6 + 66 * k));
    }
    let o: usize = HEADER_FIXED_LEN + SIGNATURE_ENTRY_LEN * n;
    let header = Header { version: VAA_VERSION, guardian_set_index, signatures };
    let body = Body {
        timestamp: read_be(b, o, 4) as u32,
        nonce: read_be(b, o + 4, 4) as u32,
        emitter_chain: read_be(b, o + 8, 2) as u16,
        emitter_address: copy_range(b, o + 10, ADDRESS_LEN),
        sequence: read_be(b, o + 42, 8),
        consistency_level: b[o + 50],
        payload: copy_range(b, o + 51, blen - (o + 51)),
    };
    proof {
        let s = b@;
        lemma_be_value_fits(s.subrange(1, 5));
        lemma_be_value_fits(s.subrange(o as int, o + 4));
        lemma_be_value_fits(s.subrange(o + 4, o + 8));
        lemma_be_value_fits(s.subrange(o + 8, o + 10));
        lemma_be_round_trip(s.subrange(1, 5));
        lemma_be_round_trip(s.subrange(o as int, o + 4));
        lemma_be_round_trip(s.subrange(o + 4, o + 8));
        lemma_be_round_trip(s.subrange(o + 8, o + 10));
        lemma_be_round_trip(s.subrange(o + 42, o + 50));
        assert(header_bytes(header) =~= s.subrange(0, o as int));
        assert(body_bytes(body) =~= s.subrange(o as int, s.len() as int));
        assert(vaa_bytes(Vaa { header, body }) =~= s);
    }
    Ok(Vaa { header, body })
}

pub proof fn lemma_be_value_fits(s: Seq<u8>)
    requires
        s.len() <= 4,
    ensures
        s.len() == 4 ==> be_value(s) <= 0xffff_ffff,
        s.len() == 2 ==> be_value(s) <= 0xffff,
{
    crate::bytes::lemma_be_value_bound(s);
    reveal_with_fuel(crate::bytes::pow256, 5);
}

} // verus!
