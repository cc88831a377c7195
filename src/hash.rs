use vstd::prelude::*;

verus! {

/// The Keccak-256 digest of a byte string.
pub uninterp spec fn keccak256_of(data: Seq<u8>) -> Seq<u8>;

/// The 20-byte truncated Keccak-256 digest used by the accumulator.
pub open spec fn keccak160_of(data: Seq<u8>) -> Seq<u8> {
    keccak256_of(data).subrange(0, 20)
}

/// Relies on sha3::Keccak256::digest: a 32-byte digest that depends on the
/// input bytes alone.
#[verifier::external_body]
fn keccak256_raw(data: &[u8]) -> (r: Vec<u8>)
    ensures
        r@ == keccak256_of(data@),
        r@.len() == 32,
{
    <sha3::Keccak256 as sha3::Digest>::digest(data).to_vec()
}

/// Keccak-256 of `data`.
pub fn keccak256(data: &[u8]) -> (r: Vec<u8>)
    ensures
        r@ == keccak256_of(data@),
        r@.len() == 32,
{
    keccak256_raw(data)
}

/// Keccak-256 of `data`, cut to its first 20 bytes.
pub fn keccak160(data: &[u8]) -> (r: Vec<u8>)
    ensures
        r@ == keccak160_of(data@),
        r@.len() == 20,
{
    let full = keccak256_raw(data);
    let mut out: Vec<u8> = Vec::new();
    let mut i: usize = 0;
    while i < 20
        invariant
            full@.len() == 32,
            i <= 20,
            out@ == full@.subrange(0, i as int),
        decreases 20 - i,
    {
        out.push(full[i]);
        i = i + 1;
        assert(out@ =~= full@.subrange(0, i as int));
    }
    out
}

} // verus!
