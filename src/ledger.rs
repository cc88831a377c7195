use vstd::prelude::*;

use crate::bytes::bytes_eq;

verus! {

/// The identity of an attestation: emitter chain, emitter address, sequence.
#[derive(Clone, Debug)]
pub struct ClaimKey {
    pub emitter_chain: u16,
    pub emitter_address: Vec<u8>,
    pub sequence: u64,
}

impl ClaimKey {
    pub open spec fn view(&self) -> (u16, Seq<u8>, u64) {
        (self.emitter_chain, self.emitter_address@, self.sequence)
    }
}

#[derive(Clone, Copy, Debug, PartialEq, Eq)]
pub enum ClaimError {
    Replay,
}

/// The set of attestations already consumed. Records are only ever added.
pub struct ClaimLedger {
    pub claims: Vec<ClaimKey>,
}

impl ClaimLedger {
    pub open spec fn view(&self) -> Set<(u16, Seq<u8>, u64)> {
        Set::new(|k: (u16, Seq<u8>, u64)| exists|i: int| 0 <= i < self.claims@.len() && #[trigger] self.claims@[i].view() == k)
    }

    /// An empty ledger.
    pub fn new() -> (r: ClaimLedger)
        ensures
            r.view() == Set::<(u16, Seq<u8>, u64)>::empty(),
    {
        let r = ClaimLedger { claims: Vec::new() };
        assert(r.view() =~= Set::<(u16, Seq<u8>, u64)>::empty());
        r
    }

    /// Whether the attestation has been claimed.
    pub fn is_claimed(&self, key: &ClaimKey) -> (r: bool)
        ensures
            r == self.view().contains(key.view()),
    {
        let mut i: usize = 0;
        while i < self.claims.len()
            invariant
                i <= self.claims@.len(),
                forall|j: int| 0 <= j < i ==> self.claims@[j].view() != key.view(),
            decreases self.claims@.len() - i,
        {
            let c = &self.claims[i];
            if c.emitter_chain == key.emitter_chain && c.sequence == key.sequence && bytes_eq(
                c.emitter_address.as_slice(),
                key.emitter_address.as_slice(),
            ) {
                assert(self.claims@[i as int].view() == key.view());
                return true;
            }
            i = i + 1;
        }
        false
    }

    /// Marks the attestation claimed; fails if it already was.
    pub fn claim(&mut self, key: &ClaimKey) -> (r: Result<(), ClaimError>)
        ensures
            r is Err <==> old(self).view().contains(key.view()),
            r is Err ==> final(self).view() == old(self).view(),
            r is Ok ==> final(self).view() == old(self).view().insert(key.view()),
    {
        if self.is_claimed(key) {
            return Err(ClaimError::Replay);
        }
        self.record(key);
        Ok(())
    }

    /// Marks the attestation claimed.
    pub fn record(&mut self, key: &ClaimKey)
        ensures
            final(self).view() == old(self).view().insert(key.view()),
    {
        let ghost before = self.claims@;
        let copy = ClaimKey {
            emitter_chain: key.emitter_chain,
            emitter_address: crate::bytes::copy_range(key.emitter_address.as_slice(), 0, key.emitter_address.len()),
            sequence: key.sequence,
        };
        assert(key.emitter_address@.subrange(0, key.emitter_address@.len() as int) =~= key.emitter_address@);
        self.claims.push(copy);
        assert forall|k: (u16, Seq<u8>, u64)| #![auto] final(self).view().contains(k) <==> old(self).view().insert(key.view()).contains(k) by {
            if final(self).view().contains(k) {
                let i = choose|i: int| 0 <= i < self.claims@.len() && #[trigger] self.claims@[i].view() == k;
                if i < before.len() {
                    assert(before[i] == self.claims@[i]);
                }
            }
            if old(self).view().contains(k) {
                let i = choose|i: int| 0 <= i < before.len() && #[trigger] before[i].view() == k;
                assert(self.claims@[i] == before[i]);
            }
            if k == key.view() {
                assert(self.claims@[before.len() as int].view() == k);
            }
        }
        assert(final(self).view() =~= old(self).view().insert(key.view()));
    }
}

} // verus!
