//! Trust core of a cross-chain attestation protocol: a Merkle accumulator,
//! the guardian-signed attestation envelope, threshold signature checking,
//! deterministic account derivation and once-only transfer completion.

pub mod bytes;
pub mod derivation;
pub mod guardian;
pub mod hash;
pub mod ledger;
pub mod merkle;
pub mod messages;
pub mod transfer;
pub mod vaa;
pub mod wire;
