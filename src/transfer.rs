use vstd::prelude::*;

use crate::bytes::{be_bytes, bytes_eq, copy_range, lemma_be_round_trip, push_be, read_be};
use crate::guardian::{signers_of, verdict, verify_signatures, GuardianSet, ThresholdError};
use crate::vaa::{body_digest, digest, header_wf, lemma_be_value_fits, Vaa};
use crate::derivation::{derive_address, derived_address};
use crate::ledger::{ClaimKey, ClaimLedger};
use crate::merkle::deep;

verus! {

/// This chain's identity.
pub const LOCAL_CHAIN: u16 = 1;

/// Purpose tag of an emitter's registration record.
pub const ENDPOINT_TAG: u8 = 1;

/// Purpose tag of a native asset's custody account.
pub const CUSTODY_TAG: u8 = 2;

/// Purpose tag of a wrapped asset's mint.
pub const WRAPPED_TAG: u8 = 3;

/// Purpose tag of a wrapped asset's origin record.
pub const WRAPPED_META_TAG: u8 = 4;

/// Purpose tag of a holder's associated token account.
pub const ASSOCIATED_TAG: u8 = 5;

/// Purpose tag of a mint's display metadata record.
pub const METADATA_TAG: u8 = 6;

/// Longest name copied into display metadata, in bytes.
pub const MAX_NAME_LEN: usize = 32;

/// Longest symbol copied into display metadata, in bytes.
pub const MAX_SYMBOL_LEN: usize = 10;

#[derive(Clone, Copy, Debug, PartialEq, Eq)]
pub enum TransferError {
    AccountDerivationMismatch,
    InvalidAsset,
    InvalidChain,
    WrongAccountOwner,
    Replay,
    InvalidDestinationAccount,
    InsufficientFunds,
    Overflow,
}

/// The transfer that a verified attestation carries.
#[derive(Clone, Debug)]
pub struct TransferPayload {
    pub token_address: Vec<u8>,
    pub token_chain: u16,
    pub token_id: Vec<u8>,
    pub name: Vec<u8>,
    pub symbol: Vec<u8>,
    pub uri: Vec<u8>,
    pub to: Vec<u8>,
    pub to_chain: u16,
}

/// A verified attestation that is yet to be claimed.
#[derive(Clone, Debug)]
pub struct ClaimableTransfer {
    pub emitter_chain: u16,
    pub emitter_address: Vec<u8>,
    pub sequence: u64,
    pub payload: TransferPayload,
}

/// The program identities that addresses are derived under.
#[derive(Clone, Debug)]
pub struct ExecutionContext {
    pub program_id: Vec<u8>,
    pub associated_program_id: Vec<u8>,
    pub metadata_program_id: Vec<u8>,
}

/// A token account; a fresh one is not yet initialized.
#[derive(Clone, Debug)]
pub struct TokenAccount {
    pub address: Vec<u8>,
    pub initialized: bool,
    pub mint: Vec<u8>,
    pub owner: Vec<u8>,
    pub amount: u64,
}

/// Payload id of a transfer.
pub const TRANSFER_PAYLOAD_ID: u8 = 1;

/// Bytes of a transfer payload besides the uri.
pub const TRANSFER_FIXED_LEN: usize = 166;

/// Offset of the uri length in a transfer payload.
pub const URI_LEN_OFFSET: usize = 131;

/// Wire form of a transfer payload: id, token address, token chain, symbol,
/// name, token id, uri length and uri, recipient, recipient chain.
pub open spec fn transfer_payload_bytes(p: TransferPayload) -> Seq<u8> {
    seq![TRANSFER_PAYLOAD_ID] + p.token_address@ + be_bytes(p.token_chain as nat, 2) + p.symbol@
        + p.name@ + p.token_id@ + seq![p.uri@.len() as u8] + p.uri@ + p.to@ + be_bytes(
        p.to_chain as nat,
        2,
    )
}

/// The inputs that `decode_transfer_payload` rejects.
pub open spec fn malformed_transfer(b: Seq<u8>) -> bool {
    ||| b.len() < TRANSFER_FIXED_LEN
    ||| b[0] != TRANSFER_PAYLOAD_ID
    ||| b.len() != TRANSFER_FIXED_LEN + b[URI_LEN_OFFSET as int] as int
}

pub open spec fn transfer_payload_wf(p: TransferPayload) -> bool {
    &&& p.token_address@.len() == 32
    &&& p.symbol@.len() == 32
    &&& p.name@.len() == 32
    &&& p.token_id@.len() == 32
    &&& p.uri@.len() <= 255
    &&& p.to@.len() == 32
}

/// Parses a transfer payload; rejects exactly the inputs that
/// `malformed_transfer` names.
pub fn decode_transfer_payload(b: &[u8]) -> (r: Result<TransferPayload, ()>)
    ensures
        malformed_transfer(b@) <==> r is Err,
        r is Ok ==> transfer_payload_wf(r->Ok_0) && transfer_payload_bytes(r->Ok_0) == b@,
{
    let blen: usize = b.len();
    if blen < TRANSFER_FIXED_LEN || b[0] != TRANSFER_PAYLOAD_ID {
        return Err(());
    }
    let n: usize = b[URI_LEN_OFFSET] as usize;
    if blen != TRANSFER_FIXED_LEN + n {
        return Err(());
    }
    let p = TransferPayload {
        token_address: copy_range(b, 1, 32),
        token_chain: read_be(b, 33, 2) as u16,
        symbol: copy_range(b, 35, 32),
        name: copy_range(b, 67, 32),
        token_id: copy_range(b, 99, 32),
        uri: copy_range(b, 132, n),
        to: copy_range(b, 132 + n, 32),
        to_chain: read_be(b, 164 + n, 2) as u16,
    };
    proof {
        let s = b@;
        lemma_be_value_fits(s.subrange(33, 35));
        lemma_be_value_fits(s.subrange(164 + n, 166 + n));
        lemma_be_round_trip(s.subrange(33, 35));
        lemma_be_round_trip(s.subrange(164 + n, 166 + n));
        assert(transfer_payload_bytes(p) =~= s);
    }
    Ok(p)
}

#[derive(Clone, Copy, Debug, PartialEq, Eq)]
pub enum AcceptError {
    Signatures(ThresholdError),
    MalformedPayload,
}

/// Accepts a transfer attestation: its signatures must meet the quorum of
/// `set`, and its body must carry a well-formed transfer. The result names
/// the attestation by the body's emitter and sequence.
pub fn accept_transfer(vaa: &Vaa, set: &GuardianSet, min_quorum: usize, now: u32) -> (r: Result<
    ClaimableTransfer,
    AcceptError,
>)
    requires
        header_wf(vaa.header),
    ensures
        ({
            let v = verdict(
                vaa.header,
                *set,
                min_quorum as nat,
                now as nat,
                signers_of(vaa.header, body_digest(vaa.body)),
            );
            &&& v is Err ==> r == Err::<ClaimableTransfer, AcceptError>(
                AcceptError::Signatures(v->Err_0),
            )
            &&& v is Ok && malformed_transfer(vaa.body.payload@) ==> r == Err::<
                ClaimableTransfer,
                AcceptError,
            >(AcceptError::MalformedPayload)
            &&& v is Ok && !malformed_transfer(vaa.body.payload@) ==> r is Ok
            &&& r is Ok ==> {
                let c = r->Ok_0;
                &&& c.emitter_chain == vaa.body.emitter_chain
                &&& c.emitter_address@ == vaa.body.emitter_address@
                &&& c.sequence == vaa.body.sequence
                &&& transfer_payload_wf(c.payload)
                &&& transfer_payload_bytes(c.payload) == vaa.body.payload@
            }
        }),
{
    let d = digest(&vaa.body);
    match verify_signatures(&vaa.header, d.as_slice(), set, min_quorum, now) {
        Err(e) => Err(AcceptError::Signatures(e)),
        Ok(()) => match decode_transfer_payload(vaa.body.payload.as_slice()) {
            Err(()) => Err(AcceptError::MalformedPayload),
            Ok(payload) => Ok(
                ClaimableTransfer {
                    emitter_chain: vaa.body.emitter_chain,
                    emitter_address: copy(&vaa.body.emitter_address),
                    sequence: vaa.body.sequence,
                    payload,
                },
            ),
        },
    }
}

/// Accounts of a native asset's release.
#[derive(Clone, Debug)]
pub struct CompleteNative {
    pub vaa: ClaimableTransfer,
    pub chain_registration: Vec<u8>,
    pub to: TokenAccount,
    pub to_authority: Vec<u8>,
    pub custody: TokenAccount,
    pub mint: Vec<u8>,
    pub custody_signer: Vec<u8>,
}

/// Instruction data of a native release: none.
#[derive(Clone, Copy, Debug, Default)]
pub struct CompleteNativeData {}

/// The mint of a wrapped asset.
#[derive(Clone, Debug)]
pub struct WrappedMint {
    pub address: Vec<u8>,
    pub initialized: bool,
    pub authority: Vec<u8>,
    pub supply: u64,
}

/// The origin of a wrapped asset.
#[derive(Clone, Debug)]
pub struct WrappedMeta {
    pub address: Vec<u8>,
    pub initialized: bool,
    pub chain: u16,
    pub token_address: Vec<u8>,
    pub token_id: Vec<u8>,
}

/// Display metadata of a wrapped asset.
#[derive(Clone, Debug)]
pub struct MetadataRecord {
    pub address: Vec<u8>,
    pub initialized: bool,
    pub name: Vec<u8>,
    pub symbol: Vec<u8>,
    pub uri: Vec<u8>,
}

/// Accounts of a wrapped asset's mint.
#[derive(Clone, Debug)]
pub struct CompleteWrapped {
    pub vaa: ClaimableTransfer,
    pub chain_registration: Vec<u8>,
    pub to: TokenAccount,
    pub to_authority: Vec<u8>,
    pub mint: WrappedMint,
    pub meta: WrappedMeta,
    pub spl_metadata: MetadataRecord,
    pub mint_authority: Vec<u8>,
}

/// Instruction data of a wrapped mint: none.
#[derive(Clone, Copy, Debug, Default)]
pub struct CompleteWrappedData {}

pub open spec fn claim_key_of(v: ClaimableTransfer) -> (u16, Seq<u8>, u64) {
    (v.emitter_chain, v.emitter_address@, v.sequence)
}

pub open spec fn endpoint_address(ctx: ExecutionContext, v: ClaimableTransfer) -> Seq<u8> {
    derived_address(
        seq![ENDPOINT_TAG],
        seq![be_bytes(v.emitter_chain as nat, 2), v.emitter_address@],
        ctx.program_id@,
    )
}

pub open spec fn custody_address(ctx: ExecutionContext, mint: Seq<u8>) -> Seq<u8> {
    derived_address(seq![CUSTODY_TAG], seq![mint], ctx.program_id@)
}

pub open spec fn wrapped_address(ctx: ExecutionContext, p: TransferPayload) -> Seq<u8> {
    derived_address(
        seq![WRAPPED_TAG],
        seq![be_bytes(p.token_chain as nat, 2), p.token_address@, p.token_id@],
        ctx.program_id@,
    )
}

pub open spec fn wrapped_meta_address(ctx: ExecutionContext, mint: Seq<u8>) -> Seq<u8> {
    derived_address(seq![WRAPPED_META_TAG], seq![mint], ctx.program_id@)
}

pub open spec fn metadata_address(ctx: ExecutionContext, mint: Seq<u8>) -> Seq<u8> {
    derived_address(seq![METADATA_TAG], seq![mint], ctx.metadata_program_id@)
}

pub open spec fn associated_address(ctx: ExecutionContext, authority: Seq<u8>, mint: Seq<u8>) -> Seq<u8> {
    derived_address(seq![ASSOCIATED_TAG], seq![authority, mint], ctx.associated_program_id@)
}

/// The failure, if any, of crediting one token of `mint` to `to`.
pub open spec fn destination_error(
    ctx: ExecutionContext,
    to: TokenAccount,
    authority: Seq<u8>,
    mint: Seq<u8>,
) -> Option<TransferError> {
    if !to.initialized {
        if to.address@ != associated_address(ctx, authority, mint) {
            Some(TransferError::InvalidDestinationAccount)
        } else {
            None
        }
    } else if to.mint@ != mint {
        Some(TransferError::InvalidAsset)
    } else if to.amount == u64::MAX {
        Some(TransferError::Overflow)
    } else {
        None
    }
}

/// `after` is `before` credited with one token of `mint`, created for
/// `authority` first where it did not exist.
pub open spec fn credited(before: TokenAccount, after: TokenAccount, authority: Seq<u8>, mint: Seq<u8>) -> bool {
    &&& after.address@ == before.address@
    &&& after.initialized
    &&& after.mint@ == mint
    &&& if before.initialized {
        after.owner@ == before.owner@ && after.amount == before.amount + 1
    } else {
        after.owner@ == authority && after.amount == 1
    }
}

/// Why a native release fails, checked in this order; none if it succeeds.
pub open spec fn native_error(
    ctx: ExecutionContext,
    claimed: Set<(u16, Seq<u8>, u64)>,
    a: CompleteNative,
) -> Option<TransferError> {
    if a.chain_registration@ != endpoint_address(ctx, a.vaa) {
        Some(TransferError::AccountDerivationMismatch)
    } else if a.custody.address@ != custody_address(ctx, a.mint@) {
        Some(TransferError::AccountDerivationMismatch)
    } else if a.mint@ != a.custody.mint@ {
        Some(TransferError::InvalidAsset)
    } else if a.custody_signer@ != a.custody.owner@ {
        Some(TransferError::WrongAccountOwner)
    } else if a.vaa.payload.token_address@ != a.mint@ {
        Some(TransferError::InvalidAsset)
    } else if a.vaa.payload.token_chain != LOCAL_CHAIN || a.vaa.payload.to_chain != LOCAL_CHAIN {
        Some(TransferError::InvalidChain)
    } else if claimed.contains(claim_key_of(a.vaa)) {
        Some(TransferError::Replay)
    } else if destination_error(ctx, a.to, a.to_authority@, a.mint@) is Some {
        destination_error(ctx, a.to, a.to_authority@, a.mint@)
    } else if a.custody.amount == 0 {
        Some(TransferError::InsufficientFunds)
    } else {
        None
    }
}

/// The effect of a native release: one token moves from custody to the
/// destination; nothing else changes.
pub open spec fn native_applied(a: CompleteNative, b: CompleteNative) -> bool {
    &&& b.vaa == a.vaa
    &&& b.chain_registration == a.chain_registration
    &&& b.to_authority == a.to_authority
    &&& b.mint == a.mint
    &&& b.custody_signer == a.custody_signer
    &&& b.custody.address == a.custody.address
    &&& b.custody.initialized == a.custody.initialized
    &&& b.custody.mint == a.custody.mint
    &&& b.custody.owner == a.custody.owner
    &&& b.custody.amount == a.custody.amount - 1
    &&& credited(a.to, b.to, a.to_authority@, a.mint@)
}

fn tag(t: u8) -> (r: Vec<u8>)
    ensures
        r@ == seq![t],
{
    let mut v: Vec<u8> = Vec::new();
    v.push(t);
    assert(v@ =~= seq![t]);
    v
}

fn copy(b: &Vec<u8>) -> (r: Vec<u8>)
    ensures
        r@ == b@,
{
    let r = copy_range(b.as_slice(), 0, b.len());
    assert(b@.subrange(0, b@.len() as int) =~= b@);
    r
}

fn one_key(a: &Vec<u8>) -> (r: Vec<Vec<u8>>)
    ensures
        deep(r@) == seq![a@],
{
    let mut v: Vec<Vec<u8>> = Vec::new();
    v.push(copy(a));
    assert(deep(v@) =~= seq![a@]);
    v
}

fn chain_key(chain: u16, a: &Vec<u8>) -> (r: Vec<Vec<u8>>)
    ensures
        deep(r@) == seq![be_bytes(chain as nat, 2), a@],
        r@.len() == 2,
{
    let mut c: Vec<u8> = Vec::new();
    push_be(&mut c, chain as u64, 2);
    assert(c@ =~= be_bytes(chain as nat, 2));
    let mut v: Vec<Vec<u8>> = Vec::new();
    v.push(c);
    v.push(copy(a));
    assert(deep(v@) =~= seq![be_bytes(chain as nat, 2), a@]);
    v
}

fn check_endpoint(ctx: &ExecutionContext, registration: &Vec<u8>, v: &ClaimableTransfer) -> (r: bool)
    ensures
        r == (registration@ == endpoint_address(*ctx, *v)),
{
    let keys = chain_key(v.emitter_chain, &v.emitter_address);
    let expected = derive_address(tag(ENDPOINT_TAG).as_slice(), &keys, ctx.program_id.as_slice());
    bytes_eq(registration.as_slice(), expected.as_slice())
}

/// The associated token account address of `authority` for `mint`, under
/// this library's derivation scheme (a model of the host's convention, not
/// its on-chain addresses).
pub fn associated_token_address(ctx: &ExecutionContext, authority: &Vec<u8>, mint: &Vec<u8>) -> (r: Vec<u8>)
    ensures
        r@ == associated_address(*ctx, authority@, mint@),
{
    let mut keys: Vec<Vec<u8>> = Vec::new();
    keys.push(copy(authority));
    keys.push(copy(mint));
    assert(deep(keys@) =~= seq![authority@, mint@]);
    derive_address(tag(ASSOCIATED_TAG).as_slice(), &keys, ctx.associated_program_id.as_slice())
}

fn check_destination(ctx: &ExecutionContext, to: &TokenAccount, authority: &Vec<u8>, mint: &Vec<u8>) -> (r: Option<TransferError>)
    ensures
        r == destination_error(*ctx, *to, authority@, mint@),
{
    if !to.initialized {
        let expected = associated_token_address(ctx, authority, mint);
        if !bytes_eq(to.address.as_slice(), expected.as_slice()) {
            return Some(TransferError::InvalidDestinationAccount);
        }
        None
    } else if !bytes_eq(to.mint.as_slice(), mint.as_slice()) {
        Some(TransferError::InvalidAsset)
    } else if to.amount == u64::MAX {
        Some(TransferError::Overflow)
    } else {
        None
    }
}

fn credit(to: &mut TokenAccount, authority: &Vec<u8>, mint: &Vec<u8>)
    requires
        old(to).initialized ==> old(to).amount < u64::MAX && old(to).mint@ == mint@,
    ensures
        credited(*old(to), *final(to), authority@, mint@),
{
    if !to.initialized {
        to.initialized = true;
        to.mint = copy(mint);
        to.owner = copy(authority);
        to.amount = 1;
    } else {
        to.amount = to.amount + 1;
    }
}

fn key_of(v: &ClaimableTransfer) -> (r: ClaimKey)
    ensures
        r.view() == claim_key_of(*v),
{
    ClaimKey { emitter_chain: v.emitter_chain, emitter_address: copy(&v.emitter_address), sequence: v.sequence }
}

/// Releases one token of a native asset from custody to its destination,
/// consuming the attestation. All checks come before any change: on failure
/// neither the ledger nor the accounts change.
pub fn complete_native(
    ctx: &ExecutionContext,
    ledger: &mut ClaimLedger,
    accs: &mut CompleteNative,
    data: CompleteNativeData,
) -> (r: Result<(), TransferError>)
    ensures
        r is Err <==> native_error(*ctx, old(ledger).view(), *old(accs)) is Some,
        r is Err ==> Some(r->Err_0) == native_error(*ctx, old(ledger).view(), *old(accs))
            && final(ledger).view() == old(ledger).view() && *final(accs) == *old(accs),
        r is Ok ==> final(ledger).view() == old(ledger).view().insert(claim_key_of(old(accs).vaa))
            && native_applied(*old(accs), *final(accs)),
{
    if !check_endpoint(ctx, &accs.chain_registration, &accs.vaa) {
        return Err(TransferError::AccountDerivationMismatch);
    }
    let expected_custody = derive_address(tag(CUSTODY_TAG).as_slice(), &one_key(&accs.mint), ctx.program_id.as_slice());
    if !bytes_eq(accs.custody.address.as_slice(), expected_custody.as_slice()) {
        return Err(TransferError::AccountDerivationMismatch);
    }
    if !bytes_eq(accs.mint.as_slice(), accs.custody.mint.as_slice()) {
        return Err(TransferError::InvalidAsset);
    }
    if !bytes_eq(accs.custody_signer.as_slice(), accs.custody.owner.as_slice()) {
        return Err(TransferError::WrongAccountOwner);
    }
    if !bytes_eq(accs.vaa.payload.token_address.as_slice(), accs.mint.as_slice()) {
        return Err(TransferError::InvalidAsset);
    }
    if accs.vaa.payload.token_chain != LOCAL_CHAIN || accs.vaa.payload.to_chain != LOCAL_CHAIN {
        return Err(TransferError::InvalidChain);
    }
    let key = key_of(&accs.vaa);
    if ledger.is_claimed(&key) {
        return Err(TransferError::Replay);
    }
    if let Some(e) = check_destination(ctx, &accs.to, &accs.to_authority, &accs.mint) {
        return Err(e);
    }
    if accs.custody.amount == 0 {
        return Err(TransferError::InsufficientFunds);
    }
    ledger.record(&key);
    accs.custody.amount = accs.custody.amount - 1;
    let authority = copy(&accs.to_authority);
    let mint = copy(&accs.mint);
    credit(&mut accs.to, &authority, &mint);
    Ok(())
}

/// `s` cut to at most `n` bytes.
pub open spec fn truncated(s: Seq<u8>, n: nat) -> Seq<u8> {
    if s.len() <= n {
        s
    } else {
        s.subrange(0, n as int)
    }
}

/// Why a wrapped mint fails, checked in this order; none if it succeeds.
pub open spec fn wrapped_error(
    ctx: ExecutionContext,
    claimed: Set<(u16, Seq<u8>, u64)>,
    a: CompleteWrapped,
) -> Option<TransferError> {
    if a.chain_registration@ != endpoint_address(ctx, a.vaa) {
        Some(TransferError::AccountDerivationMismatch)
    } else if a.mint.address@ != wrapped_address(ctx, a.vaa.payload) {
        Some(TransferError::AccountDerivationMismatch)
    } else if a.vaa.payload.to_chain != LOCAL_CHAIN {
        Some(TransferError::InvalidChain)
    } else if claimed.contains(claim_key_of(a.vaa)) {
        Some(TransferError::Replay)
    } else if !a.meta.initialized && a.meta.address@ != wrapped_meta_address(ctx, a.mint.address@) {
        Some(TransferError::AccountDerivationMismatch)
    } else if !a.meta.initialized && a.spl_metadata.address@ != metadata_address(
        ctx,
        a.mint.address@,
    ) {
        Some(TransferError::AccountDerivationMismatch)
    } else if destination_error(ctx, a.to, a.to_authority@, a.mint.address@) is Some {
        destination_error(ctx, a.to, a.to_authority@, a.mint.address@)
    } else if a.meta.initialized && a.mint.supply == u64::MAX {
        Some(TransferError::Overflow)
    } else {
        None
    }
}

/// The effect of a wrapped mint: on first sight of the origin asset its mint,
/// origin record and display metadata are created; then one token is minted
/// to the destination; nothing else changes.
pub open spec fn wrapped_applied(a: CompleteWrapped, b: CompleteWrapped) -> bool {
    let p = a.vaa.payload;
    &&& b.vaa == a.vaa
    &&& b.chain_registration == a.chain_registration
    &&& b.to_authority == a.to_authority
    &&& b.mint_authority == a.mint_authority
    &&& b.mint.address == a.mint.address
    &&& b.meta.address == a.meta.address
    &&& b.spl_metadata.address == a.spl_metadata.address
    &&& credited(a.to, b.to, a.to_authority@, a.mint.address@)
    &&& if a.meta.initialized {
        &&& b.mint.initialized == a.mint.initialized
        &&& b.mint.authority == a.mint.authority
        &&& b.mint.supply == a.mint.supply + 1
        &&& b.meta == a.meta
        &&& b.spl_metadata == a.spl_metadata
    } else {
        &&& b.mint.initialized
        &&& b.mint.authority@ == a.mint_authority@
        &&& b.mint.supply == 1
        &&& b.meta.initialized
        &&& b.meta.chain == p.token_chain
        &&& b.meta.token_address@ == p.token_address@
        &&& b.meta.token_id@ == p.token_id@
        &&& b.spl_metadata.initialized
        &&& b.spl_metadata.name@ == truncated(p.name@, MAX_NAME_LEN as nat)
        &&& b.spl_metadata.symbol@ == truncated(p.symbol@, MAX_SYMBOL_LEN as nat)
        &&& b.spl_metadata.uri@ == p.uri@
    }
}

fn truncate_copy(s: &Vec<u8>, n: usize) -> (r: Vec<u8>)
    ensures
        r@ == truncated(s@, n as nat),
{
    if s.len() <= n {
        copy(s)
    } else {
        copy_range(s.as_slice(), 0, n)
    }
}

/// Mints one token of a wrapped asset to its destination, consuming the
/// attestation, and creates the asset's records on first sight of its origin.
/// All checks come before any change: on failure neither the ledger nor the
/// accounts change.
pub fn complete_wrapped(
    ctx: &ExecutionContext,
    ledger: &mut ClaimLedger,
    accs: &mut CompleteWrapped,
    data: CompleteWrappedData,
) -> (r: Result<(), TransferError>)
    ensures
        r is Err <==> wrapped_error(*ctx, old(ledger).view(), *old(accs)) is Some,
        r is Err ==> Some(r->Err_0) == wrapped_error(*ctx, old(ledger).view(), *old(accs))
            && final(ledger).view() == old(ledger).view() && *final(accs) == *old(accs),
        r is Ok ==> final(ledger).view() == old(ledger).view().insert(claim_key_of(old(accs).vaa))
            && wrapped_applied(*old(accs), *final(accs)),
{
    if !check_endpoint(ctx, &accs.chain_registration, &accs.vaa) {
        return Err(TransferError::AccountDerivationMismatch);
    }
    let p = &accs.vaa.payload;
    let mut origin = chain_key(p.token_chain, &p.token_address);
    let ghost first_two = origin@;
    origin.push(copy(&p.token_id));
    assert(origin@[0] == first_two[0] && origin@[1] == first_two[1]);
    assert(deep(first_two)[0] == first_two[0]@ && deep(first_two)[1] == first_two[1]@);
    assert(deep(origin@) =~= seq![be_bytes(p.token_chain as nat, 2), p.token_address@, p.token_id@]);
    let expected_mint = derive_address(tag(WRAPPED_TAG).as_slice(), &origin, ctx.program_id.as_slice());
    if !bytes_eq(accs.mint.address.as_slice(), expected_mint.as_slice()) {
        return Err(TransferError::AccountDerivationMismatch);
    }
    if accs.vaa.payload.to_chain != LOCAL_CHAIN {
        return Err(TransferError::InvalidChain);
    }
    let key = key_of(&accs.vaa);
    if ledger.is_claimed(&key) {
        return Err(TransferError::Replay);
    }
    let first_use = !accs.meta.initialized;
    if first_use {
        let mint_key = one_key(&accs.mint.address);
        let expected_meta = derive_address(tag(WRAPPED_META_TAG).as_slice(), &mint_key, ctx.program_id.as_slice());
        if !bytes_eq(accs.meta.address.as_slice(), expected_meta.as_slice()) {
            return Err(TransferError::AccountDerivationMismatch);
        }
        let expected_metadata = derive_address(
            tag(METADATA_TAG).as_slice(),
            &mint_key,
            ctx.metadata_program_id.as_slice(),
        );
        if !bytes_eq(accs.spl_metadata.address.as_slice(), expected_metadata.as_slice()) {
            return Err(TransferError::AccountDerivationMismatch);
        }
    }
    if let Some(e) = check_destination(ctx, &accs.to, &accs.to_authority, &accs.mint.address) {
        return Err(e);
    }
    if !first_use && accs.mint.supply == u64::MAX {
        return Err(TransferError::Overflow);
    }
    ledger.record(&key);
    if first_use {
        accs.mint.initialized = true;
        accs.mint.authority = copy(&accs.mint_authority);
        accs.mint.supply = 0;
        accs.meta.initialized = true;
        accs.meta.chain = accs.vaa.payload.token_chain;
        accs.meta.token_address = copy(&accs.vaa.payload.token_address);
        accs.meta.token_id = copy(&accs.vaa.payload.token_id);
        accs.spl_metadata.initialized = true;
        accs.spl_metadata.name = truncate_copy(&accs.vaa.payload.name, MAX_NAME_LEN);
        accs.spl_metadata.symbol = truncate_copy(&accs.vaa.payload.symbol, MAX_SYMBOL_LEN);
        accs.spl_metadata.uri = copy(&accs.vaa.payload.uri);
    }
    accs.mint.supply = accs.mint.supply + 1;
    let authority = copy(&accs.to_authority);
    let mint = copy(&accs.mint.address);
    credit(&mut accs.to, &authority, &mint);
    Ok(())
}

/// An attestation for another chain is rejected, before any change, on
/// either path.
pub proof fn lemma_chain_mismatch_rejected(
    ctx: ExecutionContext,
    claimed: Set<(u16, Seq<u8>, u64)>,
    native: CompleteNative,
    wrapped: CompleteWrapped,
)
    requires
        native.vaa.payload.to_chain != LOCAL_CHAIN,
        wrapped.vaa.payload.to_chain != LOCAL_CHAIN,
    ensures
        native_error(ctx, claimed, native) is Some,
        wrapped_error(ctx, claimed, wrapped) is Some,
{
}

/// After a native release succeeds, releasing against the same attestation
/// again fails with a replay, on the accounts as the first release left them.
pub proof fn lemma_native_replay(
    ctx: ExecutionContext,
    claimed: Set<(u16, Seq<u8>, u64)>,
    before: CompleteNative,
    after: CompleteNative,
)
    requires
        native_error(ctx, claimed, before) is None,
        native_applied(before, after),
    ensures
        native_error(ctx, claimed.insert(claim_key_of(before.vaa)), after) == Some(
            TransferError::Replay,
        ),
{
}

/// After a wrapped mint succeeds, minting against the same attestation again
/// fails with a replay, on the accounts as the first mint left them.
pub proof fn lemma_wrapped_replay(
    ctx: ExecutionContext,
    claimed: Set<(u16, Seq<u8>, u64)>,
    before: CompleteWrapped,
    after: CompleteWrapped,
)
    requires
        wrapped_error(ctx, claimed, before) is None,
        wrapped_applied(before, after),
    ensures
        wrapped_error(ctx, claimed.insert(claim_key_of(before.vaa)), after) == Some(
            TransferError::Replay,
        ),
{
}

} // verus!
