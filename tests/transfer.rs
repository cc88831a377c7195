use wormhole_core::derivation::{derive_address, verify_derivation, DerivationError};
use wormhole_core::ledger::ClaimLedger;
use wormhole_core::transfer::{
    associated_token_address, complete_native, complete_wrapped, ClaimableTransfer, CompleteNative,
    CompleteNativeData, CompleteWrapped, CompleteWrappedData, ExecutionContext, MetadataRecord,
    TokenAccount, TransferError, TransferPayload, WrappedMeta, WrappedMint, CUSTODY_TAG, ENDPOINT_TAG,
    LOCAL_CHAIN, METADATA_TAG, WRAPPED_META_TAG, WRAPPED_TAG,
};

fn ctx() -> ExecutionContext {
    ExecutionContext { program_id: vec![9u8; 32], associated_program_id: vec![8u8; 32], metadata_program_id: vec![7u8; 32] }
}

fn payload(token_address: Vec<u8>, token_chain: u16, to_chain: u16) -> TransferPayload {
    TransferPayload {
        token_address,
        token_chain,
        token_id: vec![0u8; 31].into_iter().chain([5u8]).collect(),
        name: b"A very long collection name that exceeds the limit".to_vec(),
        symbol: b"SYMBOLTOOLONG".to_vec(),
        uri: b"https://example.org/1".to_vec(),
        to: vec![3u8; 32],
        to_chain,
    }
}

fn claimable(p: TransferPayload) -> ClaimableTransfer {
    ClaimableTransfer { emitter_chain: 2, emitter_address: vec![4u8; 32], sequence: 11, payload: p }
}

fn endpoint(c: &ExecutionContext, v: &ClaimableTransfer) -> Vec<u8> {
    derive_address(&[ENDPOINT_TAG], &vec![v.emitter_chain.to_be_bytes().to_vec(), v.emitter_address.clone()], &c.program_id)
}

fn fresh_account(c: &ExecutionContext, authority: &Vec<u8>, mint: &Vec<u8>) -> TokenAccount {
    TokenAccount {
        address: associated_token_address(c, authority, mint),
        initialized: false,
        mint: vec![],
        owner: vec![],
        amount: 0,
    }
}

fn native_accounts(c: &ExecutionContext, to_chain: u16) -> CompleteNative {
    let mint = vec![6u8; 32];
    let vaa = claimable(payload(mint.clone(), LOCAL_CHAIN, to_chain));
    let authority = vec![3u8; 32];
    CompleteNative {
        chain_registration: endpoint(c, &vaa),
        to: fresh_account(c, &authority, &mint),
        to_authority: authority,
        custody: TokenAccount {
            address: derive_address(&[CUSTODY_TAG], &vec![mint.clone()], &c.program_id),
            initialized: true,
            mint: mint.clone(),
            owner: vec![2u8; 32],
            amount: 1,
        },
        mint,
        custody_signer: vec![2u8; 32],
        vaa,
    }
}

fn wrapped_accounts(c: &ExecutionContext, to_chain: u16) -> CompleteWrapped {
    let p = payload(vec![12u8; 32], 5, to_chain);
    let mint_address = derive_address(
        &[WRAPPED_TAG],
        &vec![p.token_chain.to_be_bytes().to_vec(), p.token_address.clone(), p.token_id.clone()],
        &c.program_id,
    );
    let vaa = claimable(p);
    let authority = vec![3u8; 32];
    CompleteWrapped {
        chain_registration: endpoint(c, &vaa),
        to: fresh_account(c, &authority, &mint_address),
        to_authority: authority,
        meta: WrappedMeta {
            address: derive_address(&[WRAPPED_META_TAG], &vec![mint_address.clone()], &c.program_id),
            initialized: false,
            chain: 0,
            token_address: vec![],
            token_id: vec![],
        },
        spl_metadata: MetadataRecord {
            address: derive_address(&[METADATA_TAG], &vec![mint_address.clone()], &c.metadata_program_id),
            initialized: false,
            name: vec![],
            symbol: vec![],
            uri: vec![],
        },
        mint: WrappedMint { address: mint_address, initialized: false, authority: vec![], supply: 0 },
        mint_authority: vec![1u8; 32],
        vaa,
    }
}

#[test]
fn derivation_round_trip_and_sensitivity() {
    let keys = vec![vec![1u8, 2], vec![3u8]];
    let a = derive_address(b"tag", &keys, b"prog");
    assert_eq!(a.len(), 32);
    assert_eq!(verify_derivation(&a, b"tag", &keys, b"prog"), Ok(()));
    let bad = Err(DerivationError::AccountDerivationMismatch);
    assert_eq!(verify_derivation(&a, b"tah", &keys, b"prog"), bad);
    assert_eq!(verify_derivation(&a, b"tag", &vec![vec![1u8, 2], vec![4u8]], b"prog"), bad);
    assert_eq!(verify_derivation(&a, b"tag", &vec![vec![1u8], vec![2u8, 3]], b"prog"), bad);
    assert_eq!(verify_derivation(&a, b"tag", &keys, b"prof"), bad);
}

#[test]
fn ledger_rejects_second_claim() {
    let mut ledger = ClaimLedger::new();
    let key = wormhole_core::ledger::ClaimKey { emitter_chain: 1, emitter_address: vec![1u8; 32], sequence: 3 };
    assert!(!ledger.is_claimed(&key));
    assert!(ledger.claim(&key).is_ok());
    assert!(ledger.is_claimed(&key));
    assert!(ledger.claim(&key).is_err());
}

#[test]
fn native_release_then_replay() {
    let c = ctx();
    let mut ledger = ClaimLedger::new();
    let mut accs = native_accounts(&c, LOCAL_CHAIN);
    assert_eq!(complete_native(&c, &mut ledger, &mut accs, CompleteNativeData::default()), Ok(()));
    assert_eq!(accs.custody.amount, 0);
    assert!(accs.to.initialized);
    assert_eq!(accs.to.amount, 1);
    assert_eq!(accs.to.mint, accs.mint);
    assert_eq!(accs.to.owner, accs.to_authority);
    assert_eq!(complete_native(&c, &mut ledger, &mut accs, CompleteNativeData::default()), Err(TransferError::Replay));
    assert_eq!(accs.custody.amount, 0);
    assert_eq!(accs.to.amount, 1);
}

#[test]
fn native_wrong_chain_changes_nothing() {
    let c = ctx();
    let mut ledger = ClaimLedger::new();
    let mut accs = native_accounts(&c, 4);
    assert_eq!(complete_native(&c, &mut ledger, &mut accs, CompleteNativeData::default()), Err(TransferError::InvalidChain));
    assert_eq!(accs.custody.amount, 1);
    assert!(!accs.to.initialized);
    let key = wormhole_core::ledger::ClaimKey { emitter_chain: 2, emitter_address: vec![4u8; 32], sequence: 11 };
    assert!(!ledger.is_claimed(&key));
}

#[test]
fn native_error_kinds() {
    let c = ctx();
    let mut ledger = ClaimLedger::new();
    let mut a = native_accounts(&c, LOCAL_CHAIN);
    a.chain_registration[0] ^= 1;
    assert_eq!(complete_native(&c, &mut ledger, &mut a, CompleteNativeData::default()), Err(TransferError::AccountDerivationMismatch));
    let mut a = native_accounts(&c, LOCAL_CHAIN);
    a.custody.address[0] ^= 1;
    assert_eq!(complete_native(&c, &mut ledger, &mut a, CompleteNativeData::default()), Err(TransferError::AccountDerivationMismatch));
    let mut a = native_accounts(&c, LOCAL_CHAIN);
    a.custody_signer = vec![0u8; 32];
    assert_eq!(complete_native(&c, &mut ledger, &mut a, CompleteNativeData::default()), Err(TransferError::WrongAccountOwner));
    let mut a = native_accounts(&c, LOCAL_CHAIN);
    a.vaa.payload.token_address = vec![0u8; 32];
    assert_eq!(complete_native(&c, &mut ledger, &mut a, CompleteNativeData::default()), Err(TransferError::InvalidAsset));
    let mut a = native_accounts(&c, LOCAL_CHAIN);
    a.vaa.payload.token_chain = 3;
    assert_eq!(complete_native(&c, &mut ledger, &mut a, CompleteNativeData::default()), Err(TransferError::InvalidChain));
    let mut a = native_accounts(&c, LOCAL_CHAIN);
    a.to.address[0] ^= 1;
    assert_eq!(complete_native(&c, &mut ledger, &mut a, CompleteNativeData::default()), Err(TransferError::InvalidDestinationAccount));
    let mut a = native_accounts(&c, LOCAL_CHAIN);
    a.to.initialized = true;
    a.to.mint = vec![0u8; 32];
    assert_eq!(complete_native(&c, &mut ledger, &mut a, CompleteNativeData::default()), Err(TransferError::InvalidAsset));
    let mut a = native_accounts(&c, LOCAL_CHAIN);
    a.to.initialized = true;
    a.to.mint = a.mint.clone();
    a.to.amount = u64::MAX;
    assert_eq!(complete_native(&c, &mut ledger, &mut a, CompleteNativeData::default()), Err(TransferError::Overflow));
    let mut a = native_accounts(&c, LOCAL_CHAIN);
    a.custody.amount = 0;
    assert_eq!(complete_native(&c, &mut ledger, &mut a, CompleteNativeData::default()), Err(TransferError::InsufficientFunds));
    let key = wormhole_core::ledger::ClaimKey { emitter_chain: 2, emitter_address: vec![4u8; 32], sequence: 11 };
    assert!(!ledger.is_claimed(&key));
}

#[test]
fn wrapped_first_use_creates_records() {
    let c = ctx();
    let mut ledger = ClaimLedger::new();
    let mut accs = wrapped_accounts(&c, LOCAL_CHAIN);
    assert_eq!(complete_wrapped(&c, &mut ledger, &mut accs, CompleteWrappedData::default()), Ok(()));
    assert!(accs.mint.initialized);
    assert_eq!(accs.mint.supply, 1);
    assert_eq!(accs.mint.authority, vec![1u8; 32]);
    assert!(accs.meta.initialized);
    assert_eq!(accs.meta.chain, 5);
    assert_eq!(accs.meta.token_address, vec![12u8; 32]);
    assert_eq!(accs.spl_metadata.name, b"A very long collection name that".to_vec());
    assert_eq!(accs.spl_metadata.symbol, b"SYMBOLTOOL".to_vec());
    assert_eq!(accs.spl_metadata.uri, b"https://example.org/1".to_vec());
    assert_eq!(accs.to.amount, 1);
    assert_eq!(complete_wrapped(&c, &mut ledger, &mut accs, CompleteWrappedData::default()), Err(TransferError::Replay));
    assert_eq!(accs.mint.supply, 1);
}

#[test]
fn wrapped_existing_asset_mints_again() {
    let c = ctx();
    let mut ledger = ClaimLedger::new();
    let mut accs = wrapped_accounts(&c, LOCAL_CHAIN);
    assert_eq!(complete_wrapped(&c, &mut ledger, &mut accs, CompleteWrappedData::default()), Ok(()));
    accs.vaa.sequence = 12;
    accs.vaa.payload.name = b"other".to_vec();
    assert_eq!(complete_wrapped(&c, &mut ledger, &mut accs, CompleteWrappedData::default()), Ok(()));
    assert_eq!(accs.mint.supply, 2);
    assert_eq!(accs.to.amount, 2);
    assert_eq!(accs.spl_metadata.name, b"A very long collection name that".to_vec());
}

#[test]
fn wrapped_error_kinds() {
    let c = ctx();
    let mut ledger = ClaimLedger::new();
    let mut a = wrapped_accounts(&c, 4);
    assert_eq!(complete_wrapped(&c, &mut ledger, &mut a, CompleteWrappedData::default()), Err(TransferError::InvalidChain));
    assert!(!a.mint.initialized);
    let mut a = wrapped_accounts(&c, LOCAL_CHAIN);
    a.mint.address[0] ^= 1;
    assert_eq!(complete_wrapped(&c, &mut ledger, &mut a, CompleteWrappedData::default()), Err(TransferError::AccountDerivationMismatch));
    let mut a = wrapped_accounts(&c, LOCAL_CHAIN);
    a.meta.address[0] ^= 1;
    assert_eq!(complete_wrapped(&c, &mut ledger, &mut a, CompleteWrappedData::default()), Err(TransferError::AccountDerivationMismatch));
    let mut a = wrapped_accounts(&c, LOCAL_CHAIN);
    a.spl_metadata.address[0] ^= 1;
    assert_eq!(complete_wrapped(&c, &mut ledger, &mut a, CompleteWrappedData::default()), Err(TransferError::AccountDerivationMismatch));
    let mut a = wrapped_accounts(&c, LOCAL_CHAIN);
    a.to.address[0] ^= 1;
    assert_eq!(complete_wrapped(&c, &mut ledger, &mut a, CompleteWrappedData::default()), Err(TransferError::InvalidDestinationAccount));
    assert!(!a.meta.initialized);
}
