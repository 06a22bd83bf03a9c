use puzzle_contracts::bridge::{AssetType, BridgeAction, BridgeContract, BridgeMessage, BridgeStatus, Error, ValidatorSignature};
use puzzle_contracts::token::RewardToken;

const ADMIN: u64 = 1;
const FEE_COLLECTOR: u64 = 2;
const USER: u64 = 3;
const TOKEN_ADMIN: u64 = 4;
const CONTRACT: u64 = 100;
const TOKEN_CONTRACT: u64 = 10;

fn make_ledger() -> RewardToken {
    let mut l = RewardToken::new();
    l.initialize(TOKEN_ADMIN, String::from("T"), String::from("T"), 6).unwrap();
    l
}

#[test]
fn test_bridge_initialization() {
    let mut b = BridgeContract::new(CONTRACT);
    b.initialize(ADMIN, 5, 0, FEE_COLLECTOR).unwrap();
    let config = b.get_config();
    assert_eq!(config.admin, ADMIN);
    assert_eq!(config.required_signatures, 5);
    assert_eq!(config.chain_id, 0);
}

#[test]
fn test_add_validator() {
    let mut b = BridgeContract::new(CONTRACT);
    b.initialize(ADMIN, 2, 0, FEE_COLLECTOR).unwrap();
    let validator: u64 = 7;
    b.add_validator(ADMIN, validator).unwrap();
    let validators = b.get_validators();
    assert_eq!(validators.len(), 1);
    assert_eq!(validators[0], validator);
}

#[test]
fn test_bridge_assets_token() {
    let mut b = BridgeContract::new(CONTRACT);
    let mut ledger = make_ledger();
    b.initialize(ADMIN, 1, 0, FEE_COLLECTOR).unwrap();
    ledger.mint(TOKEN_ADMIN, USER, 1_000).unwrap();
    let recipient = vec![1u8; 32];
    let message_id = b
        .bridge_assets(&mut ledger, USER, TOKEN_CONTRACT, AssetType::Token, 500, 1, recipient, 0)
        .unwrap();
    let locked = b.get_locked_asset(&message_id);
    assert!(locked.is_some());
    let locked_asset = locked.unwrap();
    assert_eq!(locked_asset.amount, 500);
    assert_eq!(locked_asset.owner, USER);
    // The custody moved with the lock.
    assert_eq!(ledger.balance(USER), 500);
    assert_eq!(ledger.balance(CONTRACT), 500);
    assert_eq!(b.get_message_status(&message_id), Some(BridgeStatus::Pending));
}

#[test]
fn test_message_id_changes_with_nonce() {
    // Two locks with identical timestamp, sender, amount and destination
    // still get different 32-byte ids, because the per-user nonce
    // advances between them.
    let mut b = BridgeContract::new(CONTRACT);
    let mut ledger = make_ledger();
    b.initialize(ADMIN, 1, 1, FEE_COLLECTOR).unwrap();
    ledger.mint(TOKEN_ADMIN, USER, 10_000).unwrap();
    let id1 = b
        .bridge_assets(&mut ledger, USER, TOKEN_CONTRACT, AssetType::Token, 500, 1, vec![7u8; 32], 42)
        .unwrap();
    let id2 = b
        .bridge_assets(&mut ledger, USER, TOKEN_CONTRACT, AssetType::Token, 500, 1, vec![7u8; 32], 42)
        .unwrap();
    assert_eq!(id1.len(), 32);
    assert_eq!(id2.len(), 32);
    assert_ne!(id1, id2);
    assert_eq!(b.get_locked_asset(&id1).unwrap().amount, 500);
    assert_eq!(b.get_locked_asset(&id2).unwrap().amount, 500);
}

#[test]
fn test_cancel_refunds_and_is_final() {
    let mut b = BridgeContract::new(CONTRACT);
    let mut ledger = make_ledger();
    b.initialize(ADMIN, 1, 0, FEE_COLLECTOR).unwrap();
    ledger.mint(TOKEN_ADMIN, USER, 1_000).unwrap();
    let id = b
        .bridge_assets(&mut ledger, USER, TOKEN_CONTRACT, AssetType::Token, 400, 2, vec![1u8; 32], 5)
        .unwrap();
    assert_eq!(ledger.balance(USER), 600);
    b.cancel_bridge(&mut ledger, USER, id).unwrap();
    assert_eq!(ledger.balance(USER), 1_000);
    assert_eq!(b.get_message_status(&id), Some(BridgeStatus::Cancelled));
    assert!(b.get_locked_asset(&id).is_none());
    // A cancelled id can never transition again.
    assert_eq!(b.cancel_bridge(&mut ledger, USER, id), Err(Error::AssetNotLocked));
}

#[test]
fn test_completed_message_is_final() {
    let mut b = BridgeContract::new(CONTRACT);
    b.initialize(ADMIN, 1, 0, FEE_COLLECTOR).unwrap();
    let validator: u64 = 7;
    b.add_validator(ADMIN, validator).unwrap();
    let message = BridgeMessage {
        message_id: [9u8; 32],
        source_chain: 1,
        dest_chain: 0,
        action: BridgeAction::Unlock,
        asset_type: AssetType::NFT,
        asset_address: TOKEN_CONTRACT,
        asset_amount: 77,
        sender: USER,
        recipient: vec![1u8; 32],
        fee_amount: 0,
        fee_token: None,
        timestamp: 0,
        nonce: 1,
    };
    let sigs = vec![ValidatorSignature { validator, signature: [0u8; 64] }];
    b.complete_bridge(validator, message.clone(), sigs.clone()).unwrap();
    assert_eq!(b.get_message_status(&[9u8; 32]), Some(BridgeStatus::Completed));
    // A second completion of the same id fails: the state machine only
    // moves forward.
    let r = b.complete_bridge(validator, message, sigs);
    assert_eq!(r, Err(Error::MessageAlreadyProcessed));
}

#[test]
fn test_signature_quorum_counts_distinct_validators() {
    let mut b = BridgeContract::new(CONTRACT);
    b.initialize(ADMIN, 2, 0, FEE_COLLECTOR).unwrap();
    let v1: u64 = 7;
    let v2: u64 = 8;
    b.add_validator(ADMIN, v1).unwrap();
    b.add_validator(ADMIN, v2).unwrap();
    let message = BridgeMessage {
        message_id: [3u8; 32],
        source_chain: 1,
        dest_chain: 0,
        action: BridgeAction::Unlock,
        asset_type: AssetType::NFT,
        asset_address: TOKEN_CONTRACT,
        asset_amount: 1,
        sender: USER,
        recipient: vec![1u8; 32],
        fee_amount: 0,
        fee_token: None,
        timestamp: 0,
        nonce: 1,
    };
    // Two signatures from the same validator count once: no quorum.
    let dup = vec![
        ValidatorSignature { validator: v1, signature: [0u8; 64] },
        ValidatorSignature { validator: v1, signature: [1u8; 64] },
    ];
    assert_eq!(b.complete_bridge(v1, message.clone(), dup), Err(Error::InvalidSignature));
    // One signature is below the required count outright.
    let one = vec![ValidatorSignature { validator: v1, signature: [0u8; 64] }];
    assert_eq!(b.complete_bridge(v1, message.clone(), one), Err(Error::InsufficientSignatures));
    // Two distinct validators make the quorum.
    let both = vec![
        ValidatorSignature { validator: v1, signature: [0u8; 64] },
        ValidatorSignature { validator: v2, signature: [0u8; 64] },
    ];
    b.complete_bridge(v1, message, both).unwrap();
}

#[test]
fn test_token_unlock_blocked_by_recipient_stub() {
    let mut b = BridgeContract::new(CONTRACT);
    b.initialize(ADMIN, 1, 0, FEE_COLLECTOR).unwrap();
    let validator: u64 = 7;
    b.add_validator(ADMIN, validator).unwrap();
    let message = BridgeMessage {
        message_id: [5u8; 32],
        source_chain: 1,
        dest_chain: 0,
        action: BridgeAction::Unlock,
        asset_type: AssetType::Token,
        asset_address: TOKEN_CONTRACT,
        asset_amount: 100,
        sender: USER,
        recipient: vec![1u8; 32],
        fee_amount: 0,
        fee_token: None,
        timestamp: 0,
        nonce: 1,
    };
    let sigs = vec![ValidatorSignature { validator, signature: [0u8; 64] }];
    // Recipient decoding is an explicit gap: fungible unlocks fail.
    assert_eq!(b.complete_bridge(validator, message, sigs), Err(Error::InvalidRecipient));
}

#[test]
fn test_bridge_error_paths() {
    let mut b = BridgeContract::new(CONTRACT);
    let mut ledger = make_ledger();
    assert_eq!(
        b.bridge_assets(&mut ledger, USER, TOKEN_CONTRACT, AssetType::Token, 500, 1, vec![1], 0),
        Err(Error::NotInitialized)
    );
    b.initialize(ADMIN, 1, 0, FEE_COLLECTOR).unwrap();
    assert_eq!(
        b.bridge_assets(&mut ledger, USER, TOKEN_CONTRACT, AssetType::Token, 0, 1, vec![1], 0),
        Err(Error::InvalidAssetAmount)
    );
    assert_eq!(
        b.bridge_assets(&mut ledger, USER, TOKEN_CONTRACT, AssetType::Token, 5, 0, vec![1], 0),
        Err(Error::InvalidChainId)
    );
    assert_eq!(
        b.bridge_assets(&mut ledger, USER, TOKEN_CONTRACT, AssetType::Token, 5, 1, vec![], 0),
        Err(Error::InvalidRecipient)
    );
    assert_eq!(
        b.bridge_assets(&mut ledger, USER, TOKEN_CONTRACT, AssetType::Token, 5, 1, vec![1], 0),
        Err(Error::InsufficientBalance)
    );
    assert_eq!(b.initialize(ADMIN, 1, 0, FEE_COLLECTOR), Err(Error::AlreadyInitialized));
    assert_eq!(b.add_validator(USER, 7), Err(Error::Unauthorized));
    assert_eq!(b.remove_validator(ADMIN, 7), Err(Error::InvalidMessage));
}

#[test]
fn test_nft_wrap_unwrap() {
    let mut b = BridgeContract::new(CONTRACT);
    b.initialize(ADMIN, 1, 0, FEE_COLLECTOR).unwrap();
    let owner: u64 = 3;
    let nft_contract: u64 = 20;
    let wrapped_id = b.wrap_nft(owner, nft_contract, 42, 5, vec![1u8; 32], 1000).unwrap();
    let w = b.get_wrapped_nft(wrapped_id).unwrap();
    assert_eq!(w.original_token_id, 42);
    assert_eq!(w.owner, owner);
    assert_eq!(w.original_contract, nft_contract);
    let stranger: u64 = 9;
    assert_eq!(b.unwrap_nft(stranger, wrapped_id), Err(Error::Unauthorized));
    let (orig_contract, orig_id) = b.unwrap_nft(owner, wrapped_id).unwrap();
    assert_eq!(orig_contract, nft_contract);
    assert_eq!(orig_id, 42);
    assert!(b.get_wrapped_nft(wrapped_id).is_none());
    assert_eq!(b.unwrap_nft(owner, wrapped_id), Err(Error::NFTNotWrapped));
}

#[test]
fn test_fee_bounds_are_hard_limits() {
    // With a fee ceiling below the floor no clamped fee can satisfy the
    // bounds, so every lock is rejected.
    let mut b = BridgeContract::new(CONTRACT);
    let mut ledger = make_ledger();
    b.initialize(ADMIN, 1, 0, FEE_COLLECTOR).unwrap();
    b.update_fees(ADMIN, 30, 100, 50).unwrap();
    ledger.mint(TOKEN_ADMIN, USER, 1_000).unwrap();
    let r = b.bridge_assets(&mut ledger, USER, TOKEN_CONTRACT, AssetType::Token, 500, 1, vec![1u8; 32], 0);
    assert_eq!(r, Err(Error::FeeTooLow));
    // The failed lock left both the bridge and the ledger untouched.
    assert_eq!(ledger.balance(USER), 1_000);
}
