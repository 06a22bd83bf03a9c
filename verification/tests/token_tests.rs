use puzzle_contracts::token::{RewardToken, TokenError};

const ADMIN: u64 = 1;
const USER: u64 = 2;

fn setup() -> RewardToken {
    let mut t = RewardToken::new();
    t.initialize(ADMIN, String::from("Reward"), String::from("RWD"), 6).unwrap();
    t
}

#[test]
fn test_initialization() {
    let mut t = RewardToken::new();
    let name = String::from("Game Reward Token");
    let symbol = String::from("GRWD");
    t.initialize(ADMIN, name.clone(), symbol.clone(), 6).unwrap();
    assert_eq!(t.name(), &name);
    assert_eq!(t.symbol(), &symbol);
    assert_eq!(t.decimals(), 6);
    assert_eq!(t.admin(), ADMIN);
}

#[test]
fn test_mint_and_balance() {
    let mut t = setup();
    t.mint(ADMIN, USER, 1000).unwrap();
    assert_eq!(t.balance(USER), 1000);
    assert_eq!(t.total_supply(), 1000);
}

#[test]
fn test_transfer() {
    let mut t = setup();
    let user1: u64 = 2;
    let user2: u64 = 3;
    t.mint(ADMIN, user1, 1000).unwrap();
    t.transfer(user1, user2, 300).unwrap();
    assert_eq!(t.balance(user1), 700);
    assert_eq!(t.balance(user2), 300);
}

#[test]
fn test_approve_and_transfer_from() {
    let mut t = setup();
    let owner: u64 = 2;
    let spender: u64 = 3;
    let recipient: u64 = 4;
    t.mint(ADMIN, owner, 1000).unwrap();
    t.approve(owner, spender, 500).unwrap();
    assert_eq!(t.allowance(owner, spender), 500);
    t.transfer_from(spender, owner, recipient, 200).unwrap();
    assert_eq!(t.balance(owner), 800);
    assert_eq!(t.balance(recipient), 200);
    assert_eq!(t.allowance(owner, spender), 300);
}

#[test]
fn test_burn() {
    let mut t = setup();
    t.mint(ADMIN, USER, 1000).unwrap();
    t.burn(USER, 300).unwrap();
    assert_eq!(t.balance(USER), 700);
    assert_eq!(t.total_supply(), 700);
}

#[test]
fn test_spend_for_unlock() {
    let mut t = setup();
    let player: u64 = 2;
    t.mint(ADMIN, player, 1000).unwrap();
    t.spend_for_unlock(player, 250, String::from("level_unlock")).unwrap();
    assert_eq!(t.balance(player), 750);
    assert_eq!(t.total_supply(), 750);
}

#[test]
fn test_distribute_rewards() {
    let mut t = setup();
    let user1: u64 = 2;
    let user2: u64 = 3;
    let user3: u64 = 4;
    let recipients = vec![user1, user2, user3];
    let amounts: Vec<i128> = vec![100, 200, 300];
    t.distribute_rewards(ADMIN, &recipients, &amounts).unwrap();
    assert_eq!(t.balance(user1), 100);
    assert_eq!(t.balance(user2), 200);
    assert_eq!(t.balance(user3), 300);
    assert_eq!(t.total_supply(), 600);
}

#[test]
fn test_authorize_minter() {
    let mut t = setup();
    let minter: u64 = 5;
    assert_eq!(t.is_authorized_minter(minter), false);
    t.authorize_minter(ADMIN, minter).unwrap();
    assert_eq!(t.is_authorized_minter(minter), true);
    t.revoke_minter(ADMIN, minter).unwrap();
    assert_eq!(t.is_authorized_minter(minter), false);
}

#[test]
fn test_transfer_insufficient_balance() {
    let mut t = setup();
    let user1: u64 = 2;
    let user2: u64 = 3;
    t.mint(ADMIN, user1, 100).unwrap();
    let r = t.transfer(user1, user2, 200);
    assert_eq!(r, Err(TokenError::InsufficientBalance));
    assert_eq!(t.balance(user1), 100);
    assert_eq!(t.balance(user2), 0);
}

#[test]
fn test_supply_accounting_over_operation_sequence() {
    // Conservation: after any mix of mints, transfers and burns, each
    // balance is the net of what was minted to it, moved in and out and
    // burned from it, and the balances always add up to the supply.
    let mut t = setup();
    let a: u64 = 2;
    let b: u64 = 3;
    let c: u64 = 4;
    t.mint(ADMIN, a, 1_000).unwrap();
    t.mint(ADMIN, b, 500).unwrap();
    t.transfer(a, b, 400).unwrap();
    t.transfer(b, c, 250).unwrap();
    t.burn(b, 100).unwrap();
    t.spend_for_unlock(a, 50, String::from("hint")).unwrap();
    assert_eq!(t.balance(a), 1_000 - 400 - 50);
    assert_eq!(t.balance(b), 500 + 400 - 250 - 100);
    assert_eq!(t.balance(c), 250);
    assert_eq!(t.total_supply(), 1_500 - 100 - 50);
    assert_eq!(t.balance(a) + t.balance(b) + t.balance(c), t.total_supply());
}

#[test]
fn test_self_transfer_conserves_balance() {
    let mut t = setup();
    t.mint(ADMIN, USER, 1000).unwrap();
    t.transfer(USER, USER, 400).unwrap();
    assert_eq!(t.balance(USER), 1000);
    assert_eq!(t.total_supply(), 1000);
}

#[test]
fn test_mint_unauthorized() {
    let mut t = setup();
    let stranger: u64 = 7;
    let minter: u64 = 5;
    t.authorize_minter(ADMIN, minter).unwrap();
    assert_eq!(t.mint(stranger, stranger, 10), Err(TokenError::Unauthorized));
    // Minting is gated on the caller: a stranger cannot mint even to an
    // authorized minter's account.
    assert_eq!(t.mint(stranger, minter, 10), Err(TokenError::Unauthorized));
    assert_eq!(t.total_supply(), 0);
    // An authorized minter may mint, to anyone.
    t.mint(minter, stranger, 10).unwrap();
    assert_eq!(t.balance(stranger), 10);
}

#[test]
fn test_token_error_variants() {
    let mut t = RewardToken::new();
    // Before initialization the metadata reads as its standing defaults.
    assert_eq!(t.name(), &String::from("Reward Token"));
    assert_eq!(t.symbol(), &String::from("RWD"));
    assert_eq!(t.decimals(), 6);
    assert_eq!(t.transfer(USER, 3, 0), Err(TokenError::InvalidAmount));
    assert_eq!(t.mint(ADMIN, USER, 5), Err(TokenError::NotInitialized));
    t.initialize(ADMIN, String::from("R"), String::from("R"), 0).unwrap();
    assert_eq!(
        t.initialize(ADMIN, String::from("R"), String::from("R"), 0),
        Err(TokenError::AlreadyInitialized)
    );
    assert_eq!(t.approve(USER, 3, -1), Err(TokenError::InvalidAmount));
    t.mint(ADMIN, USER, 100).unwrap();
    assert_eq!(t.transfer_from(3, USER, 4, 10), Err(TokenError::InsufficientAllowance));
    let recipients = vec![1u64, 2u64];
    let amounts: Vec<i128> = vec![1];
    assert_eq!(t.distribute_rewards(ADMIN, &recipients, &amounts), Err(TokenError::LengthMismatch));
}
