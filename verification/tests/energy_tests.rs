use puzzle_contracts::energy::{BoostType, EnergyContract, Error};
use puzzle_contracts::token::RewardToken;

const ADMIN: u64 = 1;
const REWARD_TOKEN: u64 = 2;
const CONTRACT: u64 = 100;

fn setup() -> EnergyContract {
    let mut e = EnergyContract::new(CONTRACT);
    // 1 energy per second, max 100, 10 per puzzle, 50 tokens per refill.
    e.initialize(ADMIN, REWARD_TOKEN, 1, 100, 10, 50).unwrap();
    e
}

#[test]
fn lib_test_initialization() {
    let e = setup();
    let config = e.get_config();
    assert_eq!(config.admin, ADMIN);
    assert_eq!(config.default_max_energy, 100);
    assert_eq!(config.puzzle_energy_cost, 10);
}

#[test]
fn test_energy_regeneration() {
    let mut e = setup();
    let player: u64 = 3;
    let initial = e.get_current_energy(player, 0).unwrap();
    assert_eq!(initial, 100);
    e.consume_energy_for_puzzle(player, 0).unwrap();
    assert_eq!(e.get_current_energy(player, 0).unwrap(), 90);
    // 50 seconds later: 50 energy regenerated, capped at 100.
    assert_eq!(e.get_current_energy(player, 50).unwrap(), 100);
}

#[test]
fn test_energy_boost() {
    let mut e = setup();
    let player: u64 = 3;
    for _ in 0..3 {
        e.consume_energy_for_puzzle(player, 0).unwrap();
    }
    assert_eq!(e.get_current_energy(player, 0).unwrap(), 70);
    e.apply_boost(player, BoostType::DoubleRegen, 100, 0).unwrap();
    // 10 seconds at 2x: 20 energy regenerated.
    assert_eq!(e.get_current_energy(player, 10).unwrap(), 70 + 20);
    // The boosted regeneration still respects the cap.
    assert_eq!(e.get_current_energy(player, 60).unwrap(), 100);
}

#[test]
fn test_energy_gifting() {
    // Both players start full: the gift would push the receiver past the
    // cap and is rejected. After the receiver spends down to 50, the
    // same gift succeeds and lands at 70, with the sender's daily budget
    // accounting for it.
    let mut e = setup();
    let player1: u64 = 3;
    let player2: u64 = 4;
    assert_eq!(e.get_current_energy(player1, 0).unwrap(), 100);
    assert_eq!(e.get_current_energy(player2, 0).unwrap(), 100);
    assert_eq!(e.gift_energy(player1, player2, 20, 0), Err(Error::MaxEnergyExceeded));
    for _ in 0..5 {
        e.consume_energy_for_puzzle(player2, 0).unwrap();
    }
    assert_eq!(e.get_current_energy(player2, 0).unwrap(), 50);
    e.gift_energy(player1, player2, 20, 0).unwrap();
    assert_eq!(e.get_current_energy(player1, 0).unwrap(), 80);
    assert_eq!(e.get_current_energy(player2, 0).unwrap(), 70);
    assert_eq!(e.get_player_energy_info(player1).unwrap().gifted_today, 20);
}

#[test]
fn test_insufficient_energy() {
    let mut e = setup();
    let player: u64 = 3;
    for _ in 0..9 {
        e.consume_energy_for_puzzle(player, 0).unwrap();
    }
    e.consume_energy_for_puzzle(player, 0).unwrap();
    assert_eq!(e.get_current_energy(player, 0).unwrap(), 0);
    let result = e.consume_energy_for_puzzle(player, 0);
    assert_eq!(result, Err(Error::InsufficientEnergy));
}

#[test]
fn test_gift_limit_and_self_gift() {
    let mut e = setup();
    let player1: u64 = 3;
    let player2: u64 = 4;
    assert_eq!(e.gift_energy(player1, player1, 5, 0), Err(Error::InvalidAmount));
    assert_eq!(e.gift_energy(player1, player2, 0, 0), Err(Error::InvalidAmount));
    for _ in 0..5 {
        e.consume_energy_for_puzzle(player2, 0).unwrap();
    }
    e.gift_energy(player1, player2, 20, 0).unwrap();
    // The daily budget is 20; even one more unit is over it.
    e.consume_energy_for_puzzle(player2, 0).unwrap();
    assert_eq!(e.gift_energy(player1, player2, 1, 0), Err(Error::GiftLimitExceeded));
}

#[test]
fn test_instant_refill() {
    let mut e = setup();
    let mut ledger = RewardToken::new();
    let token_admin: u64 = 9;
    ledger.initialize(token_admin, String::from("T"), String::from("T"), 6).unwrap();
    let player: u64 = 3;
    ledger.mint(token_admin, player, 200).unwrap();
    for _ in 0..3 {
        e.consume_energy_for_puzzle(player, 0).unwrap();
    }
    assert_eq!(e.get_current_energy(player, 0).unwrap(), 70);
    let refilled = e.instant_refill(&mut ledger, player, 0).unwrap();
    assert_eq!(refilled, 30);
    assert_eq!(e.get_current_energy(player, 0).unwrap(), 100);
    assert_eq!(ledger.balance(player), 150);
    assert_eq!(ledger.balance(CONTRACT), 50);
}

#[test]
fn test_boost_already_active() {
    let mut e = setup();
    let player: u64 = 3;
    e.apply_boost(player, BoostType::TripleRegen, 100, 0).unwrap();
    assert_eq!(
        e.apply_boost(player, BoostType::DoubleRegen, 100, 50),
        Err(Error::BoostAlreadyActive)
    );
    assert_eq!(e.apply_boost(player, BoostType::NoBoost, 100, 50), Err(Error::InvalidBoostType));
    // Once the first boost expires a new one is accepted.
    e.apply_boost(player, BoostType::DoubleRegen, 100, 100).unwrap();
}

#[test]
fn test_energy_stays_within_bounds() {
    // The meter never leaves [0, max_energy], whatever the timestamps.
    let mut e = setup();
    let player: u64 = 3;
    e.consume_energy_for_puzzle(player, 0).unwrap();
    for t in [0u64, 1, 5, 1000, 1_000_000, u64::MAX / 2] {
        let v = e.get_current_energy(player, t).unwrap();
        assert!(v <= 100);
    }
    for _ in 0..10 {
        let _ = e.consume_energy_for_puzzle(player, 0);
    }
    let v = e.get_current_energy(player, 0).unwrap();
    assert!(v <= 100);
}

#[test]
fn test_energy_read_idempotent() {
    // A read recomputes regeneration but stores nothing for an existing
    // player: repeated reads at one timestamp agree.
    let mut e = setup();
    let player: u64 = 3;
    e.consume_energy_for_puzzle(player, 0).unwrap();
    let a = e.get_current_energy(player, 37).unwrap();
    let b = e.get_current_energy(player, 37).unwrap();
    let c = e.get_current_energy(player, 37).unwrap();
    assert_eq!(a, b);
    assert_eq!(b, c);
    // The stored checkpoint did not move.
    assert_eq!(e.get_player_energy_info(player).unwrap().last_update, 0);
}
