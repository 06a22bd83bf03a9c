use puzzle_contracts::staking::{Error, StakingContract, StakingTier};
use puzzle_contracts::token::RewardToken;

const ADMIN: u64 = 1;
const STAKER: u64 = 2;
const TOKEN_ADMIN: u64 = 3;
const CONTRACT: u64 = 100;
const STAKING_TOKEN: u64 = 10;
const REWARD_TOKEN: u64 = 11;
const WEEK: u64 = 7 * 24 * 60 * 60;

fn make_ledger() -> RewardToken {
    let mut l = RewardToken::new();
    l.initialize(TOKEN_ADMIN, String::from("T"), String::from("T"), 6).unwrap();
    l
}

fn setup() -> (StakingContract, RewardToken, RewardToken) {
    let mut s = StakingContract::new(CONTRACT);
    s.initialize(ADMIN, STAKING_TOKEN, REWARD_TOKEN, 500, WEEK).unwrap();
    (s, make_ledger(), make_ledger())
}

#[test]
fn test_test_initialization() {
    let (s, _, _) = setup();
    let config = s.get_config();
    assert_eq!(config.admin, ADMIN);
    assert_eq!(config.base_apy, 500);
    assert_eq!(config.bronze_bonus, 100);
    assert_eq!(config.silver_bonus, 250);
    assert_eq!(config.gold_bonus, 500);
    assert!(!config.paused);
}

#[test]
fn test_test_double_initialization() {
    let (mut s, _, _) = setup();
    let r = s.initialize(ADMIN, STAKING_TOKEN, REWARD_TOKEN, 500, 604800);
    assert_eq!(r, Err(Error::AlreadyInitialized));
}

#[test]
fn test_stake() {
    let (mut s, mut staking, _) = setup();
    staking.mint(TOKEN_ADMIN, STAKER, 20_000_000_000).unwrap();
    s.stake(&mut staking, STAKER, 10_000_000_000, 1000).unwrap();
    let info = s.get_staker_info(STAKER).unwrap();
    assert_eq!(info.staked_amount, 10_000_000_000);
    assert_eq!(info.stake_timestamp, 1000);
    assert_eq!(info.tier, StakingTier::Silver);
    assert_eq!(s.get_total_staked(), 10_000_000_000);
    assert_eq!(staking.balance(STAKER), 10_000_000_000);
}

#[test]
fn test_stake_multiple_times() {
    let (mut s, mut staking, _) = setup();
    staking.mint(TOKEN_ADMIN, STAKER, 200_000_000_000).unwrap();
    s.stake(&mut staking, STAKER, 50_000_000_000, 1000).unwrap();
    assert_eq!(s.get_staker_info(STAKER).unwrap().tier, StakingTier::Silver);
    s.stake(&mut staking, STAKER, 60_000_000_000, 2000).unwrap();
    let info = s.get_staker_info(STAKER).unwrap();
    assert_eq!(info.staked_amount, 110_000_000_000);
    assert_eq!(info.tier, StakingTier::Gold);
}

#[test]
fn test_tier_system() {
    let (mut s, mut staking, _) = setup();
    staking.mint(TOKEN_ADMIN, STAKER, 500_000_000_000).unwrap();
    s.stake(&mut staking, STAKER, 500_000_000, 1000).unwrap();
    assert_eq!(s.get_staker_info(STAKER).unwrap().tier, StakingTier::NoTier);
    assert_eq!(s.get_current_apy(STAKER), 500);
    s.stake(&mut staking, STAKER, 600_000_000, 1000).unwrap();
    assert_eq!(s.get_staker_info(STAKER).unwrap().tier, StakingTier::Bronze);
    assert_eq!(s.get_current_apy(STAKER), 600);
    s.stake(&mut staking, STAKER, 9_000_000_000, 1000).unwrap();
    assert_eq!(s.get_staker_info(STAKER).unwrap().tier, StakingTier::Silver);
    assert_eq!(s.get_current_apy(STAKER), 750);
    s.stake(&mut staking, STAKER, 100_000_000_000, 1000).unwrap();
    assert_eq!(s.get_staker_info(STAKER).unwrap().tier, StakingTier::Gold);
    assert_eq!(s.get_current_apy(STAKER), 1000);
}

#[test]
fn test_unstake_after_lock_period() {
    let (mut s, mut staking, _) = setup();
    staking.mint(TOKEN_ADMIN, STAKER, 10_000_000_000).unwrap();
    s.stake(&mut staking, STAKER, 5_000_000_000, 1000).unwrap();
    let later = 1000 + WEEK + 1;
    assert!(s.can_unstake_without_penalty(STAKER, later));
    assert_eq!(s.get_time_until_unlock(STAKER, later), 0);
    s.unstake(&mut staking, STAKER, 2_000_000_000, later).unwrap();
    assert_eq!(staking.balance(STAKER), 7_000_000_000);
    assert_eq!(s.get_staker_info(STAKER).unwrap().staked_amount, 3_000_000_000);
}

#[test]
fn test_early_unstake_penalty() {
    let (mut s, mut staking, _) = setup();
    staking.mint(TOKEN_ADMIN, STAKER, 10_000_000_000).unwrap();
    s.stake(&mut staking, STAKER, 5_000_000_000, 1000).unwrap();
    let one_day = 1000 + 24 * 60 * 60;
    assert!(!s.can_unstake_without_penalty(STAKER, one_day));
    assert!(s.get_time_until_unlock(STAKER, one_day) > 0);
    s.unstake(&mut staking, STAKER, 1_000_000_000, one_day).unwrap();
    assert_eq!(staking.balance(STAKER), 5_900_000_000);
}

#[test]
fn test_rewards_calculation_and_claim() {
    let (mut s, mut staking, mut reward) = setup();
    staking.mint(TOKEN_ADMIN, STAKER, 10_000_000_000).unwrap();
    s.stake(&mut staking, STAKER, 10_000_000_000, 0).unwrap();
    reward.mint(TOKEN_ADMIN, ADMIN, 1_000_000_000_000).unwrap();
    s.add_rewards(&mut reward, ADMIN, 1_000_000_000_000).unwrap();
    let year = 31_536_000;
    let pending = s.get_pending_rewards(STAKER, year);
    assert_eq!(pending, 750_000_000);
    let claimed = s.claim_rewards(&mut reward, STAKER, year).unwrap();
    assert_eq!(claimed, 750_000_000);
    assert_eq!(reward.balance(STAKER), 750_000_000);
    assert_eq!(s.get_reward_pool(), 1_000_000_000_000 - 750_000_000);
}

#[test]
fn test_emergency_withdraw() {
    let (mut s, mut staking, _) = setup();
    staking.mint(TOKEN_ADMIN, STAKER, 10_000_000_000).unwrap();
    s.stake(&mut staking, STAKER, 10_000_000_000, 1000).unwrap();
    assert_eq!(staking.balance(STAKER), 0);
    let returned = s.emergency_withdraw(&mut staking, STAKER).unwrap();
    assert_eq!(returned, 8_000_000_000);
    assert_eq!(staking.balance(STAKER), 8_000_000_000);
    let info = s.get_staker_info(STAKER).unwrap();
    assert_eq!(info.staked_amount, 0);
    assert_eq!(info.tier, StakingTier::NoTier);
    assert_eq!(s.get_total_staked(), 0);
}

#[test]
fn test_test_pause_functionality() {
    let (mut s, mut staking, _) = setup();
    staking.mint(TOKEN_ADMIN, STAKER, 10_000_000_000).unwrap();
    s.set_paused(ADMIN, true).unwrap();
    let config = s.get_config();
    assert!(config.paused);
}

#[test]
fn test_stake_when_paused() {
    let (mut s, mut staking, _) = setup();
    staking.mint(TOKEN_ADMIN, STAKER, 10_000_000_000).unwrap();
    s.set_paused(ADMIN, true).unwrap();
    let r = s.stake(&mut staking, STAKER, 1_000_000_000, 1000);
    assert_eq!(r, Err(Error::ContractPaused));
}

#[test]
fn test_emergency_withdraw_when_paused() {
    let (mut s, mut staking, _) = setup();
    staking.mint(TOKEN_ADMIN, STAKER, 10_000_000_000).unwrap();
    s.stake(&mut staking, STAKER, 10_000_000_000, 1000).unwrap();
    s.set_paused(ADMIN, true).unwrap();
    let returned = s.emergency_withdraw(&mut staking, STAKER).unwrap();
    assert_eq!(returned, 8_000_000_000);
    assert_eq!(staking.balance(STAKER), 8_000_000_000);
}

#[test]
fn test_update_apy_config() {
    let (mut s, _, _) = setup();
    s.update_apy_config(ADMIN, 1000, 200, 400, 800).unwrap();
    let config = s.get_config();
    assert_eq!(config.base_apy, 1000);
    assert_eq!(config.bronze_bonus, 200);
    assert_eq!(config.silver_bonus, 400);
    assert_eq!(config.gold_bonus, 800);
}

#[test]
fn test_update_tier_thresholds() {
    let (mut s, _, _) = setup();
    s.update_tier_thresholds(ADMIN, 2_000_000_000, 20_000_000_000, 200_000_000_000).unwrap();
    let config = s.get_config();
    assert_eq!(config.bronze_threshold, 2_000_000_000);
    assert_eq!(config.silver_threshold, 20_000_000_000);
    assert_eq!(config.gold_threshold, 200_000_000_000);
}

#[test]
fn test_update_staking_params() {
    let (mut s, _, _) = setup();
    s.update_staking_params(ADMIN, 14 * 24 * 60 * 60, 1500, 3000).unwrap();
    let config = s.get_config();
    assert_eq!(config.min_lock_period, 14 * 24 * 60 * 60);
    assert_eq!(config.early_unstake_penalty, 1500);
    assert_eq!(config.emergency_penalty, 3000);
}

#[test]
fn test_update_config_non_admin() {
    let (mut s, _, _) = setup();
    let r = s.update_apy_config(STAKER, 1000, 200, 400, 800);
    assert_eq!(r, Err(Error::Unauthorized));
}

#[test]
fn test_stake_zero_amount() {
    let (mut s, mut staking, _) = setup();
    let r = s.stake(&mut staking, STAKER, 0, 1000);
    assert_eq!(r, Err(Error::InvalidAmount));
}

#[test]
fn test_unstake_more_than_staked() {
    let (mut s, mut staking, _) = setup();
    staking.mint(TOKEN_ADMIN, STAKER, 10_000_000_000).unwrap();
    s.stake(&mut staking, STAKER, 5_000_000_000, 1000).unwrap();
    let r = s.unstake(&mut staking, STAKER, 6_000_000_000, 1000);
    assert_eq!(r, Err(Error::InsufficientStakedBalance));
}

#[test]
fn test_claim_zero_rewards() {
    let (mut s, mut staking, mut reward) = setup();
    staking.mint(TOKEN_ADMIN, STAKER, 10_000_000_000).unwrap();
    s.stake(&mut staking, STAKER, 5_000_000_000, 1000).unwrap();
    let r = s.claim_rewards(&mut reward, STAKER, 1000);
    assert_eq!(r, Err(Error::NoRewardsToClaim));
}

#[test]
fn test_claim_rewards_insufficient_pool() {
    let (mut s, mut staking, mut reward) = setup();
    staking.mint(TOKEN_ADMIN, STAKER, 1_000_000_000).unwrap();
    s.stake(&mut staking, STAKER, 1_000_000_000, 0).unwrap();
    let month = 30 * 24 * 60 * 60;
    let r = s.claim_rewards(&mut reward, STAKER, month);
    assert_eq!(r, Err(Error::InsufficientRewardPool));
}

#[test]
fn test_stakers_list() {
    let (mut s, mut staking, _) = setup();
    let staker2: u64 = 4;
    let staker3: u64 = 5;
    staking.mint(TOKEN_ADMIN, STAKER, 10_000_000_000).unwrap();
    staking.mint(TOKEN_ADMIN, staker2, 10_000_000_000).unwrap();
    staking.mint(TOKEN_ADMIN, staker3, 10_000_000_000).unwrap();
    s.stake(&mut staking, STAKER, 1_000_000_000, 1000).unwrap();
    s.stake(&mut staking, staker2, 2_000_000_000, 1000).unwrap();
    s.stake(&mut staking, staker3, 3_000_000_000, 1000).unwrap();
    assert_eq!(s.get_all_stakers().len(), 3);
    assert_eq!(s.get_total_staked(), 6_000_000_000);
    s.unstake(&mut staking, staker2, 2_000_000_000, 1000 + WEEK + 1).unwrap();
    let stakers = s.get_all_stakers();
    assert_eq!(stakers.len(), 2);
    assert!(!stakers.contains(&staker2));
}

#[test]
fn test_rewards_accumulation_on_additional_stake() {
    let (mut s, mut staking, mut reward) = setup();
    staking.mint(TOKEN_ADMIN, STAKER, 50_000_000_000).unwrap();
    reward.mint(TOKEN_ADMIN, ADMIN, 1_000_000_000_000).unwrap();
    s.add_rewards(&mut reward, ADMIN, 1_000_000_000_000).unwrap();
    s.stake(&mut staking, STAKER, 10_000_000_000, 0).unwrap();
    let half_year = 31_536_000 / 2;
    let pending_before = s.get_pending_rewards(STAKER, half_year);
    assert!(pending_before > 0);
    s.stake(&mut staking, STAKER, 10_000_000_000, half_year).unwrap();
    let info = s.get_staker_info(STAKER).unwrap();
    assert_eq!(info.accumulated_rewards, pending_before);
    assert_eq!(info.staked_amount, 20_000_000_000);
}

#[test]
fn test_full_staking_lifecycle() {
    let (mut s, mut staking, mut reward) = setup();
    staking.mint(TOKEN_ADMIN, STAKER, 100_000_000_000).unwrap();
    reward.mint(TOKEN_ADMIN, ADMIN, 10_000_000_000_000).unwrap();
    s.add_rewards(&mut reward, ADMIN, 10_000_000_000_000).unwrap();
    s.stake(&mut staking, STAKER, 100_000_000_000, 0).unwrap();
    assert_eq!(s.get_staker_info(STAKER).unwrap().tier, StakingTier::Gold);
    assert_eq!(s.get_current_apy(STAKER), 1000);
    let thirty_days = 30 * 24 * 60 * 60;
    let pending = s.get_pending_rewards(STAKER, thirty_days);
    assert!(pending > 800_000_000);
    let claimed = s.claim_rewards(&mut reward, STAKER, thirty_days).unwrap();
    assert_eq!(claimed, pending);
    assert_eq!(reward.balance(STAKER), claimed);
    s.unstake(&mut staking, STAKER, 50_000_000_000, thirty_days).unwrap();
    let info = s.get_staker_info(STAKER).unwrap();
    assert_eq!(info.staked_amount, 50_000_000_000);
    assert_eq!(info.tier, StakingTier::Silver);
    let emergency_amount = s.emergency_withdraw(&mut staking, STAKER).unwrap();
    assert_eq!(emergency_amount, 40_000_000_000);
    assert_eq!(staking.balance(STAKER), 90_000_000_000);
    assert_eq!(s.get_staker_info(STAKER).unwrap().staked_amount, 0);
    assert_eq!(s.get_total_staked(), 0);
}

#[test]
fn test_pending_rewards_read_is_idempotent() {
    // Reading pending rewards recomputes accrual from the stored
    // checkpoint; with no state change in between, repeated reads at the
    // same timestamp agree.
    let (mut s, mut staking, _) = setup();
    staking.mint(TOKEN_ADMIN, STAKER, 10_000_000_000).unwrap();
    s.stake(&mut staking, STAKER, 10_000_000_000, 0).unwrap();
    let t = 10_000_000;
    let first = s.get_pending_rewards(STAKER, t);
    let second = s.get_pending_rewards(STAKER, t);
    let third = s.get_pending_rewards(STAKER, t);
    assert!(first > 0);
    assert_eq!(first, second);
    assert_eq!(second, third);
}

#[test]
fn test_accrual_banked_under_old_tier() {
    // Tier changes never rescale already-accrued rewards: rewards for the
    // first interval are banked at the Silver rate even after the stake
    // grows to Gold.
    let (mut s, mut staking, _) = setup();
    staking.mint(TOKEN_ADMIN, STAKER, 200_000_000_000).unwrap();
    s.stake(&mut staking, STAKER, 10_000_000_000, 0).unwrap();
    let year = 31_536_000;
    // One year at Silver (750 bps) on 10,000 tokens.
    s.stake(&mut staking, STAKER, 90_000_000_000, year).unwrap();
    let info = s.get_staker_info(STAKER).unwrap();
    assert_eq!(info.accumulated_rewards, 750_000_000);
    assert_eq!(info.tier, StakingTier::Gold);
    // One more year at Gold (1000 bps) on 100,000 tokens.
    let total = s.get_pending_rewards(STAKER, 2 * year);
    assert_eq!(total, 750_000_000 + 10_000_000_000);
}

#[test]
fn test_not_staked_errors() {
    let (mut s, mut staking, mut reward) = setup();
    let stranger: u64 = 9;
    assert_eq!(s.unstake(&mut staking, stranger, 1, 0), Err(Error::NotStaked));
    assert_eq!(s.claim_rewards(&mut reward, stranger, 0), Err(Error::NotStaked));
    assert_eq!(s.emergency_withdraw(&mut staking, stranger), Err(Error::NotStaked));
    assert_eq!(s.get_pending_rewards(stranger, 1000), 0);
}

#[test]
fn test_uninitialized_staking() {
    let mut s = StakingContract::new(CONTRACT);
    let mut ledger = make_ledger();
    assert_eq!(s.stake(&mut ledger, STAKER, 5, 0), Err(Error::NotInitialized));
    assert_eq!(s.add_rewards(&mut ledger, ADMIN, 5), Err(Error::NotInitialized));
    assert_eq!(s.set_paused(ADMIN, true), Err(Error::NotInitialized));
}
