//! Tiered staking: users lock staking tokens with the contract and accrue
//! rewards linearly over time at an APY that depends on a threshold-derived
//! tier (higher stakes earn a bonus). Unstaking before the lock period ends
//! costs a basis-point penalty; an emergency exit works even while paused
//! but at a higher penalty.
//!
//! Rewards are computed lazily from the last checkpoint: whenever the
//! staked amount changes, the rewards pending under the old tier are folded
//! into `accumulated_rewards` first, so a tier change never rescales
//! already-accrued rewards.
use vstd::prelude::*;
use crate::{Address, elapsed_since};
use crate::token::{RewardToken, TokenError, spec_transferred};

verus! {

/// Reward tier, derived from the staked amount and the configured
/// thresholds. Never stored independently of the amount that produced it.
#[derive(Clone, Copy, Debug, PartialEq, Eq, Structural)]
pub enum StakingTier {
    NoTier,
    Bronze,
    Silver,
    Gold,
}

/// Failure conditions of the staking entry points.
#[derive(Clone, Copy, Debug, PartialEq, Eq, Structural)]
pub enum Error {
    AlreadyInitialized,
    NotInitialized,
    Unauthorized,
    ContractPaused,
    InvalidAmount,
    NotStaked,
    InsufficientStakedBalance,
    NoRewardsToClaim,
    InsufficientRewardPool,
    NothingToWithdraw,
    /// The nested token-ledger call failed; the whole call rolled back.
    TransferFailed(TokenError),
}

/// Staking parameters; written once by `initialize` and amended only by
/// admin setters.
#[derive(Clone, Copy, Debug, PartialEq, Eq, Structural)]
pub struct StakingConfig {
    pub admin: Address,
    pub staking_token: Address,
    pub reward_token: Address,
    /// Base APY in basis points (100 = 1%).
    pub base_apy: u32,
    /// Additional APY per tier, in basis points.
    pub bronze_bonus: u32,
    pub silver_bonus: u32,
    pub gold_bonus: u32,
    /// Minimum stake for each tier.
    pub bronze_threshold: i128,
    pub silver_threshold: i128,
    pub gold_threshold: i128,
    /// Minimum lock period in seconds.
    pub min_lock_period: u64,
    /// Early-unstake penalty in basis points.
    pub early_unstake_penalty: u32,
    /// Emergency-withdrawal penalty in basis points.
    pub emergency_penalty: u32,
    pub paused: bool,
}

/// One staker's record. Zeroed, not deleted, on full exit.
#[derive(Clone, Copy, Debug, PartialEq, Eq, Structural)]
pub struct StakerInfo {
    pub staked_amount: i128,
    pub stake_timestamp: u64,
    pub last_reward_claim: u64,
    pub accumulated_rewards: i128,
    pub tier: StakingTier,
}

/// One row of the staker table.
#[derive(Clone, Copy, Debug)]
pub struct StakerEntry {
    pub addr: Address,
    pub info: StakerInfo,
}

pub const SECONDS_PER_YEAR: u64 = 31_536_000;

pub const BASIS_POINTS: u64 = 10_000;

/// Record of `a` in `s[i..]`: the first entry for `a`, if any.
pub open spec fn info_from(s: Seq<StakerEntry>, i: int, a: Address) -> Option<StakerInfo>
    decreases s.len() - i,
{
    if i < 0 || i >= s.len() {
        None
    } else if s[i].addr == a {
        Some(s[i].info)
    } else {
        info_from(s, i + 1, a)
    }
}

/// Record of `a` in the staker table `s`.
pub open spec fn info_of(s: Seq<StakerEntry>, a: Address) -> Option<StakerInfo> {
    info_from(s, 0, a)
}

/// Staked amount of `a`, or 0 when `a` has no record.
pub open spec fn staked_of(s: Seq<StakerEntry>, a: Address) -> int {
    match info_of(s, a) {
        Some(i) => i.staked_amount as int,
        None => 0,
    }
}

/// Sum of the staked amounts in `s[i..]`.
pub open spec fn staked_from(s: Seq<StakerEntry>, i: int) -> int
    decreases s.len() - i,
{
    if i < 0 || i >= s.len() {
        0
    } else {
        s[i].info.staked_amount + staked_from(s, i + 1)
    }
}

/// Sum of all staked amounts in the table.
pub open spec fn staked_total(s: Seq<StakerEntry>) -> int {
    staked_from(s, 0)
}

/// No two rows are for the same address.
pub open spec fn unique_staker_addrs(s: Seq<StakerEntry>) -> bool {
    forall|i: int, j: int| 0 <= i < j < s.len() ==> s[i].addr != s[j].addr
}

/// Every record's amounts are non-negative.
pub open spec fn infos_wf(s: Seq<StakerEntry>) -> bool {
    forall|i: int|
        0 <= i < s.len() ==> s[i].info.staked_amount >= 0 && s[i].info.accumulated_rewards >= 0
}

/// No address appears twice in a plain address list.
pub open spec fn unique_addr_seq(s: Seq<Address>) -> bool {
    forall|i: int, j: int| 0 <= i < j < s.len() ==> s[i] != s[j]
}

proof fn lemma_info_from_skip_to(s: Seq<StakerEntry>, k: int, i: int, a: Address)
    requires
        0 <= k <= i <= s.len(),
        forall|j: int| k <= j < i ==> s[j].addr != a,
    ensures
        info_from(s, k, a) == info_from(s, i, a),
    decreases i - k,
{
    if k < i {
        lemma_info_from_skip_to(s, k + 1, i, a);
    }
}

proof fn lemma_info_found(s: Seq<StakerEntry>, i: int, a: Address)
    requires
        unique_staker_addrs(s),
        0 <= i < s.len(),
        s[i].addr == a,
    ensures
        info_of(s, a) == Some(s[i].info),
{
    assert(forall|j: int| 0 <= j < i ==> s[j].addr != a);
    lemma_info_from_skip_to(s, 0, i, a);
}

proof fn lemma_info_from_update(s: Seq<StakerEntry>, i: int, e: StakerEntry, k: int, a: Address)
    requires
        unique_staker_addrs(s),
        0 <= i < s.len(),
        0 <= k <= s.len(),
        e.addr == s[i].addr,
    ensures
        a == e.addr ==> info_from(s.update(i, e), k, a) == if k <= i {
            Some(e.info)
        } else {
            None::<StakerInfo>
        },
        a != e.addr ==> info_from(s.update(i, e), k, a) == info_from(s, k, a),
    decreases s.len() - k,
{
    if k < s.len() {
        lemma_info_from_update(s, i, e, k + 1, a);
    }
}

proof fn lemma_staked_from_update(s: Seq<StakerEntry>, i: int, e: StakerEntry, k: int)
    requires
        0 <= i < s.len(),
        0 <= k <= s.len(),
    ensures
        staked_from(s.update(i, e), k) == staked_from(s, k) + if k <= i {
            e.info.staked_amount - s[i].info.staked_amount
        } else {
            0int
        },
    decreases s.len() - k,
{
    if k < s.len() {
        lemma_staked_from_update(s, i, e, k + 1);
    }
}

proof fn lemma_info_from_push(s: Seq<StakerEntry>, e: StakerEntry, k: int, a: Address)
    requires
        0 <= k <= s.len(),
        forall|j: int| 0 <= j < s.len() ==> s[j].addr != e.addr,
    ensures
        a == e.addr ==> info_from(s.push(e), k, a) == Some(e.info),
        a != e.addr ==> info_from(s.push(e), k, a) == info_from(s, k, a),
    decreases s.len() - k,
{
    if k < s.len() {
        lemma_info_from_push(s, e, k + 1, a);
    } else {
        assert(s.push(e)[k] == e);
        assert(info_from(s.push(e), k + 1, a) is None);
    }
}

proof fn lemma_staked_from_push(s: Seq<StakerEntry>, e: StakerEntry, k: int)
    requires
        0 <= k <= s.len(),
    ensures
        staked_from(s.push(e), k) == staked_from(s, k) + e.info.staked_amount,
    decreases s.len() - k,
{
    if k < s.len() {
        lemma_staked_from_push(s, e, k + 1);
    } else {
        assert(s.push(e)[k] == e);
        assert(staked_from(s.push(e), k + 1) == 0);
    }
}

/// A record looked up in a well-formed table has non-negative amounts.
proof fn lemma_info_of_wf(s: Seq<StakerEntry>, k: int, a: Address)
    requires
        infos_wf(s),
        0 <= k <= s.len(),
    ensures
        match info_from(s, k, a) {
            Some(i) => i.staked_amount >= 0 && i.accumulated_rewards >= 0,
            None => true,
        },
    decreases s.len() - k,
{
    if k < s.len() {
        lemma_info_of_wf(s, k + 1, a);
    }
}

/// With non-negative records, one staker's amount never exceeds the total.
proof fn lemma_staked_le_total(s: Seq<StakerEntry>, k: int, a: Address)
    requires
        infos_wf(s),
        0 <= k <= s.len(),
    ensures
        staked_from(s, k) >= 0,
        match info_from(s, k, a) {
            Some(i) => 0 <= i.staked_amount as int <= staked_from(s, k),
            None => true,
        },
    decreases s.len() - k,
{
    if k < s.len() {
        lemma_staked_le_total(s, k + 1, a);
    }
}

/// Tier for a staked amount under the configured thresholds.
pub open spec fn spec_tier_for(amount: i128, c: StakingConfig) -> StakingTier {
    if amount >= c.gold_threshold {
        StakingTier::Gold
    } else if amount >= c.silver_threshold {
        StakingTier::Silver
    } else if amount >= c.bronze_threshold {
        StakingTier::Bronze
    } else {
        StakingTier::NoTier
    }
}

/// APY in basis points for a tier: the base rate plus the tier bonus.
pub open spec fn spec_apy_for_tier(t: StakingTier, c: StakingConfig) -> int {
    match t {
        StakingTier::NoTier => c.base_apy as int,
        StakingTier::Bronze => c.base_apy + c.bronze_bonus,
        StakingTier::Silver => c.base_apy + c.silver_bonus,
        StakingTier::Gold => c.base_apy + c.gold_bonus,
    }
}

/// The reward formula: annual reward (amount times APY, in basis points)
/// prorated over the elapsed seconds. The division happens before the
/// multiplication by the elapsed time on purpose: it keeps the
/// intermediate values small, at the price of truncating small rewards.
pub open spec fn spec_pending(staked: int, apy: int, elapsed: int) -> int {
    ((staked * apy) / (BASIS_POINTS as int)) * elapsed / (SECONDS_PER_YEAR as int)
}

/// Rewards pending for a record since its last checkpoint, under the tier
/// recorded with it.
pub open spec fn spec_pending_of(info: StakerInfo, c: StakingConfig, now: u64) -> int {
    if info.staked_amount <= 0 {
        0
    } else {
        spec_pending(
            info.staked_amount as int,
            spec_apy_for_tier(info.tier, c),
            elapsed_since(now, info.last_reward_claim),
        )
    }
}

/// Everything a staker could claim at `now`: the banked rewards plus the
/// newly pending ones.
pub open spec fn spec_claimable(info: StakerInfo, c: StakingConfig, now: u64) -> int {
    info.accumulated_rewards + spec_pending_of(info, c, now)
}

/// The record after staking `amount` more at `now`: pending rewards are
/// banked under the old tier first, then both checkpoints move to `now`
/// and the tier is recomputed from the new amount.
pub open spec fn spec_stake_info(
    info: StakerInfo,
    c: StakingConfig,
    amount: i128,
    now: u64,
) -> StakerInfo {
    StakerInfo {
        staked_amount: (info.staked_amount + amount) as i128,
        stake_timestamp: now,
        last_reward_claim: now,
        accumulated_rewards: (info.accumulated_rewards + spec_pending_of(info, c, now)) as i128,
        tier: spec_tier_for((info.staked_amount + amount) as i128, c),
    }
}

/// The fresh record a first-time staker starts from.
pub open spec fn spec_new_staker(now: u64) -> StakerInfo {
    StakerInfo {
        staked_amount: 0,
        stake_timestamp: now,
        last_reward_claim: now,
        accumulated_rewards: 0,
        tier: StakingTier::NoTier,
    }
}

/// Configured rates stay within machine range: tier APYs fit in `u32` and
/// penalties never exceed 100%.
pub open spec fn config_wf(c: StakingConfig) -> bool {
    &&& c.base_apy + c.bronze_bonus <= u32::MAX
    &&& c.base_apy + c.silver_bonus <= u32::MAX
    &&& c.base_apy + c.gold_bonus <= u32::MAX
    &&& c.early_unstake_penalty <= BASIS_POINTS
    &&& c.emergency_penalty <= BASIS_POINTS
}

/// The reward computation for `info` at `now` stays within `i128`. These
/// are machine limits, not policy: the host's integer width bounds them.
pub open spec fn accrual_fits(info: StakerInfo, c: StakingConfig, now: u64) -> bool {
    let apy = spec_apy_for_tier(info.tier, c);
    &&& info.staked_amount * apy <= i128::MAX
    &&& (info.staked_amount * apy / (BASIS_POINTS as int)) * elapsed_since(
        now,
        info.last_reward_claim,
    ) <= i128::MAX
    &&& info.accumulated_rewards + spec_pending_of(info, c, now) <= i128::MAX
}

/// The pending-reward amount is never negative.
pub proof fn lemma_pending_nonneg(staked: int, apy: int, elapsed: int)
    requires
        staked >= 0,
        apy >= 0,
        elapsed >= 0,
    ensures
        spec_pending(staked, apy, elapsed) >= 0,
{
    assert(staked * apy >= 0) by (nonlinear_arith)
        requires
            staked >= 0,
            apy >= 0,
    ;
    let annual = staked * apy / (BASIS_POINTS as int);
    vstd::arithmetic::div_mod::lemma_div_pos_is_pos(staked * apy, BASIS_POINTS as int);
    assert(annual * elapsed >= 0) by (nonlinear_arith)
        requires
            annual >= 0,
            elapsed >= 0,
    ;
    vstd::arithmetic::div_mod::lemma_div_pos_is_pos(annual * elapsed, SECONDS_PER_YEAR as int);
}

/// The staking contract's entire state.
///
/// The host authenticates callers before any entry point runs, and passes
/// the current ledger timestamp as `now`. Token custody moves on the
/// ledger handed in by reference: the host passes the ledger of
/// `config.staking_token` or `config.reward_token` as the entry point
/// requires.
pub struct StakingContract {
    /// The contract's own custody account on the token ledgers.
    pub contract_address: Address,
    /// `None` until `initialize` has run.
    pub config: Option<StakingConfig>,
    /// One row per address that ever staked.
    pub stakers: Vec<StakerEntry>,
    /// Addresses with a currently positive stake.
    pub stakers_list: Vec<Address>,
    pub total_staked: i128,
    pub reward_pool: i128,
}

impl StakingContract {
    /// Well-formedness: distinct rows with non-negative amounts, the rows
    /// add up to `total_staked`, the pool is non-negative, the configured
    /// rates are in range, and the staker list holds exactly the addresses
    /// with a positive stake.
    pub open spec fn wf(&self) -> bool {
        &&& unique_staker_addrs(self.stakers@)
        &&& infos_wf(self.stakers@)
        &&& staked_total(self.stakers@) == self.total_staked as int
        &&& self.reward_pool >= 0
        &&& match self.config {
            Some(c) => config_wf(c),
            None => true,
        }
        &&& unique_addr_seq(self.stakers_list@)
        &&& forall|a: Address|
            #[trigger] self.stakers_list@.contains(a) <==> staked_of(self.stakers@, a) > 0
    }

    pub open spec fn is_initialized(&self) -> bool {
        self.config is Some
    }

    pub open spec fn spec_config(&self) -> StakingConfig {
        match self.config {
            Some(c) => c,
            None => arbitrary(),
        }
    }

    pub open spec fn spec_staker(&self, a: Address) -> Option<StakerInfo> {
        info_of(self.stakers@, a)
    }

    /// The empty, uninitialized contract state, custodying its tokens
    /// under `contract_address`.
    pub fn new(contract_address: Address) -> (t: Self)
        ensures
            t.wf(),
            !t.is_initialized(),
            t.contract_address == contract_address,
            t.stakers@.len() == 0,
            t.stakers_list@.len() == 0,
            t.total_staked == 0,
            t.reward_pool == 0,
    {
        let t = StakingContract {
            contract_address,
            config: None,
            stakers: Vec::new(),
            stakers_list: Vec::new(),
            total_staked: 0,
            reward_pool: 0,
        };
        proof {
            assert forall|a: Address| !t.stakers_list@.contains(a) by {}
        }
        t
    }

    fn find_staker_index(&self, a: Address) -> (r: Option<usize>)
        ensures
            match r {
                Some(i) => i < self.stakers@.len() && self.stakers@[i as int].addr == a && forall|
                    j: int,
                | 0 <= j < i ==> self.stakers@[j].addr != a,
                None => forall|j: int| 0 <= j < self.stakers@.len() ==> self.stakers@[j].addr != a,
            },
    {
        let mut i: usize = 0;
        while i < self.stakers.len()
            invariant
                i <= self.stakers@.len(),
                forall|j: int| 0 <= j < i ==> self.stakers@[j].addr != a,
            decreases self.stakers@.len() - i,
        {
            if self.stakers[i].addr == a {
                return Some(i);
            }
            i = i + 1;
        }
        None
    }

    /// The staker's record, if one exists.
    pub fn get_staker_info(&self, staker: Address) -> (r: Option<StakerInfo>)
        ensures
            r == self.spec_staker(staker),
    {
        match self.find_staker_index(staker) {
            Some(i) => {
                proof {
                    lemma_info_from_skip_to(self.stakers@, 0, i as int, staker);
                }
                Some(self.stakers[i].info)
            },
            None => {
                proof {
                    lemma_info_from_skip_to(self.stakers@, 0, self.stakers@.len() as int, staker);
                }
                None
            },
        }
    }

    /// Writes `a`'s record, keeping every other record and all other
    /// fields as they were.
    fn set_staker(&mut self, a: Address, info: StakerInfo)
        requires
            unique_staker_addrs(old(self).stakers@),
            info.staked_amount >= 0,
            info.accumulated_rewards >= 0,
        ensures
            unique_staker_addrs(final(self).stakers@),
            infos_wf(old(self).stakers@) ==> infos_wf(final(self).stakers@),
            final(self).spec_staker(a) == Some(info),
            forall|b: Address| b != a ==> final(self).spec_staker(b) == old(self).spec_staker(b),
            staked_total(final(self).stakers@) == staked_total(old(self).stakers@)
                + info.staked_amount - staked_of(old(self).stakers@, a),
            final(self).contract_address == old(self).contract_address,
            final(self).config == old(self).config,
            final(self).stakers_list == old(self).stakers_list,
            final(self).total_staked == old(self).total_staked,
            final(self).reward_pool == old(self).reward_pool,
    {
        let ghost s = self.stakers@;
        match self.find_staker_index(a) {
            Some(i) => {
                let e = StakerEntry { addr: a, info };
                self.stakers.set(i, e);
                proof {
                    lemma_info_found(s, i as int, a);
                    lemma_staked_from_update(s, i as int, e, 0);
                    assert forall|b: Address| true implies {
                        &&& b == a ==> info_from(s.update(i as int, e), 0, b) == Some(info)
                        &&& b != a ==> info_from(s.update(i as int, e), 0, b) == info_from(s, 0, b)
                    } by {
                        lemma_info_from_update(s, i as int, e, 0, b);
                    }
                }
            },
            None => {
                let e = StakerEntry { addr: a, info };
                self.stakers.push(e);
                proof {
                    lemma_info_from_skip_to(s, 0, s.len() as int, a);
                    lemma_staked_from_push(s, e, 0);
                    assert forall|b: Address| true implies {
                        &&& b == a ==> info_from(s.push(e), 0, b) == Some(info)
                        &&& b != a ==> info_from(s.push(e), 0, b) == info_from(s, 0, b)
                    } by {
                        lemma_info_from_push(s, e, 0, b);
                    }
                }
            },
        }
    }

    fn list_contains(&self, a: Address) -> (r: bool)
        ensures
            r == self.stakers_list@.contains(a),
    {
        let mut i: usize = 0;
        while i < self.stakers_list.len()
            invariant
                i <= self.stakers_list@.len(),
                forall|j: int| 0 <= j < i ==> self.stakers_list@[j] != a,
            decreases self.stakers_list@.len() - i,
        {
            if self.stakers_list[i] == a {
                assert(self.stakers_list@.contains(a));
                return true;
            }
            i = i + 1;
        }
        false
    }

    /// Appends `a` to the staker list unless it is already there.
    fn add_to_stakers_list(&mut self, a: Address)
        requires
            unique_addr_seq(old(self).stakers_list@),
        ensures
            unique_addr_seq(final(self).stakers_list@),
            final(self).stakers_list@.contains(a),
            forall|b: Address|
                b != a ==> final(self).stakers_list@.contains(b) == old(self).stakers_list@.contains(b),
            final(self).stakers_list@.len() == old(self).stakers_list@.len() + if old(self).stakers_list@.contains(a) {
                0int
            } else {
                1int
            },
            final(self).contract_address == old(self).contract_address,
            final(self).config == old(self).config,
            final(self).stakers == old(self).stakers,
            final(self).total_staked == old(self).total_staked,
            final(self).reward_pool == old(self).reward_pool,
    {
        if !self.list_contains(a) {
            let ghost l = self.stakers_list@;
            self.stakers_list.push(a);
            proof {
                assert(self.stakers_list@[l.len() as int] == a);
                assert(self.stakers_list@.contains(a));
                assert forall|b: Address| b != a implies self.stakers_list@.contains(b) == l.contains(
                    b,
                ) by {
                    if self.stakers_list@.contains(b) {
                        let j = choose|j: int|
                            0 <= j < self.stakers_list@.len() && self.stakers_list@[j] == b;
                        assert(j < l.len() && l[j] == b);
                    }
                    if l.contains(b) {
                        let j = choose|j: int| 0 <= j < l.len() && l[j] == b;
                        assert(self.stakers_list@[j] == b);
                    }
                }
            }
        }
    }

    /// Removes `a` from the staker list (it appears at most once),
    /// keeping the relative order of the rest.
    fn remove_from_stakers_list(&mut self, a: Address)
        requires
            unique_addr_seq(old(self).stakers_list@),
        ensures
            unique_addr_seq(final(self).stakers_list@),
            !final(self).stakers_list@.contains(a),
            old(self).stakers_list@.contains(a) ==> exists|i: int|
                0 <= i < old(self).stakers_list@.len() && old(self).stakers_list@[i] == a && final(self).stakers_list@ == old(self).stakers_list@.remove(i),
            !old(self).stakers_list@.contains(a) ==> final(self).stakers_list@ == old(self).stakers_list@,
            forall|b: Address|
                b != a ==> final(self).stakers_list@.contains(b) == old(self).stakers_list@.contains(b),
            final(self).stakers_list@.len() == old(self).stakers_list@.len() - if old(self).stakers_list@.contains(a) {
                1int
            } else {
                0int
            },
            final(self).contract_address == old(self).contract_address,
            final(self).config == old(self).config,
            final(self).stakers == old(self).stakers,
            final(self).total_staked == old(self).total_staked,
            final(self).reward_pool == old(self).reward_pool,
    {
        let ghost l = self.stakers_list@;
        let mut idx: usize = 0;
        while idx < self.stakers_list.len() && self.stakers_list[idx] != a
            invariant
                idx <= l.len(),
                self.stakers_list@ == l,
                forall|j: int| 0 <= j < idx ==> l[j] != a,
            decreases l.len() - idx,
        {
            idx = idx + 1;
        }
        if idx == self.stakers_list.len() {
            proof {
                if l.contains(a) {
                    let j = choose|j: int| 0 <= j < l.len() && l[j] == a;
                    assert(false);
                }
            }
            return ;
        }
        proof {
            assert(l[idx as int] == a);
            assert(l.contains(a));
        }
        self.stakers_list.remove(idx);
        proof {
            l.remove_ensures(idx as int);
            let l2 = self.stakers_list@;
            assert(forall|j: int| 0 <= j < idx ==> l2[j] == l[j]);
            assert(forall|j: int| idx <= j < l2.len() ==> l2[j] == l[j + 1]);
            assert forall|m: int, n: int| 0 <= m < n < l2.len() implies l2[m] != l2[n] by {
                let m1 = if m < idx {
                    m
                } else {
                    m + 1
                };
                let n1 = if n < idx {
                    n
                } else {
                    n + 1
                };
                assert(l2[m] == l[m1] && l2[n] == l[n1]);
            }
            assert forall|m: int| 0 <= m < l2.len() implies l2[m] != a by {
                if m >= idx {
                    assert(l2[m] == l[m + 1]);
                } else {
                    assert(l2[m] == l[m]);
                }
            }
            assert(!l2.contains(a));
            assert forall|b: Address| b != a implies l2.contains(b) == l.contains(b) by {
                if l2.contains(b) {
                    let m = choose|m: int| 0 <= m < l2.len() && l2[m] == b;
                    let m1 = if m < idx {
                        m
                    } else {
                        m + 1
                    };
                    assert(l[m1] == b);
                    assert(l.contains(b));
                }
                if l.contains(b) {
                    let j = choose|j: int| 0 <= j < l.len() && l[j] == b;
                    assert(j != idx);
                    if j < idx {
                        assert(l2[j] == b);
                    } else {
                        assert(l2[j - 1] == b);
                    }
                    assert(l2.contains(b));
                }
            }
        }
    }

    /// Records the configuration. The tier bonuses, thresholds and
    /// penalties start from the standard schedule; admin setters can amend
    /// them later. Fails once a previous call has succeeded.
    pub fn initialize(
        &mut self,
        admin: Address,
        staking_token: Address,
        reward_token: Address,
        base_apy: u32,
        min_lock_period: u64,
    ) -> (r: Result<(), Error>)
        requires
            old(self).wf(),
            base_apy + 500 <= u32::MAX,
        ensures
            final(self).wf(),
            final(self).contract_address == old(self).contract_address,
            final(self).stakers == old(self).stakers,
            final(self).stakers_list == old(self).stakers_list,
            final(self).total_staked == old(self).total_staked,
            final(self).reward_pool == old(self).reward_pool,
            match r {
                Ok(()) => !old(self).is_initialized() && final(self).config == Some(
                    StakingConfig {
                        admin,
                        staking_token,
                        reward_token,
                        base_apy,
                        bronze_bonus: 100,
                        silver_bonus: 250,
                        gold_bonus: 500,
                        bronze_threshold: 1_000_000_000,
                        silver_threshold: 10_000_000_000,
                        gold_threshold: 100_000_000_000,
                        min_lock_period,
                        early_unstake_penalty: 1_000,
                        emergency_penalty: 2_000,
                        paused: false,
                    },
                ),
                Err(e) => *final(self) == *old(self) && e == Error::AlreadyInitialized && old(self).is_initialized(),
            },
    {
        if self.config.is_some() {
            return Err(Error::AlreadyInitialized);
        }
        self.config = Some(
            StakingConfig {
                admin,
                staking_token,
                reward_token,
                base_apy,
                bronze_bonus: 100,
                silver_bonus: 250,
                gold_bonus: 500,
                bronze_threshold: 1_000_000_000,
                silver_threshold: 10_000_000_000,
                gold_threshold: 100_000_000_000,
                min_lock_period,
                early_unstake_penalty: 1_000,
                emergency_penalty: 2_000,
                paused: false,
            },
        );
        Ok(())
    }

    /// Replaces the base APY and the tier bonuses (admin only).
    pub fn update_apy_config(
        &mut self,
        caller: Address,
        base_apy: u32,
        bronze_bonus: u32,
        silver_bonus: u32,
        gold_bonus: u32,
    ) -> (r: Result<(), Error>)
        requires
            old(self).wf(),
            base_apy + bronze_bonus <= u32::MAX,
            base_apy + silver_bonus <= u32::MAX,
            base_apy + gold_bonus <= u32::MAX,
        ensures
            final(self).wf(),
            final(self).contract_address == old(self).contract_address,
            final(self).stakers == old(self).stakers,
            final(self).stakers_list == old(self).stakers_list,
            final(self).total_staked == old(self).total_staked,
            final(self).reward_pool == old(self).reward_pool,
            match r {
                Ok(()) => old(self).is_initialized() && caller == old(self).spec_config().admin
                    && final(self).config == Some(
                    StakingConfig {
                        base_apy,
                        bronze_bonus,
                        silver_bonus,
                        gold_bonus,
                        ..old(self).spec_config()
                    },
                ),
                Err(e) => *final(self) == *old(self) && match e {
                    Error::NotInitialized => !old(self).is_initialized(),
                    Error::Unauthorized => old(self).is_initialized() && caller != old(self).spec_config().admin,
                    _ => false,
                },
            },
    {
        let c = match self.config {
            Some(c) => c,
            None => { return Err(Error::NotInitialized) },
        };
        if caller != c.admin {
            return Err(Error::Unauthorized);
        }
        self.config = Some(StakingConfig { base_apy, bronze_bonus, silver_bonus, gold_bonus, ..c });
        Ok(())
    }

    /// Replaces the tier thresholds (admin only). Existing records keep
    /// the tier they were computed with until their stake next changes.
    pub fn update_tier_thresholds(
        &mut self,
        caller: Address,
        bronze_threshold: i128,
        silver_threshold: i128,
        gold_threshold: i128,
    ) -> (r: Result<(), Error>)
        requires
            old(self).wf(),
        ensures
            final(self).wf(),
            final(self).contract_address == old(self).contract_address,
            final(self).stakers == old(self).stakers,
            final(self).stakers_list == old(self).stakers_list,
            final(self).total_staked == old(self).total_staked,
            final(self).reward_pool == old(self).reward_pool,
            match r {
                Ok(()) => old(self).is_initialized() && caller == old(self).spec_config().admin
                    && final(self).config == Some(
                    StakingConfig {
                        bronze_threshold,
                        silver_threshold,
                        gold_threshold,
                        ..old(self).spec_config()
                    },
                ),
                Err(e) => *final(self) == *old(self) && match e {
                    Error::NotInitialized => !old(self).is_initialized(),
                    Error::Unauthorized => old(self).is_initialized() && caller != old(self).spec_config().admin,
                    _ => false,
                },
            },
    {
        let c = match self.config {
            Some(c) => c,
            None => { return Err(Error::NotInitialized) },
        };
        if caller != c.admin {
            return Err(Error::Unauthorized);
        }
        self.config = Some(
            StakingConfig { bronze_threshold, silver_threshold, gold_threshold, ..c },
        );
        Ok(())
    }

    /// Replaces the lock period and the two penalties (admin only). A
    /// penalty is a fraction in basis points, so it cannot exceed 100%.
    pub fn update_staking_params(
        &mut self,
        caller: Address,
        min_lock_period: u64,
        early_unstake_penalty: u32,
        emergency_penalty: u32,
    ) -> (r: Result<(), Error>)
        requires
            old(self).wf(),
            early_unstake_penalty <= BASIS_POINTS,
            emergency_penalty <= BASIS_POINTS,
        ensures
            final(self).wf(),
            final(self).contract_address == old(self).contract_address,
            final(self).stakers == old(self).stakers,
            final(self).stakers_list == old(self).stakers_list,
            final(self).total_staked == old(self).total_staked,
            final(self).reward_pool == old(self).reward_pool,
            match r {
                Ok(()) => old(self).is_initialized() && caller == old(self).spec_config().admin
                    && final(self).config == Some(
                    StakingConfig {
                        min_lock_period,
                        early_unstake_penalty,
                        emergency_penalty,
                        ..old(self).spec_config()
                    },
                ),
                Err(e) => *final(self) == *old(self) && match e {
                    Error::NotInitialized => !old(self).is_initialized(),
                    Error::Unauthorized => old(self).is_initialized() && caller != old(self).spec_config().admin,
                    _ => false,
                },
            },
    {
        let c = match self.config {
            Some(c) => c,
            None => { return Err(Error::NotInitialized) },
        };
        if caller != c.admin {
            return Err(Error::Unauthorized);
        }
        self.config = Some(
            StakingConfig { min_lock_period, early_unstake_penalty, emergency_penalty, ..c },
        );
        Ok(())
    }

    /// Pauses or resumes the non-admin entry points (admin only).
    pub fn set_paused(&mut self, caller: Address, paused: bool) -> (r: Result<(), Error>)
        requires
            old(self).wf(),
        ensures
            final(self).wf(),
            final(self).contract_address == old(self).contract_address,
            final(self).stakers == old(self).stakers,
            final(self).stakers_list == old(self).stakers_list,
            final(self).total_staked == old(self).total_staked,
            final(self).reward_pool == old(self).reward_pool,
            match r {
                Ok(()) => old(self).is_initialized() && caller == old(self).spec_config().admin
                    && final(self).config == Some(
                    StakingConfig { paused, ..old(self).spec_config() },
                ),
                Err(e) => *final(self) == *old(self) && match e {
                    Error::NotInitialized => !old(self).is_initialized(),
                    Error::Unauthorized => old(self).is_initialized() && caller != old(self).spec_config().admin,
                    _ => false,
                },
            },
    {
        let c = match self.config {
            Some(c) => c,
            None => { return Err(Error::NotInitialized) },
        };
        if caller != c.admin {
            return Err(Error::Unauthorized);
        }
        self.config = Some(StakingConfig { paused, ..c });
        Ok(())
    }

    /// Funds the reward pool: moves `amount` of the reward token from the
    /// admin to the contract and grows the pool by that much (admin only).
    pub fn add_rewards(&mut self, ledger: &mut RewardToken, admin: Address, amount: i128) -> (r:
        Result<(), Error>)
        requires
            old(self).wf(),
            old(ledger).wf(),
            old(self).reward_pool + amount <= i128::MAX,
        ensures
            final(self).wf(),
            final(ledger).wf(),
            final(self).contract_address == old(self).contract_address,
            final(self).config == old(self).config,
            final(self).stakers == old(self).stakers,
            final(self).stakers_list == old(self).stakers_list,
            final(self).total_staked == old(self).total_staked,
            match r {
                Ok(()) => {
                    &&& old(self).is_initialized()
                    &&& admin == old(self).spec_config().admin
                    &&& amount > 0
                    &&& old(ledger).spec_balance(admin) >= amount
                    &&& spec_transferred(
                        old(ledger),
                        final(ledger),
                        admin,
                        old(self).contract_address,
                        amount,
                    )
                    &&& final(self).reward_pool == old(self).reward_pool + amount
                },
                Err(e) => *final(self) == *old(self) && *final(ledger) == *old(ledger) && match e {
                    Error::NotInitialized => !old(self).is_initialized(),
                    Error::Unauthorized => old(self).is_initialized() && admin != old(self).spec_config().admin,
                    Error::TransferFailed(te) => old(self).is_initialized() && admin == old(self).spec_config().admin && match te {
                        TokenError::InvalidAmount => amount <= 0,
                        TokenError::InsufficientBalance => amount > 0 && old(ledger).spec_balance(
                            admin,
                        ) < amount,
                        _ => false,
                    },
                    _ => false,
                },
            },
    {
        let c = match self.config {
            Some(c) => c,
            None => { return Err(Error::NotInitialized) },
        };
        if admin != c.admin {
            return Err(Error::Unauthorized);
        }
        let contract = self.contract_address;
        match ledger.transfer(admin, contract, amount) {
            Ok(_) => {},
            Err(te) => { return Err(Error::TransferFailed(te)) },
        }
        self.reward_pool = self.reward_pool + amount;
        Ok(())
    }

    /// The machine-range conditions for a `stake` call: totals stay within
    /// `i128` and the reward computation for the existing record fits.
    pub open spec fn stake_fits(&self, staker: Address, amount: i128, now: u64) -> bool {
        match self.config {
            Some(c) => {
                let info = match info_of(self.stakers@, staker) {
                    Some(i) => i,
                    None => spec_new_staker(now),
                };
                &&& self.total_staked + amount <= i128::MAX
                &&& accrual_fits(info, c, now)
                &&& info.staked_amount + amount <= i128::MAX
            },
            None => true,
        }
    }

    /// The machine-range conditions for an `unstake` call.
    pub open spec fn unstake_fits(&self, staker: Address, amount: i128, now: u64) -> bool {
        match self.config {
            Some(c) => match info_of(self.stakers@, staker) {
                Some(info) => accrual_fits(info, c, now) && amount * c.early_unstake_penalty
                    <= i128::MAX,
                None => true,
            },
            None => true,
        }
    }

    /// The machine-range conditions for reading or claiming rewards.
    pub open spec fn claim_fits(&self, staker: Address, now: u64) -> bool {
        match self.config {
            Some(c) => match info_of(self.stakers@, staker) {
                Some(info) => accrual_fits(info, c, now),
                None => true,
            },
            None => true,
        }
    }

    /// The machine-range condition for an emergency withdrawal.
    pub open spec fn emergency_fits(&self, staker: Address) -> bool {
        match self.config {
            Some(c) => match info_of(self.stakers@, staker) {
                Some(info) => info.staked_amount * c.emergency_penalty <= i128::MAX,
                None => true,
            },
            None => true,
        }
    }

    /// Stakes `amount` more tokens: custody moves from the staker to the
    /// contract on the staking-token ledger, rewards pending under the old
    /// tier are banked, and the tier is recomputed from the new amount.
    pub fn stake(
        &mut self,
        ledger: &mut RewardToken,
        staker: Address,
        amount: i128,
        now: u64,
    ) -> (r: Result<(), Error>)
        requires
            old(self).wf(),
            old(ledger).wf(),
            old(self).stake_fits(staker, amount, now),
        ensures
            final(self).wf(),
            final(ledger).wf(),
            final(self).contract_address == old(self).contract_address,
            final(self).config == old(self).config,
            match r {
                Ok(()) => {
                    &&& old(self).is_initialized()
                    &&& !old(self).spec_config().paused
                    &&& amount > 0
                    &&& old(ledger).spec_balance(staker) >= amount
                    &&& spec_transferred(
                        old(ledger),
                        final(ledger),
                        staker,
                        old(self).contract_address,
                        amount,
                    )
                    &&& final(self).spec_staker(staker) == Some(
                        spec_stake_info(
                            match old(self).spec_staker(staker) {
                                Some(i) => i,
                                None => spec_new_staker(now),
                            },
                            old(self).spec_config(),
                            amount,
                            now,
                        ),
                    )
                    &&& forall|b: Address|
                        b != staker ==> final(self).spec_staker(b) == old(self).spec_staker(b)
                    &&& final(self).total_staked == old(self).total_staked + amount
                    &&& final(self).reward_pool == old(self).reward_pool
                    &&& final(self).stakers_list@.contains(staker)
                    &&& forall|b: Address|
                        b != staker ==> final(self).stakers_list@.contains(b) == old(self).stakers_list@.contains(b)
                    &&& final(self).stakers_list@.len() == old(self).stakers_list@.len() + if
                        staked_of(old(self).stakers@, staker) > 0 {
                        0int
                    } else {
                        1int
                    }
                },
                Err(e) => *final(self) == *old(self) && *final(ledger) == *old(ledger) && match e {
                    Error::NotInitialized => !old(self).is_initialized(),
                    Error::ContractPaused => old(self).is_initialized() && old(self).spec_config().paused,
                    Error::InvalidAmount => old(self).is_initialized() && !old(self).spec_config().paused && amount <= 0,
                    Error::TransferFailed(te) => old(self).is_initialized() && !old(self).spec_config().paused && amount > 0 && te == TokenError::InsufficientBalance
                        && old(ledger).spec_balance(staker) < amount,
                    _ => false,
                },
            },
    {
        let c = match self.config {
            Some(c) => c,
            None => { return Err(Error::NotInitialized) },
        };
        if c.paused {
            return Err(Error::ContractPaused);
        }
        if amount <= 0 {
            return Err(Error::InvalidAmount);
        }
        let contract = self.contract_address;
        match ledger.transfer(staker, contract, amount) {
            Ok(_) => {},
            Err(te) => { return Err(Error::TransferFailed(te)) },
        }
        let mut info = match self.get_staker_info(staker) {
            Some(i) => i,
            None => StakerInfo {
                staked_amount: 0,
                stake_timestamp: now,
                last_reward_claim: now,
                accumulated_rewards: 0,
                tier: StakingTier::NoTier,
            },
        };
        let ghost info0 = info;
        proof {
            lemma_info_of_wf(self.stakers@, 0, staker);
        }
        if info.staked_amount > 0 {
            let pending = calculate_pending_rewards(&info, &c, now);
            info.accumulated_rewards = info.accumulated_rewards + pending;
        }
        info.staked_amount = info.staked_amount + amount;
        info.stake_timestamp = now;
        info.last_reward_claim = now;
        info.tier = calculate_tier(info.staked_amount, &c);
        proof {
            assert(info == spec_stake_info(info0, c, amount, now));
        }
        self.set_staker(staker, info);
        self.add_to_stakers_list(staker);
        self.total_staked = self.total_staked + amount;
        proof {
            assert forall|a: Address| #[trigger] self.stakers_list@.contains(a) <==> staked_of(
                self.stakers@,
                a,
            ) > 0 by {
                if a != staker {
                    assert(self.spec_staker(a) == old(self).spec_staker(a));
                }
            }
        }
        Ok(())
    }

    /// Unstakes `amount`: pending rewards are banked first, an early exit
    /// pays the configured basis-point penalty (withheld by the contract),
    /// and the remainder returns to the staker.
    pub fn unstake(
        &mut self,
        ledger: &mut RewardToken,
        staker: Address,
        amount: i128,
        now: u64,
    ) -> (r: Result<(), Error>)
        requires
            old(self).wf(),
            old(ledger).wf(),
            old(self).unstake_fits(staker, amount, now),
        ensures
            final(self).wf(),
            final(ledger).wf(),
            final(self).contract_address == old(self).contract_address,
            final(self).config == old(self).config,
            match r {
                Ok(()) => {
                    &&& old(self).is_initialized()
                    &&& !old(self).spec_config().paused
                    &&& amount > 0
                    &&& old(self).spec_staker(staker) is Some
                    &&& {
                        let info = old(self).spec_staker(staker)->0;
                        let c = old(self).spec_config();
                        let penalty = spec_unstake_penalty(info, c, amount, now);
                        let ret = amount - penalty;
                        &&& info.staked_amount >= amount
                        &&& final(self).spec_staker(staker) == Some(
                            spec_unstake_info(info, c, amount, now),
                        )
                        &&& ret > 0 ==> spec_transferred(
                            old(ledger),
                            final(ledger),
                            old(self).contract_address,
                            staker,
                            ret as i128,
                        )
                        &&& ret == 0 ==> *final(ledger) == *old(ledger)
                        &&& final(self).total_staked == old(self).total_staked - amount
                        &&& final(self).stakers_list@.contains(staker) <==> info.staked_amount
                            > amount
                    }
                    &&& forall|b: Address|
                        b != staker ==> final(self).spec_staker(b) == old(self).spec_staker(b)
                    &&& forall|b: Address|
                        b != staker ==> final(self).stakers_list@.contains(b) == old(self).stakers_list@.contains(b)
                    &&& final(self).reward_pool == old(self).reward_pool
                },
                Err(e) => *final(self) == *old(self) && *final(ledger) == *old(ledger) && match e {
                    Error::NotInitialized => !old(self).is_initialized(),
                    Error::ContractPaused => old(self).is_initialized() && old(self).spec_config().paused,
                    Error::InvalidAmount => old(self).is_initialized() && !old(self).spec_config().paused && amount <= 0,
                    Error::NotStaked => old(self).is_initialized() && !old(self).spec_config().paused && amount > 0 && old(self).spec_staker(staker) is None,
                    Error::InsufficientStakedBalance => old(self).is_initialized() && !old(self).spec_config().paused && amount > 0 && (match old(self).spec_staker(staker) {
                        Some(i) => i.staked_amount < amount,
                        None => false,
                    }),
                    Error::TransferFailed(te) => te == TokenError::InsufficientBalance && old(self).is_initialized() && !old(self).spec_config().paused && amount > 0 && (match old(self).spec_staker(staker) {
                        Some(info) => {
                            let ret = amount - spec_unstake_penalty(
                                info,
                                old(self).spec_config(),
                                amount,
                                now,
                            );
                            info.staked_amount >= amount && ret > 0 && old(ledger).spec_balance(
                                old(self).contract_address,
                            ) < ret
                        },
                        None => false,
                    }),
                    _ => false,
                },
            },
    {
        let c = match self.config {
            Some(c) => c,
            None => { return Err(Error::NotInitialized) },
        };
        if c.paused {
            return Err(Error::ContractPaused);
        }
        if amount <= 0 {
            return Err(Error::InvalidAmount);
        }
        let info = match self.get_staker_info(staker) {
            Some(i) => i,
            None => { return Err(Error::NotStaked) },
        };
        proof {
            lemma_info_of_wf(self.stakers@, 0, staker);
        }
        if info.staked_amount < amount {
            return Err(Error::InsufficientStakedBalance);
        }
        let pending = calculate_pending_rewards(&info, &c, now);
        let elapsed: u64 = if now >= info.stake_timestamp {
            now - info.stake_timestamp
        } else {
            0
        };
        let penalty: i128 = if elapsed < c.min_lock_period {
            proof {
                lemma_penalty_le(amount as int, c.early_unstake_penalty as int);
            }
            ((amount as u128 * (c.early_unstake_penalty as u128)) / (BASIS_POINTS as u128)) as i128
        } else {
            0
        };
        let amount_to_return = amount - penalty;
        let contract = self.contract_address;
        if amount_to_return > 0 {
            match ledger.transfer(contract, staker, amount_to_return) {
                Ok(_) => {},
                Err(te) => { return Err(Error::TransferFailed(te)) },
            }
        }
        let new_info = StakerInfo {
            staked_amount: info.staked_amount - amount,
            stake_timestamp: info.stake_timestamp,
            last_reward_claim: now,
            accumulated_rewards: info.accumulated_rewards + pending,
            tier: calculate_tier(info.staked_amount - amount, &c),
        };
        self.set_staker(staker, new_info);
        proof {
            lemma_staked_le_total(old(self).stakers@, 0, staker);
        }
        self.total_staked = self.total_staked - amount;
        if new_info.staked_amount == 0 {
            self.remove_from_stakers_list(staker);
        }
        proof {
            assert forall|a: Address| #[trigger] self.stakers_list@.contains(a) <==> staked_of(
                self.stakers@,
                a,
            ) > 0 by {
                if a != staker {
                    assert(self.spec_staker(a) == old(self).spec_staker(a));
                }
            }
        }
        Ok(())
    }

    /// Pays out everything claimable: the banked rewards plus the rewards
    /// pending since the last checkpoint, taken from the reward pool and
    /// paid from the contract's reward-token account.
    pub fn claim_rewards(&mut self, ledger: &mut RewardToken, staker: Address, now: u64) -> (r:
        Result<i128, Error>)
        requires
            old(self).wf(),
            old(ledger).wf(),
            old(self).claim_fits(staker, now),
        ensures
            final(self).wf(),
            final(ledger).wf(),
            final(self).contract_address == old(self).contract_address,
            final(self).config == old(self).config,
            final(self).total_staked == old(self).total_staked,
            final(self).stakers_list == old(self).stakers_list,
            match r {
                Ok(v) => {
                    &&& old(self).is_initialized()
                    &&& !old(self).spec_config().paused
                    &&& old(self).spec_staker(staker) is Some
                    &&& {
                        let info = old(self).spec_staker(staker)->0;
                        let c = old(self).spec_config();
                        &&& v as int == spec_claimable(info, c, now)
                        &&& v > 0
                        &&& old(self).reward_pool >= v
                        &&& final(self).reward_pool == old(self).reward_pool - v
                        &&& spec_transferred(
                            old(ledger),
                            final(ledger),
                            old(self).contract_address,
                            staker,
                            v,
                        )
                        &&& final(self).spec_staker(staker) == Some(
                            StakerInfo {
                                accumulated_rewards: 0,
                                last_reward_claim: now,
                                ..info
                            },
                        )
                    }
                    &&& forall|b: Address|
                        b != staker ==> final(self).spec_staker(b) == old(self).spec_staker(b)
                },
                Err(e) => *final(self) == *old(self) && *final(ledger) == *old(ledger) && match e {
                    Error::NotInitialized => !old(self).is_initialized(),
                    Error::ContractPaused => old(self).is_initialized() && old(self).spec_config().paused,
                    Error::NotStaked => old(self).is_initialized() && !old(self).spec_config().paused && old(self).spec_staker(staker) is None,
                    Error::NoRewardsToClaim => old(self).is_initialized() && !old(self).spec_config().paused && (match old(self).spec_staker(staker) {
                        Some(i) => spec_claimable(i, old(self).spec_config(), now) <= 0,
                        None => false,
                    }),
                    Error::InsufficientRewardPool => old(self).is_initialized() && !old(self).spec_config().paused && (match old(self).spec_staker(staker) {
                        Some(i) => spec_claimable(i, old(self).spec_config(), now) > 0 && old(self).reward_pool < spec_claimable(i, old(self).spec_config(), now),
                        None => false,
                    }),
                    Error::TransferFailed(te) => te == TokenError::InsufficientBalance && old(self).is_initialized() && !old(self).spec_config().paused && (match old(self).spec_staker(staker) {
                        Some(info) => {
                            let v = spec_claimable(info, old(self).spec_config(), now);
                            v > 0 && old(self).reward_pool >= v && old(ledger).spec_balance(
                                old(self).contract_address,
                            ) < v
                        },
                        None => false,
                    }),
                    _ => false,
                },
            },
    {
        let c = match self.config {
            Some(c) => c,
            None => { return Err(Error::NotInitialized) },
        };
        if c.paused {
            return Err(Error::ContractPaused);
        }
        let info = match self.get_staker_info(staker) {
            Some(i) => i,
            None => { return Err(Error::NotStaked) },
        };
        proof {
            lemma_info_of_wf(self.stakers@, 0, staker);
        }
        let pending = calculate_pending_rewards(&info, &c, now);
        let total_rewards = info.accumulated_rewards + pending;
        if total_rewards <= 0 {
            return Err(Error::NoRewardsToClaim);
        }
        if self.reward_pool < total_rewards {
            return Err(Error::InsufficientRewardPool);
        }
        let contract = self.contract_address;
        match ledger.transfer(contract, staker, total_rewards) {
            Ok(_) => {},
            Err(te) => { return Err(Error::TransferFailed(te)) },
        }
        let new_info = StakerInfo { accumulated_rewards: 0, last_reward_claim: now, ..info };
        self.set_staker(staker, new_info);
        self.reward_pool = self.reward_pool - total_rewards;
        proof {
            assert forall|a: Address| #[trigger] self.stakers_list@.contains(a) <==> staked_of(
                self.stakers@,
                a,
            ) > 0 by {
                if a != staker {
                    assert(self.spec_staker(a) == old(self).spec_staker(a));
                }
            }
        }
        Ok(total_rewards)
    }

    /// Withdraws the whole stake at once, working even while paused, at
    /// the higher emergency penalty. The record is zeroed entirely and any
    /// unclaimed rewards are forfeited.
    pub fn emergency_withdraw(&mut self, ledger: &mut RewardToken, staker: Address) -> (r: Result<
        i128,
        Error,
    >)
        requires
            old(self).wf(),
            old(ledger).wf(),
            old(self).emergency_fits(staker),
        ensures
            final(self).wf(),
            final(ledger).wf(),
            final(self).contract_address == old(self).contract_address,
            final(self).config == old(self).config,
            final(self).reward_pool == old(self).reward_pool,
            match r {
                Ok(v) => {
                    &&& old(self).is_initialized()
                    &&& old(self).spec_staker(staker) is Some
                    &&& {
                        let info = old(self).spec_staker(staker)->0;
                        let c = old(self).spec_config();
                        let penalty = info.staked_amount * c.emergency_penalty / (
                        BASIS_POINTS as int);
                        &&& info.staked_amount > 0
                        &&& v as int == info.staked_amount - penalty
                        &&& v > 0 ==> spec_transferred(
                            old(ledger),
                            final(ledger),
                            old(self).contract_address,
                            staker,
                            v,
                        )
                        &&& v == 0 ==> *final(ledger) == *old(ledger)
                        &&& final(self).total_staked == old(self).total_staked - info.staked_amount
                    }
                    &&& final(self).spec_staker(staker) == Some(
                        StakerInfo {
                            staked_amount: 0,
                            stake_timestamp: 0,
                            last_reward_claim: 0,
                            accumulated_rewards: 0,
                            tier: StakingTier::NoTier,
                        },
                    )
                    &&& forall|b: Address|
                        b != staker ==> final(self).spec_staker(b) == old(self).spec_staker(b)
                    &&& !final(self).stakers_list@.contains(staker)
                    &&& (exists|i: int|
                        0 <= i < old(self).stakers_list@.len() && old(self).stakers_list@[i]
                            == staker && final(self).stakers_list@ == old(self).stakers_list@.remove(
                            i,
                        ))
                    &&& forall|b: Address|
                        b != staker ==> final(self).stakers_list@.contains(b) == old(self).stakers_list@.contains(b)
                },
                Err(e) => *final(self) == *old(self) && *final(ledger) == *old(ledger) && match e {
                    Error::NotInitialized => !old(self).is_initialized(),
                    Error::NotStaked => old(self).is_initialized() && old(self).spec_staker(staker)
                        is None,
                    Error::NothingToWithdraw => old(self).is_initialized() && (match old(self).spec_staker(staker) {
                        Some(i) => i.staked_amount <= 0,
                        None => false,
                    }),
                    Error::TransferFailed(te) => te == TokenError::InsufficientBalance && old(self).is_initialized() && (match old(self).spec_staker(staker) {
                        Some(info) => {
                            let ret = info.staked_amount - info.staked_amount * old(self).spec_config().emergency_penalty / (BASIS_POINTS as int);
                            info.staked_amount > 0 && ret > 0 && old(ledger).spec_balance(
                                old(self).contract_address,
                            ) < ret
                        },
                        None => false,
                    }),
                    _ => false,
                },
            },
    {
        let c = match self.config {
            Some(c) => c,
            None => { return Err(Error::NotInitialized) },
        };
        let info = match self.get_staker_info(staker) {
            Some(i) => i,
            None => { return Err(Error::NotStaked) },
        };
        proof {
            lemma_info_of_wf(self.stakers@, 0, staker);
        }
        if info.staked_amount <= 0 {
            return Err(Error::NothingToWithdraw);
        }
        proof {
            lemma_penalty_le(info.staked_amount as int, c.emergency_penalty as int);
        }
        let penalty: i128 = ((info.staked_amount as u128 * (c.emergency_penalty as u128)) / (
        BASIS_POINTS as u128)) as i128;
        let amount_to_return = info.staked_amount - penalty;
        let contract = self.contract_address;
        if amount_to_return > 0 {
            match ledger.transfer(contract, staker, amount_to_return) {
                Ok(_) => {},
                Err(te) => { return Err(Error::TransferFailed(te)) },
            }
        }
        let zeroed = StakerInfo {
            staked_amount: 0,
            stake_timestamp: 0,
            last_reward_claim: 0,
            accumulated_rewards: 0,
            tier: StakingTier::NoTier,
        };
        self.set_staker(staker, zeroed);
        proof {
            lemma_staked_le_total(old(self).stakers@, 0, staker);
        }
        self.total_staked = self.total_staked - info.staked_amount;
        self.remove_from_stakers_list(staker);
        proof {
            assert forall|a: Address| #[trigger] self.stakers_list@.contains(a) <==> staked_of(
                self.stakers@,
                a,
            ) > 0 by {
                if a != staker {
                    assert(self.spec_staker(a) == old(self).spec_staker(a));
                }
            }
        }
        Ok(amount_to_return)
    }

    /// Everything the staker could claim right now; 0 for an address that
    /// never staked.
    pub fn get_pending_rewards(&self, staker: Address, now: u64) -> (r: i128)
        requires
            self.wf(),
            self.is_initialized(),
            self.claim_fits(staker, now),
        ensures
            r as int == match self.spec_staker(staker) {
                Some(i) => spec_claimable(i, self.spec_config(), now),
                None => 0,
            },
    {
        let c = match self.config {
            Some(c) => c,
            None => { return 0 },
        };
        proof {
            lemma_info_of_wf(self.stakers@, 0, staker);
        }
        match self.get_staker_info(staker) {
            Some(info) => {
                let pending = calculate_pending_rewards(&info, &c, now);
                info.accumulated_rewards + pending
            },
            None => 0,
        }
    }

    /// The sum of all currently staked amounts.
    pub fn get_total_staked(&self) -> (r: i128)
        ensures
            r == self.total_staked,
    {
        self.total_staked
    }

    /// The undistributed reward funds.
    pub fn get_reward_pool(&self) -> (r: i128)
        ensures
            r == self.reward_pool,
    {
        self.reward_pool
    }

    /// The current configuration.
    pub fn get_config(&self) -> (c: StakingConfig)
        requires
            self.is_initialized(),
        ensures
            c == self.spec_config(),
    {
        match self.config {
            Some(c) => c,
            None => StakingConfig {
                admin: 0,
                staking_token: 0,
                reward_token: 0,
                base_apy: 0,
                bronze_bonus: 0,
                silver_bonus: 0,
                gold_bonus: 0,
                bronze_threshold: 0,
                silver_threshold: 0,
                gold_threshold: 0,
                min_lock_period: 0,
                early_unstake_penalty: 0,
                emergency_penalty: 0,
                paused: false,
            },
        }
    }

    /// The APY the staker currently earns, in basis points; the base APY
    /// for an address that never staked.
    pub fn get_current_apy(&self, staker: Address) -> (r: u32)
        requires
            self.wf(),
            self.is_initialized(),
        ensures
            r as int == match self.spec_staker(staker) {
                Some(i) => spec_apy_for_tier(i.tier, self.spec_config()),
                None => self.spec_config().base_apy as int,
            },
    {
        let c = self.get_config();
        match self.get_staker_info(staker) {
            Some(info) => get_apy_for_tier(info.tier, &c),
            None => c.base_apy,
        }
    }

    /// Seconds until the staker's lock period ends; 0 once it has, and 0
    /// for an address that never staked.
    pub fn get_time_until_unlock(&self, staker: Address, now: u64) -> (r: u64)
        requires
            self.is_initialized(),
            match self.spec_staker(staker) {
                Some(i) => i.stake_timestamp + self.spec_config().min_lock_period <= u64::MAX,
                None => true,
            },
        ensures
            r as int == match self.spec_staker(staker) {
                Some(i) => {
                    let unlock = i.stake_timestamp + self.spec_config().min_lock_period;
                    if now >= unlock {
                        0int
                    } else {
                        unlock - now
                    }
                },
                None => 0int,
            },
    {
        let c = self.get_config();
        match self.get_staker_info(staker) {
            Some(info) => {
                let unlock = info.stake_timestamp + c.min_lock_period;
                if now >= unlock {
                    0
                } else {
                    unlock - now
                }
            },
            None => 0,
        }
    }

    /// Whether unstaking now would avoid the early penalty.
    pub fn can_unstake_without_penalty(&self, staker: Address, now: u64) -> (r: bool)
        requires
            self.is_initialized(),
            match self.spec_staker(staker) {
                Some(i) => i.stake_timestamp + self.spec_config().min_lock_period <= u64::MAX,
                None => true,
            },
        ensures
            r == match self.spec_staker(staker) {
                Some(i) => now >= i.stake_timestamp + self.spec_config().min_lock_period,
                None => true,
            },
    {
        self.get_time_until_unlock(staker, now) == 0
    }

    /// The addresses with a currently positive stake.
    pub fn get_all_stakers(&self) -> (r: &Vec<Address>)
        ensures
            r@ == self.stakers_list@,
    {
        &self.stakers_list
    }
}

fn calculate_tier(amount: i128, c: &StakingConfig) -> (r: StakingTier)
    ensures
        r == spec_tier_for(amount, *c),
{
    if amount >= c.gold_threshold {
        StakingTier::Gold
    } else if amount >= c.silver_threshold {
        StakingTier::Silver
    } else if amount >= c.bronze_threshold {
        StakingTier::Bronze
    } else {
        StakingTier::NoTier
    }
}

fn get_apy_for_tier(tier: StakingTier, c: &StakingConfig) -> (r: u32)
    requires
        config_wf(*c),
    ensures
        r as int == spec_apy_for_tier(tier, *c),
{
    match tier {
        StakingTier::NoTier => c.base_apy,
        StakingTier::Bronze => c.base_apy + c.bronze_bonus,
        StakingTier::Silver => c.base_apy + c.silver_bonus,
        StakingTier::Gold => c.base_apy + c.gold_bonus,
    }
}

fn calculate_pending_rewards(info: &StakerInfo, c: &StakingConfig, now: u64) -> (r: i128)
    requires
        config_wf(*c),
        info.staked_amount >= 0,
        info.staked_amount * spec_apy_for_tier(info.tier, *c) <= i128::MAX,
        (info.staked_amount * spec_apy_for_tier(info.tier, *c) / (BASIS_POINTS as int))
            * elapsed_since(now, info.last_reward_claim) <= i128::MAX,
    ensures
        r as int == spec_pending_of(*info, *c, now),
        r >= 0,
{
    if info.staked_amount <= 0 {
        return 0;
    }
    let elapsed: u64 = if now >= info.last_reward_claim {
        now - info.last_reward_claim
    } else {
        0
    };
    let apy = get_apy_for_tier(info.tier, c);
    let staked_u: u128 = info.staked_amount as u128;
    let annual: u128 = (staked_u * (apy as u128)) / (BASIS_POINTS as u128);
    let rewards: u128 = (annual * (elapsed as u128)) / (SECONDS_PER_YEAR as u128);
    proof {
        lemma_pending_nonneg(
            info.staked_amount as int,
            spec_apy_for_tier(info.tier, *c),
            elapsed as int,
        );
    }
    rewards as i128
}

/// The record after unstaking `amount` at `now`: pending rewards are
/// banked under the old tier, the claim checkpoint moves to `now`, the
/// stake timestamp is kept, and the tier is recomputed.
pub open spec fn spec_unstake_info(
    info: StakerInfo,
    c: StakingConfig,
    amount: i128,
    now: u64,
) -> StakerInfo {
    StakerInfo {
        staked_amount: (info.staked_amount - amount) as i128,
        stake_timestamp: info.stake_timestamp,
        last_reward_claim: now,
        accumulated_rewards: (info.accumulated_rewards + spec_pending_of(info, c, now)) as i128,
        tier: spec_tier_for((info.staked_amount - amount) as i128, c),
    }
}

/// Penalty withheld when `amount` is unstaked at `now`: the configured
/// basis-point fraction while the lock period still runs, nothing after.
pub open spec fn spec_unstake_penalty(
    info: StakerInfo,
    c: StakingConfig,
    amount: i128,
    now: u64,
) -> int {
    if elapsed_since(now, info.stake_timestamp) < c.min_lock_period {
        amount * c.early_unstake_penalty / (BASIS_POINTS as int)
    } else {
        0
    }
}

/// A basis-point fraction of a non-negative amount lies between zero and
/// the amount itself.
proof fn lemma_penalty_le(amount: int, p: int)
    requires
        0 <= amount,
        0 <= p <= BASIS_POINTS,
    ensures
        0 <= amount * p / (BASIS_POINTS as int) <= amount,
{
    let b = BASIS_POINTS as int;
    assert(amount * p >= 0) by (nonlinear_arith)
        requires
            amount >= 0,
            p >= 0,
    ;
    assert(amount * p <= amount * b) by (nonlinear_arith)
        requires
            amount >= 0,
            p <= b,
    ;
    vstd::arithmetic::div_mod::lemma_div_pos_is_pos(amount * p, b);
    vstd::arithmetic::div_mod::lemma_div_is_ordered(amount * p, amount * b, b);
    vstd::arithmetic::div_mod::lemma_div_multiples_vanish(amount, b);
    assert(amount * b == b * amount) by (nonlinear_arith);
}

/// Accrued rewards are settled under the tier that was active in each
/// interval. Changing the staked amount at `t1` banks exactly the rewards
/// pending under the old tier for the time before `t1`; what is claimable
/// at a later `t2` is that bank plus the rewards of the new record for
/// `t1..t2` alone — the tier change never rescales the earlier interval.
pub proof fn lemma_tier_change_preserves_accrued(
    info: StakerInfo,
    c: StakingConfig,
    amount: i128,
    t1: u64,
    t2: u64,
)
    requires
        info.staked_amount >= 0,
        info.accumulated_rewards >= 0,
        info.accumulated_rewards + spec_pending_of(info, c, t1) <= i128::MAX,
    ensures
        ({
            let folded = spec_stake_info(info, c, amount, t1);
            spec_claimable(folded, c, t2) == info.accumulated_rewards + spec_pending_of(info, c, t1)
                + spec_pending_of(folded, c, t2)
        }),
{
    if info.staked_amount > 0 {
        lemma_pending_nonneg(
            info.staked_amount as int,
            spec_apy_for_tier(info.tier, c),
            elapsed_since(t1, info.last_reward_claim),
        );
    }
}

} // verus!
