//! Player energy/stamina: a capped meter that regenerates linearly with
//! time (optionally multiplied by a time-boxed boost), is spent on puzzle
//! attempts, can be refilled instantly for reward tokens, and can be
//! gifted between players under a daily budget.
//!
//! Regeneration is lazy: nothing ticks in the background, the meter is
//! recomputed from its last checkpoint whenever it is read or spent. The
//! module invariant keeps every meter within `0 ..= max_energy`.
use vstd::prelude::*;
use vstd::hash_map::HashMapWithView;
use crate::{Address, elapsed_since};
use crate::token::{RewardToken, TokenError, spec_transferred};

verus! {

/// Temporary regeneration multipliers bought as powerups.
#[derive(Clone, Copy, Debug, PartialEq, Eq, Structural)]
pub enum BoostType {
    NoBoost,
    DoubleRegen,
    TripleRegen,
    QuintupleRegen,
}

/// Failure conditions of the energy entry points.
#[derive(Clone, Copy, Debug, PartialEq, Eq, Structural)]
pub enum Error {
    NotInitialized,
    AlreadyInitialized,
    InsufficientEnergy,
    MaxEnergyExceeded,
    InvalidAmount,
    BoostAlreadyActive,
    InvalidBoostType,
    ContractPaused,
    GiftLimitExceeded,
    Unauthorized,
    InvalidTimestamp,
    /// The nested token-ledger call failed; the whole call rolled back.
    TransferFailed(TokenError),
}

/// One player's meter and boost state.
#[derive(Clone, Copy, Debug, PartialEq, Eq, Structural)]
pub struct PlayerEnergy {
    /// Current energy, always within `0 ..= max_energy`.
    pub current_energy: u32,
    pub max_energy: u32,
    /// Checkpoint of the last regeneration recomputation.
    pub last_update: u64,
    pub active_boost: BoostType,
    pub boost_expires_at: u64,
    /// Energy gifted away since the player's counter was last reset.
    pub gifted_today: u32,
    pub last_gift_reset: u64,
}

/// Energy parameters; written once by `initialize` and amended by
/// `update_config`.
#[derive(Clone, Copy, Debug, PartialEq, Eq, Structural)]
pub struct EnergyConfig {
    pub admin: Address,
    pub reward_token: Address,
    /// Energy units regenerated per second, before boosts.
    pub base_regen_rate: u32,
    pub default_max_energy: u32,
    pub puzzle_energy_cost: u32,
    /// Reward-token price of an instant full refill.
    pub refill_token_cost: i128,
    pub max_gift_per_day: u32,
    pub paused: bool,
}

pub const SECONDS_PER_DAY: u64 = 86_400;

/// Regeneration multiplier of a boost.
pub open spec fn spec_boost_multiplier(b: BoostType) -> int {
    match b {
        BoostType::NoBoost => 1,
        BoostType::DoubleRegen => 2,
        BoostType::TripleRegen => 3,
        BoostType::QuintupleRegen => 5,
    }
}

/// Whether a boost is in force at `now`.
pub open spec fn spec_boost_active(p: PlayerEnergy, now: u64) -> bool {
    p.active_boost != BoostType::NoBoost && p.boost_expires_at > now
}

/// The meter after lazily applying regeneration at `now`: elapsed seconds
/// times the base rate times the boost multiplier, added with saturation
/// and capped at `max_energy`. An expired boost is cleared in passing.
/// When no time has passed the record is returned untouched.
pub open spec fn spec_regenerate(p: PlayerEnergy, c: EnergyConfig, now: u64) -> PlayerEnergy {
    let elapsed = elapsed_since(now, p.last_update);
    if elapsed == 0 {
        p
    } else {
        let mult = if spec_boost_active(p, now) {
            spec_boost_multiplier(p.active_boost)
        } else {
            1
        };
        let regen = elapsed * c.base_regen_rate * mult;
        PlayerEnergy {
            current_energy: if p.current_energy + regen >= p.max_energy {
                p.max_energy
            } else {
                (p.current_energy + regen) as u32
            },
            last_update: now,
            active_boost: if spec_boost_active(p, now) {
                p.active_boost
            } else if p.boost_expires_at <= now {
                BoostType::NoBoost
            } else {
                p.active_boost
            },
            boost_expires_at: if spec_boost_active(p, now) {
                p.boost_expires_at
            } else if p.boost_expires_at <= now {
                0
            } else {
                p.boost_expires_at
            },
            ..p
        }
    }
}

/// The record a player starts from: a full meter and no boost.
pub open spec fn spec_fresh_player(c: EnergyConfig, now: u64) -> PlayerEnergy {
    PlayerEnergy {
        current_energy: c.default_max_energy,
        max_energy: c.default_max_energy,
        last_update: now,
        active_boost: BoostType::NoBoost,
        boost_expires_at: 0,
        gifted_today: 0,
        last_gift_reset: now,
    }
}

/// The stored record of `player`, or the fresh record a first touch would
/// create.
pub open spec fn spec_player_or_fresh(
    m: Map<Address, PlayerEnergy>,
    player: Address,
    c: EnergyConfig,
    now: u64,
) -> PlayerEnergy {
    if m.contains_key(player) {
        m[player]
    } else {
        spec_fresh_player(c, now)
    }
}

/// The daily gift-window marker after a touch at `now`: advanced once a
/// full day has passed since it was last set.
pub open spec fn spec_reset_marker(marker: u64, now: u64) -> u64 {
    if elapsed_since(now, marker) >= SECONDS_PER_DAY {
        now
    } else {
        marker
    }
}

/// The energy contract's entire state.
///
/// The host authenticates callers and passes the ledger timestamp as
/// `now`; refills move reward tokens on the ledger handed in by the
/// caller.
pub struct EnergyContract {
    /// The contract's own account on the reward-token ledger.
    pub contract_address: Address,
    /// `None` until `initialize` has run.
    pub config: Option<EnergyConfig>,
    pub players: HashMapWithView<Address, PlayerEnergy>,
    pub total_players: u32,
    /// Global marker of the last daily gift-window rollover.
    pub daily_gift_reset: u64,
}

impl EnergyContract {
    /// Well-formedness: every stored meter lies within its cap.
    pub open spec fn wf(&self) -> bool {
        forall|a: Address|
            #[trigger] self.players@.contains_key(a) ==> self.players@[a].current_energy
                <= self.players@[a].max_energy
    }

    pub open spec fn is_initialized(&self) -> bool {
        self.config is Some
    }

    pub open spec fn spec_config(&self) -> EnergyConfig {
        match self.config {
            Some(c) => c,
            None => arbitrary(),
        }
    }

    /// The empty, uninitialized contract state.
    pub fn new(contract_address: Address) -> (t: Self)
        ensures
            t.wf(),
            !t.is_initialized(),
            t.contract_address == contract_address,
            t.players@ == Map::<Address, PlayerEnergy>::empty(),
            t.total_players == 0,
            t.daily_gift_reset == 0,
    {
        EnergyContract {
            contract_address,
            config: None,
            players: HashMapWithView::new(),
            total_players: 0,
            daily_gift_reset: 0,
        }
    }

    /// Records the configuration; the daily gift allowance starts at its
    /// standard value. Fails once a previous call has succeeded.
    pub fn initialize(
        &mut self,
        admin: Address,
        reward_token: Address,
        base_regen_rate: u32,
        default_max_energy: u32,
        puzzle_energy_cost: u32,
        refill_token_cost: i128,
    ) -> (r: Result<(), Error>)
        requires
            old(self).wf(),
        ensures
            final(self).wf(),
            final(self).contract_address == old(self).contract_address,
            final(self).players@ == old(self).players@,
            final(self).total_players == old(self).total_players,
            final(self).daily_gift_reset == old(self).daily_gift_reset,
            match r {
                Ok(()) => !old(self).is_initialized() && final(self).config == Some(
                    EnergyConfig {
                        admin,
                        reward_token,
                        base_regen_rate,
                        default_max_energy,
                        puzzle_energy_cost,
                        refill_token_cost,
                        max_gift_per_day: 20,
                        paused: false,
                    },
                ),
                Err(e) => *final(self) == *old(self) && e == Error::AlreadyInitialized && old(self).is_initialized(),
            },
    {
        if self.config.is_some() {
            return Err(Error::AlreadyInitialized);
        }
        self.config = Some(
            EnergyConfig {
                admin,
                reward_token,
                base_regen_rate,
                default_max_energy,
                puzzle_energy_cost,
                refill_token_cost,
                max_gift_per_day: 20,
                paused: false,
            },
        );
        Ok(())
    }

    /// Amends any subset of the tunable parameters (admin only).
    pub fn update_config(
        &mut self,
        admin: Address,
        base_regen_rate: Option<u32>,
        default_max_energy: Option<u32>,
        puzzle_energy_cost: Option<u32>,
        refill_token_cost: Option<i128>,
        max_gift_per_day: Option<u32>,
    ) -> (r: Result<(), Error>)
        requires
            old(self).wf(),
        ensures
            final(self).wf(),
            final(self).contract_address == old(self).contract_address,
            final(self).players@ == old(self).players@,
            final(self).total_players == old(self).total_players,
            final(self).daily_gift_reset == old(self).daily_gift_reset,
            match r {
                Ok(()) => old(self).is_initialized() && admin == old(self).spec_config().admin
                    && final(self).config == Some(
                    EnergyConfig {
                        base_regen_rate: match base_regen_rate {
                            Some(v) => v,
                            None => old(self).spec_config().base_regen_rate,
                        },
                        default_max_energy: match default_max_energy {
                            Some(v) => v,
                            None => old(self).spec_config().default_max_energy,
                        },
                        puzzle_energy_cost: match puzzle_energy_cost {
                            Some(v) => v,
                            None => old(self).spec_config().puzzle_energy_cost,
                        },
                        refill_token_cost: match refill_token_cost {
                            Some(v) => v,
                            None => old(self).spec_config().refill_token_cost,
                        },
                        max_gift_per_day: match max_gift_per_day {
                            Some(v) => v,
                            None => old(self).spec_config().max_gift_per_day,
                        },
                        ..old(self).spec_config()
                    },
                ),
                Err(e) => *final(self) == *old(self) && match e {
                    Error::NotInitialized => !old(self).is_initialized(),
                    Error::Unauthorized => old(self).is_initialized() && admin != old(self).spec_config().admin,
                    _ => false,
                },
            },
    {
        let mut c = match self.config {
            Some(c) => c,
            None => { return Err(Error::NotInitialized) },
        };
        if admin != c.admin {
            return Err(Error::Unauthorized);
        }
        match base_regen_rate {
            Some(v) => { c.base_regen_rate = v },
            None => {},
        }
        match default_max_energy {
            Some(v) => { c.default_max_energy = v },
            None => {},
        }
        match puzzle_energy_cost {
            Some(v) => { c.puzzle_energy_cost = v },
            None => {},
        }
        match refill_token_cost {
            Some(v) => { c.refill_token_cost = v },
            None => {},
        }
        match max_gift_per_day {
            Some(v) => { c.max_gift_per_day = v },
            None => {},
        }
        self.config = Some(c);
        Ok(())
    }

    /// Pauses or resumes the non-admin entry points (admin only).
    pub fn set_paused(&mut self, admin: Address, paused: bool) -> (r: Result<(), Error>)
        requires
            old(self).wf(),
        ensures
            final(self).wf(),
            final(self).contract_address == old(self).contract_address,
            final(self).players@ == old(self).players@,
            final(self).total_players == old(self).total_players,
            final(self).daily_gift_reset == old(self).daily_gift_reset,
            match r {
                Ok(()) => old(self).is_initialized() && admin == old(self).spec_config().admin
                    && final(self).config == Some(
                    EnergyConfig { paused, ..old(self).spec_config() },
                ),
                Err(e) => *final(self) == *old(self) && match e {
                    Error::NotInitialized => !old(self).is_initialized(),
                    Error::Unauthorized => old(self).is_initialized() && admin != old(self).spec_config().admin,
                    _ => false,
                },
            },
    {
        let c = match self.config {
            Some(c) => c,
            None => { return Err(Error::NotInitialized) },
        };
        if admin != c.admin {
            return Err(Error::Unauthorized);
        }
        self.config = Some(EnergyConfig { paused, ..c });
        Ok(())
    }

    /// The stored record of `player`, or the fresh one a first touch would
    /// create, together with whether it had to be created.
    fn lookup_player(&self, player: Address, c: &EnergyConfig, now: u64) -> (r: (
        PlayerEnergy,
        bool,
    ))
        ensures
            r.0 == spec_player_or_fresh(self.players@, player, *c, now),
            r.1 == !self.players@.contains_key(player),
    {
        match self.players.get(&player) {
            Some(p) => (*p, false),
            None => (
                PlayerEnergy {
                    current_energy: c.default_max_energy,
                    max_energy: c.default_max_energy,
                    last_update: now,
                    active_boost: BoostType::NoBoost,
                    boost_expires_at: 0,
                    gifted_today: 0,
                    last_gift_reset: now,
                },
                true,
            ),
        }
    }

    /// Stores `p` for `player`, counting the player as new when `created`
    /// holds, and — when `touch_marker` holds — rolls the daily
    /// gift-window marker forward.
    fn commit_player(&mut self, player: Address, p: PlayerEnergy, created: bool, touch_marker: bool, now: u64)
        requires
            old(self).wf(),
            p.current_energy <= p.max_energy,
            created ==> old(self).total_players < u32::MAX,
        ensures
            final(self).wf(),
            final(self).players@ == old(self).players@.insert(player, p),
            final(self).total_players == old(self).total_players + if created {
                1int
            } else {
                0int
            },
            final(self).daily_gift_reset == if touch_marker {
                spec_reset_marker(old(self).daily_gift_reset, now)
            } else {
                old(self).daily_gift_reset
            },
            final(self).contract_address == old(self).contract_address,
            final(self).config == old(self).config,
    {
        self.players.insert(player, p);
        if created {
            self.total_players = self.total_players + 1;
        }
        if touch_marker {
            if now >= self.daily_gift_reset && now - self.daily_gift_reset >= SECONDS_PER_DAY {
                self.daily_gift_reset = now;
            }
        }
        proof {
            assert forall|a: Address| #[trigger] self.players@.contains_key(a) implies self
                .players@[a].current_energy <= self.players@[a].max_energy by {
                if a != player {
                    assert(old(self).players@.contains_key(a));
                }
            }
        }
    }

    /// The player's record, creating (and storing) a fresh full-energy one
    /// on first touch, as any meter access does.
    pub fn get_player_energy(&mut self, player: Address, now: u64) -> (r: Result<
        PlayerEnergy,
        Error,
    >)
        requires
            old(self).wf(),
            old(self).players@.contains_key(player) || old(self).total_players < u32::MAX,
        ensures
            final(self).wf(),
            final(self).contract_address == old(self).contract_address,
            final(self).config == old(self).config,
            match r {
                Ok(p) => {
                    &&& p == spec_player_or_fresh(
                        old(self).players@,
                        player,
                        old(self).spec_config(),
                        now,
                    )
                    &&& old(self).players@.contains_key(player) || old(self).is_initialized()
                    &&& final(self).players@ == old(self).players@.insert(player, p)
                    &&& final(self).total_players == old(self).total_players + if old(self).players@.contains_key(player) {
                        0int
                    } else {
                        1int
                    }
                    &&& final(self).daily_gift_reset == if old(self).players@.contains_key(
                        player,
                    ) {
                        spec_reset_marker(old(self).daily_gift_reset, now)
                    } else {
                        old(self).daily_gift_reset
                    }
                },
                Err(e) => *final(self) == *old(self) && e == Error::NotInitialized && !old(self).is_initialized() && !old(self).players@.contains_key(player),
            },
    {
        let existing: Option<PlayerEnergy> = match self.players.get(&player) {
            Some(p) => Some(*p),
            None => None,
        };
        match existing {
            Some(p) => {
                self.commit_player(player, p, false, true, now);
                Ok(p)
            },
            None => {
                let c = match self.config {
                    Some(c) => c,
                    None => { return Err(Error::NotInitialized) },
                };
                let fresh = PlayerEnergy {
                    current_energy: c.default_max_energy,
                    max_energy: c.default_max_energy,
                    last_update: now,
                    active_boost: BoostType::NoBoost,
                    boost_expires_at: 0,
                    gifted_today: 0,
                    last_gift_reset: now,
                };
                self.commit_player(player, fresh, true, false, now);
                Ok(fresh)
            },
        }
    }

    /// Spends one puzzle attempt's worth of energy, after lazily applying
    /// regeneration; fails when the regenerated meter is still short.
    pub fn consume_energy_for_puzzle(&mut self, player: Address, now: u64) -> (r: Result<
        (),
        Error,
    >)
        requires
            old(self).wf(),
            old(self).players@.contains_key(player) || old(self).total_players < u32::MAX,
        ensures
            final(self).wf(),
            final(self).contract_address == old(self).contract_address,
            final(self).config == old(self).config,
            match r {
                Ok(()) => {
                    let c = old(self).spec_config();
                    let p1 = spec_regenerate(
                        spec_player_or_fresh(old(self).players@, player, c, now),
                        c,
                        now,
                    );
                    &&& old(self).is_initialized()
                    &&& !c.paused
                    &&& p1.current_energy >= c.puzzle_energy_cost
                    &&& final(self).players@ == old(self).players@.insert(
                        player,
                        PlayerEnergy {
                            current_energy: (p1.current_energy - c.puzzle_energy_cost) as u32,
                            last_update: now,
                            ..p1
                        },
                    )
                    &&& final(self).total_players == old(self).total_players + if old(self).players@.contains_key(player) {
                        0int
                    } else {
                        1int
                    }
                    &&& final(self).daily_gift_reset == (if old(self).players@.contains_key(
                        player,
                    ) {
                        spec_reset_marker(old(self).daily_gift_reset, now)
                    } else {
                        old(self).daily_gift_reset
                    })
                },
                Err(e) => *final(self) == *old(self) && match e {
                    Error::NotInitialized => !old(self).is_initialized(),
                    Error::ContractPaused => old(self).is_initialized() && old(self).spec_config().paused,
                    Error::InsufficientEnergy => old(self).is_initialized() && !old(self).spec_config().paused && spec_regenerate(
                        spec_player_or_fresh(
                            old(self).players@,
                            player,
                            old(self).spec_config(),
                            now,
                        ),
                        old(self).spec_config(),
                        now,
                    ).current_energy < old(self).spec_config().puzzle_energy_cost,
                    _ => false,
                },
            },
    {
        let c = match self.config {
            Some(c) => c,
            None => { return Err(Error::NotInitialized) },
        };
        if c.paused {
            return Err(Error::ContractPaused);
        }
        let (p0, created) = self.lookup_player(player, &c, now);
        let p1 = apply_regeneration(&p0, &c, now);
        if p1.current_energy < c.puzzle_energy_cost {
            return Err(Error::InsufficientEnergy);
        }
        let p2 = PlayerEnergy {
            current_energy: p1.current_energy - c.puzzle_energy_cost,
            last_update: now,
            ..p1
        };
        self.commit_player(player, p2, created, !created, now);
        Ok(())
    }

    /// Refills the meter to its cap in exchange for the configured price
    /// in reward tokens, which moves to the contract's account. Returns
    /// how much energy was added. The stored meter is read as-is; the
    /// refill does not first apply regeneration.
    pub fn instant_refill(&mut self, ledger: &mut RewardToken, player: Address, now: u64) -> (r:
        Result<u32, Error>)
        requires
            old(self).wf(),
            old(ledger).wf(),
            old(self).players@.contains_key(player) || old(self).total_players < u32::MAX,
        ensures
            final(self).wf(),
            final(ledger).wf(),
            final(self).contract_address == old(self).contract_address,
            final(self).config == old(self).config,
            match r {
                Ok(v) => {
                    let c = old(self).spec_config();
                    let p0 = spec_player_or_fresh(old(self).players@, player, c, now);
                    &&& old(self).is_initialized()
                    &&& !c.paused
                    &&& c.refill_token_cost > 0
                    &&& old(ledger).spec_balance(player) >= c.refill_token_cost
                    &&& spec_transferred(
                        old(ledger),
                        final(ledger),
                        player,
                        old(self).contract_address,
                        c.refill_token_cost,
                    )
                    &&& v == p0.max_energy - p0.current_energy
                    &&& final(self).players@ == old(self).players@.insert(
                        player,
                        PlayerEnergy {
                            current_energy: p0.max_energy,
                            last_update: now,
                            ..p0
                        },
                    )
                    &&& final(self).total_players == old(self).total_players + if old(self).players@.contains_key(player) {
                        0int
                    } else {
                        1int
                    }
                    &&& final(self).daily_gift_reset == (if old(self).players@.contains_key(
                        player,
                    ) {
                        spec_reset_marker(old(self).daily_gift_reset, now)
                    } else {
                        old(self).daily_gift_reset
                    })
                },
                Err(e) => *final(self) == *old(self) && *final(ledger) == *old(ledger) && match e {
                    Error::NotInitialized => !old(self).is_initialized(),
                    Error::ContractPaused => old(self).is_initialized() && old(self).spec_config().paused,
                    Error::InsufficientEnergy => old(self).is_initialized() && !old(self).spec_config().paused && old(ledger).spec_balance(player) < old(self).spec_config().refill_token_cost,
                    Error::TransferFailed(te) => old(self).is_initialized() && !old(self).spec_config().paused && old(ledger).spec_balance(player) >= old(self).spec_config().refill_token_cost && te == TokenError::InvalidAmount && old(self).spec_config().refill_token_cost <= 0,
                    _ => false,
                },
            },
    {
        let c = match self.config {
            Some(c) => c,
            None => { return Err(Error::NotInitialized) },
        };
        if c.paused {
            return Err(Error::ContractPaused);
        }
        let balance = ledger.balance(player);
        if balance < c.refill_token_cost {
            return Err(Error::InsufficientEnergy);
        }
        let contract = self.contract_address;
        match ledger.transfer(player, contract, c.refill_token_cost) {
            Ok(_) => {},
            Err(te) => { return Err(Error::TransferFailed(te)) },
        }
        let (p0, created) = self.lookup_player(player, &c, now);
        let refilled = p0.max_energy - p0.current_energy;
        let p1 = PlayerEnergy { current_energy: p0.max_energy, last_update: now, ..p0 };
        self.commit_player(player, p1, created, !created, now);
        Ok(refilled)
    }

    /// Gifts `amount` energy to another player. Both meters are
    /// regenerated first; the sender must have the energy and daily
    /// budget, and the receiver's meter must not overflow its cap.
    pub fn gift_energy(
        &mut self,
        from_player: Address,
        to_player: Address,
        amount: u32,
        now: u64,
    ) -> (r: Result<(), Error>)
        requires
            old(self).wf(),
            old(self).total_players <= u32::MAX - 2,
        ensures
            final(self).wf(),
            final(self).contract_address == old(self).contract_address,
            final(self).config == old(self).config,
            match r {
                Ok(()) => {
                    let c = old(self).spec_config();
                    let f1 = spec_regenerate(
                        spec_player_or_fresh(old(self).players@, from_player, c, now),
                        c,
                        now,
                    );
                    let t1 = spec_regenerate(
                        spec_player_or_fresh(old(self).players@, to_player, c, now),
                        c,
                        now,
                    );
                    &&& old(self).is_initialized()
                    &&& !c.paused
                    &&& from_player != to_player
                    &&& amount > 0
                    &&& f1.current_energy >= amount
                    &&& f1.gifted_today + amount <= c.max_gift_per_day
                    &&& t1.current_energy + amount <= t1.max_energy
                    &&& final(self).players@ == old(self).players@.insert(
                        from_player,
                        PlayerEnergy {
                            current_energy: (f1.current_energy - amount) as u32,
                            gifted_today: (f1.gifted_today + amount) as u32,
                            last_update: now,
                            ..f1
                        },
                    ).insert(
                        to_player,
                        PlayerEnergy {
                            current_energy: (t1.current_energy + amount) as u32,
                            last_update: now,
                            ..t1
                        },
                    )
                    &&& final(self).daily_gift_reset == spec_reset_marker(
                        old(self).daily_gift_reset,
                        now,
                    )
                    &&& final(self).total_players == old(self).total_players + (if old(
                        self,
                    ).players@.contains_key(from_player) {
                        0int
                    } else {
                        1int
                    }) + (if old(self).players@.contains_key(to_player) {
                        0int
                    } else {
                        1int
                    })
                },
                Err(e) => *final(self) == *old(self) && match e {
                    Error::NotInitialized => !old(self).is_initialized(),
                    Error::ContractPaused => old(self).is_initialized() && old(self).spec_config().paused,
                    Error::InvalidAmount => old(self).is_initialized() && !old(self).spec_config().paused && (from_player == to_player || amount == 0),
                    _ => old(self).is_initialized() && !old(self).spec_config().paused
                        && from_player != to_player && amount > 0 && {
                        let c = old(self).spec_config();
                        let f1 = spec_regenerate(
                            spec_player_or_fresh(old(self).players@, from_player, c, now),
                            c,
                            now,
                        );
                        let t1 = spec_regenerate(
                            spec_player_or_fresh(old(self).players@, to_player, c, now),
                            c,
                            now,
                        );
                        match e {
                            Error::InsufficientEnergy => f1.current_energy < amount,
                            Error::GiftLimitExceeded => f1.current_energy >= amount
                                && f1.gifted_today + amount > c.max_gift_per_day,
                            Error::MaxEnergyExceeded => f1.current_energy >= amount
                                && f1.gifted_today + amount <= c.max_gift_per_day
                                && t1.current_energy + amount > t1.max_energy,
                            _ => false,
                        }
                    },
                },
            },
    {
        let c = match self.config {
            Some(c) => c,
            None => { return Err(Error::NotInitialized) },
        };
        if c.paused {
            return Err(Error::ContractPaused);
        }
        if from_player == to_player {
            return Err(Error::InvalidAmount);
        }
        if amount == 0 {
            return Err(Error::InvalidAmount);
        }
        let (f0, f_created) = self.lookup_player(from_player, &c, now);
        let f1 = apply_regeneration(&f0, &c, now);
        if f1.current_energy < amount {
            return Err(Error::InsufficientEnergy);
        }
        if (f1.gifted_today as u64) + (amount as u64) > (c.max_gift_per_day as u64) {
            return Err(Error::GiftLimitExceeded);
        }
        let (t0, t_created) = self.lookup_player(to_player, &c, now);
        let t1 = apply_regeneration(&t0, &c, now);
        if (t1.current_energy as u64) + (amount as u64) > (t1.max_energy as u64) {
            return Err(Error::MaxEnergyExceeded);
        }
        let f2 = PlayerEnergy {
            current_energy: f1.current_energy - amount,
            gifted_today: f1.gifted_today + amount,
            last_update: now,
            ..f1
        };
        let t2 = PlayerEnergy {
            current_energy: t1.current_energy + amount,
            last_update: now,
            ..t1
        };
        self.commit_player(from_player, f2, f_created, true, now);
        self.commit_player(to_player, t2, t_created, false, now);
        Ok(())
    }

    /// Activates a regeneration boost for `duration_seconds`, unless one
    /// is already running.
    pub fn apply_boost(
        &mut self,
        player: Address,
        boost_type: BoostType,
        duration_seconds: u64,
        now: u64,
    ) -> (r: Result<(), Error>)
        requires
            old(self).wf(),
            old(self).players@.contains_key(player) || old(self).total_players < u32::MAX,
            now + duration_seconds <= u64::MAX,
        ensures
            final(self).wf(),
            final(self).contract_address == old(self).contract_address,
            final(self).config == old(self).config,
            match r {
                Ok(()) => {
                    let c = old(self).spec_config();
                    let p0 = spec_player_or_fresh(old(self).players@, player, c, now);
                    &&& old(self).is_initialized()
                    &&& !c.paused
                    &&& boost_type != BoostType::NoBoost
                    &&& !spec_boost_active(p0, now)
                    &&& final(self).players@ == old(self).players@.insert(
                        player,
                        PlayerEnergy {
                            active_boost: boost_type,
                            boost_expires_at: (now + duration_seconds) as u64,
                            last_update: now,
                            ..p0
                        },
                    )
                    &&& final(self).total_players == old(self).total_players + if old(self).players@.contains_key(player) {
                        0int
                    } else {
                        1int
                    }
                    &&& final(self).daily_gift_reset == (if old(self).players@.contains_key(
                        player,
                    ) {
                        spec_reset_marker(old(self).daily_gift_reset, now)
                    } else {
                        old(self).daily_gift_reset
                    })
                },
                Err(e) => *final(self) == *old(self) && match e {
                    Error::NotInitialized => !old(self).is_initialized(),
                    Error::ContractPaused => old(self).is_initialized() && old(self).spec_config().paused,
                    Error::InvalidBoostType => old(self).is_initialized() && !old(self).spec_config().paused && boost_type == BoostType::NoBoost,
                    Error::BoostAlreadyActive => old(self).is_initialized() && !old(self).spec_config().paused && boost_type != BoostType::NoBoost
                        && spec_boost_active(
                        spec_player_or_fresh(
                            old(self).players@,
                            player,
                            old(self).spec_config(),
                            now,
                        ),
                        now,
                    ),
                    _ => false,
                },
            },
    {
        let c = match self.config {
            Some(c) => c,
            None => { return Err(Error::NotInitialized) },
        };
        if c.paused {
            return Err(Error::ContractPaused);
        }
        let is_no_boost = match boost_type {
            BoostType::NoBoost => true,
            _ => false,
        };
        if is_no_boost {
            return Err(Error::InvalidBoostType);
        }
        let (p0, created) = self.lookup_player(player, &c, now);
        let p0_active = match p0.active_boost {
            BoostType::NoBoost => false,
            _ => p0.boost_expires_at > now,
        };
        if p0_active {
            return Err(Error::BoostAlreadyActive);
        }
        let p1 = PlayerEnergy {
            active_boost: boost_type,
            boost_expires_at: now + duration_seconds,
            last_update: now,
            ..p0
        };
        self.commit_player(player, p1, created, !created, now);
        Ok(())
    }

    /// The meter's current value with regeneration applied. Reading does
    /// not write the regenerated value back; only a first touch stores the
    /// player's fresh record.
    pub fn get_current_energy(&mut self, player: Address, now: u64) -> (r: Result<u32, Error>)
        requires
            old(self).wf(),
            old(self).players@.contains_key(player) || old(self).total_players < u32::MAX,
        ensures
            final(self).wf(),
            final(self).contract_address == old(self).contract_address,
            final(self).config == old(self).config,
            match r {
                Ok(v) => {
                    let c = old(self).spec_config();
                    let p0 = spec_player_or_fresh(old(self).players@, player, c, now);
                    &&& old(self).is_initialized()
                    &&& v == spec_regenerate(p0, c, now).current_energy
                    &&& final(self).players@ == old(self).players@.insert(player, p0)
                    &&& final(self).total_players == old(self).total_players + if old(self).players@.contains_key(player) {
                        0int
                    } else {
                        1int
                    }
                    &&& final(self).daily_gift_reset == (if old(self).players@.contains_key(
                        player,
                    ) {
                        spec_reset_marker(old(self).daily_gift_reset, now)
                    } else {
                        old(self).daily_gift_reset
                    })
                },
                Err(e) => *final(self) == *old(self) && e == Error::NotInitialized && !old(self).is_initialized(),
            },
    {
        let c = match self.config {
            Some(c) => c,
            None => { return Err(Error::NotInitialized) },
        };
        let (p0, created) = self.lookup_player(player, &c, now);
        let p1 = apply_regeneration(&p0, &c, now);
        self.commit_player(player, p0, created, !created, now);
        Ok(p1.current_energy)
    }

    /// The stored record without touching regeneration or creating one.
    pub fn get_player_energy_info(&self, player: Address) -> (r: Option<PlayerEnergy>)
        ensures
            r == if self.players@.contains_key(player) {
                Some(self.players@[player])
            } else {
                None::<PlayerEnergy>
            },
    {
        match self.players.get(&player) {
            Some(p) => Some(*p),
            None => None,
        }
    }

    /// The current configuration.
    pub fn get_config(&self) -> (c: EnergyConfig)
        requires
            self.is_initialized(),
        ensures
            c == self.spec_config(),
    {
        match self.config {
            Some(c) => c,
            None => EnergyConfig {
                admin: 0,
                reward_token: 0,
                base_regen_rate: 0,
                default_max_energy: 0,
                puzzle_energy_cost: 0,
                refill_token_cost: 0,
                max_gift_per_day: 0,
                paused: false,
            },
        }
    }

    /// How many distinct players have a record.
    pub fn get_total_players(&self) -> (r: u32)
        ensures
            r == self.total_players,
    {
        self.total_players
    }
}

fn apply_regeneration(p: &PlayerEnergy, c: &EnergyConfig, now: u64) -> (r: PlayerEnergy)
    requires
        p.current_energy <= p.max_energy,
    ensures
        r == spec_regenerate(*p, *c, now),
        r.current_energy <= r.max_energy,
        r.max_energy == p.max_energy,
{
    if now <= p.last_update {
        return *p;
    }
    let elapsed: u64 = now - p.last_update;
    let active = match p.active_boost {
        BoostType::NoBoost => false,
        _ => p.boost_expires_at > now,
    };
    let mult: u32 = if active {
        match p.active_boost {
            BoostType::NoBoost => 1,
            BoostType::DoubleRegen => 2,
            BoostType::TripleRegen => 3,
            BoostType::QuintupleRegen => 5,
        }
    } else {
        1
    };
    proof {
        vstd::arithmetic::mul::lemma_mul_upper_bound(
            elapsed as int,
            u64::MAX as int,
            c.base_regen_rate as int,
            u32::MAX as int,
        );
        vstd::arithmetic::mul::lemma_mul_upper_bound(
            (elapsed as int) * (c.base_regen_rate as int),
            (u64::MAX as int) * (u32::MAX as int),
            mult as int,
            5,
        );
    }
    let regen: u128 = (elapsed as u128) * (c.base_regen_rate as u128) * (mult as u128);
    let total: u128 = (p.current_energy as u128) + regen;
    let new_energy: u32 = if total >= (p.max_energy as u128) {
        p.max_energy
    } else {
        total as u32
    };
    let (boost, expires) = if active {
        (p.active_boost, p.boost_expires_at)
    } else if p.boost_expires_at <= now {
        (BoostType::NoBoost, 0u64)
    } else {
        (p.active_boost, p.boost_expires_at)
    };
    PlayerEnergy {
        current_energy: new_energy,
        last_update: now,
        active_boost: boost,
        boost_expires_at: expires,
        ..*p
    }
}

/// The meter stays within its bounds: in every well-formed state, every
/// stored record's energy lies within `0 ..= max_energy`, and applying
/// regeneration at any timestamp keeps it there.
pub proof fn lemma_energy_within_bounds(
    e: &EnergyContract,
    player: Address,
    c: EnergyConfig,
    now: u64,
)
    requires
        e.wf(),
        e.players@.contains_key(player),
    ensures
        0 <= e.players@[player].current_energy <= e.players@[player].max_energy,
        0 <= spec_regenerate(e.players@[player], c, now).current_energy <= spec_regenerate(
            e.players@[player],
            c,
            now,
        ).max_energy,
{
}

/// The regenerated meter value is a pure function of the stored
/// checkpoint and the clock, and reading it stores at most the missing
/// record's fresh value: a repeated read at the same timestamp, with no
/// state-changing call in between, returns the same value.
pub proof fn lemma_energy_read_idempotent(
    m: Map<Address, PlayerEnergy>,
    player: Address,
    c: EnergyConfig,
    now: u64,
)
    ensures
        ({
            let after_first = m.insert(player, spec_player_or_fresh(m, player, c, now));
            spec_regenerate(
                spec_player_or_fresh(after_first, player, c, now),
                c,
                now,
            ).current_energy == spec_regenerate(
                spec_player_or_fresh(m, player, c, now),
                c,
                now,
            ).current_energy
        }),
{
}

} // verus!
