//! Tournaments: players register while open, paying an entry fee into
//! the prize pool; the admin starts the bracket, declares the final
//! winner (who receives the whole pool), or cancels, after which each
//! participant can pull their fee back once. The state machine moves
//! `Open -> Started -> Ended`, with `Cancelled` reachable from any
//! non-ended state and, like `Ended`, final.
use vstd::prelude::*;
use crate::Address;
use crate::token::{RewardToken, TokenError, spec_transferred};

verus! {

/// Lifecycle of a tournament. `Ended` and `Cancelled` are final.
#[derive(Clone, Copy, Debug, PartialEq, Eq, Structural)]
pub enum TournamentState {
    Open,
    Started,
    Ended,
    Cancelled,
}

/// Tournament parameters.
#[derive(Clone, Copy, Debug, PartialEq, Eq, Structural)]
pub struct TournamentConfig {
    pub admin: Address,
    /// The entry-fee token's ledger address.
    pub token: Address,
    pub entry_fee: i128,
}

/// One bracket match. Declared for a future bracketed version; the
/// current entry points resolve the tournament with a single winner
/// declaration and never read this type.
#[derive(Clone, Copy, Debug, PartialEq, Eq, Structural)]
pub struct Match {
    pub p1: Address,
    pub p2: Address,
    pub winner: Option<Address>,
}

/// Failure conditions of the tournament entry points.
#[derive(Clone, Copy, Debug, PartialEq, Eq, Structural)]
pub enum Error {
    AlreadyInitialized,
    NotInitialized,
    NotOpen,
    AlreadyRegistered,
    NotEnoughParticipants,
    NotInProgress,
    NotAParticipant,
    CannotCancelEnded,
    NotCancelled,
    /// The nested token-ledger call failed; the whole call rolled back.
    TransferFailed(TokenError),
}

/// No address appears twice.
pub open spec fn unique_addrs(s: Seq<Address>) -> bool {
    forall|i: int, j: int| 0 <= i < j < s.len() ==> s[i] != s[j]
}

/// The tournament contract's entire state.
///
/// The host authenticates callers; fees and prizes move on the token
/// ledger handed in by the caller, under the contract's own account.
pub struct TournamentContract {
    /// The prize-pool account on the token ledger.
    pub contract_address: Address,
    /// `None` until `initialize` has run.
    pub config: Option<TournamentConfig>,
    pub state: TournamentState,
    pub participants: Vec<Address>,
    pub total_prize: i128,
}

impl TournamentContract {
    /// Well-formedness: no participant registers twice and the recorded
    /// pool is non-negative.
    pub open spec fn wf(&self) -> bool {
        &&& unique_addrs(self.participants@)
        &&& self.total_prize >= 0
    }

    pub open spec fn is_initialized(&self) -> bool {
        self.config is Some
    }

    pub open spec fn spec_config(&self) -> TournamentConfig {
        match self.config {
            Some(c) => c,
            None => arbitrary(),
        }
    }

    /// The empty, uninitialized contract state.
    pub fn new(contract_address: Address) -> (t: Self)
        ensures
            t.wf(),
            !t.is_initialized(),
            t.contract_address == contract_address,
            t.state == TournamentState::Open,
            t.participants@.len() == 0,
            t.total_prize == 0,
    {
        TournamentContract {
            contract_address,
            config: None,
            state: TournamentState::Open,
            participants: Vec::new(),
            total_prize: 0,
        }
    }

    /// Records the configuration and opens registration. Fails once a
    /// previous call has succeeded.
    pub fn initialize(&mut self, admin: Address, token: Address, entry_fee: i128) -> (r: Result<
        (),
        Error,
    >)
        requires
            old(self).wf(),
        ensures
            final(self).wf(),
            final(self).contract_address == old(self).contract_address,
            match r {
                Ok(()) => !old(self).is_initialized() && final(self).config == Some(
                    TournamentConfig { admin, token, entry_fee },
                ) && final(self).state == TournamentState::Open && final(self).participants@.len()
                    == 0 && final(self).total_prize == 0,
                Err(e) => *final(self) == *old(self) && e == Error::AlreadyInitialized && old(self).is_initialized(),
            },
    {
        if self.config.is_some() {
            return Err(Error::AlreadyInitialized);
        }
        self.config = Some(TournamentConfig { admin, token, entry_fee });
        self.state = TournamentState::Open;
        self.participants = Vec::new();
        self.total_prize = 0;
        Ok(())
    }

    fn contains_participant(&self, a: Address) -> (r: bool)
        ensures
            r == self.participants@.contains(a),
    {
        let mut i: usize = 0;
        while i < self.participants.len()
            invariant
                i <= self.participants@.len(),
                forall|j: int| 0 <= j < i ==> self.participants@[j] != a,
            decreases self.participants@.len() - i,
        {
            if self.participants[i] == a {
                assert(self.participants@.contains(a));
                return true;
            }
            i = i + 1;
        }
        false
    }

    /// Registers a player while the tournament is open: the entry fee
    /// moves into the prize pool.
    pub fn register(&mut self, ledger: &mut RewardToken, player: Address) -> (r: Result<(), Error>)
        requires
            old(self).wf(),
            old(ledger).wf(),
            old(self).total_prize + (match old(self).config {
                Some(c) => c.entry_fee as int,
                None => 0int,
            }) <= i128::MAX,
        ensures
            final(self).wf(),
            final(ledger).wf(),
            final(self).contract_address == old(self).contract_address,
            final(self).config == old(self).config,
            match r {
                Ok(()) => {
                    let fee = old(self).spec_config().entry_fee;
                    &&& old(self).is_initialized()
                    &&& old(self).state == TournamentState::Open
                    &&& !old(self).participants@.contains(player)
                    &&& fee > 0
                    &&& old(ledger).spec_balance(player) >= fee
                    &&& spec_transferred(
                        old(ledger),
                        final(ledger),
                        player,
                        old(self).contract_address,
                        fee,
                    )
                    &&& final(self).total_prize == old(self).total_prize + fee
                    &&& final(self).participants@ == old(self).participants@.push(player)
                    &&& final(self).state == TournamentState::Open
                },
                Err(e) => *final(self) == *old(self) && *final(ledger) == *old(ledger) && match e {
                    Error::NotInitialized => !old(self).is_initialized(),
                    Error::NotOpen => old(self).is_initialized() && old(self).state
                        != TournamentState::Open,
                    Error::AlreadyRegistered => old(self).is_initialized() && old(self).state
                        == TournamentState::Open && old(self).participants@.contains(player),
                    Error::TransferFailed(te) => old(self).is_initialized() && old(self).state
                        == TournamentState::Open && !old(self).participants@.contains(player)
                        && match te {
                        TokenError::InvalidAmount => old(self).spec_config().entry_fee <= 0,
                        TokenError::InsufficientBalance => old(self).spec_config().entry_fee > 0
                            && old(ledger).spec_balance(player) < old(self).spec_config().entry_fee,
                        _ => false,
                    },
                    _ => false,
                },
            },
    {
        let c = match self.config {
            Some(c) => c,
            None => { return Err(Error::NotInitialized) },
        };
        let is_open = match self.state {
            TournamentState::Open => true,
            _ => false,
        };
        if !is_open {
            return Err(Error::NotOpen);
        }
        if self.contains_participant(player) {
            return Err(Error::AlreadyRegistered);
        }
        let contract = self.contract_address;
        match ledger.transfer(player, contract, c.entry_fee) {
            Ok(_) => {},
            Err(te) => { return Err(Error::TransferFailed(te)) },
        }
        self.total_prize = self.total_prize + c.entry_fee;
        let ghost p = self.participants@;
        self.participants.push(player);
        proof {
            assert forall|m: int, n: int|
                0 <= m < n < self.participants@.len() implies self.participants@[m]
                != self.participants@[n] by {
                if n == p.len() {
                    assert(self.participants@[m] == p[m]);
                    if self.participants@[m] == player {
                        assert(p.contains(player));
                    }
                }
            }
        }
        Ok(())
    }

    /// Starts the tournament (admin only) once at least two players have
    /// registered; registration closes.
    pub fn start_tournament(&mut self, caller: Address) -> (r: Result<(), Error>)
        requires
            old(self).wf(),
        ensures
            final(self).wf(),
            final(self).contract_address == old(self).contract_address,
            final(self).config == old(self).config,
            final(self).participants == old(self).participants,
            final(self).total_prize == old(self).total_prize,
            match r {
                Ok(()) => old(self).is_initialized() && caller == old(self).spec_config().admin
                    && old(self).state == TournamentState::Open && old(self).participants@.len()
                    >= 2 && final(self).state == TournamentState::Started,
                Err(e) => *final(self) == *old(self) && match e {
                    Error::NotInitialized => !old(self).is_initialized(),
                    Error::NotAParticipant => old(self).is_initialized() && caller != old(self).spec_config().admin,
                    Error::NotOpen => old(self).is_initialized() && caller == old(self).spec_config().admin && old(self).state != TournamentState::Open,
                    Error::NotEnoughParticipants => old(self).is_initialized() && caller == old(self).spec_config().admin && old(self).state == TournamentState::Open && old(self).participants@.len() < 2,
                    _ => false,
                },
            },
    {
        let c = match self.config {
            Some(c) => c,
            None => { return Err(Error::NotInitialized) },
        };
        if caller != c.admin {
            return Err(Error::NotAParticipant);
        }
        let is_open = match self.state {
            TournamentState::Open => true,
            _ => false,
        };
        if !is_open {
            return Err(Error::NotOpen);
        }
        if self.participants.len() < 2 {
            return Err(Error::NotEnoughParticipants);
        }
        self.state = TournamentState::Started;
        Ok(())
    }

    /// Declares the tournament's winner (admin only): the whole prize
    /// pool moves to the winner and the tournament ends for good. The
    /// current protocol resolves in this single call; no bracket is
    /// enforced.
    pub fn record_result(&mut self, ledger: &mut RewardToken, caller: Address, winner: Address) -> (r:
        Result<(), Error>)
        requires
            old(self).wf(),
            old(ledger).wf(),
        ensures
            final(self).wf(),
            final(ledger).wf(),
            final(self).contract_address == old(self).contract_address,
            final(self).config == old(self).config,
            final(self).participants == old(self).participants,
            final(self).total_prize == old(self).total_prize,
            match r {
                Ok(()) => {
                    &&& old(self).is_initialized()
                    &&& caller == old(self).spec_config().admin
                    &&& old(self).state == TournamentState::Started
                    &&& old(self).participants@.contains(winner)
                    &&& final(self).state == TournamentState::Ended
                    &&& old(self).total_prize > 0 ==> old(ledger).spec_balance(
                        old(self).contract_address,
                    ) >= old(self).total_prize && spec_transferred(
                        old(ledger),
                        final(ledger),
                        old(self).contract_address,
                        winner,
                        old(self).total_prize,
                    )
                    &&& old(self).total_prize == 0 ==> *final(ledger) == *old(ledger)
                },
                Err(e) => *final(self) == *old(self) && *final(ledger) == *old(ledger) && match e {
                    Error::NotInitialized => !old(self).is_initialized(),
                    Error::NotAParticipant => old(self).is_initialized() && (caller != old(self).spec_config().admin || (old(self).state == TournamentState::Started && !old(self).participants@.contains(winner))),
                    Error::NotInProgress => old(self).is_initialized() && caller == old(self).spec_config().admin && old(self).state != TournamentState::Started,
                    Error::TransferFailed(te) => te == TokenError::InsufficientBalance && old(
                        self,
                    ).is_initialized() && caller == old(self).spec_config().admin && old(self).state
                        == TournamentState::Started && old(self).participants@.contains(winner)
                        && old(self).total_prize > 0 && old(ledger).spec_balance(
                        old(self).contract_address,
                    ) < old(self).total_prize,
                    _ => false,
                },
            },
    {
        let c = match self.config {
            Some(c) => c,
            None => { return Err(Error::NotInitialized) },
        };
        if caller != c.admin {
            return Err(Error::NotAParticipant);
        }
        let is_started = match self.state {
            TournamentState::Started => true,
            _ => false,
        };
        if !is_started {
            return Err(Error::NotInProgress);
        }
        if !self.contains_participant(winner) {
            return Err(Error::NotAParticipant);
        }
        if self.total_prize > 0 {
            let contract = self.contract_address;
            let prize = self.total_prize;
            match ledger.transfer(contract, winner, prize) {
                Ok(_) => {},
                Err(te) => { return Err(Error::TransferFailed(te)) },
            }
        }
        self.state = TournamentState::Ended;
        Ok(())
    }

    /// Cancels the tournament (admin only); an ended tournament cannot
    /// be cancelled. Participants then pull their refunds individually.
    pub fn cancel_tournament(&mut self, caller: Address) -> (r: Result<(), Error>)
        requires
            old(self).wf(),
        ensures
            final(self).wf(),
            final(self).contract_address == old(self).contract_address,
            final(self).config == old(self).config,
            final(self).participants == old(self).participants,
            final(self).total_prize == old(self).total_prize,
            match r {
                Ok(()) => old(self).is_initialized() && caller == old(self).spec_config().admin
                    && old(self).state != TournamentState::Ended && final(self).state
                    == TournamentState::Cancelled,
                Err(e) => *final(self) == *old(self) && match e {
                    Error::NotInitialized => !old(self).is_initialized(),
                    Error::NotAParticipant => old(self).is_initialized() && caller != old(self).spec_config().admin,
                    Error::CannotCancelEnded => old(self).is_initialized() && caller == old(self).spec_config().admin && old(self).state == TournamentState::Ended,
                    _ => false,
                },
            },
    {
        let c = match self.config {
            Some(c) => c,
            None => { return Err(Error::NotInitialized) },
        };
        if caller != c.admin {
            return Err(Error::NotAParticipant);
        }
        let is_ended = match self.state {
            TournamentState::Ended => true,
            _ => false,
        };
        if is_ended {
            return Err(Error::CannotCancelEnded);
        }
        self.state = TournamentState::Cancelled;
        Ok(())
    }

    /// Refunds one participant of a cancelled tournament and strikes
    /// them off the list, blocking a second refund.
    pub fn withdraw_refund(&mut self, ledger: &mut RewardToken, player: Address) -> (r: Result<
        (),
        Error,
    >)
        requires
            old(self).wf(),
            old(ledger).wf(),
        ensures
            final(self).wf(),
            final(ledger).wf(),
            final(self).contract_address == old(self).contract_address,
            final(self).config == old(self).config,
            final(self).total_prize == old(self).total_prize,
            final(self).state == old(self).state,
            match r {
                Ok(()) => {
                    let fee = old(self).spec_config().entry_fee;
                    &&& old(self).is_initialized()
                    &&& old(self).state == TournamentState::Cancelled
                    &&& old(self).participants@.contains(player)
                    &&& fee > 0
                    &&& old(ledger).spec_balance(old(self).contract_address) >= fee
                    &&& spec_transferred(
                        old(ledger),
                        final(ledger),
                        old(self).contract_address,
                        player,
                        fee,
                    )
                    &&& !final(self).participants@.contains(player)
                    &&& forall|b: Address|
                        b != player ==> final(self).participants@.contains(b) == old(self).participants@.contains(b)
                    &&& final(self).participants@.len() == old(self).participants@.len() - 1
                    &&& (exists|i: int|
                        0 <= i < old(self).participants@.len() && old(self).participants@[i]
                            == player && final(self).participants@ == old(self).participants@.remove(
                            i,
                        ))
                },
                Err(e) => *final(self) == *old(self) && *final(ledger) == *old(ledger) && match e {
                    Error::NotInitialized => !old(self).is_initialized(),
                    Error::NotCancelled => old(self).is_initialized() && old(self).state
                        != TournamentState::Cancelled,
                    Error::NotAParticipant => old(self).is_initialized() && old(self).state
                        == TournamentState::Cancelled && !old(self).participants@.contains(player),
                    Error::TransferFailed(te) => old(self).is_initialized() && old(self).state
                        == TournamentState::Cancelled && old(self).participants@.contains(player)
                        && match te {
                        TokenError::InvalidAmount => old(self).spec_config().entry_fee <= 0,
                        TokenError::InsufficientBalance => old(self).spec_config().entry_fee > 0
                            && old(ledger).spec_balance(old(self).contract_address) < old(
                            self,
                        ).spec_config().entry_fee,
                        _ => false,
                    },
                    _ => false,
                },
            },
    {
        let c = match self.config {
            Some(c) => c,
            None => { return Err(Error::NotInitialized) },
        };
        let is_cancelled = match self.state {
            TournamentState::Cancelled => true,
            _ => false,
        };
        if !is_cancelled {
            return Err(Error::NotCancelled);
        }
        let idx = match self.find_participant_index(player) {
            Some(i) => i,
            None => { return Err(Error::NotAParticipant) },
        };
        let contract = self.contract_address;
        match ledger.transfer(contract, player, c.entry_fee) {
            Ok(_) => {},
            Err(te) => {
                proof {
                    assert(self.participants@.contains(player));
                }
                return Err(Error::TransferFailed(te));
            },
        }
        let ghost p = self.participants@;
        proof {
            assert(p[idx as int] == player);
            assert(p.contains(player));
        }
        self.participants.remove(idx);
        proof {
            p.remove_ensures(idx as int);
            let p2 = self.participants@;
            assert(forall|j: int| 0 <= j < idx ==> p2[j] == p[j]);
            assert(forall|j: int| idx <= j < p2.len() ==> p2[j] == p[j + 1]);
            assert forall|m: int, n: int| 0 <= m < n < p2.len() implies p2[m] != p2[n] by {
                let m1 = if m < idx {
                    m
                } else {
                    m + 1
                };
                let n1 = if n < idx {
                    n
                } else {
                    n + 1
                };
                assert(p2[m] == p[m1] && p2[n] == p[n1]);
            }
            assert forall|m: int| 0 <= m < p2.len() implies p2[m] != player by {
                if m >= idx {
                    assert(p2[m] == p[m + 1]);
                } else {
                    assert(p2[m] == p[m]);
                }
            }
            assert(!p2.contains(player));
            assert forall|b: Address| b != player implies p2.contains(b) == p.contains(b) by {
                if p2.contains(b) {
                    let m = choose|m: int| 0 <= m < p2.len() && p2[m] == b;
                    let m1 = if m < idx {
                        m
                    } else {
                        m + 1
                    };
                    assert(p[m1] == b);
                    assert(p.contains(b));
                }
                if p.contains(b) {
                    let j = choose|j: int| 0 <= j < p.len() && p[j] == b;
                    assert(j != idx);
                    if j < idx {
                        assert(p2[j] == b);
                    } else {
                        assert(p2[j - 1] == b);
                    }
                    assert(p2.contains(b));
                }
            }
        }
        Ok(())
    }

    fn find_participant_index(&self, a: Address) -> (r: Option<usize>)
        ensures
            match r {
                Some(i) => i < self.participants@.len() && self.participants@[i as int] == a
                    && forall|j: int| 0 <= j < i ==> self.participants@[j] != a,
                None => forall|j: int|
                    0 <= j < self.participants@.len() ==> self.participants@[j] != a,
            },
    {
        let mut i: usize = 0;
        while i < self.participants.len()
            invariant
                i <= self.participants@.len(),
                forall|j: int| 0 <= j < i ==> self.participants@[j] != a,
            decreases self.participants@.len() - i,
        {
            if self.participants[i] == a {
                return Some(i);
            }
            i = i + 1;
        }
        None
    }

    /// The current lifecycle state.
    pub fn get_state(&self) -> (r: TournamentState)
        ensures
            r == self.state,
    {
        self.state
    }

    /// The registered (not yet refunded) participants.
    pub fn get_participants(&self) -> (r: &Vec<Address>)
        ensures
            r@ == self.participants@,
    {
        &self.participants
    }

    /// The accumulated prize pool.
    pub fn get_prize_pool(&self) -> (r: i128)
        ensures
            r == self.total_prize,
    {
        self.total_prize
    }
}

} // verus!
