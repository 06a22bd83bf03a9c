//! Guilds: a role hierarchy (member < officer < leader), a pooled token
//! treasury, shared resources and achievements, simple yes/no proposals
//! with deadlines, and inter-guild competition records. Disbanding splits
//! the treasury evenly across the members (the integer-division remainder
//! stays behind) and permanently closes the guild.
use vstd::prelude::*;
use vstd::hash_map::HashMapWithView;
use crate::Address;
use crate::token::{RewardToken, TokenError, spec_transferred};

verus! {

/// A member's rank in the guild.
#[derive(Clone, Copy, Debug, PartialEq, Eq, Structural)]
pub enum Role {
    Member,
    Officer,
    Leader,
}

/// Failure conditions of the guild entry points.
#[derive(Clone, Copy, Debug, PartialEq, Eq, Structural)]
pub enum Error {
    AlreadyInitialized,
    NotInitialized,
    GuildDisbanded,
    AlreadyMember,
    NotAMember,
    Unauthorized,
    ProposalNotFound,
    VotingClosed,
    InsufficientFunds,
    AlreadyDisbanded,
    /// The nested token-ledger call failed; the whole call rolled back.
    TransferFailed(TokenError),
}

/// The guild's standing configuration.
#[derive(Clone, Debug)]
pub struct GuildConfig {
    pub name: String,
    /// Once set, every operation but reads is rejected for good.
    pub disbanded: bool,
}

/// A yes/no proposal; immutable once its deadline passes.
#[derive(Clone, Copy, Debug, PartialEq, Eq, Structural)]
pub struct Proposal {
    pub id: u32,
    pub yes: u32,
    pub no: u32,
    pub deadline: u64,
    pub executed: bool,
}

/// One recorded inter-guild competition.
#[derive(Clone, Copy, Debug, PartialEq, Eq, Structural)]
pub struct Competition {
    pub opponent: Address,
    pub reward: i128,
    pub won: bool,
}

/// The guild contract's entire state.
///
/// The host authenticates callers and passes the ledger timestamp as
/// `now`; the treasury lives on the token ledger handed in by the caller
/// under the contract's own account.
pub struct GuildContract {
    /// The guild's treasury account on the token ledger.
    pub contract_address: Address,
    /// `None` until `initialize` has run.
    pub config: Option<GuildConfig>,
    /// The treasury token's ledger address.
    pub treasury_token: Address,
    /// Each member's role.
    pub members: HashMapWithView<Address, Role>,
    /// All members, in joining order.
    pub members_list: Vec<Address>,
    /// Shared resource amounts, keyed by resource symbol id.
    pub resources: HashMapWithView<u64, i128>,
    /// Achievement counts, keyed by achievement symbol id.
    pub achievements: HashMapWithView<u64, u32>,
    pub proposals: HashMapWithView<u32, Proposal>,
    pub proposal_counter: u32,
    /// Competition records keyed by their (truncated) timestamp.
    pub competitions: HashMapWithView<u32, Competition>,
}

/// No address appears twice.
pub open spec fn unique_addrs(s: Seq<Address>) -> bool {
    forall|i: int, j: int| 0 <= i < j < s.len() ==> s[i] != s[j]
}

impl GuildContract {
    /// Well-formedness: the member list is duplicate-free and holds
    /// exactly the addresses with a role.
    pub open spec fn wf(&self) -> bool {
        &&& unique_addrs(self.members_list@)
        &&& forall|a: Address|
            #[trigger] self.members_list@.contains(a) <==> self.members@.contains_key(a)
    }

    pub open spec fn is_initialized(&self) -> bool {
        self.config is Some
    }

    pub open spec fn spec_disbanded(&self) -> bool {
        match self.config {
            Some(c) => c.disbanded,
            None => false,
        }
    }

    pub open spec fn spec_role(&self, a: Address) -> Option<Role> {
        if self.members@.contains_key(a) {
            Some(self.members@[a])
        } else {
            None
        }
    }

    /// Whether the address holds at least officer rank.
    pub open spec fn spec_officer_or_leader(&self, a: Address) -> bool {
        self.spec_role(a) == Some(Role::Officer) || self.spec_role(a) == Some(Role::Leader)
    }

    /// The empty, uninitialized contract state.
    pub fn new(contract_address: Address) -> (t: Self)
        ensures
            t.wf(),
            !t.is_initialized(),
            t.contract_address == contract_address,
            t.members@ == Map::<Address, Role>::empty(),
            t.members_list@.len() == 0,
            t.resources@ == Map::<u64, i128>::empty(),
            t.achievements@ == Map::<u64, u32>::empty(),
            t.proposals@ == Map::<u32, Proposal>::empty(),
            t.proposal_counter == 0,
            t.competitions@ == Map::<u32, Competition>::empty(),
    {
        GuildContract {
            contract_address,
            config: None,
            treasury_token: 0,
            members: HashMapWithView::new(),
            members_list: Vec::new(),
            resources: HashMapWithView::new(),
            achievements: HashMapWithView::new(),
            proposals: HashMapWithView::new(),
            proposal_counter: 0,
            competitions: HashMapWithView::new(),
        }
    }

    /// Gives `user` the role, adding them to the member list on first
    /// contact.
    fn set_role_internal(&mut self, user: Address, role: Role)
        requires
            old(self).wf(),
        ensures
            final(self).wf(),
            final(self).members@ == old(self).members@.insert(user, role),
            final(self).members_list@.contains(user),
            forall|b: Address|
                b != user ==> final(self).members_list@.contains(b) == old(self).members_list@.contains(b),
            final(self).members_list@.len() == old(self).members_list@.len() + if old(self).members@.contains_key(user) {
                0int
            } else {
                1int
            },
            final(self).contract_address == old(self).contract_address,
            final(self).config == old(self).config,
            final(self).treasury_token == old(self).treasury_token,
            final(self).resources@ == old(self).resources@,
            final(self).achievements@ == old(self).achievements@,
            final(self).proposals@ == old(self).proposals@,
            final(self).proposal_counter == old(self).proposal_counter,
            final(self).competitions@ == old(self).competitions@,
    {
        let was_member = self.members.contains_key(&user);
        self.members.insert(user, role);
        if !was_member {
            let ghost l = self.members_list@;
            proof {
                assert(!l.contains(user));
            }
            self.members_list.push(user);
            proof {
                assert(self.members_list@[l.len() as int] == user);
                assert(self.members_list@.contains(user));
                assert forall|b: Address| b != user implies self.members_list@.contains(b)
                    == l.contains(b) by {
                    if self.members_list@.contains(b) {
                        let j = choose|j: int|
                            0 <= j < self.members_list@.len() && self.members_list@[j] == b;
                        assert(j < l.len() && l[j] == b);
                    }
                    if l.contains(b) {
                        let j = choose|j: int| 0 <= j < l.len() && l[j] == b;
                        assert(self.members_list@[j] == b);
                    }
                }
                assert forall|p: int, q: int|
                    0 <= p < q < self.members_list@.len() implies self.members_list@[p]
                    != self.members_list@[q] by {
                    if q < l.len() {
                        assert(l[p] == self.members_list@[p] && l[q] == self.members_list@[q]);
                    } else {
                        assert(self.members_list@[q] == user);
                        if self.members_list@[p] == user {
                            assert(l[p] == user);
                            assert(l.contains(user));
                        }
                    }
                }
                assert forall|a: Address| #[trigger] self.members_list@.contains(a)
                    <==> self.members@.contains_key(a) by {
                    if a != user {
                        assert(self.members_list@.contains(a) == l.contains(a));
                        assert(l.contains(a) <==> old(self).members@.contains_key(a));
                    }
                }
            }
        } else {
            proof {
                assert(old(self).members_list@.contains(user));
                assert forall|a: Address| #[trigger] self.members_list@.contains(a)
                    <==> self.members@.contains_key(a) by {
                    if a != user {
                        assert(self.members_list@.contains(a) <==> old(
                            self,
                        ).members@.contains_key(a));
                    }
                }
            }
        }
    }

    /// Founds the guild: records its name and treasury token and makes
    /// the founder its leader. Fails once a previous call has succeeded.
    pub fn initialize(&mut self, leader: Address, name: String, token_address: Address) -> (r:
        Result<(), Error>)
        requires
            old(self).wf(),
        ensures
            final(self).wf(),
            final(self).contract_address == old(self).contract_address,
            match r {
                Ok(()) => {
                    &&& !old(self).is_initialized()
                    &&& final(self).config matches Some(c) && c.name == name && !c.disbanded
                    &&& final(self).treasury_token == token_address
                    &&& final(self).members@ == old(self).members@.insert(leader, Role::Leader)
                    &&& final(self).members_list@.contains(leader)
                },
                Err(e) => *final(self) == *old(self) && e == Error::AlreadyInitialized && old(self).is_initialized(),
            },
    {
        if self.config.is_some() {
            return Err(Error::AlreadyInitialized);
        }
        self.config = Some(GuildConfig { name, disbanded: false });
        self.treasury_token = token_address;
        self.set_role_internal(leader, Role::Leader);
        Ok(())
    }

    /// Joins the guild as a plain member.
    pub fn join(&mut self, user: Address) -> (r: Result<(), Error>)
        requires
            old(self).wf(),
        ensures
            final(self).wf(),
            final(self).contract_address == old(self).contract_address,
            final(self).config == old(self).config,
            match r {
                Ok(()) => old(self).is_initialized() && !old(self).spec_disbanded() && old(self).spec_role(user) is None && final(self).members@ == old(self).members@.insert(
                    user,
                    Role::Member,
                ) && final(self).members_list@.len() == old(self).members_list@.len() + 1,
                Err(e) => *final(self) == *old(self) && match e {
                    Error::NotInitialized => !old(self).is_initialized(),
                    Error::GuildDisbanded => old(self).is_initialized() && old(self).spec_disbanded(),
                    Error::AlreadyMember => old(self).is_initialized() && !old(self).spec_disbanded() && old(self).spec_role(user) is Some,
                    _ => false,
                },
            },
    {
        let disbanded = match &self.config {
            Some(c) => c.disbanded,
            None => { return Err(Error::NotInitialized) },
        };
        if disbanded {
            return Err(Error::GuildDisbanded);
        }
        if self.members.contains_key(&user) {
            return Err(Error::AlreadyMember);
        }
        self.set_role_internal(user, Role::Member);
        Ok(())
    }

    /// Assigns a role to any address (leader only), enrolling it when
    /// new.
    pub fn set_role(&mut self, leader: Address, target: Address, role: Role) -> (r: Result<
        (),
        Error,
    >)
        requires
            old(self).wf(),
        ensures
            final(self).wf(),
            final(self).contract_address == old(self).contract_address,
            final(self).config == old(self).config,
            match r {
                Ok(()) => old(self).is_initialized() && !old(self).spec_disbanded() && old(self).spec_role(leader) == Some(Role::Leader) && final(self).members@ == old(self).members@.insert(target, role),
                Err(e) => *final(self) == *old(self) && match e {
                    Error::NotInitialized => !old(self).is_initialized(),
                    Error::Unauthorized => old(self).is_initialized() && old(self).spec_role(leader)
                        != Some(Role::Leader),
                    Error::GuildDisbanded => old(self).is_initialized() && old(self).spec_role(
                        leader,
                    ) == Some(Role::Leader) && old(self).spec_disbanded(),
                    _ => false,
                },
            },
    {
        let disbanded = match &self.config {
            Some(c) => c.disbanded,
            None => { return Err(Error::NotInitialized) },
        };
        let is_leader = match self.members.get(&leader) {
            Some(r) => match r {
                Role::Leader => true,
                _ => false,
            },
            None => false,
        };
        if !is_leader {
            return Err(Error::Unauthorized);
        }
        if disbanded {
            return Err(Error::GuildDisbanded);
        }
        self.set_role_internal(target, role);
        Ok(())
    }

    /// Deposits tokens from a member into the treasury.
    pub fn deposit(&mut self, ledger: &mut RewardToken, member: Address, amount: i128) -> (r:
        Result<(), Error>)
        requires
            old(self).wf(),
            old(ledger).wf(),
        ensures
            final(self).wf(),
            final(ledger).wf(),
            *final(self) == *old(self),
            match r {
                Ok(()) => old(self).is_initialized() && !old(self).spec_disbanded() && amount > 0
                    && old(ledger).spec_balance(member) >= amount && spec_transferred(
                    old(ledger),
                    final(ledger),
                    member,
                    old(self).contract_address,
                    amount,
                ),
                Err(e) => *final(ledger) == *old(ledger) && match e {
                    Error::NotInitialized => !old(self).is_initialized(),
                    Error::GuildDisbanded => old(self).is_initialized() && old(self).spec_disbanded(),
                    Error::TransferFailed(te) => old(self).is_initialized() && !old(self).spec_disbanded() && match te {
                        TokenError::InvalidAmount => amount <= 0,
                        TokenError::InsufficientBalance => amount > 0 && old(ledger).spec_balance(
                            member,
                        ) < amount,
                        _ => false,
                    },
                    _ => false,
                },
            },
    {
        let disbanded = match &self.config {
            Some(c) => c.disbanded,
            None => { return Err(Error::NotInitialized) },
        };
        if disbanded {
            return Err(Error::GuildDisbanded);
        }
        let contract = self.contract_address;
        match ledger.transfer(member, contract, amount) {
            Ok(_) => Ok(()),
            Err(te) => Err(Error::TransferFailed(te)),
        }
    }

    /// Withdraws treasury funds to an officer or leader.
    pub fn withdraw(&mut self, ledger: &mut RewardToken, officer: Address, amount: i128) -> (r:
        Result<(), Error>)
        requires
            old(self).wf(),
            old(ledger).wf(),
        ensures
            final(self).wf(),
            final(ledger).wf(),
            *final(self) == *old(self),
            match r {
                Ok(()) => old(self).is_initialized() && !old(self).spec_disbanded() && old(self).spec_officer_or_leader(officer) && old(ledger).spec_balance(
                    old(self).contract_address,
                ) >= amount && amount > 0 && spec_transferred(
                    old(ledger),
                    final(ledger),
                    old(self).contract_address,
                    officer,
                    amount,
                ),
                Err(e) => *final(ledger) == *old(ledger) && match e {
                    Error::NotInitialized => !old(self).is_initialized(),
                    Error::Unauthorized => old(self).is_initialized() && !old(self).spec_officer_or_leader(officer),
                    Error::GuildDisbanded => old(self).is_initialized() && old(self).spec_officer_or_leader(officer) && old(self).spec_disbanded(),
                    Error::InsufficientFunds => old(self).is_initialized() && !old(self).spec_disbanded() && old(self).spec_officer_or_leader(officer) && old(
                        ledger,
                    ).spec_balance(old(self).contract_address) < amount,
                    Error::TransferFailed(te) => old(self).is_initialized() && !old(self).spec_disbanded() && old(self).spec_officer_or_leader(officer) && old(
                        ledger,
                    ).spec_balance(old(self).contract_address) >= amount && te
                        == TokenError::InvalidAmount && amount <= 0,
                    _ => false,
                },
            },
    {
        let disbanded = match &self.config {
            Some(c) => c.disbanded,
            None => { return Err(Error::NotInitialized) },
        };
        let allowed = match self.members.get(&officer) {
            Some(r) => match r {
                Role::Leader => true,
                Role::Officer => true,
                Role::Member => false,
            },
            None => false,
        };
        if !allowed {
            return Err(Error::Unauthorized);
        }
        if disbanded {
            return Err(Error::GuildDisbanded);
        }
        let contract = self.contract_address;
        let balance = ledger.balance(contract);
        if balance < amount {
            return Err(Error::InsufficientFunds);
        }
        match ledger.transfer(contract, officer, amount) {
            Ok(_) => Ok(()),
            Err(te) => Err(Error::TransferFailed(te)),
        }
    }

    /// Adds to a shared resource's tally (officer or leader only).
    pub fn add_resource(&mut self, officer: Address, resource: u64, amount: i128) -> (r: Result<
        (),
        Error,
    >)
        requires
            old(self).wf(),
            i128::MIN <= (if old(self).resources@.contains_key(resource) {
                old(self).resources@[resource] as int
            } else {
                0int
            }) + amount <= i128::MAX,
        ensures
            final(self).wf(),
            final(self).contract_address == old(self).contract_address,
            final(self).config == old(self).config,
            final(self).members@ == old(self).members@,
            final(self).members_list == old(self).members_list,
            match r {
                Ok(()) => old(self).is_initialized() && !old(self).spec_disbanded() && old(self).spec_officer_or_leader(officer) && final(self).resources@ == old(self).resources@.insert(
                    resource,
                    ((if old(self).resources@.contains_key(resource) {
                        old(self).resources@[resource] as int
                    } else {
                        0int
                    }) + amount) as i128,
                ),
                Err(e) => *final(self) == *old(self) && match e {
                    Error::NotInitialized => !old(self).is_initialized(),
                    Error::Unauthorized => old(self).is_initialized() && !old(self).spec_officer_or_leader(officer),
                    Error::GuildDisbanded => old(self).is_initialized() && old(self).spec_officer_or_leader(officer) && old(self).spec_disbanded(),
                    _ => false,
                },
            },
    {
        let disbanded = match &self.config {
            Some(c) => c.disbanded,
            None => { return Err(Error::NotInitialized) },
        };
        let allowed = match self.members.get(&officer) {
            Some(r) => match r {
                Role::Leader => true,
                Role::Officer => true,
                Role::Member => false,
            },
            None => false,
        };
        if !allowed {
            return Err(Error::Unauthorized);
        }
        if disbanded {
            return Err(Error::GuildDisbanded);
        }
        let current: i128 = match self.resources.get(&resource) {
            Some(v) => *v,
            None => 0,
        };
        self.resources.insert(resource, current + amount);
        Ok(())
    }

    /// Increments an achievement's tally (officer or leader only).
    pub fn add_achievement(&mut self, officer: Address, achievement: u64) -> (r: Result<(), Error>)
        requires
            old(self).wf(),
            (if old(self).achievements@.contains_key(achievement) {
                old(self).achievements@[achievement] as int
            } else {
                0int
            }) < u32::MAX,
        ensures
            final(self).wf(),
            final(self).contract_address == old(self).contract_address,
            final(self).config == old(self).config,
            final(self).members@ == old(self).members@,
            final(self).members_list == old(self).members_list,
            match r {
                Ok(()) => old(self).is_initialized() && !old(self).spec_disbanded() && old(self).spec_officer_or_leader(officer) && final(self).achievements@ == old(self).achievements@.insert(
                    achievement,
                    ((if old(self).achievements@.contains_key(achievement) {
                        old(self).achievements@[achievement] as int
                    } else {
                        0int
                    }) + 1) as u32,
                ),
                Err(e) => *final(self) == *old(self) && match e {
                    Error::NotInitialized => !old(self).is_initialized(),
                    Error::Unauthorized => old(self).is_initialized() && !old(self).spec_officer_or_leader(officer),
                    Error::GuildDisbanded => old(self).is_initialized() && old(self).spec_officer_or_leader(officer) && old(self).spec_disbanded(),
                    _ => false,
                },
            },
    {
        let disbanded = match &self.config {
            Some(c) => c.disbanded,
            None => { return Err(Error::NotInitialized) },
        };
        let allowed = match self.members.get(&officer) {
            Some(r) => match r {
                Role::Leader => true,
                Role::Officer => true,
                Role::Member => false,
            },
            None => false,
        };
        if !allowed {
            return Err(Error::Unauthorized);
        }
        if disbanded {
            return Err(Error::GuildDisbanded);
        }
        let count: u32 = match self.achievements.get(&achievement) {
            Some(v) => *v,
            None => 0,
        };
        self.achievements.insert(achievement, count + 1);
        Ok(())
    }

    /// Opens a proposal with a voting deadline (officer or leader only);
    /// returns the new proposal's id.
    pub fn create_proposal(&mut self, officer: Address, deadline: u64) -> (r: Result<u32, Error>)
        requires
            old(self).wf(),
            old(self).proposal_counter < u32::MAX,
        ensures
            final(self).wf(),
            final(self).contract_address == old(self).contract_address,
            final(self).config == old(self).config,
            final(self).members@ == old(self).members@,
            final(self).members_list == old(self).members_list,
            match r {
                Ok(id) => old(self).is_initialized() && !old(self).spec_disbanded() && old(self).spec_officer_or_leader(officer) && id == old(self).proposal_counter + 1 && final(self).proposal_counter == id && final(self).proposals@ == old(self).proposals@.insert(
                    id,
                    Proposal { id, yes: 0, no: 0, deadline, executed: false },
                ),
                Err(e) => *final(self) == *old(self) && match e {
                    Error::NotInitialized => !old(self).is_initialized(),
                    Error::Unauthorized => old(self).is_initialized() && !old(self).spec_officer_or_leader(officer),
                    Error::GuildDisbanded => old(self).is_initialized() && old(self).spec_officer_or_leader(officer) && old(self).spec_disbanded(),
                    _ => false,
                },
            },
    {
        let disbanded = match &self.config {
            Some(c) => c.disbanded,
            None => { return Err(Error::NotInitialized) },
        };
        let allowed = match self.members.get(&officer) {
            Some(r) => match r {
                Role::Leader => true,
                Role::Officer => true,
                Role::Member => false,
            },
            None => false,
        };
        if !allowed {
            return Err(Error::Unauthorized);
        }
        if disbanded {
            return Err(Error::GuildDisbanded);
        }
        let id = self.proposal_counter + 1;
        self.proposals.insert(id, Proposal { id, yes: 0, no: 0, deadline, executed: false });
        self.proposal_counter = id;
        Ok(id)
    }

    /// Casts a member's vote on an open proposal.
    pub fn vote(&mut self, member: Address, proposal_id: u32, approve: bool, now: u64) -> (r:
        Result<(), Error>)
        requires
            old(self).wf(),
            match (if old(self).proposals@.contains_key(proposal_id) {
                Some(old(self).proposals@[proposal_id])
            } else {
                None::<Proposal>
            }) {
                Some(p) => p.yes < u32::MAX && p.no < u32::MAX,
                None => true,
            },
        ensures
            final(self).wf(),
            final(self).contract_address == old(self).contract_address,
            final(self).config == old(self).config,
            final(self).members@ == old(self).members@,
            final(self).members_list == old(self).members_list,
            match r {
                Ok(()) => {
                    let p = old(self).proposals@[proposal_id];
                    &&& old(self).is_initialized()
                    &&& !old(self).spec_disbanded()
                    &&& old(self).spec_role(member) is Some
                    &&& old(self).proposals@.contains_key(proposal_id)
                    &&& now <= p.deadline
                    &&& final(self).proposals@ == old(self).proposals@.insert(
                        proposal_id,
                        if approve {
                            Proposal { yes: (p.yes + 1) as u32, ..p }
                        } else {
                            Proposal { no: (p.no + 1) as u32, ..p }
                        },
                    )
                },
                Err(e) => *final(self) == *old(self) && match e {
                    Error::NotInitialized => !old(self).is_initialized(),
                    Error::GuildDisbanded => old(self).is_initialized() && old(self).spec_disbanded(),
                    Error::NotAMember => old(self).is_initialized() && !old(self).spec_disbanded()
                        && old(self).spec_role(member) is None,
                    Error::ProposalNotFound => old(self).is_initialized() && !old(self).spec_disbanded() && old(self).spec_role(member) is Some && !old(self).proposals@.contains_key(proposal_id),
                    Error::VotingClosed => old(self).is_initialized() && !old(self).spec_disbanded() && old(self).spec_role(member) is Some && old(self).proposals@.contains_key(proposal_id) && now > old(self).proposals@[proposal_id].deadline,
                    _ => false,
                },
            },
    {
        let disbanded = match &self.config {
            Some(c) => c.disbanded,
            None => { return Err(Error::NotInitialized) },
        };
        if disbanded {
            return Err(Error::GuildDisbanded);
        }
        if !self.members.contains_key(&member) {
            return Err(Error::NotAMember);
        }
        let p: Proposal = match self.proposals.get(&proposal_id) {
            Some(p) => *p,
            None => { return Err(Error::ProposalNotFound) },
        };
        if now > p.deadline {
            return Err(Error::VotingClosed);
        }
        let updated = if approve {
            Proposal { yes: p.yes + 1, ..p }
        } else {
            Proposal { no: p.no + 1, ..p }
        };
        self.proposals.insert(proposal_id, updated);
        Ok(())
    }

    /// Records the outcome of an inter-guild competition (leader only),
    /// keyed by the call's (truncated) timestamp.
    pub fn record_competition(
        &mut self,
        leader: Address,
        opponent: Address,
        reward: i128,
        won: bool,
        now: u64,
    ) -> (r: Result<(), Error>)
        requires
            old(self).wf(),
        ensures
            final(self).wf(),
            final(self).contract_address == old(self).contract_address,
            final(self).config == old(self).config,
            final(self).members@ == old(self).members@,
            final(self).members_list == old(self).members_list,
            match r {
                Ok(()) => old(self).is_initialized() && !old(self).spec_disbanded() && old(self).spec_role(leader) == Some(Role::Leader) && final(self).competitions@ == old(self).competitions@.insert(
                    ((now as int) % 0x1_0000_0000) as u32,
                    Competition { opponent, reward, won },
                ),
                Err(e) => *final(self) == *old(self) && match e {
                    Error::NotInitialized => !old(self).is_initialized(),
                    Error::Unauthorized => old(self).is_initialized() && old(self).spec_role(leader)
                        != Some(Role::Leader),
                    Error::GuildDisbanded => old(self).is_initialized() && old(self).spec_role(
                        leader,
                    ) == Some(Role::Leader) && old(self).spec_disbanded(),
                    _ => false,
                },
            },
    {
        let disbanded = match &self.config {
            Some(c) => c.disbanded,
            None => { return Err(Error::NotInitialized) },
        };
        let is_leader = match self.members.get(&leader) {
            Some(r) => match r {
                Role::Leader => true,
                _ => false,
            },
            None => false,
        };
        if !is_leader {
            return Err(Error::Unauthorized);
        }
        if disbanded {
            return Err(Error::GuildDisbanded);
        }
        let id: u32 = (now % 0x1_0000_0000) as u32;
        self.competitions.insert(id, Competition { opponent, reward, won });
        Ok(())
    }

    /// The role of an address, if it is a member.
    pub fn get_role(&self, user: Address) -> (r: Option<Role>)
        ensures
            r == self.spec_role(user),
    {
        match self.members.get(&user) {
            Some(role) => Some(*role),
            None => None,
        }
    }

    /// Disbands the guild (leader only): the treasury balance is split
    /// evenly — each member receives `balance / member count`, the
    /// integer-division remainder stays behind — and the guild is closed
    /// for good. The guild's own treasury account cannot itself be a
    /// member.
    pub fn disband(&mut self, ledger: &mut RewardToken, leader: Address) -> (r: Result<(), Error>)
        requires
            old(self).wf(),
            old(ledger).wf(),
            !old(self).members@.contains_key(old(self).contract_address),
        ensures
            final(self).wf(),
            final(ledger).wf(),
            final(self).contract_address == old(self).contract_address,
            final(self).members@ == old(self).members@,
            final(self).members_list == old(self).members_list,
            match r {
                Ok(()) => {
                    let total = old(ledger).spec_balance(old(self).contract_address);
                    let n = old(self).members_list@.len() as int;
                    let share = total / n;
                    &&& old(self).is_initialized()
                    &&& !old(self).spec_disbanded()
                    &&& old(self).spec_role(leader) == Some(Role::Leader)
                    &&& final(self).config matches Some(c) && c.disbanded
                    &&& share > 0 ==> {
                        &&& forall|a: Address|
                            old(self).members@.contains_key(a) ==> final(ledger).spec_balance(a)
                                == old(ledger).spec_balance(a) + share
                        &&& final(ledger).spec_balance(old(self).contract_address) == total - n
                            * share
                        &&& forall|x: Address|
                            !old(self).members@.contains_key(x) && x != old(self).contract_address
                                ==> final(ledger).spec_balance(x) == old(ledger).spec_balance(x)
                        &&& final(ledger).total_supply == old(ledger).total_supply
                        &&& final(ledger).same_config(old(ledger))
                    }
                    &&& share <= 0 ==> *final(ledger) == *old(ledger)
                },
                Err(e) => *final(self) == *old(self) && *final(ledger) == *old(ledger) && match e {
                    Error::Unauthorized => old(self).spec_role(leader) != Some(Role::Leader),
                    Error::NotInitialized => old(self).spec_role(leader) == Some(Role::Leader)
                        && !old(self).is_initialized(),
                    Error::AlreadyDisbanded => old(self).spec_role(leader) == Some(Role::Leader)
                        && old(self).is_initialized() && old(self).spec_disbanded(),
                    _ => false,
                },
            },
    {
        let is_leader = match self.members.get(&leader) {
            Some(role) => match role {
                Role::Leader => true,
                _ => false,
            },
            None => false,
        };
        if !is_leader {
            return Err(Error::Unauthorized);
        }
        let name_copy: String = match &self.config {
            Some(c) => {
                if c.disbanded {
                    return Err(Error::AlreadyDisbanded);
                }
                c.name.clone()
            },
            None => { return Err(Error::NotInitialized) },
        };
        let contract = self.contract_address;
        let total = ledger.balance(contract);
        proof {
            crate::token::lemma_token_conservation(ledger);
            assert(self.members_list@.contains(leader));
            assert(self.members_list@.len() > 0);
        }
        let n: usize = self.members_list.len();
        let share: i128 = ((total as u128) / (n as u128)) as i128;
        let ghost l0 = *ledger;
        proof {
            vstd::arithmetic::div_mod::lemma_fundamental_div_mod(total as int, n as int);
            vstd::arithmetic::div_mod::lemma_mod_bound(total as int, n as int);
        }
        if share > 0 {
            let mut i: usize = 0;
            while i < n
                invariant
                    i <= n,
                    n == self.members_list@.len(),
                    self.wf(),
                    ledger.wf(),
                    !self.members@.contains_key(contract),
                    contract == self.contract_address,
                    share > 0,
                    total as int == n * (share as int) + (total as int) % (n as int),
                    (total as int) % (n as int) >= 0,
                    share as int == (total as int) / (n as int),
                    l0.spec_balance(contract) == total,
                    ledger.spec_balance(contract) == total - i * (share as int),
                    forall|j: int|
                        0 <= j < i ==> ledger.spec_balance(#[trigger] self.members_list@[j])
                            == l0.spec_balance(self.members_list@[j]) + share,
                    forall|j: int|
                        i <= j < n ==> ledger.spec_balance(#[trigger] self.members_list@[j])
                            == l0.spec_balance(self.members_list@[j]),
                    forall|x: Address|
                        !self.members@.contains_key(x) && x != contract ==> ledger.spec_balance(x)
                            == l0.spec_balance(x),
                    ledger.total_supply == l0.total_supply,
                    ledger.same_config(&l0),
                decreases n - i,
            {
                let m = self.members_list[i];
                proof {
                    assert(m == self.members_list@[i as int]);
                    assert(self.members_list@.contains(m));
                    assert(m != contract);
                    vstd::arithmetic::mul::lemma_mul_inequality(
                        i as int + 1,
                        n as int,
                        share as int,
                    );
                    assert((i as int + 1) * (share as int) == (i as int) * (share as int) + (
                    share as int)) by (nonlinear_arith);
                }
                let tr = ledger.transfer(contract, m, share);
                proof {
                    assert(tr is Ok);
                    assert forall|j: int|
                        0 <= j < i + 1 implies ledger.spec_balance(
                        #[trigger] self.members_list@[j],
                    ) == l0.spec_balance(self.members_list@[j]) + share by {
                        if j < i {
                            assert(m == self.members_list@[i as int]);
                            assert(self.members_list@[j] != m);
                            assert(self.members_list@.contains(self.members_list@[j]));
                            assert(self.members_list@[j] != contract);
                        }
                    }
                    assert forall|j: int|
                        i + 1 <= j < n implies ledger.spec_balance(#[trigger] self.members_list@[j])
                        == l0.spec_balance(self.members_list@[j]) by {
                        assert(m == self.members_list@[i as int]);
                        assert(self.members_list@[j] != m);
                        assert(self.members_list@.contains(self.members_list@[j]));
                        assert(self.members_list@[j] != contract);
                    }
                }
                i = i + 1;
            }
            proof {
                assert forall|a: Address|
                    self.members@.contains_key(a) implies ledger.spec_balance(a)
                    == l0.spec_balance(a) + share by {
                    assert(self.members_list@.contains(a));
                    let j = choose|j: int|
                        0 <= j < self.members_list@.len() && self.members_list@[j] == a;
                    assert(ledger.spec_balance(self.members_list@[j]) == l0.spec_balance(
                        self.members_list@[j],
                    ) + share);
                }
            }
        }
        self.config = Some(GuildConfig { name: name_copy, disbanded: true });
        Ok(())
    }
}

} // verus!
