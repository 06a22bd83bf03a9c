//! Achievement NFTs: minting is gated by a per-(player, puzzle)
//! completion flag that an admin sets and that the mint consumes, so
//! each completion mints at most once. Ownership is tracked twice — a
//! direct owner field and a per-owner id collection — and the module
//! invariant keeps the two in sync through every mint, transfer and
//! burn.
use vstd::prelude::*;
use vstd::hash_map::HashMapWithView;
use vstd::set::axiom_set_insert_len;
use vstd::set::axiom_set_remove_len;
use crate::Address;

verus! {

/// One minted achievement NFT.
#[derive(Clone, Debug)]
pub struct Achievement {
    pub owner: Address,
    pub puzzle_id: u32,
    pub metadata: String,
    pub timestamp: u64,
}

/// Failure conditions of the achievement entry points.
#[derive(Clone, Copy, Debug, PartialEq, Eq, Structural)]
pub enum Error {
    AlreadyInitialized,
    NotInitialized,
    Unauthorized,
    PuzzleNotCompleted,
    TokenNotFound,
    NotOwner,
    CannotTransferToSelf,
}

/// Packs a (player, puzzle) pair into one completion-flag key.
pub open spec fn spec_flag_key(user: Address, puzzle_id: u32) -> u128 {
    ((user as int) * 0x1_0000_0000 + (puzzle_id as int)) as u128
}

/// Distinct pairs pack to distinct keys.
pub proof fn lemma_flag_key_injective(u1: Address, p1: u32, u2: Address, p2: u32)
    requires
        spec_flag_key(u1, p1) == spec_flag_key(u2, p2),
    ensures
        u1 == u2 && p1 == p2,
{
    assert((u1 as int) * 0x1_0000_0000 + (p1 as int) == (u2 as int) * 0x1_0000_0000 + (
    p2 as int));
}

fn flag_key(user: Address, puzzle_id: u32) -> (r: u128)
    ensures
        r == spec_flag_key(user, puzzle_id),
{
    (user as u128) * 0x1_0000_0000u128 + (puzzle_id as u128)
}

/// No id appears twice.
pub open spec fn unique_ids(s: Seq<u32>) -> bool {
    forall|i: int, j: int| 0 <= i < j < s.len() ==> s[i] != s[j]
}

/// The achievement contract's entire state.
///
/// The host authenticates callers and passes the ledger timestamp as
/// `now`.
pub struct AchievementNFT {
    /// `None` until `initialize` has run.
    pub admin: Option<Address>,
    /// Every minted, unburned NFT by token id.
    pub achievements: HashMapWithView<u32, Achievement>,
    /// Each owner's token ids.
    pub collections: HashMapWithView<Address, Vec<u32>>,
    /// The id the next mint will use; ids start at 1.
    pub next_token_id: u32,
    /// How many NFTs currently exist.
    pub total_supply: u32,
    /// Pending mint entitlements, keyed by packed (player, puzzle).
    pub puzzle_completed: HashMapWithView<u128, bool>,
}

/// The id collection recorded for an owner in a collection table; empty
/// when none was recorded.
pub open spec fn coll_in(m: Map<Address, Vec<u32>>, a: Address) -> Seq<u32> {
    if m.contains_key(a) {
        m[a]@
    } else {
        Seq::empty()
    }
}

/// The owner fields and the per-owner collections describe exactly the
/// same ownership, and every id is below the mint counter.
pub open spec fn sync_wf(ach: Map<u32, Achievement>, colls: Map<Address, Vec<u32>>, next: u32) -> bool {
    &&& forall|t: u32| #[trigger] ach.contains_key(t) ==> 1 <= t < next
    &&& forall|t: u32|
        #[trigger] ach.contains_key(t) ==> coll_in(colls, ach[t].owner).contains(t)
    &&& forall|a: Address, j: int|
        0 <= j < coll_in(colls, a).len() ==> ach.contains_key(#[trigger] coll_in(colls, a)[j])
            && ach[coll_in(colls, a)[j]].owner == a
    &&& forall|a: Address| unique_ids(#[trigger] coll_in(colls, a))
}

impl AchievementNFT {
    /// The id collection of an owner; empty when none was recorded.
    #[verifier::inline]
    pub open spec fn coll_of(&self, a: Address) -> Seq<u32> {
        coll_in(self.collections@, a)
    }

    /// Well-formedness: ids are below the mint counter, the supply
    /// counts the existing NFTs, and the owner fields and the per-owner
    /// collections describe exactly the same ownership.
    pub open spec fn wf(&self) -> bool {
        &&& self.next_token_id >= 1
        &&& sync_wf(self.achievements@, self.collections@, self.next_token_id)
        &&& self.achievements@.dom().finite()
        &&& self.total_supply == self.achievements@.dom().len()
    }

    pub open spec fn is_initialized(&self) -> bool {
        self.admin is Some
    }

    pub open spec fn spec_admin(&self) -> Address {
        match self.admin {
            Some(a) => a,
            None => 0,
        }
    }

    /// Whether `user` holds an unconsumed completion flag for the
    /// puzzle.
    pub open spec fn spec_completed(&self, user: Address, puzzle_id: u32) -> bool {
        self.puzzle_completed@.contains_key(spec_flag_key(user, puzzle_id))
            && self.puzzle_completed@[spec_flag_key(user, puzzle_id)]
    }

    /// The empty, uninitialized contract state.
    pub fn new() -> (t: Self)
        ensures
            t.wf(),
            !t.is_initialized(),
            t.achievements@ == Map::<u32, Achievement>::empty(),
            t.collections@ == Map::<Address, Vec<u32>>::empty(),
            t.next_token_id == 1,
            t.total_supply == 0,
            t.puzzle_completed@ == Map::<u128, bool>::empty(),
    {
        let t = AchievementNFT {
            admin: None,
            achievements: HashMapWithView::new(),
            collections: HashMapWithView::new(),
            next_token_id: 1,
            total_supply: 0,
            puzzle_completed: HashMapWithView::new(),
        };
        proof {
            assert(t.achievements@.dom() =~= Set::<u32>::empty());
        }
        t
    }

    /// Records the administrator. Fails once a previous call has
    /// succeeded.
    pub fn initialize(&mut self, admin: Address) -> (r: Result<(), Error>)
        requires
            old(self).wf(),
        ensures
            final(self).wf(),
            final(self).achievements@ == old(self).achievements@,
            final(self).collections@ == old(self).collections@,
            final(self).next_token_id == old(self).next_token_id,
            final(self).total_supply == old(self).total_supply,
            final(self).puzzle_completed@ == old(self).puzzle_completed@,
            match r {
                Ok(()) => !old(self).is_initialized() && final(self).admin == Some(admin),
                Err(e) => *final(self) == *old(self) && e == Error::AlreadyInitialized && old(self).is_initialized(),
            },
    {
        if self.admin.is_some() {
            return Err(Error::AlreadyInitialized);
        }
        self.admin = Some(admin);
        Ok(())
    }

    /// Marks a puzzle as completed for a player (admin only), entitling
    /// one mint.
    pub fn mark_puzzle_completed(&mut self, caller: Address, user: Address, puzzle_id: u32) -> (r:
        Result<(), Error>)
        requires
            old(self).wf(),
        ensures
            final(self).wf(),
            final(self).achievements@ == old(self).achievements@,
            final(self).collections@ == old(self).collections@,
            final(self).next_token_id == old(self).next_token_id,
            final(self).total_supply == old(self).total_supply,
            final(self).admin == old(self).admin,
            match r {
                Ok(()) => old(self).is_initialized() && caller == old(self).spec_admin() && final(self).puzzle_completed@ == old(self).puzzle_completed@.insert(
                    spec_flag_key(user, puzzle_id),
                    true,
                ),
                Err(e) => *final(self) == *old(self) && match e {
                    Error::NotInitialized => !old(self).is_initialized(),
                    Error::Unauthorized => old(self).is_initialized() && caller != old(self).spec_admin(),
                    _ => false,
                },
            },
    {
        let admin = match self.admin {
            Some(a) => a,
            None => { return Err(Error::NotInitialized) },
        };
        if caller != admin {
            return Err(Error::Unauthorized);
        }
        let k = flag_key(user, puzzle_id);
        self.puzzle_completed.insert(k, true);
        Ok(())
    }

    /// Mints an NFT to a player who holds a completion flag for the
    /// puzzle; the flag is consumed, so a second mint for the same
    /// completion fails. Returns the new token id.
    pub fn mint(&mut self, to: Address, puzzle_id: u32, metadata: String, now: u64) -> (r: Result<
        u32,
        Error,
    >)
        requires
            old(self).wf(),
            old(self).next_token_id < u32::MAX,
            old(self).total_supply < u32::MAX,
        ensures
            final(self).wf(),
            final(self).admin == old(self).admin,
            match r {
                Ok(t) => {
                    &&& old(self).spec_completed(to, puzzle_id)
                    &&& t == old(self).next_token_id
                    &&& final(self).achievements@ == old(self).achievements@.insert(
                        t,
                        Achievement { owner: to, puzzle_id, metadata, timestamp: now },
                    )
                    &&& final(self).coll_of(to) == old(self).coll_of(to).push(t)
                    &&& forall|a: Address| a != to ==> final(self).coll_of(a) == old(self).coll_of(a)
                    &&& final(self).next_token_id == old(self).next_token_id + 1
                    &&& final(self).total_supply == old(self).total_supply + 1
                    &&& final(self).puzzle_completed@ == old(self).puzzle_completed@.remove(
                        spec_flag_key(to, puzzle_id),
                    )
                },
                Err(e) => *final(self) == *old(self) && e == Error::PuzzleNotCompleted && !old(self).spec_completed(to, puzzle_id),
            },
    {
        let k = flag_key(to, puzzle_id);
        let completed = match self.puzzle_completed.get(&k) {
            Some(b) => *b,
            None => false,
        };
        if !completed {
            return Err(Error::PuzzleNotCompleted);
        }
        let token_id = self.next_token_id;
        let ach = Achievement { owner: to, puzzle_id, metadata, timestamp: now };
        proof {
            assert(!old(self).achievements@.contains_key(token_id));
            axiom_set_insert_len(old(self).achievements@.dom(), token_id);
            assert(old(self).achievements@.insert(token_id, ach).dom() =~= old(self).achievements@.dom().insert(token_id));
        }
        self.achievements.insert(token_id, ach);
        let mut coll: Vec<u32> = match self.collections.remove(&to) {
            Some(v) => v,
            None => Vec::new(),
        };
        let ghost coll0 = coll@;
        coll.push(token_id);
        self.collections.insert(to, coll);
        self.next_token_id = token_id + 1;
        self.total_supply = self.total_supply + 1;
        self.puzzle_completed.remove(&k);
        proof {
            assert(self.achievements@.dom() =~= old(self).achievements@.dom().insert(token_id));
            vstd::set::axiom_set_insert_finite(old(self).achievements@.dom(), token_id);
            assert(self.total_supply == self.achievements@.dom().len());
            assert(coll0 == old(self).coll_of(to));
            assert(self.coll_of(to) == coll0.push(token_id));
            assert forall|a: Address| a != to implies self.coll_of(a) == old(self).coll_of(a) by {}
            assert forall|t: u32| #[trigger] self.achievements@.contains_key(t) implies self.coll_of(
                self.achievements@[t].owner,
            ).contains(t) by {
                if t == token_id {
                    assert(self.coll_of(to)[coll0.len() as int] == token_id);
                } else {
                    assert(old(self).achievements@.contains_key(t));
                    let owner = old(self).achievements@[t].owner;
                    assert(old(self).coll_of(owner).contains(t));
                    if owner == to {
                        let j = choose|j: int| 0 <= j < coll0.len() && coll0[j] == t;
                        assert(self.coll_of(to)[j] == t);
                    }
                }
            }
            assert forall|a: Address, j: int|
                0 <= j < self.coll_of(a).len() implies self.achievements@.contains_key(
                #[trigger] self.coll_of(a)[j],
            ) && self.achievements@[self.coll_of(a)[j]].owner == a by {
                if a == to && j == coll0.len() {
                } else {
                    if a != to {
                        assert(self.coll_of(a) == old(self).coll_of(a));
                    } else {
                        assert(self.coll_of(to)[j] == coll0[j]);
                    }
                    assert(self.coll_of(a)[j] == old(self).coll_of(a)[j]);
                    assert(old(self).achievements@.contains_key(old(self).coll_of(a)[j]));
                    assert(old(self).coll_of(a)[j] != token_id);
                }
            }
            assert forall|a: Address| unique_ids(#[trigger] self.coll_of(a)) by {
                if a == to {
                    assert forall|m: int, n: int|
                        0 <= m < n < self.coll_of(to).len() implies self.coll_of(to)[m]
                        != self.coll_of(to)[n] by {
                        if n == coll0.len() {
                            assert(self.coll_of(to)[m] == coll0[m]);
                            assert(old(self).achievements@.contains_key(coll0[m]));
                            assert(coll0[m] < token_id);
                        } else {
                            assert(self.coll_of(to)[m] == coll0[m]);
                            assert(self.coll_of(to)[n] == coll0[n]);
                        }
                    }
                } else {
                    assert(self.coll_of(a) == old(self).coll_of(a));
                }
            }
        }
        Ok(token_id)
    }

    /// Transfers a token between distinct owners; both the owner field
    /// and the two collections move together.
    pub fn transfer(&mut self, from: Address, to: Address, token_id: u32) -> (r: Result<(), Error>)
        requires
            old(self).wf(),
        ensures
            final(self).wf(),
            final(self).admin == old(self).admin,
            final(self).next_token_id == old(self).next_token_id,
            final(self).total_supply == old(self).total_supply,
            final(self).puzzle_completed@ == old(self).puzzle_completed@,
            match r {
                Ok(()) => {
                    &&& from != to
                    &&& old(self).achievements@.contains_key(token_id)
                    &&& old(self).achievements@[token_id].owner == from
                    &&& final(self).achievements@ =~= old(self).achievements@.insert(
                        token_id,
                        Achievement { owner: to, ..old(self).achievements@[token_id] },
                    )
                    &&& !final(self).coll_of(from).contains(token_id)
                    &&& (exists|i: int|
                        0 <= i < old(self).coll_of(from).len() && old(self).coll_of(from)[i]
                            == token_id && final(self).coll_of(from) == old(self).coll_of(
                            from,
                        ).remove(i))
                    &&& final(self).coll_of(to) == old(self).coll_of(to).push(token_id)
                    &&& final(self).coll_of(to).contains(token_id)
                    &&& forall|a: Address|
                        a != from && a != to ==> final(self).coll_of(a) == old(self).coll_of(a)
                },
                Err(e) => *final(self) == *old(self) && match e {
                    Error::CannotTransferToSelf => from == to,
                    Error::TokenNotFound => from != to && !old(self).achievements@.contains_key(
                        token_id,
                    ),
                    Error::NotOwner => from != to && old(self).achievements@.contains_key(token_id)
                        && old(self).achievements@[token_id].owner != from,
                    _ => false,
                },
            },
    {
        if from == to {
            return Err(Error::CannotTransferToSelf);
        }
        let owner_opt: Option<Address> = match self.achievements.get(&token_id) {
            Some(a) => Some(a.owner),
            None => None,
        };
        let owner = match owner_opt {
            Some(o) => o,
            None => { return Err(Error::TokenNotFound) },
        };
        if owner != from {
            return Err(Error::NotOwner);
        }
        let ach = match self.achievements.remove(&token_id) {
            Some(a) => a,
            None => { return Err(Error::TokenNotFound) },
        };
        proof {
            assert(old(self).achievements@.insert(
                token_id,
                Achievement { owner: to, ..old(self).achievements@[token_id] },
            ).dom() =~= old(self).achievements@.dom());
        }
        let moved = Achievement { owner: to, ..ach };
        self.achievements.insert(token_id, moved);
        let mut from_coll: Vec<u32> = match self.collections.remove(&from) {
            Some(v) => v,
            None => Vec::new(),
        };
        let ghost fc0 = from_coll@;
        proof {
            assert(fc0 == old(self).coll_of(from));
            assert(old(self).coll_of(from).contains(token_id));
        }
        let mut idx: usize = 0;
        let ghost found = choose|j: int| 0 <= j < fc0.len() && fc0[j] == token_id;
        while idx < from_coll.len() && from_coll[idx] != token_id
            invariant
                idx <= fc0.len(),
                from_coll@ == fc0,
                fc0.contains(token_id),
                forall|j: int| 0 <= j < idx ==> fc0[j] != token_id,
            decreases fc0.len() - idx,
        {
            idx = idx + 1;
        }
        proof {
            if idx >= fc0.len() {
                let j = choose|j: int| 0 <= j < fc0.len() && fc0[j] == token_id;
                assert(false);
            }
        }
        from_coll.remove(idx);
        proof {
            fc0.remove_ensures(idx as int);
        }
        self.collections.insert(from, from_coll);
        let mut to_coll: Vec<u32> = match self.collections.remove(&to) {
            Some(v) => v,
            None => Vec::new(),
        };
        let ghost tc0 = to_coll@;
        proof {
            assert(tc0 == old(self).coll_of(to));
            if tc0.contains(token_id) {
                let j = choose|j: int| 0 <= j < tc0.len() && tc0[j] == token_id;
                assert(old(self).achievements@[tc0[j]].owner == to);
                assert(false);
            }
        }
        to_coll.push(token_id);
        self.collections.insert(to, to_coll);
        proof {
            assert(found == idx as int) by {
                if found != idx as int {
                    assert(fc0[found] == fc0[idx as int]);
                }
            }
            assert(self.coll_of(from) == fc0.remove(idx as int));
            assert(self.coll_of(to) == tc0.push(token_id));
            assert(self.coll_of(to)[tc0.len() as int] == token_id);
            assert(self.coll_of(to).contains(token_id));
            assert forall|j: int|
                0 <= j < self.coll_of(from).len() implies #[trigger] self.coll_of(from)[j]
                != token_id by {
                if j < idx {
                    assert(self.coll_of(from)[j] == fc0[j]);
                } else {
                    assert(self.coll_of(from)[j] == fc0[j + 1]);
                }
            }
            assert forall|t: u32| #[trigger] self.achievements@.contains_key(t) implies self.coll_of(
                self.achievements@[t].owner,
            ).contains(t) by {
                if t == token_id {
                } else {
                    assert(old(self).achievements@.contains_key(t));
                    let owner = old(self).achievements@[t].owner;
                    assert(old(self).coll_of(owner).contains(t));
                    let j = choose|j: int|
                        0 <= j < old(self).coll_of(owner).len() && old(self).coll_of(owner)[j] == t;
                    if owner == from {
                        if j < idx {
                            assert(self.coll_of(from)[j] == t);
                        } else {
                            assert(j != idx);
                            assert(self.coll_of(from)[j - 1] == fc0[j]);
                        }
                        assert(self.coll_of(from).contains(t));
                    } else if owner == to {
                        assert(self.coll_of(to)[j] == t);
                        assert(self.coll_of(to).contains(t));
                    } else {
                        assert(self.coll_of(owner) == old(self).coll_of(owner));
                    }
                }
            }
            assert forall|a: Address, j: int|
                0 <= j < self.coll_of(a).len() implies self.achievements@.contains_key(
                #[trigger] self.coll_of(a)[j],
            ) && self.achievements@[self.coll_of(a)[j]].owner == a by {
                if a == from {
                    let t = self.coll_of(from)[j];
                    assert(t != token_id);
                    if j < idx {
                        assert(t == fc0[j]);
                    } else {
                        assert(t == fc0[j + 1]);
                    }
                    assert(old(self).achievements@.contains_key(t));
                    assert(old(self).achievements@[t].owner == from);
                } else if a == to {
                    let t = self.coll_of(to)[j];
                    if j < tc0.len() {
                        assert(t == tc0[j]);
                        assert(old(self).achievements@.contains_key(t));
                        assert(old(self).achievements@[t].owner == to);
                        assert(t != token_id);
                    } else {
                        assert(t == token_id);
                    }
                } else {
                    assert(self.coll_of(a) == old(self).coll_of(a));
                    let t = self.coll_of(a)[j];
                    assert(old(self).achievements@.contains_key(t));
                    assert(old(self).achievements@[t].owner == a);
                    assert(t != token_id);
                }
            }
            assert forall|a: Address| unique_ids(#[trigger] self.coll_of(a)) by {
                if a == from {
                    assert forall|m: int, n: int|
                        0 <= m < n < self.coll_of(from).len() implies self.coll_of(from)[m]
                        != self.coll_of(from)[n] by {
                        let m1 = if m < idx {
                            m
                        } else {
                            m + 1
                        };
                        let n1 = if n < idx {
                            n
                        } else {
                            n + 1
                        };
                        assert(self.coll_of(from)[m] == fc0[m1] && self.coll_of(from)[n]
                            == fc0[n1]);
                    }
                } else if a == to {
                    assert forall|m: int, n: int|
                        0 <= m < n < self.coll_of(to).len() implies self.coll_of(to)[m]
                        != self.coll_of(to)[n] by {
                        if n == tc0.len() {
                            assert(self.coll_of(to)[m] == tc0[m]);
                            assert(old(self).achievements@.contains_key(tc0[m]));
                            assert(old(self).achievements@[tc0[m]].owner == to);
                            if tc0[m] == token_id {
                                assert(old(self).achievements@[token_id].owner == from);
                            }
                        }
                    }
                }
            }
            assert(self.achievements@.dom() =~= old(self).achievements@.dom());
        }
        Ok(())
    }

    /// Burns a token (its owner only): the NFT and its collection entry
    /// disappear and the supply shrinks.
    pub fn burn(&mut self, caller: Address, token_id: u32) -> (r: Result<(), Error>)
        requires
            old(self).wf(),
        ensures
            final(self).wf(),
            final(self).admin == old(self).admin,
            final(self).next_token_id == old(self).next_token_id,
            final(self).puzzle_completed@ == old(self).puzzle_completed@,
            match r {
                Ok(()) => {
                    &&& old(self).achievements@.contains_key(token_id)
                    &&& old(self).achievements@[token_id].owner == caller
                    &&& final(self).achievements@ =~= old(self).achievements@.remove(token_id)
                    &&& !final(self).coll_of(caller).contains(token_id)
                    &&& (exists|i: int|
                        0 <= i < old(self).coll_of(caller).len() && old(self).coll_of(caller)[i]
                            == token_id && final(self).coll_of(caller) == old(self).coll_of(
                            caller,
                        ).remove(i))
                    &&& forall|a: Address|
                        a != caller ==> final(self).coll_of(a) == old(self).coll_of(a)
                    &&& final(self).total_supply == old(self).total_supply - 1
                },
                Err(e) => *final(self) == *old(self) && match e {
                    Error::TokenNotFound => !old(self).achievements@.contains_key(token_id),
                    Error::Unauthorized => old(self).achievements@.contains_key(token_id) && old(self).achievements@[token_id].owner != caller,
                    _ => false,
                },
            },
    {
        let owner: Address = match self.achievements.get(&token_id) {
            Some(a) => a.owner,
            None => { return Err(Error::TokenNotFound) },
        };
        if owner != caller {
            return Err(Error::Unauthorized);
        }
        let mut coll: Vec<u32> = match self.collections.remove(&caller) {
            Some(v) => v,
            None => Vec::new(),
        };
        let ghost c0 = coll@;
        proof {
            assert(c0 == old(self).coll_of(caller));
            assert(old(self).coll_of(caller).contains(token_id));
        }
        let mut idx: usize = 0;
        while idx < coll.len() && coll[idx] != token_id
            invariant
                idx <= c0.len(),
                coll@ == c0,
                c0.contains(token_id),
                forall|j: int| 0 <= j < idx ==> c0[j] != token_id,
            decreases c0.len() - idx,
        {
            idx = idx + 1;
        }
        proof {
            if idx >= c0.len() {
                let j = choose|j: int| 0 <= j < c0.len() && c0[j] == token_id;
                assert(false);
            }
        }
        coll.remove(idx);
        proof {
            c0.remove_ensures(idx as int);
        }
        self.collections.insert(caller, coll);
        self.achievements.remove(&token_id);
        proof {
            axiom_set_remove_len(old(self).achievements@.dom(), token_id);
            assert(old(self).achievements@.remove(token_id).dom() =~= old(self).achievements@.dom().remove(token_id));
        }
        self.total_supply = self.total_supply - 1;
        proof {
            assert(self.coll_of(caller) == c0.remove(idx as int));
            assert forall|j: int|
                0 <= j < self.coll_of(caller).len() implies #[trigger] self.coll_of(caller)[j]
                != token_id by {
                if j < idx {
                    assert(self.coll_of(caller)[j] == c0[j]);
                } else {
                    assert(self.coll_of(caller)[j] == c0[j + 1]);
                }
            }
            assert forall|t: u32| #[trigger] self.achievements@.contains_key(t) implies self.coll_of(
                self.achievements@[t].owner,
            ).contains(t) by {
                assert(t != token_id);
                assert(old(self).achievements@.contains_key(t));
                let owner2 = old(self).achievements@[t].owner;
                assert(old(self).coll_of(owner2).contains(t));
                if owner2 == caller {
                    let j = choose|j: int| 0 <= j < c0.len() && c0[j] == t;
                    if j < idx {
                        assert(self.coll_of(caller)[j] == t);
                    } else {
                        assert(j != idx);
                        assert(self.coll_of(caller)[j - 1] == c0[j]);
                    }
                    assert(self.coll_of(caller).contains(t));
                } else {
                    assert(self.coll_of(owner2) == old(self).coll_of(owner2));
                }
            }
            assert forall|a: Address, j: int|
                0 <= j < self.coll_of(a).len() implies self.achievements@.contains_key(
                #[trigger] self.coll_of(a)[j],
            ) && self.achievements@[self.coll_of(a)[j]].owner == a by {
                if a == caller {
                    let t = self.coll_of(caller)[j];
                    assert(t != token_id);
                    if j < idx {
                        assert(t == c0[j]);
                    } else {
                        assert(t == c0[j + 1]);
                    }
                    assert(old(self).achievements@.contains_key(t));
                    assert(old(self).achievements@[t].owner == caller);
                } else {
                    assert(self.coll_of(a) == old(self).coll_of(a));
                    let t = self.coll_of(a)[j];
                    assert(old(self).achievements@.contains_key(t));
                    assert(old(self).achievements@[t].owner == a);
                    assert(t != token_id);
                }
            }
            assert forall|a: Address| unique_ids(#[trigger] self.coll_of(a)) by {
                if a == caller {
                    assert forall|m: int, n: int|
                        0 <= m < n < self.coll_of(caller).len() implies self.coll_of(caller)[m]
                        != self.coll_of(caller)[n] by {
                        let m1 = if m < idx {
                            m
                        } else {
                            m + 1
                        };
                        let n1 = if n < idx {
                            n
                        } else {
                            n + 1
                        };
                        assert(self.coll_of(caller)[m] == c0[m1] && self.coll_of(caller)[n]
                            == c0[n1]);
                    }
                } else {
                    assert(self.coll_of(a) == old(self).coll_of(a));
                }
            }
        }
        Ok(())
    }

    /// The token ids an address currently owns.
    pub fn get_collection(&self, owner: Address) -> (r: Vec<u32>)
        ensures
            r@ == self.coll_of(owner),
    {
        let mut out: Vec<u32> = Vec::new();
        match self.collections.get(&owner) {
            Some(v) => {
                let mut i: usize = 0;
                while i < v.len()
                    invariant
                        i <= v@.len(),
                        out@ == v@.take(i as int),
                    decreases v@.len() - i,
                {
                    out.push(v[i]);
                    proof {
                        assert(v@.take(i as int).push(v@[i as int]) =~= v@.take(i as int + 1));
                    }
                    i = i + 1;
                }
                proof {
                    assert(v@.take(v@.len() as int) =~= v@);
                }
                out
            },
            None => out,
        }
    }

    /// The owner of an existing token.
    pub fn owner_of(&self, token_id: u32) -> (r: Address)
        requires
            self.achievements@.contains_key(token_id),
        ensures
            r == self.achievements@[token_id].owner,
    {
        match self.achievements.get(&token_id) {
            Some(a) => a.owner,
            None => 0,
        }
    }

    /// How many NFTs currently exist.
    pub fn total_supply(&self) -> (r: u32)
        ensures
            r == self.total_supply,
    {
        self.total_supply
    }

    /// The full record of a token, if it exists.
    pub fn get_achievement(&self, token_id: u32) -> (r: Option<Achievement>)
        ensures
            r == if self.achievements@.contains_key(token_id) {
                Some(self.achievements@[token_id])
            } else {
                None::<Achievement>
            },
    {
        match self.achievements.get(&token_id) {
            Some(a) => Some(
                Achievement {
                    owner: a.owner,
                    puzzle_id: a.puzzle_id,
                    metadata: a.metadata.clone(),
                    timestamp: a.timestamp,
                },
            ),
            None => None,
        }
    }
}

} // verus!
