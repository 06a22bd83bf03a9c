//! Fungible reward token: a balance ledger with mint, burn, transfer and
//! allowance-based delegated transfer.
//!
//! The ledger is a vector of `(address, amount)` entries with pairwise
//! distinct addresses. The module's central invariant ([`RewardToken::wf`])
//! is that every balance is non-negative and that the balances add up to
//! `total_supply`; every operation preserves it, so no sequence of calls can
//! create or destroy tokens except `mint` and the two burning entry points.
use vstd::prelude::*;
use vstd::hash_map::HashMapWithView;
use crate::Address;

verus! {

/// Failure conditions of the token entry points. The host reports these to
/// the transaction submitter; no entry point commits state when it fails.
#[derive(Clone, Copy, Debug, PartialEq, Eq, Structural)]
pub enum TokenError {
    AlreadyInitialized,
    NotInitialized,
    Unauthorized,
    InvalidAmount,
    InsufficientBalance,
    InsufficientAllowance,
    LengthMismatch,
}

/// What a reward spend pays for; carried in off-chain notifications and
/// kept for API completeness, not read by any entry point.
#[derive(Clone, Copy, Debug, PartialEq, Eq, Structural)]
pub enum RewardType {
    HintPurchase,
    LevelUnlock,
    Achievement,
}

/// One account's balance.
#[derive(Clone, Copy, Debug)]
pub struct BalanceEntry {
    pub addr: Address,
    pub amount: i128,
}

/// Balance of `a` in `s[i..]`: the amount of the first entry for `a`, or 0
/// when there is none.
pub open spec fn bal_from(s: Seq<BalanceEntry>, i: int, a: Address) -> int
    decreases s.len() - i,
{
    if i < 0 || i >= s.len() {
        0
    } else if s[i].addr == a {
        s[i].amount as int
    } else {
        bal_from(s, i + 1, a)
    }
}

/// Balance of `a` in the whole ledger `s`.
pub open spec fn balance_of(s: Seq<BalanceEntry>, a: Address) -> int {
    bal_from(s, 0, a)
}

/// Sum of the amounts in `s[i..]`.
pub open spec fn sum_from(s: Seq<BalanceEntry>, i: int) -> int
    decreases s.len() - i,
{
    if i < 0 || i >= s.len() {
        0
    } else {
        s[i].amount + sum_from(s, i + 1)
    }
}

/// Sum of all amounts in the ledger `s`.
pub open spec fn total_of(s: Seq<BalanceEntry>) -> int {
    sum_from(s, 0)
}

/// No two entries are for the same address.
pub open spec fn unique_addrs(s: Seq<BalanceEntry>) -> bool {
    forall|i: int, j: int| 0 <= i < j < s.len() ==> s[i].addr != s[j].addr
}

/// Every entry's amount is non-negative.
pub open spec fn nonnegative(s: Seq<BalanceEntry>) -> bool {
    forall|i: int| 0 <= i < s.len() ==> s[i].amount >= 0
}

/// Skipping entries that are not for `a` does not change the balance.
proof fn lemma_bal_from_skip_to(s: Seq<BalanceEntry>, k: int, i: int, a: Address)
    requires
        0 <= k <= i <= s.len(),
        forall|j: int| k <= j < i ==> s[j].addr != a,
    ensures
        bal_from(s, k, a) == bal_from(s, i, a),
    decreases i - k,
{
    if k < i {
        lemma_bal_from_skip_to(s, k + 1, i, a);
    }
}

/// In a ledger with distinct addresses, the entry holding `a` gives `a`'s
/// balance.
proof fn lemma_bal_found(s: Seq<BalanceEntry>, i: int, a: Address)
    requires
        unique_addrs(s),
        0 <= i < s.len(),
        s[i].addr == a,
    ensures
        balance_of(s, a) == s[i].amount as int,
{
    assert(forall|j: int| 0 <= j < i ==> s[j].addr != a);
    lemma_bal_from_skip_to(s, 0, i, a);
}

/// Overwriting entry `i` with a new amount for the same address moves only
/// that address's balance.
proof fn lemma_bal_from_update(s: Seq<BalanceEntry>, i: int, e: BalanceEntry, k: int, a: Address)
    requires
        unique_addrs(s),
        0 <= i < s.len(),
        0 <= k <= s.len(),
        e.addr == s[i].addr,
    ensures
        a == e.addr ==> bal_from(s.update(i, e), k, a) == if k <= i {
            e.amount as int
        } else {
            0int
        },
        a != e.addr ==> bal_from(s.update(i, e), k, a) == bal_from(s, k, a),
    decreases s.len() - k,
{
    if k < s.len() {
        lemma_bal_from_update(s, i, e, k + 1, a);
    }
}

/// Overwriting entry `i` changes the sum of `s[k..]` by the difference at
/// `i`, when `i` lies in that suffix.
proof fn lemma_sum_from_update(s: Seq<BalanceEntry>, i: int, e: BalanceEntry, k: int)
    requires
        0 <= i < s.len(),
        0 <= k <= s.len(),
    ensures
        sum_from(s.update(i, e), k) == sum_from(s, k) + if k <= i {
            e.amount - s[i].amount
        } else {
            0int
        },
    decreases s.len() - k,
{
    if k < s.len() {
        lemma_sum_from_update(s, i, e, k + 1);
    }
}

/// Appending an entry for a fresh address sets that address's balance and
/// leaves the others alone.
proof fn lemma_bal_from_push(s: Seq<BalanceEntry>, e: BalanceEntry, k: int, a: Address)
    requires
        0 <= k <= s.len(),
        forall|j: int| 0 <= j < s.len() ==> s[j].addr != e.addr,
    ensures
        a == e.addr ==> bal_from(s.push(e), k, a) == e.amount as int,
        a != e.addr ==> bal_from(s.push(e), k, a) == bal_from(s, k, a),
    decreases s.len() - k,
{
    if k < s.len() {
        lemma_bal_from_push(s, e, k + 1, a);
    } else {
        assert(s.push(e)[k] == e);
        assert(bal_from(s.push(e), k + 1, a) == 0);
    }
}

/// Appending an entry adds its amount to the sum.
proof fn lemma_sum_from_push(s: Seq<BalanceEntry>, e: BalanceEntry, k: int)
    requires
        0 <= k <= s.len(),
    ensures
        sum_from(s.push(e), k) == sum_from(s, k) + e.amount,
    decreases s.len() - k,
{
    if k < s.len() {
        lemma_sum_from_push(s, e, k + 1);
    } else {
        assert(s.push(e)[k] == e);
        assert(sum_from(s.push(e), k + 1) == 0);
    }
}

/// With non-negative amounts, one balance never exceeds the suffix sum.
proof fn lemma_bal_le_sum(s: Seq<BalanceEntry>, k: int, a: Address)
    requires
        nonnegative(s),
        0 <= k <= s.len(),
    ensures
        0 <= bal_from(s, k, a) <= sum_from(s, k),
    decreases s.len() - k,
{
    if k < s.len() {
        lemma_bal_le_sum(s, k + 1, a);
    }
}

/// Amount credited to `a` by the entry pairs `(rs, amts)[i..]`: the sum of
/// the positive amounts listed for `a` (non-positive amounts are skipped).
pub open spec fn credited_from(rs: Seq<Address>, amts: Seq<i128>, a: Address, i: int) -> int
    decreases rs.len() - i,
{
    if i < 0 || i >= rs.len() || i >= amts.len() {
        0
    } else {
        (if rs[i] == a && amts[i] > 0 {
            amts[i] as int
        } else {
            0int
        }) + credited_from(rs, amts, a, i + 1)
    }
}

/// Amount credited to `a` by a whole distribution list.
pub open spec fn credited(rs: Seq<Address>, amts: Seq<i128>, a: Address) -> int {
    credited_from(rs, amts, a, 0)
}

/// Sum of the positive amounts in `amts[i..]`.
pub open spec fn pos_total_from(amts: Seq<i128>, i: int) -> int
    decreases amts.len() - i,
{
    if i < 0 || i >= amts.len() {
        0
    } else {
        (if amts[i] > 0 {
            amts[i] as int
        } else {
            0int
        }) + pos_total_from(amts, i + 1)
    }
}

/// Sum of all positive amounts in a distribution list.
pub open spec fn pos_total(amts: Seq<i128>) -> int {
    pos_total_from(amts, 0)
}

proof fn lemma_pos_total_from_nonneg(amts: Seq<i128>, i: int)
    ensures
        pos_total_from(amts, i) >= 0,
    decreases amts.len() - i,
{
    if 0 <= i < amts.len() {
        lemma_pos_total_from_nonneg(amts, i + 1);
    }
}

/// Pairs an (owner, spender) address pair into one allowance-table key.
pub open spec fn spec_pack_pair(owner: Address, spender: Address) -> u128 {
    ((owner as int) * 0x1_0000_0000_0000_0000 + (spender as int)) as u128
}

/// Distinct pairs pack to distinct keys.
pub proof fn lemma_pack_pair_injective(o1: Address, s1: Address, o2: Address, s2: Address)
    requires
        spec_pack_pair(o1, s1) == spec_pack_pair(o2, s2),
    ensures
        o1 == o2 && s1 == s2,
{
    assert((o1 as int) * 0x1_0000_0000_0000_0000 + (s1 as int) == (o2 as int)
        * 0x1_0000_0000_0000_0000 + (s2 as int));
}

fn pack_pair(owner: Address, spender: Address) -> (r: u128)
    ensures
        r == spec_pack_pair(owner, spender),
{
    (owner as u128) * 0x1_0000_0000_0000_0000u128 + (spender as u128)
}

/// The reward token contract's entire state.
///
/// Callers are authenticated by the host before any entry point runs; the
/// address arguments below are those authenticated identities.
pub struct RewardToken {
    /// Administrator; `None` until `initialize` has run.
    pub admin: Option<Address>,
    pub name: String,
    pub symbol: String,
    pub decimals: u32,
    pub total_supply: i128,
    /// The balance ledger; one entry per address that was ever credited.
    pub balances: Vec<BalanceEntry>,
    /// Remaining delegated spending rights, keyed by packed (owner, spender).
    pub allowances: HashMapWithView<u128, i128>,
    /// Addresses allowed to receive mints without admin authorization.
    pub minters: HashMapWithView<Address, bool>,
}

impl RewardToken {
    /// Ledger well-formedness: distinct addresses, non-negative balances,
    /// and the balances add up to the recorded total supply.
    pub open spec fn wf(&self) -> bool {
        &&& unique_addrs(self.balances@)
        &&& nonnegative(self.balances@)
        &&& total_of(self.balances@) == self.total_supply as int
    }

    pub open spec fn is_initialized(&self) -> bool {
        self.admin is Some
    }

    pub open spec fn spec_admin(&self) -> Address {
        match self.admin {
            Some(a) => a,
            None => 0,
        }
    }

    pub open spec fn spec_balance(&self, a: Address) -> int {
        balance_of(self.balances@, a)
    }

    pub open spec fn spec_allowance(&self, owner: Address, spender: Address) -> int {
        if self.allowances@.contains_key(spec_pack_pair(owner, spender)) {
            self.allowances@[spec_pack_pair(owner, spender)] as int
        } else {
            0
        }
    }

    pub open spec fn spec_is_minter(&self, a: Address) -> bool {
        self.admin == Some(a) || (self.minters@.contains_key(a) && self.minters@[a])
    }

    /// All configuration fields are unchanged (only balances and supply may
    /// have moved).
    pub open spec fn same_config(&self, other: &Self) -> bool {
        &&& self.admin == other.admin
        &&& self.name == other.name
        &&& self.symbol == other.symbol
        &&& self.decimals == other.decimals
        &&& self.allowances@ == other.allowances@
        &&& self.minters@ == other.minters@
    }

    /// The empty, uninitialized contract state. The metadata starts from
    /// its standing defaults, which `initialize` replaces.
    pub fn new() -> (t: Self)
        ensures
            t.wf(),
            !t.is_initialized(),
            t.name@ == "Reward Token"@,
            t.symbol@ == "RWD"@,
            t.decimals == 6,
            t.total_supply == 0,
            t.balances@.len() == 0,
            t.allowances@ == Map::<u128, i128>::empty(),
            t.minters@ == Map::<Address, bool>::empty(),
    {
        RewardToken {
            admin: None,
            name: String::from_str("Reward Token"),
            symbol: String::from_str("RWD"),
            decimals: 6,
            total_supply: 0,
            balances: Vec::new(),
            allowances: HashMapWithView::new(),
            minters: HashMapWithView::new(),
        }
    }

    /// Records the token metadata and administrator. Fails once a previous
    /// call has succeeded.
    pub fn initialize(&mut self, admin: Address, name: String, symbol: String, decimals: u32) -> (r:
        Result<(), TokenError>)
        requires
            old(self).wf(),
        ensures
            final(self).wf(),
            match r {
                Ok(()) => !old(self).is_initialized() && final(self).admin == Some(admin) && final(self).name == name && final(self).symbol == symbol && final(self).decimals == decimals
                    && final(self).balances == old(self).balances && final(self).total_supply == old(self).total_supply && final(self).allowances@ == old(self).allowances@ && final(self).minters@ == old(self).minters@,
                Err(e) => *final(self) == *old(self) && e == TokenError::AlreadyInitialized && old(self).is_initialized(),
            },
    {
        if self.admin.is_some() {
            return Err(TokenError::AlreadyInitialized);
        }
        self.admin = Some(admin);
        self.name = name;
        self.symbol = symbol;
        self.decimals = decimals;
        Ok(())
    }

    /// Index of `account`'s ledger entry, if it has one.
    fn find_balance_index(&self, account: Address) -> (r: Option<usize>)
        ensures
            match r {
                Some(i) => i < self.balances@.len() && self.balances@[i as int].addr == account
                    && forall|j: int| 0 <= j < i ==> self.balances@[j].addr != account,
                None => forall|j: int|
                    0 <= j < self.balances@.len() ==> self.balances@[j].addr != account,
            },
    {
        let mut i: usize = 0;
        while i < self.balances.len()
            invariant
                i <= self.balances@.len(),
                forall|j: int| 0 <= j < i ==> self.balances@[j].addr != account,
            decreases self.balances@.len() - i,
        {
            if self.balances[i].addr == account {
                return Some(i);
            }
            i = i + 1;
        }
        None
    }

    /// Balance of an account; 0 when the account has no entry.
    pub fn balance(&self, account: Address) -> (r: i128)
        ensures
            r as int == self.spec_balance(account),
    {
        match self.find_balance_index(account) {
            Some(i) => {
                proof {
                    lemma_bal_from_skip_to(self.balances@, 0, i as int, account);
                }
                self.balances[i].amount
            },
            None => {
                proof {
                    lemma_bal_from_skip_to(self.balances@, 0, self.balances@.len() as int, account);
                }
                0
            },
        }
    }

    /// Writes `account`'s balance, keeping every other balance and all
    /// non-ledger fields as they were.
    fn set_balance(&mut self, account: Address, v: i128)
        requires
            unique_addrs(old(self).balances@),
            v >= 0,
        ensures
            unique_addrs(final(self).balances@),
            nonnegative(old(self).balances@) ==> nonnegative(final(self).balances@),
            final(self).spec_balance(account) == v as int,
            forall|b: Address|
                b != account ==> final(self).spec_balance(b) == old(self).spec_balance(b),
            total_of(final(self).balances@) == total_of(old(self).balances@) + v - old(self).spec_balance(account),
            final(self).admin == old(self).admin,
            final(self).name == old(self).name,
            final(self).symbol == old(self).symbol,
            final(self).decimals == old(self).decimals,
            final(self).total_supply == old(self).total_supply,
            final(self).allowances@ == old(self).allowances@,
            final(self).minters@ == old(self).minters@,
    {
        let ghost s = self.balances@;
        match self.find_balance_index(account) {
            Some(i) => {
                let e = BalanceEntry { addr: account, amount: v };
                self.balances.set(i, e);
                proof {
                    lemma_bal_found(s, i as int, account);
                    lemma_sum_from_update(s, i as int, e, 0);
                    assert forall|b: Address| true implies {
                        &&& b == account ==> bal_from(s.update(i as int, e), 0, b) == v as int
                        &&& b != account ==> bal_from(s.update(i as int, e), 0, b) == bal_from(
                            s,
                            0,
                            b,
                        )
                    } by {
                        lemma_bal_from_update(s, i as int, e, 0, b);
                    }
                }
            },
            None => {
                let e = BalanceEntry { addr: account, amount: v };
                self.balances.push(e);
                proof {
                    lemma_bal_from_skip_to(s, 0, s.len() as int, account);
                    lemma_sum_from_push(s, e, 0);
                    assert forall|b: Address| true implies {
                        &&& b == account ==> bal_from(s.push(e), 0, b) == v as int
                        &&& b != account ==> bal_from(s.push(e), 0, b) == bal_from(s, 0, b)
                    } by {
                        lemma_bal_from_push(s, e, 0, b);
                    }
                }
            },
        }
    }

    fn is_minter_lookup(&self, a: Address) -> (r: bool)
        ensures
            r == self.spec_is_minter(a),
    {
        match self.admin {
            Some(adm) => {
                if adm == a {
                    return true;
                }
            },
            None => {},
        }
        match self.minters.get(&a) {
            Some(b) => *b,
            None => false,
        }
    }

    /// True for the admin and for every address the admin has authorized.
    pub fn is_authorized_minter(&self, minter: Address) -> (r: bool)
        requires
            self.is_initialized(),
        ensures
            r == self.spec_is_minter(minter),
    {
        self.is_minter_lookup(minter)
    }

    /// Grants `minter` the right to receive mints without admin
    /// authorization (admin only).
    pub fn authorize_minter(&mut self, caller: Address, minter: Address) -> (r: Result<
        (),
        TokenError,
    >)
        requires
            old(self).wf(),
        ensures
            final(self).wf(),
            final(self).balances == old(self).balances,
            final(self).total_supply == old(self).total_supply,
            final(self).admin == old(self).admin,
            final(self).allowances@ == old(self).allowances@,
            match r {
                Ok(()) => old(self).is_initialized() && caller == old(self).spec_admin() && final(self).minters@ == old(self).minters@.insert(minter, true),
                Err(e) => *final(self) == *old(self) && match e {
                    TokenError::NotInitialized => !old(self).is_initialized(),
                    TokenError::Unauthorized => old(self).is_initialized() && caller != old(self).spec_admin(),
                    _ => false,
                },
            },
    {
        let admin = match self.admin {
            Some(a) => a,
            None => { return Err(TokenError::NotInitialized) },
        };
        if caller != admin {
            return Err(TokenError::Unauthorized);
        }
        self.minters.insert(minter, true);
        Ok(())
    }

    /// Withdraws a minter authorization (admin only).
    pub fn revoke_minter(&mut self, caller: Address, minter: Address) -> (r: Result<
        (),
        TokenError,
    >)
        requires
            old(self).wf(),
        ensures
            final(self).wf(),
            final(self).balances == old(self).balances,
            final(self).total_supply == old(self).total_supply,
            final(self).admin == old(self).admin,
            final(self).allowances@ == old(self).allowances@,
            match r {
                Ok(()) => old(self).is_initialized() && caller == old(self).spec_admin() && final(self).minters@ == old(self).minters@.remove(minter),
                Err(e) => *final(self) == *old(self) && match e {
                    TokenError::NotInitialized => !old(self).is_initialized(),
                    TokenError::Unauthorized => old(self).is_initialized() && caller != old(self).spec_admin(),
                    _ => false,
                },
            },
    {
        let admin = match self.admin {
            Some(a) => a,
            None => { return Err(TokenError::NotInitialized) },
        };
        if caller != admin {
            return Err(TokenError::Unauthorized);
        }
        self.minters.remove(&minter);
        Ok(())
    }

    /// Creates `amount` new tokens for `to`. Only the admin or an
    /// authorized minter may mint; the recipient is unconstrained.
    pub fn mint(&mut self, caller: Address, to: Address, amount: i128) -> (r: Result<
        (),
        TokenError,
    >)
        requires
            old(self).wf(),
            old(self).total_supply + amount <= i128::MAX,
        ensures
            final(self).wf(),
            final(self).same_config(old(self)),
            match r {
                Ok(()) => {
                    &&& amount > 0
                    &&& old(self).is_initialized()
                    &&& old(self).spec_is_minter(caller)
                    &&& final(self).spec_balance(to) == old(self).spec_balance(to) + amount
                    &&& forall|x: Address|
                        x != to ==> final(self).spec_balance(x) == old(self).spec_balance(x)
                    &&& final(self).total_supply == old(self).total_supply + amount
                },
                Err(e) => *final(self) == *old(self) && match e {
                    TokenError::InvalidAmount => amount <= 0,
                    TokenError::NotInitialized => amount > 0 && !old(self).is_initialized(),
                    TokenError::Unauthorized => amount > 0 && old(self).is_initialized() && !old(self).spec_is_minter(caller),
                    _ => false,
                },
            },
    {
        if amount <= 0 {
            return Err(TokenError::InvalidAmount);
        }
        match self.admin {
            Some(_) => {},
            None => { return Err(TokenError::NotInitialized) },
        }
        if !self.is_minter_lookup(caller) {
            return Err(TokenError::Unauthorized);
        }
        let bal = self.balance(to);
        proof {
            lemma_bal_le_sum(self.balances@, 0, to);
        }
        self.set_balance(to, bal + amount);
        self.total_supply = self.total_supply + amount;
        Ok(())
    }

    /// Moves `amount` from `from` (the authenticated caller) to `to`.
    /// A transfer to oneself leaves every balance unchanged.
    pub fn transfer(&mut self, from: Address, to: Address, amount: i128) -> (r: Result<
        bool,
        TokenError,
    >)
        requires
            old(self).wf(),
        ensures
            final(self).wf(),
            final(self).same_config(old(self)),
            final(self).total_supply == old(self).total_supply,
            match r {
                Ok(b) => {
                    &&& b
                    &&& amount > 0
                    &&& old(self).spec_balance(from) >= amount
                    &&& from != to ==> final(self).spec_balance(from) == old(self).spec_balance(
                        from,
                    ) - amount && final(self).spec_balance(to) == old(self).spec_balance(to)
                        + amount
                    &&& from == to ==> final(self).spec_balance(from) == old(self).spec_balance(
                        from,
                    )
                    &&& forall|x: Address|
                        x != from && x != to ==> final(self).spec_balance(x) == old(self).spec_balance(x)
                },
                Err(e) => *final(self) == *old(self) && match e {
                    TokenError::InvalidAmount => amount <= 0,
                    TokenError::InsufficientBalance => amount > 0 && old(self).spec_balance(from)
                        < amount,
                    _ => false,
                },
            },
    {
        if amount <= 0 {
            return Err(TokenError::InvalidAmount);
        }
        let from_bal = self.balance(from);
        if from_bal < amount {
            return Err(TokenError::InsufficientBalance);
        }
        proof {
            lemma_bal_le_sum(self.balances@, 0, from);
        }
        self.set_balance(from, from_bal - amount);
        let to_bal = self.balance(to);
        proof {
            lemma_bal_le_sum(self.balances@, 0, to);
        }
        self.set_balance(to, to_bal + amount);
        Ok(true)
    }

    /// Lets `spender` later move up to `amount` of `owner`'s tokens.
    pub fn approve(&mut self, owner: Address, spender: Address, amount: i128) -> (r: Result<
        bool,
        TokenError,
    >)
        requires
            old(self).wf(),
        ensures
            final(self).wf(),
            final(self).balances == old(self).balances,
            final(self).total_supply == old(self).total_supply,
            final(self).admin == old(self).admin,
            final(self).minters@ == old(self).minters@,
            match r {
                Ok(b) => {
                    &&& b
                    &&& amount >= 0
                    &&& final(self).spec_allowance(owner, spender) == amount
                    &&& forall|o: Address, s: Address|
                        !(o == owner && s == spender) ==> final(self).spec_allowance(o, s) == old(self).spec_allowance(o, s)
                },
                Err(e) => *final(self) == *old(self) && e == TokenError::InvalidAmount && amount
                    < 0,
            },
    {
        if amount < 0 {
            return Err(TokenError::InvalidAmount);
        }
        let k = pack_pair(owner, spender);
        self.allowances.insert(k, amount);
        proof {
            assert forall|o: Address, s: Address| !(o == owner && s == spender) implies self
                .spec_allowance(o, s) == old(self).spec_allowance(o, s) by {
                if spec_pack_pair(o, s) == spec_pack_pair(owner, spender) {
                    lemma_pack_pair_injective(o, s, owner, spender);
                }
            }
        }
        Ok(true)
    }

    /// Moves `amount` from `from` to `to` on behalf of `spender` (the
    /// authenticated caller), consuming that much of the allowance.
    pub fn transfer_from(
        &mut self,
        spender: Address,
        from: Address,
        to: Address,
        amount: i128,
    ) -> (r: Result<bool, TokenError>)
        requires
            old(self).wf(),
        ensures
            final(self).wf(),
            final(self).total_supply == old(self).total_supply,
            final(self).admin == old(self).admin,
            final(self).minters@ == old(self).minters@,
            match r {
                Ok(b) => {
                    &&& b
                    &&& amount > 0
                    &&& old(self).spec_allowance(from, spender) >= amount
                    &&& old(self).spec_balance(from) >= amount
                    &&& from != to ==> final(self).spec_balance(from) == old(self).spec_balance(
                        from,
                    ) - amount && final(self).spec_balance(to) == old(self).spec_balance(to)
                        + amount
                    &&& from == to ==> final(self).spec_balance(from) == old(self).spec_balance(
                        from,
                    )
                    &&& forall|x: Address|
                        x != from && x != to ==> final(self).spec_balance(x) == old(self).spec_balance(x)
                    &&& final(self).spec_allowance(from, spender) == old(self).spec_allowance(
                        from,
                        spender,
                    ) - amount
                    &&& forall|o: Address, s: Address|
                        !(o == from && s == spender) ==> final(self).spec_allowance(o, s) == old(self).spec_allowance(o, s)
                },
                Err(e) => *final(self) == *old(self) && match e {
                    TokenError::InvalidAmount => amount <= 0,
                    TokenError::InsufficientAllowance => amount > 0 && old(self).spec_allowance(
                        from,
                        spender,
                    ) < amount,
                    TokenError::InsufficientBalance => amount > 0 && old(self).spec_allowance(
                        from,
                        spender,
                    ) >= amount && old(self).spec_balance(from) < amount,
                    _ => false,
                },
            },
    {
        if amount <= 0 {
            return Err(TokenError::InvalidAmount);
        }
        let alw = self.allowance(from, spender);
        if alw < amount {
            return Err(TokenError::InsufficientAllowance);
        }
        let from_bal = self.balance(from);
        if from_bal < amount {
            return Err(TokenError::InsufficientBalance);
        }
        proof {
            lemma_bal_le_sum(self.balances@, 0, from);
        }
        self.set_balance(from, from_bal - amount);
        let to_bal = self.balance(to);
        proof {
            lemma_bal_le_sum(self.balances@, 0, to);
        }
        self.set_balance(to, to_bal + amount);
        let k = pack_pair(from, spender);
        self.allowances.insert(k, alw - amount);
        proof {
            assert forall|o: Address, s: Address| !(o == from && s == spender) implies self
                .spec_allowance(o, s) == old(self).spec_allowance(o, s) by {
                if spec_pack_pair(o, s) == spec_pack_pair(from, spender) {
                    lemma_pack_pair_injective(o, s, from, spender);
                }
            }
        }
        Ok(true)
    }

    /// Burns `amount` of `from`'s tokens, shrinking the total supply.
    pub fn burn(&mut self, from: Address, amount: i128) -> (r: Result<bool, TokenError>)
        requires
            old(self).wf(),
        ensures
            final(self).wf(),
            final(self).same_config(old(self)),
            match r {
                Ok(b) => {
                    &&& b
                    &&& amount > 0
                    &&& old(self).spec_balance(from) >= amount
                    &&& final(self).spec_balance(from) == old(self).spec_balance(from) - amount
                    &&& forall|x: Address|
                        x != from ==> final(self).spec_balance(x) == old(self).spec_balance(x)
                    &&& final(self).total_supply == old(self).total_supply - amount
                },
                Err(e) => *final(self) == *old(self) && match e {
                    TokenError::InvalidAmount => amount <= 0,
                    TokenError::InsufficientBalance => amount > 0 && old(self).spec_balance(from)
                        < amount,
                    _ => false,
                },
            },
    {
        if amount <= 0 {
            return Err(TokenError::InvalidAmount);
        }
        let bal = self.balance(from);
        if bal < amount {
            return Err(TokenError::InsufficientBalance);
        }
        proof {
            lemma_bal_le_sum(self.balances@, 0, from);
        }
        self.set_balance(from, bal - amount);
        self.total_supply = self.total_supply - amount;
        Ok(true)
    }

    /// Burns tokens in exchange for an in-game unlock; the unlock label is
    /// recorded by off-chain observers only.
    pub fn spend_for_unlock(&mut self, spender: Address, amount: i128, _unlock_type: String) -> (r:
        Result<bool, TokenError>)
        requires
            old(self).wf(),
        ensures
            final(self).wf(),
            final(self).same_config(old(self)),
            match r {
                Ok(b) => {
                    &&& b
                    &&& amount > 0
                    &&& old(self).spec_balance(spender) >= amount
                    &&& final(self).spec_balance(spender) == old(self).spec_balance(spender)
                        - amount
                    &&& forall|x: Address|
                        x != spender ==> final(self).spec_balance(x) == old(self).spec_balance(x)
                    &&& final(self).total_supply == old(self).total_supply - amount
                },
                Err(e) => *final(self) == *old(self) && match e {
                    TokenError::InvalidAmount => amount <= 0,
                    TokenError::InsufficientBalance => amount > 0 && old(self).spec_balance(spender)
                        < amount,
                    _ => false,
                },
            },
    {
        if amount <= 0 {
            return Err(TokenError::InvalidAmount);
        }
        let bal = self.balance(spender);
        if bal < amount {
            return Err(TokenError::InsufficientBalance);
        }
        proof {
            lemma_bal_le_sum(self.balances@, 0, spender);
        }
        self.set_balance(spender, bal - amount);
        self.total_supply = self.total_supply - amount;
        Ok(true)
    }

    /// Mints each listed positive amount to the paired recipient (admin
    /// only). Non-positive amounts in the list are skipped.
    pub fn distribute_rewards(&mut self, caller: Address, recipients: &Vec<Address>, amounts: &Vec<
        i128,
    >) -> (r: Result<(), TokenError>)
        requires
            old(self).wf(),
            old(self).total_supply + pos_total(amounts@) <= i128::MAX,
        ensures
            final(self).wf(),
            final(self).same_config(old(self)),
            match r {
                Ok(()) => {
                    &&& old(self).is_initialized()
                    &&& caller == old(self).spec_admin()
                    &&& recipients@.len() == amounts@.len()
                    &&& final(self).total_supply == old(self).total_supply + pos_total(amounts@)
                    &&& forall|a: Address|
                        #[trigger] final(self).spec_balance(a) == old(self).spec_balance(a)
                            + credited(recipients@, amounts@, a)
                },
                Err(e) => *final(self) == *old(self) && match e {
                    TokenError::NotInitialized => !old(self).is_initialized(),
                    TokenError::Unauthorized => old(self).is_initialized() && caller != old(self).spec_admin(),
                    TokenError::LengthMismatch => old(self).is_initialized() && caller == old(self).spec_admin() && recipients@.len() != amounts@.len(),
                    _ => false,
                },
            },
    {
        let admin = match self.admin {
            Some(a) => a,
            None => { return Err(TokenError::NotInitialized) },
        };
        if caller != admin {
            return Err(TokenError::Unauthorized);
        }
        if recipients.len() != amounts.len() {
            return Err(TokenError::LengthMismatch);
        }
        let ghost rs = recipients@;
        let ghost amts = amounts@;
        let mut i: usize = 0;
        while i < recipients.len()
            invariant
                i <= rs.len(),
                rs.len() == amts.len(),
                rs == recipients@,
                amts == amounts@,
                self.wf(),
                self.same_config(old(self)),
                self.total_supply as int == old(self).total_supply + pos_total(amts)
                    - pos_total_from(amts, i as int),
                old(self).total_supply + pos_total(amts) <= i128::MAX,
                forall|a: Address|
                    #[trigger] self.spec_balance(a) == old(self).spec_balance(a) + credited(
                        rs,
                        amts,
                        a,
                    ) - credited_from(rs, amts, a, i as int),
            decreases rs.len() - i,
        {
            let ghost prev = *self;
            let amount = amounts[i];
            if amount > 0 {
                let to = recipients[i];
                let bal = self.balance(to);
                proof {
                    lemma_bal_le_sum(self.balances@, 0, to);
                    lemma_pos_total_from_nonneg(amts, i as int + 1);
                }
                self.set_balance(to, bal + amount);
                self.total_supply = self.total_supply + amount;
                proof {
                    assert forall|a: Address|
                        #[trigger] self.spec_balance(a) == old(self).spec_balance(a) + credited(
                            rs,
                            amts,
                            a,
                        ) - credited_from(rs, amts, a, i as int + 1) by {
                        assert(prev.spec_balance(a) == old(self).spec_balance(a) + credited(
                            rs,
                            amts,
                            a,
                        ) - credited_from(rs, amts, a, i as int));
                        assert(credited_from(rs, amts, a, i as int) == (if rs[i as int] == a {
                            amts[i as int] as int
                        } else {
                            0int
                        }) + credited_from(rs, amts, a, i as int + 1));
                        if a != to {
                            assert(self.spec_balance(a) == prev.spec_balance(a));
                        }
                    }
                }
            } else {
                proof {
                    assert forall|a: Address|
                        #[trigger] self.spec_balance(a) == old(self).spec_balance(a) + credited(
                            rs,
                            amts,
                            a,
                        ) - credited_from(rs, amts, a, i as int + 1) by {
                        assert(credited_from(rs, amts, a, i as int) == credited_from(
                            rs,
                            amts,
                            a,
                            i as int + 1,
                        ));
                    }
                }
            }
            i = i + 1;
        }
        proof {
            assert(pos_total_from(amts, rs.len() as int) == 0);
            assert forall|a: Address|
                #[trigger] final(self).spec_balance(a) == old(self).spec_balance(a) + credited(
                    rs,
                    amts,
                    a,
                ) by {
                assert(credited_from(rs, amts, a, rs.len() as int) == 0);
            }
        }
        Ok(())
    }

    /// Remaining allowance from `owner` to `spender`; 0 when none was set.
    pub fn allowance(&self, owner: Address, spender: Address) -> (r: i128)
        ensures
            r as int == self.spec_allowance(owner, spender),
    {
        let k = pack_pair(owner, spender);
        match self.allowances.get(&k) {
            Some(v) => *v,
            None => 0,
        }
    }

    /// The recorded total supply.
    pub fn total_supply(&self) -> (r: i128)
        ensures
            r == self.total_supply,
    {
        self.total_supply
    }

    /// The administrator address.
    pub fn admin(&self) -> (r: Address)
        requires
            self.is_initialized(),
        ensures
            r == self.spec_admin(),
    {
        match self.admin {
            Some(a) => a,
            None => 0,
        }
    }

    /// The token's display name.
    pub fn name(&self) -> (r: &String)
        ensures
            r@ == self.name@,
    {
        &self.name
    }

    /// The token's ticker symbol.
    pub fn symbol(&self) -> (r: &String)
        ensures
            r@ == self.symbol@,
    {
        &self.symbol
    }

    /// The token's decimal precision.
    pub fn decimals(&self) -> (r: u32)
        ensures
            r == self.decimals,
    {
        self.decimals
    }
}

/// Effect of one successful transfer of `amount` from `from` to `to` on a
/// ledger: the exact relation between the old state `l0` and the new state
/// `l1`. Contracts that move custody through a ledger state their effect
/// with this predicate.
pub open spec fn spec_transferred(
    l0: &RewardToken,
    l1: &RewardToken,
    from: Address,
    to: Address,
    amount: i128,
) -> bool {
    &&& from != to ==> l1.spec_balance(from) == l0.spec_balance(from) - amount
        && l1.spec_balance(to) == l0.spec_balance(to) + amount
    &&& from == to ==> l1.spec_balance(from) == l0.spec_balance(from)
    &&& forall|x: Address|
        x != from && x != to ==> l1.spec_balance(x) == l0.spec_balance(x)
    &&& l1.total_supply == l0.total_supply
    &&& l1.same_config(l0)
}

/// Token conservation: in every well-formed ledger state the balances add
/// up to the recorded total supply, and no balance is negative or exceeds
/// the supply. Together with the per-entry-point contracts, which state the
/// exact balance and supply deltas of mint, transfer and burn, this pins
/// every account's balance after any sequence of operations to the net of
/// what was minted to it, burned from it and transferred in and out.
pub proof fn lemma_token_conservation(t: &RewardToken)
    requires
        t.wf(),
    ensures
        total_of(t.balances@) == t.total_supply as int,
        forall|a: Address| 0 <= #[trigger] t.spec_balance(a) <= t.total_supply as int,
{
    assert forall|a: Address| 0 <= #[trigger] t.spec_balance(a) <= t.total_supply as int by {
        lemma_bal_le_sum(t.balances@, 0, a);
    }
}

} // verus!
