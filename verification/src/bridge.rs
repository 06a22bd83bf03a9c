//! Cross-chain asset bridge: users lock assets with the contract under a
//! content-derived 32-byte message id; a validator quorum later completes
//! the transfer on the destination side, or the locker (or admin) cancels
//! it for a full refund. Message ids move through a strictly
//! forward-moving lifecycle — once `Completed` or `Cancelled`, an id can
//! never transition again.
//!
//! Two pieces of the protocol are explicit, known gaps in this version:
//! validator signatures are counted (per distinct validator), not
//! cryptographically verified, and recipient bytes cannot yet be decoded
//! into a ledger address, so completing a fungible-token unlock always
//! fails with `InvalidRecipient`.
use vstd::prelude::*;
use vstd::hash_map::HashMapWithView;
use crate::{
    Address, bytes32_eq, push_be_u32, push_be_u64, push_be_i128, spec_be_u32, spec_be_u64,
    spec_be_u128, spec_i128_bits, spec_i128_of_bits,
};
use crate::token::{RewardToken, TokenError, spec_transferred};

verus! {

/// What kind of asset a message moves.
#[derive(Clone, Copy, Debug, PartialEq, Eq, Structural)]
pub enum AssetType {
    Token,
    NFT,
}

/// Which direction a message moves assets.
#[derive(Clone, Copy, Debug, PartialEq, Eq, Structural)]
pub enum BridgeAction {
    /// Lock assets on the source chain.
    Lock,
    /// Unlock assets on the destination chain.
    Unlock,
}

/// Lifecycle state of a message id. `Confirmed` and `Failed` are
/// reserved for future validator logic; no current entry point produces
/// them.
#[derive(Clone, Copy, Debug, PartialEq, Eq, Structural)]
pub enum BridgeStatus {
    Pending,
    Confirmed,
    Completed,
    Failed,
    Cancelled,
}

/// A terminal status: no transition ever leaves it.
pub open spec fn spec_is_terminal(st: BridgeStatus) -> bool {
    st == BridgeStatus::Completed || st == BridgeStatus::Cancelled
}

/// A cross-chain transfer intent.
#[derive(Clone, Debug)]
pub struct BridgeMessage {
    pub message_id: [u8; 32],
    /// Source chain id (0 is the home chain).
    pub source_chain: u32,
    pub dest_chain: u32,
    pub action: BridgeAction,
    pub asset_type: AssetType,
    pub asset_address: Address,
    /// Token amount, or the token id for an NFT.
    pub asset_amount: i128,
    pub sender: Address,
    /// Destination-format recipient; raw bytes to allow foreign formats.
    pub recipient: Vec<u8>,
    pub fee_amount: i128,
    pub fee_token: Option<Address>,
    pub timestamp: u64,
    pub nonce: u64,
}

/// A validator's signature over a message.
#[derive(Clone, Copy, Debug)]
pub struct ValidatorSignature {
    pub validator: Address,
    /// Ed25519 signature bytes; counted but not verified (a known gap).
    pub signature: [u8; 64],
}

/// Bridge parameters.
#[derive(Clone, Copy, Debug, PartialEq, Eq, Structural)]
pub struct BridgeConfig {
    pub admin: Address,
    /// How many distinct validator signatures a completion needs.
    pub required_signatures: u32,
    pub max_validators: u32,
    /// Bridge fee in basis points.
    pub base_fee_bps: u32,
    pub fee_collector: Address,
    pub min_fee: i128,
    pub max_fee: i128,
    pub paused: bool,
    /// Chain id of this bridge instance.
    pub chain_id: u32,
}

/// An asset held in custody for a pending message.
#[derive(Clone, Debug)]
pub struct LockedAsset {
    pub owner: Address,
    pub asset_address: Address,
    pub asset_type: AssetType,
    pub amount: i128,
    pub locked_at: u64,
    pub message_id: [u8; 32],
    pub dest_chain: u32,
    pub recipient: Vec<u8>,
}

/// Descriptive metadata of a wrapped NFT; carried for off-chain
/// consumers, not read by any entry point.
#[derive(Clone, Debug)]
pub struct NFTMetadata {
    pub token_id: i128,
    pub name: Vec<u8>,
    pub description: Vec<u8>,
    pub image_uri: Vec<u8>,
    /// Key-value attribute pairs.
    pub attributes: Vec<(Vec<u8>, Vec<u8>)>,
    pub original_chain: u32,
    pub original_contract: Address,
}

/// A non-fungible asset wrapped for cross-chain transfer.
#[derive(Clone, Copy, Debug, PartialEq, Eq, Structural)]
pub struct WrappedNFT {
    pub original_token_id: i128,
    pub original_chain: u32,
    pub original_contract: Address,
    pub wrapped_token_id: i128,
    pub owner: Address,
    pub wrapped_at: u64,
}

/// Failure conditions of the bridge entry points.
#[derive(Clone, Copy, Debug, PartialEq, Eq, Structural)]
pub enum Error {
    NotInitialized,
    AlreadyInitialized,
    Unauthorized,
    ContractPaused,
    InsufficientSignatures,
    InvalidSignature,
    MessageAlreadyProcessed,
    InvalidAssetAmount,
    InsufficientBalance,
    InvalidMessage,
    /// Reserved; no current entry point produces it.
    NonceTooLow,
    InvalidChainId,
    /// Reserved: the fee clamp keeps every fee at or below the ceiling.
    FeeTooHigh,
    FeeTooLow,
    AssetNotLocked,
    NFTNotWrapped,
    InvalidRecipient,
    /// Reserved; no current entry point produces it.
    ReentrantCall,
    /// The nested token-ledger call failed; the whole call rolled back.
    TransferFailed(TokenError),
}

pub const MAX_VALIDATORS: u32 = 50;

pub const BASIS_POINTS: u32 = 10_000;

pub const MAX_CHAIN_ID: u32 = 1_000;

/// Name for the SHA-256 digest of a byte string; the digest depends on
/// the input bytes alone.
pub uninterp spec fn sha256_of(data: Seq<u8>) -> Seq<u8>;

/// Relies on the sha2 crate's `Sha256::digest`: one-shot SHA-256 of the
/// input, always 32 bytes, a pure function of the bytes.
#[verifier::external_body]
fn sha256(data: &Vec<u8>) -> (r: [u8; 32])
    ensures
        r@ == sha256_of(data@),
        r@.len() == 32,
{
    let digest = <sha2::Sha256 as sha2::Digest>::digest(data.as_slice());
    digest.into()
}

/// One message id's recorded lifecycle state.
#[derive(Clone, Copy, Debug)]
pub struct StatusEntry {
    pub id: [u8; 32],
    pub status: BridgeStatus,
}

/// Status of `id` in `s[i..]`: the first entry for it, if any.
pub open spec fn status_from(s: Seq<StatusEntry>, i: int, id: Seq<u8>) -> Option<BridgeStatus>
    decreases s.len() - i,
{
    if i < 0 || i >= s.len() {
        None
    } else if s[i].id@ == id {
        Some(s[i].status)
    } else {
        status_from(s, i + 1, id)
    }
}

/// Status of a message id in the table.
pub open spec fn status_of(s: Seq<StatusEntry>, id: Seq<u8>) -> Option<BridgeStatus> {
    status_from(s, 0, id)
}

/// No message id has two status entries.
pub open spec fn unique_status_ids(s: Seq<StatusEntry>) -> bool {
    forall|i: int, j: int| 0 <= i < j < s.len() ==> s[i].id@ != s[j].id@
}

proof fn lemma_status_from_skip_to(s: Seq<StatusEntry>, k: int, i: int, id: Seq<u8>)
    requires
        0 <= k <= i <= s.len(),
        forall|j: int| k <= j < i ==> s[j].id@ != id,
    ensures
        status_from(s, k, id) == status_from(s, i, id),
    decreases i - k,
{
    if k < i {
        lemma_status_from_skip_to(s, k + 1, i, id);
    }
}

proof fn lemma_status_found(s: Seq<StatusEntry>, i: int, id: Seq<u8>)
    requires
        unique_status_ids(s),
        0 <= i < s.len(),
        s[i].id@ == id,
    ensures
        status_of(s, id) == Some(s[i].status),
{
    assert(forall|j: int| 0 <= j < i ==> s[j].id@ != id);
    lemma_status_from_skip_to(s, 0, i, id);
}

proof fn lemma_status_from_update(s: Seq<StatusEntry>, i: int, e: StatusEntry, k: int, id: Seq<u8>)
    requires
        unique_status_ids(s),
        0 <= i < s.len(),
        0 <= k <= s.len(),
        e.id@ == s[i].id@,
    ensures
        id == e.id@ ==> status_from(s.update(i, e), k, id) == if k <= i {
            Some(e.status)
        } else {
            None::<BridgeStatus>
        },
        id != e.id@ ==> status_from(s.update(i, e), k, id) == status_from(s, k, id),
    decreases s.len() - k,
{
    if k < s.len() {
        lemma_status_from_update(s, i, e, k + 1, id);
    }
}

proof fn lemma_status_from_push(s: Seq<StatusEntry>, e: StatusEntry, k: int, id: Seq<u8>)
    requires
        0 <= k <= s.len(),
        forall|j: int| 0 <= j < s.len() ==> s[j].id@ != e.id@,
    ensures
        id == e.id@ ==> status_from(s.push(e), k, id) == Some(e.status),
        id != e.id@ ==> status_from(s.push(e), k, id) == status_from(s, k, id),
    decreases s.len() - k,
{
    if k < s.len() {
        lemma_status_from_push(s, e, k + 1, id);
    } else {
        assert(s.push(e)[k] == e);
        assert(status_from(s.push(e), k + 1, id) is None);
    }
}

/// The locked asset of `id` in `s[i..]`: the index of the first entry
/// for it, if any.
pub open spec fn locked_index_from(s: Seq<LockedAsset>, i: int, id: Seq<u8>) -> Option<int>
    decreases s.len() - i,
{
    if i < 0 || i >= s.len() {
        None
    } else if s[i].message_id@ == id {
        Some(i)
    } else {
        locked_index_from(s, i + 1, id)
    }
}

/// The locked asset recorded under a message id, if any.
pub open spec fn locked_of(s: Seq<LockedAsset>, id: Seq<u8>) -> Option<LockedAsset> {
    match locked_index_from(s, 0, id) {
        Some(i) => Some(s[i]),
        None => None,
    }
}

/// No message id has two locked-asset entries.
pub open spec fn unique_locked_ids(s: Seq<LockedAsset>) -> bool {
    forall|i: int, j: int| 0 <= i < j < s.len() ==> s[i].message_id@ != s[j].message_id@
}

proof fn lemma_locked_index_from_skip_to(s: Seq<LockedAsset>, k: int, i: int, id: Seq<u8>)
    requires
        0 <= k <= i <= s.len(),
        forall|j: int| k <= j < i ==> s[j].message_id@ != id,
    ensures
        locked_index_from(s, k, id) == locked_index_from(s, i, id),
    decreases i - k,
{
    if k < i {
        lemma_locked_index_from_skip_to(s, k + 1, i, id);
    }
}

proof fn lemma_locked_index_props(s: Seq<LockedAsset>, k: int, id: Seq<u8>)
    requires
        0 <= k <= s.len(),
    ensures
        match locked_index_from(s, k, id) {
            Some(i) => k <= i < s.len() && s[i].message_id@ == id,
            None => forall|j: int| k <= j < s.len() ==> s[j].message_id@ != id,
        },
    decreases s.len() - k,
{
    if k < s.len() {
        lemma_locked_index_props(s, k + 1, id);
    }
}

proof fn lemma_locked_push(s: Seq<LockedAsset>, e: LockedAsset, k: int, id: Seq<u8>)
    requires
        0 <= k <= s.len(),
        forall|j: int| 0 <= j < s.len() ==> s[j].message_id@ != e.message_id@,
    ensures
        id == e.message_id@ ==> locked_index_from(s.push(e), k, id) == Some(s.len() as int),
        id != e.message_id@ ==> locked_index_from(s.push(e), k, id) == locked_index_from(s, k, id),
    decreases s.len() - k,
{
    if k < s.len() {
        lemma_locked_push(s, e, k + 1, id);
    } else {
        assert(s.push(e)[k] == e);
        assert(locked_index_from(s.push(e), k + 1, id) is None);
    }
}

/// Count of signatures from distinct validators that belong to the
/// validator set, over `sigs[i..]`; only the first signature of each
/// validator counts.
pub open spec fn valid_sig_count_from(
    sigs: Seq<ValidatorSignature>,
    validators: Seq<Address>,
    i: int,
) -> int
    decreases sigs.len() - i,
{
    if i < 0 || i >= sigs.len() {
        0
    } else {
        (if validators.contains(sigs[i].validator) && (forall|j: int|
            0 <= j < i ==> sigs[j].validator != sigs[i].validator) {
            1int
        } else {
            0int
        }) + valid_sig_count_from(sigs, validators, i + 1)
    }
}

/// Count of distinct set members among the signers.
pub open spec fn valid_sig_count(sigs: Seq<ValidatorSignature>, validators: Seq<Address>) -> int {
    valid_sig_count_from(sigs, validators, 0)
}

/// No validator appears twice in the set.
pub open spec fn unique_validator_set(s: Seq<Address>) -> bool {
    forall|i: int, j: int| 0 <= i < j < s.len() ==> s[i] != s[j]
}

/// A terminal status, lifted to the optional lookup result.
pub open spec fn spec_is_terminal_opt(o: Option<BridgeStatus>) -> bool {
    match o {
        Some(st) => spec_is_terminal(st),
        None => false,
    }
}

/// Every message id that had reached a terminal status still has exactly
/// that status: the per-id state machine moves strictly forward.
pub open spec fn spec_terminal_preserved(s0: Seq<StatusEntry>, s1: Seq<StatusEntry>) -> bool {
    forall|x: Seq<u8>|
        spec_is_terminal_opt(#[trigger] status_of(s0, x)) ==> status_of(s1, x) == status_of(s0, x)
}

proof fn lemma_locked_found(s: Seq<LockedAsset>, i: int, id: Seq<u8>)
    requires
        unique_locked_ids(s),
        0 <= i < s.len(),
        s[i].message_id@ == id,
    ensures
        locked_index_from(s, 0, id) == Some(i),
        locked_of(s, id) == Some(s[i]),
{
    assert(forall|j: int| 0 <= j < i ==> s[j].message_id@ != id);
    lemma_locked_index_from_skip_to(s, 0, i, id);
}

/// Removing the entry at `i` drops exactly its message id's record and
/// leaves every other id's record alone.
proof fn lemma_locked_remove(s: Seq<LockedAsset>, i: int, x: Seq<u8>)
    requires
        unique_locked_ids(s),
        0 <= i < s.len(),
    ensures
        ({
            let s2 = s.remove(i);
            &&& unique_locked_ids(s2)
            &&& x == s[i].message_id@ ==> locked_of(s2, x) is None
            &&& x != s[i].message_id@ ==> locked_of(s2, x) == locked_of(s, x)
        }),
{
    let s2 = s.remove(i);
    s.remove_ensures(i);
    assert(forall|j: int| 0 <= j < i ==> s2[j] == s[j]);
    assert(forall|j: int| i <= j < s2.len() ==> s2[j] == s[j + 1]);
    assert forall|m: int, n: int| 0 <= m < n < s2.len() implies s2[m].message_id@
        != s2[n].message_id@ by {
        let m1 = if m < i {
            m
        } else {
            m + 1
        };
        let n1 = if n < i {
            n
        } else {
            n + 1
        };
        assert(s2[m] == s[m1] && s2[n] == s[n1]);
    }
    lemma_locked_index_props(s, 0, x);
    lemma_locked_index_props(s2, 0, x);
    if x == s[i].message_id@ {
        match locked_index_from(s2, 0, x) {
            Some(m) => {
                let m1 = if m < i {
                    m
                } else {
                    m + 1
                };
                assert(s2[m] == s[m1]);
                assert(s[m1].message_id@ == s[i].message_id@ && m1 != i);
                assert(false);
            },
            None => {},
        }
    } else {
        match locked_index_from(s, 0, x) {
            Some(j) => {
                lemma_locked_found(s, j, x);
                let j2 = if j < i {
                    j
                } else {
                    j - 1
                };
                assert(s2[j2] == s[j]);
                lemma_locked_found(s2, j2, x);
            },
            None => {
                match locked_index_from(s2, 0, x) {
                    Some(m) => {
                        let m1 = if m < i {
                            m
                        } else {
                            m + 1
                        };
                        assert(s2[m] == s[m1]);
                        assert(false);
                    },
                    None => {},
                }
            },
        }
    }
}

/// The bridge contract's entire state.
///
/// The host authenticates callers and passes the ledger timestamp as
/// `now`; asset custody moves on the token ledger handed in by the
/// caller.
pub struct BridgeContract {
    /// The contract's own custody account on the token ledgers.
    pub contract_address: Address,
    /// `None` until `initialize` has run.
    pub config: Option<BridgeConfig>,
    /// The authorized validator set.
    pub validators: Vec<Address>,
    /// Monotonic counter bumped on every validator-set change, for
    /// off-chain cache invalidation.
    pub validator_set_version: u32,
    /// Custodied assets of pending messages.
    pub locked_assets: Vec<LockedAsset>,
    /// Lifecycle state per message id.
    pub statuses: Vec<StatusEntry>,
    /// Audit log of the signature sets accepted by completions.
    pub audit_signatures: Vec<SignatureRecord>,
    /// Wrapped NFTs by derived wrapped-token id.
    pub wrapped_nfts: HashMapWithView<i128, WrappedNFT>,
    /// Per-user monotonic nonces feeding message-id derivation.
    pub user_nonces: HashMapWithView<Address, u64>,
    /// Contract-wide message nonce.
    pub bridge_nonces: u64,
}

/// The signature set a completion was accepted with, kept for audit.
#[derive(Clone, Debug)]
pub struct SignatureRecord {
    pub id: [u8; 32],
    pub signatures: Vec<ValidatorSignature>,
}

impl BridgeContract {
    /// Well-formedness: one status and at most one locked asset per
    /// message id, a duplicate-free validator set, positive locked
    /// amounts, and a status entry for every locked asset.
    pub open spec fn wf(&self) -> bool {
        &&& unique_status_ids(self.statuses@)
        &&& unique_locked_ids(self.locked_assets@)
        &&& unique_validator_set(self.validators@)
        &&& forall|j: int| 0 <= j < self.locked_assets@.len() ==> self.locked_assets@[j].amount > 0
        &&& forall|j: int|
            0 <= j < self.locked_assets@.len() ==> status_of(
                self.statuses@,
                #[trigger] self.locked_assets@[j].message_id@,
            ) is Some
    }

    pub open spec fn is_initialized(&self) -> bool {
        self.config is Some
    }

    pub open spec fn spec_config(&self) -> BridgeConfig {
        match self.config {
            Some(c) => c,
            None => arbitrary(),
        }
    }

    /// The status recorded for a message id, if any.
    pub open spec fn spec_status(&self, id: Seq<u8>) -> Option<BridgeStatus> {
        status_of(self.statuses@, id)
    }

    /// The locked asset recorded for a message id, if any.
    pub open spec fn spec_locked(&self, id: Seq<u8>) -> Option<LockedAsset> {
        locked_of(self.locked_assets@, id)
    }

    /// The sender's current message nonce.
    pub open spec fn spec_user_nonce(&self, a: Address) -> u64 {
        if self.user_nonces@.contains_key(a) {
            self.user_nonces@[a]
        } else {
            0
        }
    }

    /// The machine-range conditions for locking: the fee product and the
    /// two nonces stay in range.
    pub open spec fn lock_fits(&self, sender: Address, amount: i128) -> bool {
        &&& match self.config {
            Some(c) => amount * c.base_fee_bps <= i128::MAX,
            None => true,
        }
        &&& self.spec_user_nonce(sender) < u64::MAX
        &&& self.bridge_nonces < u64::MAX
    }

    /// The empty, uninitialized contract state.
    pub fn new(contract_address: Address) -> (t: Self)
        ensures
            t.wf(),
            !t.is_initialized(),
            t.contract_address == contract_address,
            t.validators@.len() == 0,
            t.validator_set_version == 0,
            t.locked_assets@.len() == 0,
            t.statuses@.len() == 0,
            t.audit_signatures@.len() == 0,
            t.wrapped_nfts@ == Map::<i128, WrappedNFT>::empty(),
            t.user_nonces@ == Map::<Address, u64>::empty(),
            t.bridge_nonces == 0,
    {
        BridgeContract {
            contract_address,
            config: None,
            validators: Vec::new(),
            validator_set_version: 0,
            locked_assets: Vec::new(),
            statuses: Vec::new(),
            audit_signatures: Vec::new(),
            wrapped_nfts: HashMapWithView::new(),
            user_nonces: HashMapWithView::new(),
            bridge_nonces: 0,
        }
    }

    /// Records the configuration with the standard fee schedule and
    /// starts the validator-set version counter. A quorum of zero or
    /// beyond the validator cap, or an out-of-range chain id, is
    /// rejected. Fails once a previous call has succeeded.
    pub fn initialize(
        &mut self,
        admin: Address,
        required_signatures: u32,
        chain_id: u32,
        fee_collector: Address,
    ) -> (r: Result<(), Error>)
        requires
            old(self).wf(),
        ensures
            final(self).wf(),
            final(self).contract_address == old(self).contract_address,
            final(self).validators == old(self).validators,
            final(self).locked_assets == old(self).locked_assets,
            final(self).statuses == old(self).statuses,
            final(self).wrapped_nfts@ == old(self).wrapped_nfts@,
            final(self).user_nonces@ == old(self).user_nonces@,
            final(self).bridge_nonces == old(self).bridge_nonces,
            match r {
                Ok(()) => !old(self).is_initialized() && required_signatures > 0
                    && required_signatures <= MAX_VALIDATORS && chain_id <= MAX_CHAIN_ID && final(self).config == Some(
                    BridgeConfig {
                        admin,
                        required_signatures,
                        max_validators: MAX_VALIDATORS,
                        base_fee_bps: 30,
                        fee_collector,
                        min_fee: 1_000_000,
                        max_fee: 1_000_000_000_000,
                        paused: false,
                        chain_id,
                    },
                ) && final(self).validator_set_version == 1,
                Err(e) => *final(self) == *old(self) && match e {
                    Error::AlreadyInitialized => old(self).is_initialized(),
                    Error::InvalidMessage => !old(self).is_initialized() && (required_signatures
                        == 0 || required_signatures > MAX_VALIDATORS),
                    Error::InvalidChainId => !old(self).is_initialized() && required_signatures > 0
                        && required_signatures <= MAX_VALIDATORS && chain_id > MAX_CHAIN_ID,
                    _ => false,
                },
            },
    {
        if self.config.is_some() {
            return Err(Error::AlreadyInitialized);
        }
        if required_signatures == 0 || required_signatures > MAX_VALIDATORS {
            return Err(Error::InvalidMessage);
        }
        if chain_id > MAX_CHAIN_ID {
            return Err(Error::InvalidChainId);
        }
        self.config = Some(
            BridgeConfig {
                admin,
                required_signatures,
                max_validators: MAX_VALIDATORS,
                base_fee_bps: 30,
                fee_collector,
                min_fee: 1_000_000,
                max_fee: 1_000_000_000_000,
                paused: false,
                chain_id,
            },
        );
        self.validator_set_version = 1;
        Ok(())
    }

    fn contains_validator(&self, a: Address) -> (r: bool)
        ensures
            r == self.validators@.contains(a),
    {
        let mut i: usize = 0;
        while i < self.validators.len()
            invariant
                i <= self.validators@.len(),
                forall|j: int| 0 <= j < i ==> self.validators@[j] != a,
            decreases self.validators@.len() - i,
        {
            if self.validators[i] == a {
                assert(self.validators@.contains(a));
                return true;
            }
            i = i + 1;
        }
        false
    }

    /// Adds a validator to the set (admin only, while not paused); the
    /// set version advances. Duplicates and overflow past the cap are
    /// rejected.
    pub fn add_validator(&mut self, admin: Address, validator: Address) -> (r: Result<(), Error>)
        requires
            old(self).wf(),
            old(self).validator_set_version < u32::MAX,
        ensures
            final(self).wf(),
            final(self).contract_address == old(self).contract_address,
            final(self).config == old(self).config,
            final(self).locked_assets == old(self).locked_assets,
            final(self).statuses == old(self).statuses,
            final(self).wrapped_nfts@ == old(self).wrapped_nfts@,
            final(self).user_nonces@ == old(self).user_nonces@,
            final(self).bridge_nonces == old(self).bridge_nonces,
            match r {
                Ok(()) => old(self).is_initialized() && admin == old(self).spec_config().admin
                    && !old(self).spec_config().paused && !old(self).validators@.contains(validator)
                    && old(self).validators@.len() < MAX_VALIDATORS && final(self).validators@
                    == old(self).validators@.push(validator) && final(self).validator_set_version
                    == old(self).validator_set_version + 1,
                Err(e) => *final(self) == *old(self) && match e {
                    Error::NotInitialized => !old(self).is_initialized(),
                    Error::Unauthorized => old(self).is_initialized() && admin != old(self).spec_config().admin,
                    Error::ContractPaused => old(self).is_initialized() && admin == old(self).spec_config().admin && old(self).spec_config().paused,
                    Error::InvalidMessage => old(self).is_initialized() && admin == old(self).spec_config().admin && !old(self).spec_config().paused && (old(self).validators@.contains(validator) || old(self).validators@.len()
                        >= MAX_VALIDATORS),
                    _ => false,
                },
            },
    {
        let c = match self.config {
            Some(c) => c,
            None => { return Err(Error::NotInitialized) },
        };
        if admin != c.admin {
            return Err(Error::Unauthorized);
        }
        if c.paused {
            return Err(Error::ContractPaused);
        }
        if self.contains_validator(validator) {
            return Err(Error::InvalidMessage);
        }
        if self.validators.len() >= MAX_VALIDATORS as usize {
            return Err(Error::InvalidMessage);
        }
        let ghost v = self.validators@;
        self.validators.push(validator);
        self.validator_set_version = self.validator_set_version + 1;
        proof {
            assert forall|m: int, n: int|
                0 <= m < n < self.validators@.len() implies self.validators@[m]
                != self.validators@[n] by {
                if n < v.len() {
                } else {
                    assert(self.validators@[n] == validator);
                    if self.validators@[m] == validator {
                        assert(v[m] == validator);
                        assert(v.contains(validator));
                    }
                }
            }
        }
        Ok(())
    }

    /// Removes a validator from the set (admin only, while not paused),
    /// keeping the relative order of the remaining validators; the set
    /// version advances. Removing an absent validator is rejected.
    pub fn remove_validator(&mut self, admin: Address, validator: Address) -> (r: Result<
        (),
        Error,
    >)
        requires
            old(self).wf(),
            old(self).validator_set_version < u32::MAX,
        ensures
            final(self).wf(),
            final(self).contract_address == old(self).contract_address,
            final(self).config == old(self).config,
            final(self).locked_assets == old(self).locked_assets,
            final(self).statuses == old(self).statuses,
            final(self).audit_signatures == old(self).audit_signatures,
            final(self).wrapped_nfts@ == old(self).wrapped_nfts@,
            final(self).user_nonces@ == old(self).user_nonces@,
            final(self).bridge_nonces == old(self).bridge_nonces,
            match r {
                Ok(()) => old(self).is_initialized() && admin == old(self).spec_config().admin
                    && !old(self).spec_config().paused && old(self).validators@.contains(validator)
                    && (exists|i: int|
                    0 <= i < old(self).validators@.len() && old(self).validators@[i] == validator
                        && final(self).validators@ == old(self).validators@.remove(i))
                    && !final(self).validators@.contains(validator) && (forall|b: Address|
                    b != validator ==> final(self).validators@.contains(b) == old(
                        self,
                    ).validators@.contains(b)) && final(self).validators@.len() == old(
                    self,
                ).validators@.len() - 1 && final(self).validator_set_version == old(
                    self,
                ).validator_set_version + 1,
                Err(e) => *final(self) == *old(self) && match e {
                    Error::NotInitialized => !old(self).is_initialized(),
                    Error::Unauthorized => old(self).is_initialized() && admin != old(
                        self,
                    ).spec_config().admin,
                    Error::ContractPaused => old(self).is_initialized() && admin == old(
                        self,
                    ).spec_config().admin && old(self).spec_config().paused,
                    Error::InvalidMessage => old(self).is_initialized() && admin == old(
                        self,
                    ).spec_config().admin && !old(self).spec_config().paused && !old(
                        self,
                    ).validators@.contains(validator),
                    _ => false,
                },
            },
    {
        let c = match self.config {
            Some(c) => c,
            None => { return Err(Error::NotInitialized) },
        };
        if admin != c.admin {
            return Err(Error::Unauthorized);
        }
        if c.paused {
            return Err(Error::ContractPaused);
        }
        let idx = match self.find_validator_index(validator) {
            Some(i) => i,
            None => { return Err(Error::InvalidMessage) },
        };
        let ghost v = self.validators@;
        proof {
            assert(v.contains(validator));
        }
        self.validators.remove(idx);
        self.validator_set_version = self.validator_set_version + 1;
        proof {
            v.remove_ensures(idx as int);
            let v2 = self.validators@;
            assert(forall|j: int| 0 <= j < idx ==> v2[j] == v[j]);
            assert(forall|j: int| idx <= j < v2.len() ==> v2[j] == v[j + 1]);
            assert forall|m: int, n: int| 0 <= m < n < v2.len() implies v2[m] != v2[n] by {
                let m1 = if m < idx {
                    m
                } else {
                    m + 1
                };
                let n1 = if n < idx {
                    n
                } else {
                    n + 1
                };
                assert(v2[m] == v[m1] && v2[n] == v[n1]);
            }
            assert forall|m: int| 0 <= m < v2.len() implies v2[m] != validator by {
                if m >= idx {
                    assert(v2[m] == v[m + 1]);
                } else {
                    assert(v2[m] == v[m]);
                }
                assert(v[idx as int] == validator);
            }
            assert(!v2.contains(validator));
            assert forall|b: Address| b != validator implies v2.contains(b) == v.contains(b) by {
                if v2.contains(b) {
                    let m = choose|m: int| 0 <= m < v2.len() && v2[m] == b;
                    let m1 = if m < idx {
                        m
                    } else {
                        m + 1
                    };
                    assert(v[m1] == b);
                    assert(v.contains(b));
                }
                if v.contains(b) {
                    let j = choose|j: int| 0 <= j < v.len() && v[j] == b;
                    assert(j != idx);
                    if j < idx {
                        assert(v2[j] == b);
                    } else {
                        assert(v2[j - 1] == b);
                    }
                    assert(v2.contains(b));
                }
            }
        }
        Ok(())
    }

    fn find_validator_index(&self, a: Address) -> (r: Option<usize>)
        ensures
            match r {
                Some(i) => i < self.validators@.len() && self.validators@[i as int] == a && forall|
                    j: int,
                | 0 <= j < i ==> self.validators@[j] != a,
                None => forall|j: int| 0 <= j < self.validators@.len() ==> self.validators@[j] != a,
            },
    {
        let mut i: usize = 0;
        while i < self.validators.len()
            invariant
                i <= self.validators@.len(),
                forall|j: int| 0 <= j < i ==> self.validators@[j] != a,
            decreases self.validators@.len() - i,
        {
            if self.validators[i] == a {
                return Some(i);
            }
            i = i + 1;
        }
        None
    }


    /// Replaces the fee schedule (admin only).
    pub fn update_fees(
        &mut self,
        admin: Address,
        base_fee_bps: u32,
        min_fee: i128,
        max_fee: i128,
    ) -> (r: Result<(), Error>)
        requires
            old(self).wf(),
        ensures
            final(self).wf(),
            final(self).contract_address == old(self).contract_address,
            final(self).validators == old(self).validators,
            final(self).validator_set_version == old(self).validator_set_version,
            final(self).locked_assets == old(self).locked_assets,
            final(self).statuses == old(self).statuses,
            final(self).wrapped_nfts@ == old(self).wrapped_nfts@,
            final(self).user_nonces@ == old(self).user_nonces@,
            final(self).bridge_nonces == old(self).bridge_nonces,
            match r {
                Ok(()) => old(self).is_initialized() && admin == old(self).spec_config().admin
                    && final(self).config == Some(
                    BridgeConfig { base_fee_bps, min_fee, max_fee, ..old(self).spec_config() },
                ),
                Err(e) => *final(self) == *old(self) && match e {
                    Error::NotInitialized => !old(self).is_initialized(),
                    Error::Unauthorized => old(self).is_initialized() && admin != old(self).spec_config().admin,
                    _ => false,
                },
            },
    {
        let c = match self.config {
            Some(c) => c,
            None => { return Err(Error::NotInitialized) },
        };
        if admin != c.admin {
            return Err(Error::Unauthorized);
        }
        self.config = Some(BridgeConfig { base_fee_bps, min_fee, max_fee, ..c });
        Ok(())
    }

    /// Pauses or resumes the bridge operations (admin only).
    pub fn set_paused(&mut self, admin: Address, paused: bool) -> (r: Result<(), Error>)
        requires
            old(self).wf(),
        ensures
            final(self).wf(),
            final(self).contract_address == old(self).contract_address,
            final(self).validators == old(self).validators,
            final(self).validator_set_version == old(self).validator_set_version,
            final(self).locked_assets == old(self).locked_assets,
            final(self).statuses == old(self).statuses,
            final(self).wrapped_nfts@ == old(self).wrapped_nfts@,
            final(self).user_nonces@ == old(self).user_nonces@,
            final(self).bridge_nonces == old(self).bridge_nonces,
            match r {
                Ok(()) => old(self).is_initialized() && admin == old(self).spec_config().admin
                    && final(self).config == Some(
                    BridgeConfig { paused, ..old(self).spec_config() },
                ),
                Err(e) => *final(self) == *old(self) && match e {
                    Error::NotInitialized => !old(self).is_initialized(),
                    Error::Unauthorized => old(self).is_initialized() && admin != old(self).spec_config().admin,
                    _ => false,
                },
            },
    {
        let c = match self.config {
            Some(c) => c,
            None => { return Err(Error::NotInitialized) },
        };
        if admin != c.admin {
            return Err(Error::Unauthorized);
        }
        self.config = Some(BridgeConfig { paused, ..c });
        Ok(())
    }

    fn find_status_index(&self, id: &[u8; 32]) -> (r: Option<usize>)
        ensures
            match r {
                Some(i) => i < self.statuses@.len() && self.statuses@[i as int].id@ == id@ && forall|
                    j: int,
                | 0 <= j < i ==> self.statuses@[j].id@ != id@,
                None => forall|j: int| 0 <= j < self.statuses@.len() ==> self.statuses@[j].id@ != id@,
            },
    {
        let mut i: usize = 0;
        while i < self.statuses.len()
            invariant
                i <= self.statuses@.len(),
                forall|j: int| 0 <= j < i ==> self.statuses@[j].id@ != id@,
            decreases self.statuses@.len() - i,
        {
            if bytes32_eq(&self.statuses[i].id, id) {
                return Some(i);
            }
            i = i + 1;
        }
        None
    }

    /// The lifecycle status recorded for a message id, if any.
    pub fn get_message_status(&self, message_id: &[u8; 32]) -> (r: Option<BridgeStatus>)
        ensures
            r == self.spec_status(message_id@),
    {
        match self.find_status_index(message_id) {
            Some(i) => {
                proof {
                    lemma_status_from_skip_to(self.statuses@, 0, i as int, message_id@);
                }
                Some(self.statuses[i].status)
            },
            None => {
                proof {
                    lemma_status_from_skip_to(
                        self.statuses@,
                        0,
                        self.statuses@.len() as int,
                        message_id@,
                    );
                }
                None
            },
        }
    }

    /// Writes the status of a message id, keeping every other id's
    /// status as it was.
    fn set_status(&mut self, id: [u8; 32], status: BridgeStatus)
        requires
            unique_status_ids(old(self).statuses@),
        ensures
            unique_status_ids(final(self).statuses@),
            status_of(final(self).statuses@, id@) == Some(status),
            forall|x: Seq<u8>|
                x != id@ ==> status_of(final(self).statuses@, x) == status_of(
                    old(self).statuses@,
                    x,
                ),
            final(self).statuses@.len() <= old(self).statuses@.len() + 1,
            final(self).contract_address == old(self).contract_address,
            final(self).config == old(self).config,
            final(self).validators == old(self).validators,
            final(self).validator_set_version == old(self).validator_set_version,
            final(self).locked_assets == old(self).locked_assets,
            final(self).audit_signatures == old(self).audit_signatures,
            final(self).wrapped_nfts@ == old(self).wrapped_nfts@,
            final(self).user_nonces@ == old(self).user_nonces@,
            final(self).bridge_nonces == old(self).bridge_nonces,
    {
        let ghost s = self.statuses@;
        match self.find_status_index(&id) {
            Some(i) => {
                let e = StatusEntry { id, status };
                self.statuses.set(i, e);
                proof {
                    lemma_status_found(s, i as int, id@);
                    lemma_status_from_update(s, i as int, e, 0, id@);
                    assert(status_of(self.statuses@, id@) == Some(status));
                    assert forall|x: Seq<u8>| x != id@ implies status_of(
                        self.statuses@,
                        x,
                    ) == status_of(s, x) by {
                        lemma_status_from_update(s, i as int, e, 0, x);
                    }
                }
            },
            None => {
                let e = StatusEntry { id, status };
                self.statuses.push(e);
                proof {
                    lemma_status_from_push(s, e, 0, id@);
                    assert(status_of(self.statuses@, id@) == Some(status));
                    assert forall|x: Seq<u8>| x != id@ implies status_of(
                        self.statuses@,
                        x,
                    ) == status_of(s, x) by {
                        lemma_status_from_push(s, e, 0, x);
                    }
                    assert forall|m: int, n: int|
                        0 <= m < n < self.statuses@.len() implies self.statuses@[m].id@
                        != self.statuses@[n].id@ by {
                        if n == s.len() {
                            assert(self.statuses@[m] == s[m]);
                        }
                    }
                }
            },
        }
    }

    fn find_locked_index(&self, id: &[u8; 32]) -> (r: Option<usize>)
        ensures
            match r {
                Some(i) => i < self.locked_assets@.len() && self.locked_assets@[i as int].message_id@
                    == id@ && forall|j: int|
                    0 <= j < i ==> self.locked_assets@[j].message_id@ != id@,
                None => forall|j: int|
                    0 <= j < self.locked_assets@.len() ==> self.locked_assets@[j].message_id@
                        != id@,
            },
    {
        let mut i: usize = 0;
        while i < self.locked_assets.len()
            invariant
                i <= self.locked_assets@.len(),
                forall|j: int| 0 <= j < i ==> self.locked_assets@[j].message_id@ != id@,
            decreases self.locked_assets@.len() - i,
        {
            if bytes32_eq(&self.locked_assets[i].message_id, id) {
                return Some(i);
            }
            i = i + 1;
        }
        None
    }

    /// The locked asset recorded for a message id, if any.
    pub fn get_locked_asset(&self, message_id: &[u8; 32]) -> (r: Option<&LockedAsset>)
        requires
            self.wf(),
        ensures
            match r {
                Some(a) => self.spec_locked(message_id@) == Some(*a),
                None => self.spec_locked(message_id@) is None,
            },
    {
        match self.find_locked_index(message_id) {
            Some(i) => {
                proof {
                    lemma_locked_found(self.locked_assets@, i as int, message_id@);
                }
                Some(&self.locked_assets[i])
            },
            None => {
                proof {
                    lemma_locked_index_props(self.locked_assets@, 0, message_id@);
                    match locked_index_from(self.locked_assets@, 0, message_id@) {
                        Some(j) => {
                            assert(self.locked_assets@[j].message_id@ == message_id@);
                            assert(false);
                        },
                        None => {},
                    }
                }
                None
            },
        }
    }

    /// The current validator set.
    pub fn get_validators(&self) -> (r: &Vec<Address>)
        ensures
            r@ == self.validators@,
    {
        &self.validators
    }

    /// The current configuration.
    pub fn get_config(&self) -> (c: BridgeConfig)
        requires
            self.is_initialized(),
        ensures
            c == self.spec_config(),
    {
        match self.config {
            Some(c) => c,
            None => BridgeConfig {
                admin: 0,
                required_signatures: 0,
                max_validators: 0,
                base_fee_bps: 0,
                fee_collector: 0,
                min_fee: 0,
                max_fee: 0,
                paused: false,
                chain_id: 0,
            },
        }
    }

    /// The wrapped NFT recorded under a wrapped-token id, if any.
    pub fn get_wrapped_nft(&self, wrapped_token_id: i128) -> (r: Option<WrappedNFT>)
        ensures
            r == if self.wrapped_nfts@.contains_key(wrapped_token_id) {
                Some(self.wrapped_nfts@[wrapped_token_id])
            } else {
                None::<WrappedNFT>
            },
    {
        match self.wrapped_nfts.get(&wrapped_token_id) {
            Some(w) => Some(*w),
            None => None,
        }
    }

    /// Locks an asset for a cross-chain transfer. Validates the amount,
    /// destination chain and recipient; checks (for fungible tokens) the
    /// sender's balance, takes custody of the amount, advances the
    /// sender's nonce, and records a `Pending` message under the derived
    /// content hash. The nonce makes the id of two otherwise identical
    /// submissions differ.
    #[verifier::rlimit(100)]
    pub fn bridge_assets(
        &mut self,
        ledger: &mut RewardToken,
        sender: Address,
        asset_address: Address,
        asset_type: AssetType,
        amount: i128,
        dest_chain: u32,
        recipient: Vec<u8>,
        now: u64,
    ) -> (r: Result<[u8; 32], Error>)
        requires
            old(self).wf(),
            old(ledger).wf(),
            old(self).lock_fits(sender, amount),
        ensures
            final(self).wf(),
            final(ledger).wf(),
            final(self).contract_address == old(self).contract_address,
            final(self).config == old(self).config,
            final(self).validators == old(self).validators,
            final(self).validator_set_version == old(self).validator_set_version,
            final(self).audit_signatures == old(self).audit_signatures,
            final(self).wrapped_nfts@ == old(self).wrapped_nfts@,
            spec_terminal_preserved(old(self).statuses@, final(self).statuses@),
            match r {
                Ok(id) => {
                    let c = old(self).spec_config();
                    let nonce = old(self).spec_user_nonce(sender) + 1;
                    &&& old(self).is_initialized()
                    &&& !c.paused
                    &&& amount > 0
                    &&& 0 < dest_chain <= MAX_CHAIN_ID
                    &&& recipient@.len() > 0
                    &&& id@ == sha256_of(
                        spec_message_preimage(now, asset_type, amount, dest_chain, nonce as u64),
                    )
                    &&& old(self).spec_status(id@) is None
                    &&& final(self).spec_status(id@) == Some(BridgeStatus::Pending)
                    &&& forall|x: Seq<u8>|
                        x != id@ ==> final(self).spec_status(x) == old(self).spec_status(x)
                    &&& final(self).spec_locked(id@) matches Some(la) && la.owner == sender
                        && la.asset_address == asset_address && la.asset_type == asset_type
                        && la.amount == amount && la.locked_at == now && la.message_id@ == id@
                        && la.dest_chain == dest_chain && la.recipient@ == recipient@
                    &&& forall|x: Seq<u8>|
                        x != id@ ==> final(self).spec_locked(x) == old(self).spec_locked(x)
                    &&& final(self).spec_user_nonce(sender) == nonce
                    &&& final(self).bridge_nonces == old(self).bridge_nonces + 1
                    &&& (asset_type == AssetType::Token ==> old(ledger).spec_balance(sender)
                        >= amount && spec_transferred(
                        old(ledger),
                        final(ledger),
                        sender,
                        old(self).contract_address,
                        amount,
                    ))
                    &&& (asset_type == AssetType::NFT ==> *final(ledger) == *old(ledger))
                },
                Err(e) => *final(self) == *old(self) && *final(ledger) == *old(ledger) && {
                    let c = old(self).spec_config();
                    let nonce = old(self).spec_user_nonce(sender) + 1;
                    match e {
                        Error::NotInitialized => !old(self).is_initialized(),
                        Error::ContractPaused => old(self).is_initialized() && c.paused,
                        Error::InvalidAssetAmount => old(self).is_initialized() && !c.paused
                            && amount <= 0,
                        Error::InvalidChainId => old(self).is_initialized() && !c.paused && amount
                            > 0 && (dest_chain == 0 || dest_chain > MAX_CHAIN_ID),
                        Error::InvalidRecipient => old(self).is_initialized() && !c.paused
                            && amount > 0 && 0 < dest_chain <= MAX_CHAIN_ID && recipient@.len()
                            == 0,
                        Error::InsufficientBalance => old(self).is_initialized() && !c.paused
                            && amount > 0 && 0 < dest_chain <= MAX_CHAIN_ID && recipient@.len() > 0
                            && asset_type == AssetType::Token && old(ledger).spec_balance(sender)
                            < amount,
                        Error::FeeTooLow => old(self).is_initialized() && !c.paused && amount > 0
                            && 0 < dest_chain <= MAX_CHAIN_ID && recipient@.len() > 0 && (asset_type
                            == AssetType::Token ==> old(ledger).spec_balance(sender) >= amount)
                            && c.max_fee < c.min_fee,
                        Error::MessageAlreadyProcessed => old(self).is_initialized() && !c.paused
                            && amount > 0 && 0 < dest_chain <= MAX_CHAIN_ID && recipient@.len() > 0
                            && (asset_type == AssetType::Token ==> old(ledger).spec_balance(sender)
                            >= amount) && !(c.max_fee < c.min_fee) && old(self).spec_status(
                            sha256_of(
                                spec_message_preimage(
                                    now,
                                    asset_type,
                                    amount,
                                    dest_chain,
                                    nonce as u64,
                                ),
                            ),
                        ) is Some,
                        _ => false,
                    }
                },
            },
    {
        let c = match self.config {
            Some(c) => c,
            None => { return Err(Error::NotInitialized) },
        };
        if c.paused {
            return Err(Error::ContractPaused);
        }
        if amount <= 0 {
            return Err(Error::InvalidAssetAmount);
        }
        if dest_chain == 0 || dest_chain > MAX_CHAIN_ID {
            return Err(Error::InvalidChainId);
        }
        if recipient.len() == 0 {
            return Err(Error::InvalidRecipient);
        }
        match asset_type {
            AssetType::Token => {
                let balance = ledger.balance(sender);
                if balance < amount {
                    return Err(Error::InsufficientBalance);
                }
            },
            AssetType::NFT => {},
        }
        let fee = ((amount as u128) * (c.base_fee_bps as u128) / (BASIS_POINTS as u128)) as i128;
        let clamped = if fee < c.min_fee {
            c.min_fee
        } else {
            fee
        };
        let final_fee = if clamped > c.max_fee {
            c.max_fee
        } else {
            clamped
        };
        if final_fee < c.min_fee {
            return Err(Error::FeeTooLow);
        }
        let current_nonce: u64 = match self.user_nonces.get(&sender) {
            Some(n) => *n,
            None => 0,
        };
        let nonce = current_nonce + 1;
        let message_id = derive_message_id(now, asset_type, amount, dest_chain, nonce);
        match self.get_message_status(&message_id) {
            Some(_) => { return Err(Error::MessageAlreadyProcessed) },
            None => {},
        }
        match asset_type {
            AssetType::Token => {
                let contract = self.contract_address;
                match ledger.transfer(sender, contract, amount) {
                    Ok(_) => {},
                    Err(te) => { return Err(Error::TransferFailed(te)) },
                }
            },
            AssetType::NFT => {},
        }
        let locked = LockedAsset {
            owner: sender,
            asset_address,
            asset_type,
            amount,
            locked_at: now,
            message_id,
            dest_chain,
            recipient,
        };
        self.record_lock(locked, sender, nonce);
        Ok(message_id)
    }

    /// Commits one lock: stores the custody record and its `Pending`
    /// status, and advances both nonces.
    fn record_lock(&mut self, locked: LockedAsset, sender: Address, nonce: u64)
        requires
            old(self).wf(),
            old(self).spec_status(locked.message_id@) is None,
            locked.amount > 0,
            old(self).bridge_nonces < u64::MAX,
        ensures
            final(self).wf(),
            final(self).contract_address == old(self).contract_address,
            final(self).config == old(self).config,
            final(self).validators == old(self).validators,
            final(self).validator_set_version == old(self).validator_set_version,
            final(self).wrapped_nfts@ == old(self).wrapped_nfts@,
            final(self).audit_signatures == old(self).audit_signatures,
            final(self).spec_status(locked.message_id@) == Some(BridgeStatus::Pending),
            forall|x: Seq<u8>|
                x != locked.message_id@ ==> final(self).spec_status(x) == old(self).spec_status(x),
            final(self).spec_locked(locked.message_id@) == Some(locked),
            forall|x: Seq<u8>|
                x != locked.message_id@ ==> final(self).spec_locked(x) == old(self).spec_locked(x),
            final(self).user_nonces@ == old(self).user_nonces@.insert(sender, nonce),
            final(self).bridge_nonces == old(self).bridge_nonces + 1,
            spec_terminal_preserved(old(self).statuses@, final(self).statuses@),
    {
        let ghost old_locked = self.locked_assets@;
        let id: [u8; 32] = locked.message_id;
        let ghost message_id = locked.message_id;
        proof {
            lemma_locked_index_props(old_locked, 0, message_id@);
            match locked_index_from(old_locked, 0, message_id@) {
                Some(j) => {
                    assert(status_of(self.statuses@, old_locked[j].message_id@) is Some);
                    assert(false);
                },
                None => {},
            }
        }
        self.locked_assets.push(locked);
        proof {
            lemma_locked_push(old_locked, locked, 0, message_id@);
            assert(locked_of(self.locked_assets@, message_id@) == Some(locked));
            assert forall|m: int, n: int|
                0 <= m < n < self.locked_assets@.len() implies self.locked_assets@[m].message_id@
                != self.locked_assets@[n].message_id@ by {
                if n == old_locked.len() {
                    assert(self.locked_assets@[m] == old_locked[m]);
                }
            }
            assert forall|x: Seq<u8>| x != message_id@ implies locked_of(self.locked_assets@, x)
                == locked_of(old_locked, x) by {
                lemma_locked_push(old_locked, locked, 0, x);
                lemma_locked_index_props(old_locked, 0, x);
                match locked_index_from(old_locked, 0, x) {
                    Some(j) => {
                        assert(self.locked_assets@[j] == old_locked[j]);
                    },
                    None => {},
                }
            }
        }
        self.set_status(id, BridgeStatus::Pending);
        self.user_nonces.insert(sender, nonce);
        self.bridge_nonces = self.bridge_nonces + 1;
    }

    /// Completes a cross-chain unlock (validator only, with a quorum of
    /// distinct validator signatures) and marks the message `Completed`.
    /// Completing a message already past `Pending` fails, so a completed
    /// or cancelled id can never transition again. Fungible-token unlocks
    /// currently fail with `InvalidRecipient` because recipient decoding
    /// is an explicit, unimplemented gap; only NFT unlocks can complete.
    pub fn complete_bridge(
        &mut self,
        validator: Address,
        message: BridgeMessage,
        signatures: Vec<ValidatorSignature>,
    ) -> (r: Result<(), Error>)
        requires
            old(self).wf(),
        ensures
            final(self).wf(),
            final(self).contract_address == old(self).contract_address,
            final(self).config == old(self).config,
            final(self).validators == old(self).validators,
            final(self).validator_set_version == old(self).validator_set_version,
            final(self).locked_assets == old(self).locked_assets,
            final(self).wrapped_nfts@ == old(self).wrapped_nfts@,
            final(self).user_nonces@ == old(self).user_nonces@,
            final(self).bridge_nonces == old(self).bridge_nonces,
            spec_terminal_preserved(old(self).statuses@, final(self).statuses@),
            match r {
                Ok(()) => {
                    let c = old(self).spec_config();
                    &&& old(self).is_initialized()
                    &&& !c.paused
                    &&& old(self).validators@.contains(validator)
                    &&& final(self).audit_signatures@ == old(self).audit_signatures@.push(
                        SignatureRecord { id: message.message_id, signatures },
                    )
                    &&& (old(self).spec_status(message.message_id@) is None || old(
                        self,
                    ).spec_status(message.message_id@) == Some(BridgeStatus::Pending))
                    &&& signatures@.len() >= c.required_signatures
                    &&& valid_sig_count(signatures@, old(self).validators@)
                        >= c.required_signatures
                    &&& message.action == BridgeAction::Unlock
                    &&& message.asset_type == AssetType::NFT
                    &&& final(self).spec_status(message.message_id@) == Some(
                        BridgeStatus::Completed,
                    )
                    &&& forall|x: Seq<u8>|
                        x != message.message_id@ ==> final(self).spec_status(x) == old(
                            self,
                        ).spec_status(x)
                },
                Err(e) => *final(self) == *old(self) && {
                    let c = old(self).spec_config();
                    match e {
                        Error::NotInitialized => !old(self).is_initialized(),
                        Error::ContractPaused => old(self).is_initialized() && c.paused,
                        Error::Unauthorized => old(self).is_initialized() && !c.paused && !old(
                            self,
                        ).validators@.contains(validator),
                        Error::MessageAlreadyProcessed => old(self).is_initialized() && !c.paused
                            && old(self).validators@.contains(validator) && (old(self).spec_status(
                            message.message_id@,
                        ) matches Some(st) && st != BridgeStatus::Pending),
                        Error::InsufficientSignatures => old(self).is_initialized() && !c.paused
                            && old(self).validators@.contains(validator) && !(old(
                            self,
                        ).spec_status(message.message_id@) matches Some(st) && st
                            != BridgeStatus::Pending) && signatures@.len() < c.required_signatures,
                        Error::InvalidSignature => old(self).is_initialized() && !c.paused && old(
                            self,
                        ).validators@.contains(validator) && !(old(self).spec_status(
                            message.message_id@,
                        ) matches Some(st) && st != BridgeStatus::Pending) && signatures@.len()
                            >= c.required_signatures && valid_sig_count(
                            signatures@,
                            old(self).validators@,
                        ) < c.required_signatures,
                        Error::InvalidMessage => old(self).is_initialized() && !c.paused && old(
                            self,
                        ).validators@.contains(validator) && !(old(self).spec_status(
                            message.message_id@,
                        ) matches Some(st) && st != BridgeStatus::Pending) && signatures@.len()
                            >= c.required_signatures && valid_sig_count(
                            signatures@,
                            old(self).validators@,
                        ) >= c.required_signatures && message.action == BridgeAction::Lock,
                        Error::InvalidRecipient => old(self).is_initialized() && !c.paused && old(
                            self,
                        ).validators@.contains(validator) && !(old(self).spec_status(
                            message.message_id@,
                        ) matches Some(st) && st != BridgeStatus::Pending) && signatures@.len()
                            >= c.required_signatures && valid_sig_count(
                            signatures@,
                            old(self).validators@,
                        ) >= c.required_signatures && message.action == BridgeAction::Unlock
                            && message.asset_type == AssetType::Token,
                        _ => false,
                    }
                },
            },
    {
        let c = match self.config {
            Some(c) => c,
            None => { return Err(Error::NotInitialized) },
        };
        if c.paused {
            return Err(Error::ContractPaused);
        }
        if !self.contains_validator(validator) {
            return Err(Error::Unauthorized);
        }
        match self.get_message_status(&message.message_id) {
            Some(st) => {
                let pending = match st {
                    BridgeStatus::Pending => true,
                    _ => false,
                };
                if !pending {
                    return Err(Error::MessageAlreadyProcessed);
                }
            },
            None => {},
        }
        if signatures.len() < c.required_signatures as usize {
            return Err(Error::InsufficientSignatures);
        }
        let count = count_valid_signatures(&signatures, &self.validators);
        if count < c.required_signatures as usize {
            return Err(Error::InvalidSignature);
        }
        match message.action {
            BridgeAction::Unlock => {
                match message.asset_type {
                    AssetType::Token => {
                        match bytes_to_address(&message.recipient) {
                            Ok(_) => {},
                            Err(e) => { return Err(e) },
                        }
                    },
                    AssetType::NFT => {},
                }
            },
            BridgeAction::Lock => {
                return Err(Error::InvalidMessage);
            },
        }
        self.set_status(message.message_id, BridgeStatus::Completed);
        self.audit_signatures.push(SignatureRecord { id: message.message_id, signatures });
        Ok(())
    }

    /// Cancels a pending message (the original locker or the admin
    /// only): the locked amount is refunded in full, the message is
    /// marked `Cancelled`, and the custody record is dropped. A message
    /// already past `Pending` cannot be cancelled.
    pub fn cancel_bridge(&mut self, ledger: &mut RewardToken, caller: Address, message_id: [u8;
        32]) -> (r: Result<(), Error>)
        requires
            old(self).wf(),
            old(ledger).wf(),
        ensures
            final(self).wf(),
            final(ledger).wf(),
            final(self).contract_address == old(self).contract_address,
            final(self).config == old(self).config,
            final(self).validators == old(self).validators,
            final(self).validator_set_version == old(self).validator_set_version,
            final(self).audit_signatures == old(self).audit_signatures,
            final(self).wrapped_nfts@ == old(self).wrapped_nfts@,
            final(self).user_nonces@ == old(self).user_nonces@,
            final(self).bridge_nonces == old(self).bridge_nonces,
            spec_terminal_preserved(old(self).statuses@, final(self).statuses@),
            match r {
                Ok(()) => {
                    let la = old(self).spec_locked(message_id@)->0;
                    &&& old(self).is_initialized()
                    &&& old(self).spec_locked(message_id@) is Some
                    &&& (caller == la.owner || caller == old(self).spec_config().admin)
                    &&& (old(self).spec_status(message_id@) is None || old(self).spec_status(
                        message_id@,
                    ) == Some(BridgeStatus::Pending))
                    &&& (la.asset_type == AssetType::Token ==> spec_transferred(
                        old(ledger),
                        final(ledger),
                        old(self).contract_address,
                        la.owner,
                        la.amount,
                    ))
                    &&& (la.asset_type == AssetType::NFT ==> *final(ledger) == *old(ledger))
                    &&& final(self).spec_status(message_id@) == Some(BridgeStatus::Cancelled)
                    &&& forall|x: Seq<u8>|
                        x != message_id@ ==> final(self).spec_status(x) == old(self).spec_status(x)
                    &&& final(self).spec_locked(message_id@) is None
                    &&& forall|x: Seq<u8>|
                        x != message_id@ ==> final(self).spec_locked(x) == old(self).spec_locked(x)
                },
                Err(e) => *final(self) == *old(self) && *final(ledger) == *old(ledger) && match e {
                    Error::AssetNotLocked => old(self).spec_locked(message_id@) is None,
                    Error::NotInitialized => old(self).spec_locked(message_id@) is Some && !old(
                        self,
                    ).is_initialized(),
                    Error::Unauthorized => old(self).is_initialized() && (old(self).spec_locked(
                        message_id@,
                    ) matches Some(la) && caller != la.owner && caller != old(
                        self,
                    ).spec_config().admin),
                    Error::MessageAlreadyProcessed => old(self).is_initialized() && (old(
                        self,
                    ).spec_locked(message_id@) matches Some(la) && (caller == la.owner || caller
                        == old(self).spec_config().admin)) && (old(self).spec_status(message_id@)
                        matches Some(st) && st != BridgeStatus::Pending),
                    Error::TransferFailed(te) => te == TokenError::InsufficientBalance && old(
                        self,
                    ).is_initialized() && (match old(self).spec_locked(message_id@) {
                        Some(la) => (caller == la.owner || caller == old(self).spec_config().admin)
                            && la.asset_type == AssetType::Token && (old(self).spec_status(
                            message_id@,
                        ) is None || old(self).spec_status(message_id@) == Some(
                            BridgeStatus::Pending,
                        )) && old(ledger).spec_balance(old(self).contract_address) < la.amount,
                        None => false,
                    }),
                    _ => false,
                },
            },
    {
        let idx = match self.find_locked_index(&message_id) {
            Some(i) => i,
            None => {
                proof {
                    lemma_locked_index_props(self.locked_assets@, 0, message_id@);
                    match locked_index_from(self.locked_assets@, 0, message_id@) {
                        Some(j) => {
                            assert(false);
                        },
                        None => {},
                    }
                }
                return Err(Error::AssetNotLocked);
            },
        };
        proof {
            lemma_locked_found(self.locked_assets@, idx as int, message_id@);
        }
        let c = match self.config {
            Some(c) => c,
            None => { return Err(Error::NotInitialized) },
        };
        let owner = self.locked_assets[idx].owner;
        let amount = self.locked_assets[idx].amount;
        let is_token = match self.locked_assets[idx].asset_type {
            AssetType::Token => true,
            AssetType::NFT => false,
        };
        if owner != caller && c.admin != caller {
            return Err(Error::Unauthorized);
        }
        match self.get_message_status(&message_id) {
            Some(st) => {
                let pending = match st {
                    BridgeStatus::Pending => true,
                    _ => false,
                };
                if !pending {
                    return Err(Error::MessageAlreadyProcessed);
                }
            },
            None => {},
        }
        if is_token {
            let contract = self.contract_address;
            match ledger.transfer(contract, owner, amount) {
                Ok(_) => {},
                Err(te) => { return Err(Error::TransferFailed(te)) },
            }
        }
        self.set_status(message_id, BridgeStatus::Cancelled);
        let ghost pre_remove = self.locked_assets@;
        proof {
            assert forall|x: Seq<u8>| true implies {
                &&& x == message_id@ ==> locked_of(pre_remove.remove(idx as int), x) is None
                &&& x != message_id@ ==> locked_of(pre_remove.remove(idx as int), x) == locked_of(
                    pre_remove,
                    x,
                )
            } by {
                lemma_locked_remove(pre_remove, idx as int, x);
            }
            lemma_locked_remove(pre_remove, idx as int, message_id@);
        }
        self.locked_assets.remove(idx);
        proof {
            assert forall|j: int|
                0 <= j < self.locked_assets@.len() implies status_of(
                self.statuses@,
                #[trigger] self.locked_assets@[j].message_id@,
            ) is Some by {
                let j1 = if j < idx {
                    j
                } else {
                    j + 1
                };
                assert(self.locked_assets@[j] == pre_remove[j1]);
            }
        }
        Ok(())
    }

    /// Wraps an NFT for cross-chain transfer under a derived wrapped
    /// token id. Moving the NFT itself into custody is out of scope of
    /// the current protocol version.
    pub fn wrap_nft(
        &mut self,
        owner: Address,
        nft_contract: Address,
        token_id: i128,
        dest_chain: u32,
        _recipient: Vec<u8>,
        now: u64,
    ) -> (r: Result<i128, Error>)
        requires
            old(self).wf(),
        ensures
            final(self).wf(),
            final(self).contract_address == old(self).contract_address,
            final(self).config == old(self).config,
            final(self).validators == old(self).validators,
            final(self).locked_assets == old(self).locked_assets,
            final(self).statuses == old(self).statuses,
            final(self).user_nonces@ == old(self).user_nonces@,
            final(self).bridge_nonces == old(self).bridge_nonces,
            match r {
                Ok(id) => {
                    &&& old(self).is_initialized()
                    &&& !old(self).spec_config().paused
                    &&& id == spec_wrapped_id(token_id, dest_chain, now)
                    &&& final(self).wrapped_nfts@ == old(self).wrapped_nfts@.insert(
                        id,
                        WrappedNFT {
                            original_token_id: token_id,
                            original_chain: old(self).spec_config().chain_id,
                            original_contract: nft_contract,
                            wrapped_token_id: id,
                            owner,
                            wrapped_at: now,
                        },
                    )
                },
                Err(e) => *final(self) == *old(self) && match e {
                    Error::NotInitialized => !old(self).is_initialized(),
                    Error::ContractPaused => old(self).is_initialized() && old(
                        self,
                    ).spec_config().paused,
                    _ => false,
                },
            },
    {
        let c = match self.config {
            Some(c) => c,
            None => { return Err(Error::NotInitialized) },
        };
        if c.paused {
            return Err(Error::ContractPaused);
        }
        let wrapped_token_id = derive_wrapped_token_id(token_id, dest_chain, now);
        let wrapped = WrappedNFT {
            original_token_id: token_id,
            original_chain: c.chain_id,
            original_contract: nft_contract,
            wrapped_token_id,
            owner,
            wrapped_at: now,
        };
        self.wrapped_nfts.insert(wrapped_token_id, wrapped);
        Ok(wrapped_token_id)
    }

    /// Unwraps an NFT after its return transfer (its recorded owner
    /// only); the wrapped record is dropped and the original contract
    /// and token id are handed back.
    pub fn unwrap_nft(&mut self, owner: Address, wrapped_token_id: i128) -> (r: Result<
        (Address, i128),
        Error,
    >)
        requires
            old(self).wf(),
        ensures
            final(self).wf(),
            final(self).contract_address == old(self).contract_address,
            final(self).config == old(self).config,
            final(self).validators == old(self).validators,
            final(self).locked_assets == old(self).locked_assets,
            final(self).statuses == old(self).statuses,
            final(self).user_nonces@ == old(self).user_nonces@,
            final(self).bridge_nonces == old(self).bridge_nonces,
            match r {
                Ok((contract, id)) => {
                    &&& old(self).is_initialized()
                    &&& !old(self).spec_config().paused
                    &&& old(self).wrapped_nfts@.contains_key(wrapped_token_id)
                    &&& old(self).wrapped_nfts@[wrapped_token_id].owner == owner
                    &&& contract == old(self).wrapped_nfts@[wrapped_token_id].original_contract
                    &&& id == old(self).wrapped_nfts@[wrapped_token_id].original_token_id
                    &&& final(self).wrapped_nfts@ == old(self).wrapped_nfts@.remove(
                        wrapped_token_id,
                    )
                },
                Err(e) => *final(self) == *old(self) && match e {
                    Error::NotInitialized => !old(self).is_initialized(),
                    Error::ContractPaused => old(self).is_initialized() && old(
                        self,
                    ).spec_config().paused,
                    Error::NFTNotWrapped => old(self).is_initialized() && !old(
                        self,
                    ).spec_config().paused && !old(self).wrapped_nfts@.contains_key(
                        wrapped_token_id,
                    ),
                    Error::Unauthorized => old(self).is_initialized() && !old(
                        self,
                    ).spec_config().paused && old(self).wrapped_nfts@.contains_key(wrapped_token_id)
                        && old(self).wrapped_nfts@[wrapped_token_id].owner != owner,
                    _ => false,
                },
            },
    {
        let c = match self.config {
            Some(c) => c,
            None => { return Err(Error::NotInitialized) },
        };
        if c.paused {
            return Err(Error::ContractPaused);
        }
        let wrapped = match self.wrapped_nfts.get(&wrapped_token_id) {
            Some(w) => *w,
            None => { return Err(Error::NFTNotWrapped) },
        };
        if wrapped.owner != owner {
            return Err(Error::Unauthorized);
        }
        self.wrapped_nfts.remove(&wrapped_token_id);
        Ok((wrapped.original_contract, wrapped.original_token_id))
    }
}

/// The serialization tag of an asset type.
pub open spec fn spec_asset_tag(t: AssetType) -> u32 {
    match t {
        AssetType::Token => 0,
        AssetType::NFT => 1,
    }
}

/// A run of 32 zero bytes, standing in for a serialized address in the
/// hash preimages (address serialization is left to a future protocol
/// version; the id stays unique through the nonce).
pub open spec fn spec_zeros32() -> Seq<u8> {
    Seq::new(32, |i: int| 0u8)
}

/// The byte string hashed into a message id: timestamp, a zeroed sender
/// slot, asset type, amount, destination chain, and the per-user nonce.
pub open spec fn spec_message_preimage(
    now: u64,
    asset_type: AssetType,
    amount: i128,
    dest_chain: u32,
    nonce: u64,
) -> Seq<u8> {
    spec_be_u64(now) + spec_zeros32() + spec_be_u32(spec_asset_tag(asset_type)) + spec_be_u128(
        spec_i128_bits(amount),
    ) + spec_be_u32(dest_chain) + spec_be_u64(nonce)
}

fn push_zeros32(out: &mut Vec<u8>)
    ensures
        final(out)@ == old(out)@ + spec_zeros32(),
{
    let ghost pre = out@;
    let mut i: usize = 0;
    while i < 32
        invariant
            i <= 32,
            out@ == pre + spec_zeros32().take(i as int),
        decreases 32 - i,
    {
        out.push(0);
        proof {
            assert((pre + spec_zeros32().take(i as int)).push(0u8) =~= pre + spec_zeros32().take(
                i as int + 1,
            ));
        }
        i = i + 1;
    }
    proof {
        assert(spec_zeros32().take(32) =~= spec_zeros32());
    }
}

fn derive_message_id(
    now: u64,
    asset_type: AssetType,
    amount: i128,
    dest_chain: u32,
    nonce: u64,
) -> (r: [u8; 32])
    ensures
        r@ == sha256_of(spec_message_preimage(now, asset_type, amount, dest_chain, nonce)),
{
    let mut data: Vec<u8> = Vec::new();
    push_be_u64(&mut data, now);
    push_zeros32(&mut data);
    let tag: u32 = match asset_type {
        AssetType::Token => 0,
        AssetType::NFT => 1,
    };
    push_be_u32(&mut data, tag);
    push_be_i128(&mut data, amount);
    push_be_u32(&mut data, dest_chain);
    push_be_u64(&mut data, nonce);
    proof {
        assert(data@ =~= spec_message_preimage(now, asset_type, amount, dest_chain, nonce));
    }
    sha256(&data)
}

/// The byte string hashed into a wrapped-token id: a zeroed contract
/// slot, the token id, the destination chain and the timestamp.
pub open spec fn spec_wrapped_preimage(token_id: i128, dest_chain: u32, now: u64) -> Seq<u8> {
    spec_zeros32() + spec_be_u128(spec_i128_bits(token_id)) + spec_be_u32(dest_chain)
        + spec_be_u64(now)
}

/// The unsigned value of a big-endian byte string.
pub open spec fn spec_u128_from_be(s: Seq<u8>) -> int
    decreases s.len(),
{
    if s.len() == 0 {
        0
    } else {
        spec_u128_from_be(s.drop_last()) * 256 + s.last()
    }
}

/// The value of `n` big-endian bytes fits in `n` bytes.
proof fn lemma_u128_from_be_bound(s: Seq<u8>)
    ensures
        0 <= spec_u128_from_be(s) < pow256(s.len() as int),
    decreases s.len(),
{
    if s.len() > 0 {
        lemma_u128_from_be_bound(s.drop_last());
    }
}

/// 256 to the power `n`.
pub open spec fn pow256(n: int) -> int
    decreases n,
{
    if n <= 0 {
        1
    } else {
        256 * pow256(n - 1)
    }
}

/// The wrapped-token id derived for an NFT: the first 16 bytes of the
/// preimage hash, read as a big-endian two's-complement value.
pub open spec fn spec_wrapped_id(token_id: i128, dest_chain: u32, now: u64) -> i128 {
    spec_i128_of_bits(
        spec_u128_from_be(sha256_of(spec_wrapped_preimage(token_id, dest_chain, now)).take(16)) as u128,
    )
}

fn derive_wrapped_token_id(token_id: i128, dest_chain: u32, now: u64) -> (r: i128)
    ensures
        r == spec_wrapped_id(token_id, dest_chain, now),
{
    let mut data: Vec<u8> = Vec::new();
    push_zeros32(&mut data);
    push_be_i128(&mut data, token_id);
    push_be_u32(&mut data, dest_chain);
    push_be_u64(&mut data, now);
    proof {
        assert(data@ =~= spec_wrapped_preimage(token_id, dest_chain, now));
    }
    let hash = sha256(&data);
    let ghost h = hash@;
    let mut acc: u128 = 0;
    let mut i: usize = 0;
    proof {
        vstd::arithmetic::power::lemma_pow_positive(256, 16);
    }
    while i < 16
        invariant
            i <= 16,
            hash@ == h,
            h.len() == 32,
            acc as int == spec_u128_from_be(h.take(i as int)),
            (acc as int) < pow256(i as int),
        decreases 16 - i,
    {
        proof {
            assert(h.take(i as int + 1).drop_last() =~= h.take(i as int));
            assert(h.take(i as int + 1).last() == h[i as int]);
            lemma_pow256_le_max(i as int + 1);
        }
        acc = acc * 256 + (hash[i] as u128);
        i = i + 1;
    }
    if acc <= (i128::MAX as u128) {
        acc as i128
    } else {
        -((u128::MAX - acc) as i128) - 1
    }
}

/// For widths up to 16 bytes the value fits in 128 bits.
proof fn lemma_pow256_le_max(n: int)
    requires
        0 <= n <= 16,
    ensures
        pow256(n) <= 0x1_0000_0000_0000_0000_0000_0000_0000_0000,
    decreases n,
{
    if n > 0 {
        lemma_pow256_le_max(n - 1);
    } else {
    }
    assert(pow256(16) == 0x1_0000_0000_0000_0000_0000_0000_0000_0000) by {
        reveal_with_fuel(pow256, 17);
    }
    if n < 16 {
        lemma_pow256_monotone(n, 16);
    }
}

proof fn lemma_pow256_monotone(a: int, b: int)
    requires
        0 <= a <= b,
    ensures
        pow256(a) <= pow256(b),
    decreases b - a,
{
    if a < b {
        lemma_pow256_monotone(a, b - 1);
        assert(pow256(b) == 256 * pow256(b - 1));
        assert(pow256(b - 1) >= 1) by {
            lemma_pow256_pos(b - 1);
        }
    }
}

proof fn lemma_pow256_pos(n: int)
    ensures
        pow256(n) >= 1,
    decreases n,
{
    if n > 0 {
        lemma_pow256_pos(n - 1);
    }
}

/// Decoding a destination-format recipient into a ledger address is not
/// implemented — an explicit, security-critical gap of the current
/// protocol version. Every call fails, so fungible-token unlocks cannot
/// complete yet.
fn bytes_to_address(_bytes: &Vec<u8>) -> (r: Result<Address, Error>)
    ensures
        r == Err::<Address, Error>(Error::InvalidRecipient),
{
    Err(Error::InvalidRecipient)
}

fn addr_list_contains(v: &Vec<Address>, a: Address) -> (r: bool)
    ensures
        r == v@.contains(a),
{
    let mut i: usize = 0;
    while i < v.len()
        invariant
            i <= v@.len(),
            forall|j: int| 0 <= j < i ==> v@[j] != a,
        decreases v@.len() - i,
    {
        if v[i] == a {
            assert(v@.contains(a));
            return true;
        }
        i = i + 1;
    }
    false
}

/// Counts the signatures that come from distinct members of the
/// validator set; repeated signatures of one validator count once.
fn count_valid_signatures(sigs: &Vec<ValidatorSignature>, validators: &Vec<Address>) -> (r: usize)
    ensures
        r as int == valid_sig_count(sigs@, validators@),
{
    let mut count: usize = 0;
    let mut i: usize = 0;
    while i < sigs.len()
        invariant
            i <= sigs@.len(),
            count <= i,
            valid_sig_count(sigs@, validators@) == count + valid_sig_count_from(
                sigs@,
                validators@,
                i as int,
            ),
        decreases sigs@.len() - i,
    {
        let member = addr_list_contains(validators, sigs[i].validator);
        let mut dup = false;
        let mut j: usize = 0;
        while j < i
            invariant
                j <= i < sigs@.len(),
                dup == exists|m: int|
                    0 <= m < j && #[trigger] sigs@[m].validator == sigs@[i as int].validator,
            decreases i - j,
        {
            if sigs[j].validator == sigs[i].validator {
                dup = true;
            }
            j = j + 1;
        }
        proof {
            assert(valid_sig_count_from(sigs@, validators@, i as int) == (if validators@.contains(
                sigs@[i as int].validator,
            ) && (forall|m: int|
                0 <= m < i ==> sigs@[m].validator != sigs@[i as int].validator) {
                1int
            } else {
                0int
            }) + valid_sig_count_from(sigs@, validators@, i as int + 1));
        }
        if member && !dup {
            count = count + 1;
        }
        i = i + 1;
    }
    count
}

/// Successive successful locks never return the same message id: a
/// successful lock leaves its id `Pending`, and a later lock's contract
/// requires that no status is recorded yet under its own id in the state
/// it starts from — so the later id must differ, with no appeal to
/// properties of the hash.
pub proof fn lemma_fresh_lock_id_differs(s: &BridgeContract, id1: [u8; 32], id2: [u8; 32])
    requires
        s.spec_status(id1@) == Some(BridgeStatus::Pending),
        s.spec_status(id2@) is None,
    ensures
        id1@ != id2@,
{
}

/// Once a message id is terminal it stays terminal with the same status
/// across any sequence of operations: preservation composes.
pub proof fn lemma_terminal_preserved_transitive(
    s0: Seq<StatusEntry>,
    s1: Seq<StatusEntry>,
    s2: Seq<StatusEntry>,
)
    requires
        spec_terminal_preserved(s0, s1),
        spec_terminal_preserved(s1, s2),
    ensures
        spec_terminal_preserved(s0, s2),
{
    assert forall|x: Seq<u8>|
        spec_is_terminal_opt(#[trigger] status_of(s0, x)) implies status_of(s2, x) == status_of(
        s0,
        x,
    ) by {
        assert(status_of(s1, x) == status_of(s0, x));
        assert(spec_is_terminal_opt(status_of(s1, x)));
    }
}

} // verus!
