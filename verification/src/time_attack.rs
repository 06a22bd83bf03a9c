//! Time-attack leaderboards: players submit puzzle completion times
//! (lower is better) guarded by a per-player rate limit and a replay-hash
//! defense. Each scope (global, or one puzzle) keeps ascending top-10
//! boards for daily, weekly and all-time windows, plus an all-time best
//! record. Daily and weekly boards are cleared explicitly once their
//! window has elapsed since the stored reset marker.
use vstd::prelude::*;
use vstd::hash_map::HashMapWithView;
use crate::{Address, elapsed_since, bytes32_eq};

verus! {

/// Which leaderboard a submission belongs to.
#[derive(Clone, Copy, Debug, PartialEq, Eq, Structural)]
pub enum Scope {
    /// The shared leaderboard across all puzzles (puzzle id 0).
    Global,
    /// The leaderboard of one puzzle (a non-zero puzzle id).
    Puzzle(u32),
}

/// The aggregation window of a board.
#[derive(Clone, Copy, Debug, PartialEq, Eq, Structural)]
pub enum TimePeriod {
    Daily,
    Weekly,
    AllTime,
}

/// Difficulty bracket of a completion time, for future bracketed
/// competitions; purely derived, nothing stores it.
#[derive(Clone, Copy, Debug, PartialEq, Eq, Structural)]
pub enum TimeBracket {
    Beginner,
    Intermediate,
    Advanced,
    Expert,
}

/// Failure conditions of the time-attack entry points.
#[derive(Clone, Copy, Debug, PartialEq, Eq, Structural)]
pub enum Error {
    AlreadyInitialized,
    NotAuthorized,
    InvalidTime,
    TooFrequent,
    DuplicateReplay,
    ContractNotInitialized,
}

/// One accepted completion-time submission.
#[derive(Clone, Copy, Debug, PartialEq, Eq)]
pub struct TimeRecord {
    pub player: Address,
    pub completion_time_ms: u64,
    /// Ledger timestamp (seconds) of the submission.
    pub timestamp: u64,
    /// Hash of the replay data backing the submission.
    pub replay_hash: [u8; 32],
}

/// A consumed replay hash and when it was recorded; the mark expires
/// after the replay window.
#[derive(Clone, Copy, Debug)]
pub struct ReplayMark {
    pub hash: [u8; 32],
    pub recorded_at: u64,
}

pub const MIN_REASONABLE_TIME_MS: u64 = 1_000;

pub const MAX_REASONABLE_TIME_MS: u64 = 3_600_000;

pub const MIN_SUBMIT_INTERVAL_S: u64 = 5;

pub const REPLAY_WINDOW_S: u64 = 86_400;

pub const MAX_LEADERBOARD_SIZE: u32 = 10;

pub const DAILY_SECONDS: u64 = 86_400;

pub const WEEKLY_SECONDS: u64 = 604_800;

/// Completion times in `s` are in non-decreasing order (fastest first).
pub open spec fn sorted_asc(s: Seq<TimeRecord>) -> bool {
    forall|i: int, j: int|
        0 <= i < j < s.len() ==> s[i].completion_time_ms <= s[j].completion_time_ms
}

/// First position at or after `i` whose time is strictly above `time`;
/// the length when there is none. In an ascending list this is where a
/// record of that time goes, after any equal times already present.
pub open spec fn asc_pos_from(s: Seq<TimeRecord>, i: int, time: u64) -> int
    decreases s.len() - i,
{
    if i < 0 || i >= s.len() {
        s.len() as int
    } else if time < s[i].completion_time_ms {
        i
    } else {
        asc_pos_from(s, i + 1, time)
    }
}

/// The board after admitting `rec`: it goes into its ascending position
/// (after equal times), and the board is cut back to the top 10, evicting
/// the slowest entries from the tail.
pub open spec fn spec_insert_time(s: Seq<TimeRecord>, rec: TimeRecord) -> Seq<TimeRecord> {
    let k = asc_pos_from(s, 0, rec.completion_time_ms);
    let combined = s.take(k) + seq![rec] + s.skip(k);
    if combined.len() <= MAX_LEADERBOARD_SIZE {
        combined
    } else {
        combined.take(MAX_LEADERBOARD_SIZE as int)
    }
}

proof fn lemma_asc_pos(s: Seq<TimeRecord>, i: int, time: u64)
    requires
        sorted_asc(s),
        0 <= i <= s.len(),
    ensures
        ({
            let k = asc_pos_from(s, i, time);
            &&& i <= k <= s.len()
            &&& forall|j: int| i <= j < k ==> s[j].completion_time_ms <= time
            &&& k < s.len() ==> time < s[k].completion_time_ms
        }),
    decreases s.len() - i,
{
    if 0 <= i < s.len() && s[i].completion_time_ms <= time {
        lemma_asc_pos(s, i + 1, time);
    }
}

/// Admitting a record keeps the board ascending and never lets it exceed
/// ten entries — the bounded-sorted-collection law for completion times.
pub proof fn lemma_insert_time_props(s: Seq<TimeRecord>, rec: TimeRecord)
    requires
        sorted_asc(s),
    ensures
        ({
            let r = spec_insert_time(s, rec);
            &&& sorted_asc(r)
            &&& r.len() <= MAX_LEADERBOARD_SIZE
        }),
{
    lemma_asc_pos(s, 0, rec.completion_time_ms);
    let k = asc_pos_from(s, 0, rec.completion_time_ms);
    let combined = s.take(k) + seq![rec] + s.skip(k);
    assert(forall|m: int| 0 <= m < k ==> combined[m] == s[m]);
    assert(combined[k] == rec);
    assert(forall|m: int| k < m < combined.len() ==> combined[m] == s[m - 1]);
    assert forall|m: int, n: int| 0 <= m < n < combined.len() implies combined[m].completion_time_ms
        <= combined[n].completion_time_ms by {
        if m < k && n == k {
            assert(s[m].completion_time_ms <= rec.completion_time_ms);
        } else if m == k && n > k {
            assert(rec.completion_time_ms < s[n - 1].completion_time_ms);
        } else if m < k && n > k {
            assert(s[m].completion_time_ms <= rec.completion_time_ms);
            assert(rec.completion_time_ms < s[n - 1].completion_time_ms);
        }
    }
    let r = spec_insert_time(s, rec);
    if combined.len() > MAX_LEADERBOARD_SIZE {
        assert(forall|m: int| 0 <= m < r.len() ==> r[m] == combined[m]);
    }
}

/// Builds the board with `rec` admitted; the returned vector is exactly
/// the specified insertion.
fn insert_time(board: &Vec<TimeRecord>, rec: TimeRecord) -> (r: Vec<TimeRecord>)
    requires
        sorted_asc(board@),
    ensures
        r@ == spec_insert_time(board@, rec),
        sorted_asc(r@),
        r@.len() <= MAX_LEADERBOARD_SIZE,
{
    proof {
        lemma_insert_time_props(board@, rec);
    }
    let ghost s = board@;
    let mut k: usize = 0;
    while k < board.len() && board[k].completion_time_ms <= rec.completion_time_ms
        invariant
            0 <= k <= s.len(),
            board@ == s,
            asc_pos_from(s, 0, rec.completion_time_ms) == asc_pos_from(
                s,
                k as int,
                rec.completion_time_ms,
            ),
        decreases s.len() - k,
    {
        k = k + 1;
    }
    proof {
        assert(asc_pos_from(s, 0, rec.completion_time_ms) == k as int);
    }
    let ghost combined = s.take(k as int) + seq![rec] + s.skip(k as int);
    let mut out: Vec<TimeRecord> = Vec::new();
    let mut i: usize = 0;
    while i < k
        invariant
            i <= k <= s.len(),
            board@ == s,
            out@.len() <= i,
            combined == s.take(k as int) + seq![rec] + s.skip(k as int),
            out@ == if i <= MAX_LEADERBOARD_SIZE {
                combined.take(i as int)
            } else {
                combined.take(MAX_LEADERBOARD_SIZE as int)
            },
        decreases k - i,
    {
        if out.len() < MAX_LEADERBOARD_SIZE as usize {
            out.push(board[i]);
            proof {
                assert(combined[i as int] == s[i as int]);
                assert(combined.take(i as int).push(s[i as int]) =~= combined.take(i as int + 1));
            }
        }
        i = i + 1;
    }
    if out.len() < MAX_LEADERBOARD_SIZE as usize {
        out.push(rec);
        proof {
            assert(combined[k as int] == rec);
            assert(combined.take(k as int).push(rec) =~= combined.take(k as int + 1));
        }
    }
    let mut i3: usize = k;
    while i3 < board.len()
        invariant
            k <= i3 <= s.len(),
            board@ == s,
            combined == s.take(k as int) + seq![rec] + s.skip(k as int),
            out@ == if i3 + 1 <= MAX_LEADERBOARD_SIZE {
                combined.take(i3 as int + 1)
            } else {
                combined.take(MAX_LEADERBOARD_SIZE as int)
            },
        decreases s.len() - i3,
    {
        if out.len() < MAX_LEADERBOARD_SIZE as usize {
            out.push(board[i3]);
            proof {
                assert(combined[i3 as int + 1] == s[i3 as int]);
                assert(combined.take(i3 as int + 1).push(s[i3 as int]) =~= combined.take(
                    i3 as int + 2,
                ));
            }
        }
        i3 = i3 + 1;
    }
    proof {
        if combined.len() <= MAX_LEADERBOARD_SIZE as int {
            assert(combined.take(combined.len() as int) =~= combined);
        }
        assert(out@ =~= spec_insert_time(s, rec));
    }
    out
}

/// One scope's boards, best record and reset markers.
pub struct ScopeBoards {
    pub daily: Vec<TimeRecord>,
    pub weekly: Vec<TimeRecord>,
    pub alltime: Vec<TimeRecord>,
    /// All-time best (fastest) record of the scope.
    pub best: Option<TimeRecord>,
    /// When the daily board was last reset; `None` before the first
    /// submission establishes the baseline.
    pub last_reset_daily: Option<u64>,
    pub last_reset_weekly: Option<u64>,
}

/// Well-formedness of one scope: every board ascending and within the
/// ten-entry cap.
pub open spec fn scope_wf(sb: &ScopeBoards) -> bool {
    &&& sorted_asc(sb.daily@) && sb.daily@.len() <= MAX_LEADERBOARD_SIZE
    &&& sorted_asc(sb.weekly@) && sb.weekly@.len() <= MAX_LEADERBOARD_SIZE
    &&& sorted_asc(sb.alltime@) && sb.alltime@.len() <= MAX_LEADERBOARD_SIZE
}

/// A daily or weekly board state after the explicit reset check at
/// `now`: a missing marker is initialized without clearing; an elapsed
/// window clears the board and moves the marker.
pub open spec fn spec_reset_one(
    board: Seq<TimeRecord>,
    marker: Option<u64>,
    window: u64,
    now: u64,
) -> (Seq<TimeRecord>, Option<u64>) {
    match marker {
        None => (board, Some(now)),
        Some(t) => {
            if elapsed_since(now, t) >= window {
                (Seq::empty(), Some(now))
            } else {
                (board, Some(t))
            }
        },
    }
}

/// The key under which a scope's state is stored: the puzzle id, with 0
/// for the global scope.
pub open spec fn spec_scope_key(scope: Scope) -> u32 {
    match scope {
        Scope::Global => 0,
        Scope::Puzzle(id) => id,
    }
}

/// The scope a puzzle id selects: 0 is the global leaderboard.
pub open spec fn spec_scope_for(puzzle_id: u32) -> Scope {
    if puzzle_id == 0 {
        Scope::Global
    } else {
        Scope::Puzzle(puzzle_id)
    }
}

/// Whether `hash` is marked as consumed at `now`: some mark for it is
/// still within the replay window.
pub open spec fn spec_replay_used(marks: Seq<ReplayMark>, hash: Seq<u8>, now: u64) -> bool {
    exists|i: int|
        0 <= i < marks.len() && #[trigger] marks[i].hash@ == hash && elapsed_since(
            now,
            marks[i].recorded_at,
        ) < REPLAY_WINDOW_S
}

/// `marks[i..]` with every mark whose replay window has elapsed at `now`
/// dropped, order kept.
pub open spec fn spec_prune_from(marks: Seq<ReplayMark>, i: int, now: u64) -> Seq<ReplayMark>
    decreases marks.len() - i,
{
    if i < 0 || i >= marks.len() {
        Seq::empty()
    } else if elapsed_since(now, marks[i].recorded_at) < REPLAY_WINDOW_S {
        seq![marks[i]] + spec_prune_from(marks, i + 1, now)
    } else {
        spec_prune_from(marks, i + 1, now)
    }
}

/// The replay store with every expired mark dropped.
pub open spec fn spec_prune(marks: Seq<ReplayMark>, now: u64) -> Seq<ReplayMark> {
    spec_prune_from(marks, 0, now)
}

proof fn lemma_prune_from_props(marks: Seq<ReplayMark>, i: int, now: u64)
    requires
        0 <= i <= marks.len(),
    ensures
        ({
            let r = spec_prune_from(marks, i, now);
            &&& forall|m: int|
                0 <= m < r.len() ==> exists|j: int| i <= j < marks.len() && marks[j] == #[trigger] r[m]
            &&& forall|m: int|
                0 <= m < r.len() ==> elapsed_since(now, #[trigger] r[m].recorded_at)
                    < REPLAY_WINDOW_S
            &&& forall|j: int|
                i <= j < marks.len() && elapsed_since(now, #[trigger] marks[j].recorded_at)
                    < REPLAY_WINDOW_S ==> r.contains(marks[j])
        }),
    decreases marks.len() - i,
{
    if 0 <= i < marks.len() {
        lemma_prune_from_props(marks, i + 1, now);
        let r1 = spec_prune_from(marks, i + 1, now);
        if elapsed_since(now, marks[i].recorded_at) < REPLAY_WINDOW_S {
            let r = seq![marks[i]] + r1;
            assert(r[0] == marks[i]);
            assert(forall|m: int| 1 <= m < r.len() ==> r[m] == r1[m - 1]);
            assert forall|m: int| 0 <= m < r.len() implies exists|j: int|
                i <= j < marks.len() && marks[j] == #[trigger] r[m] by {
                if m == 0 {
                    assert(marks[i] == r[0]);
                } else {
                    let j = choose|j: int| i + 1 <= j < marks.len() && marks[j] == r1[m - 1];
                    assert(marks[j] == r[m]);
                }
            }
            assert forall|j: int|
                i <= j < marks.len() && elapsed_since(now, #[trigger] marks[j].recorded_at)
                    < REPLAY_WINDOW_S implies r.contains(marks[j]) by {
                if j == i {
                    assert(r[0] == marks[i]);
                } else {
                    assert(r1.contains(marks[j]));
                    let m = choose|m: int| 0 <= m < r1.len() && r1[m] == marks[j];
                    assert(r[m + 1] == marks[j]);
                }
            }
        } else {
            assert forall|j: int|
                i <= j < marks.len() && elapsed_since(now, #[trigger] marks[j].recorded_at)
                    < REPLAY_WINDOW_S implies r1.contains(marks[j]) by {
                assert(j != i);
            }
            assert forall|m: int| 0 <= m < r1.len() implies exists|j: int|
                i <= j < marks.len() && marks[j] == #[trigger] r1[m] by {
                let j = choose|j: int| i + 1 <= j < marks.len() && marks[j] == r1[m];
                assert(i <= j < marks.len() && marks[j] == r1[m]);
            }
        }
    }
}

/// Pruning is an expiry-equivalent mechanism: dropping the expired marks
/// changes no replay decision — a hash counts as consumed at `now`
/// against the pruned store exactly when it does against the full one.
pub proof fn lemma_prune_preserves_replay_check(marks: Seq<ReplayMark>, hash: Seq<u8>, now: u64)
    ensures
        spec_replay_used(spec_prune(marks, now), hash, now) == spec_replay_used(marks, hash, now),
{
    lemma_prune_from_props(marks, 0, now);
    let r = spec_prune(marks, now);
    if spec_replay_used(r, hash, now) {
        let m = choose|m: int|
            0 <= m < r.len() && #[trigger] r[m].hash@ == hash && elapsed_since(
                now,
                r[m].recorded_at,
            ) < REPLAY_WINDOW_S;
        let j = choose|j: int| 0 <= j < marks.len() && marks[j] == r[m];
        assert(marks[j].hash@ == hash);
    }
    if spec_replay_used(marks, hash, now) {
        let j = choose|j: int|
            0 <= j < marks.len() && #[trigger] marks[j].hash@ == hash && elapsed_since(
                now,
                marks[j].recorded_at,
            ) < REPLAY_WINDOW_S;
        assert(r.contains(marks[j]));
        let m = choose|m: int| 0 <= m < r.len() && r[m] == marks[j];
        assert(r[m].hash@ == hash);
    }
}

/// The time-attack contract's entire state.
///
/// The host authenticates callers and passes the ledger timestamp as
/// `now`.
pub struct TimeAttack {
    /// `None` until `initialize` has run.
    pub admin: Option<Address>,
    /// Per-scope boards, keyed by puzzle id (0 = global).
    pub scopes: HashMapWithView<u32, ScopeBoards>,
    /// Each player's last accepted submission time (rate limiting).
    pub last_submit: HashMapWithView<Address, u64>,
    /// Consumed replay hashes with their expiring timestamps; marks
    /// whose window has elapsed are pruned by the next accepted
    /// submission, so the store stays bounded by the replay window.
    pub replays: Vec<ReplayMark>,
}

impl TimeAttack {
    /// Well-formedness: every stored scope's boards are ascending and
    /// capped.
    pub open spec fn wf(&self) -> bool {
        forall|k: u32| #[trigger] self.scopes@.contains_key(k) ==> scope_wf(&self.scopes@[k])
    }

    pub open spec fn is_initialized(&self) -> bool {
        self.admin is Some
    }

    pub open spec fn spec_admin(&self) -> Address {
        match self.admin {
            Some(a) => a,
            None => 0,
        }
    }

    /// The stored daily board of a scope; empty when the scope is new.
    pub open spec fn spec_daily(&self, key: u32) -> Seq<TimeRecord> {
        if self.scopes@.contains_key(key) {
            self.scopes@[key].daily@
        } else {
            Seq::empty()
        }
    }

    /// The stored weekly board of a scope; empty when the scope is new.
    pub open spec fn spec_weekly(&self, key: u32) -> Seq<TimeRecord> {
        if self.scopes@.contains_key(key) {
            self.scopes@[key].weekly@
        } else {
            Seq::empty()
        }
    }

    /// The stored all-time board of a scope; empty when the scope is new.
    pub open spec fn spec_alltime(&self, key: u32) -> Seq<TimeRecord> {
        if self.scopes@.contains_key(key) {
            self.scopes@[key].alltime@
        } else {
            Seq::empty()
        }
    }

    /// The stored best record of a scope, if any.
    pub open spec fn spec_best(&self, key: u32) -> Option<TimeRecord> {
        if self.scopes@.contains_key(key) {
            self.scopes@[key].best
        } else {
            None
        }
    }

    /// The stored daily reset marker of a scope, if any.
    pub open spec fn spec_marker_daily(&self, key: u32) -> Option<u64> {
        if self.scopes@.contains_key(key) {
            self.scopes@[key].last_reset_daily
        } else {
            None
        }
    }

    /// The stored weekly reset marker of a scope, if any.
    pub open spec fn spec_marker_weekly(&self, key: u32) -> Option<u64> {
        if self.scopes@.contains_key(key) {
            self.scopes@[key].last_reset_weekly
        } else {
            None
        }
    }

    /// The empty, uninitialized contract state.
    pub fn new() -> (t: Self)
        ensures
            t.wf(),
            !t.is_initialized(),
            t.scopes@ == Map::<u32, ScopeBoards>::empty(),
            t.last_submit@ == Map::<Address, u64>::empty(),
            t.replays@.len() == 0,
    {
        TimeAttack {
            admin: None,
            scopes: HashMapWithView::new(),
            last_submit: HashMapWithView::new(),
            replays: Vec::new(),
        }
    }

    /// Records the administrator. Fails once a previous call has
    /// succeeded.
    pub fn initialize(&mut self, admin: Address) -> (r: Result<(), Error>)
        requires
            old(self).wf(),
        ensures
            final(self).wf(),
            final(self).scopes@ == old(self).scopes@,
            final(self).last_submit@ == old(self).last_submit@,
            final(self).replays@ == old(self).replays@,
            match r {
                Ok(()) => !old(self).is_initialized() && final(self).admin == Some(admin),
                Err(e) => *final(self) == *old(self) && e == Error::AlreadyInitialized && old(self).is_initialized(),
            },
    {
        if self.admin.is_some() {
            return Err(Error::AlreadyInitialized);
        }
        self.admin = Some(admin);
        Ok(())
    }

    fn replay_used(&self, hash: &[u8; 32], now: u64) -> (r: bool)
        ensures
            r == spec_replay_used(self.replays@, hash@, now),
    {
        let mut i: usize = 0;
        while i < self.replays.len()
            invariant
                i <= self.replays@.len(),
                forall|j: int|
                    0 <= j < i ==> !(#[trigger] self.replays@[j].hash@ == hash@ && elapsed_since(
                        now,
                        self.replays@[j].recorded_at,
                    ) < REPLAY_WINDOW_S),
            decreases self.replays@.len() - i,
        {
            let m = &self.replays[i];
            if bytes32_eq(&m.hash, hash) {
                let age: u64 = if now >= m.recorded_at {
                    now - m.recorded_at
                } else {
                    0
                };
                if age < REPLAY_WINDOW_S {
                    return true;
                }
            }
            i = i + 1;
        }
        false
    }

    /// The admin address.
    pub fn get_admin(&self) -> (r: Address)
        requires
            self.is_initialized(),
        ensures
            r == self.spec_admin(),
    {
        match self.admin {
            Some(a) => a,
            None => 0,
        }
    }

    /// Submits a puzzle completion time. The submission must pass the
    /// plausibility window, the per-player rate limit, and the replay
    /// defense; it then enters the scope's three boards (clearing a daily
    /// or weekly board whose window has elapsed first) and becomes the
    /// scope's best record if it beats it.
    pub fn submit_time(
        &mut self,
        player: Address,
        puzzle_id: u32,
        completion_time_ms: u64,
        replay_hash: [u8; 32],
        now: u64,
    ) -> (r: Result<(), Error>)
        requires
            old(self).wf(),
        ensures
            final(self).wf(),
            final(self).admin == old(self).admin,
            match r {
                Ok(()) => {
                    let key = spec_scope_key(spec_scope_for(puzzle_id));
                    let rec = TimeRecord { player, completion_time_ms, timestamp: now, replay_hash };
                    let d0 = spec_reset_one(
                        old(self).spec_daily(key),
                        old(self).spec_marker_daily(key),
                        DAILY_SECONDS,
                        now,
                    );
                    let w0 = spec_reset_one(
                        old(self).spec_weekly(key),
                        old(self).spec_marker_weekly(key),
                        WEEKLY_SECONDS,
                        now,
                    );
                    &&& old(self).is_initialized()
                    &&& MIN_REASONABLE_TIME_MS <= completion_time_ms <= MAX_REASONABLE_TIME_MS
                    &&& !(old(self).last_submit@.contains_key(player) && elapsed_since(
                        now,
                        old(self).last_submit@[player],
                    ) < MIN_SUBMIT_INTERVAL_S)
                    &&& !spec_replay_used(old(self).replays@, replay_hash@, now)
                    &&& final(self).spec_daily(key) == spec_insert_time(d0.0, rec)
                    &&& final(self).spec_weekly(key) == spec_insert_time(w0.0, rec)
                    &&& final(self).spec_alltime(key) == spec_insert_time(
                        old(self).spec_alltime(key),
                        rec,
                    )
                    &&& final(self).spec_marker_daily(key) == d0.1
                    &&& final(self).spec_marker_weekly(key) == w0.1
                    &&& final(self).spec_best(key) == (match old(self).spec_best(key) {
                        None => Some(rec),
                        Some(b) => if rec.completion_time_ms < b.completion_time_ms {
                            Some(rec)
                        } else {
                            Some(b)
                        },
                    })
                    &&& forall|k2: u32|
                        k2 != key && old(self).scopes@.contains_key(k2) ==> final(self).scopes@.contains_key(k2) && final(self).scopes@[k2] == old(self).scopes@[k2]
                    &&& forall|k2: u32|
                        k2 != key && !old(self).scopes@.contains_key(k2) ==> !final(self).scopes@.contains_key(k2)
                    &&& final(self).last_submit@ == old(self).last_submit@.insert(player, now)
                    &&& final(self).replays@ == spec_prune(old(self).replays@, now).push(
                        ReplayMark { hash: replay_hash, recorded_at: now },
                    )
                },
                Err(e) => *final(self) == *old(self) && match e {
                    Error::ContractNotInitialized => !old(self).is_initialized(),
                    Error::InvalidTime => old(self).is_initialized() && !(MIN_REASONABLE_TIME_MS
                        <= completion_time_ms <= MAX_REASONABLE_TIME_MS),
                    Error::TooFrequent => old(self).is_initialized() && MIN_REASONABLE_TIME_MS
                        <= completion_time_ms <= MAX_REASONABLE_TIME_MS && old(self).last_submit@.contains_key(player) && elapsed_since(
                        now,
                        old(self).last_submit@[player],
                    ) < MIN_SUBMIT_INTERVAL_S,
                    Error::DuplicateReplay => old(self).is_initialized() && MIN_REASONABLE_TIME_MS
                        <= completion_time_ms <= MAX_REASONABLE_TIME_MS && !(old(self).last_submit@.contains_key(player) && elapsed_since(
                        now,
                        old(self).last_submit@[player],
                    ) < MIN_SUBMIT_INTERVAL_S) && spec_replay_used(
                        old(self).replays@,
                        replay_hash@,
                        now,
                    ),
                    _ => false,
                },
            },
    {
        if self.admin.is_none() {
            return Err(Error::ContractNotInitialized);
        }
        if completion_time_ms < MIN_REASONABLE_TIME_MS || completion_time_ms
            > MAX_REASONABLE_TIME_MS {
            return Err(Error::InvalidTime);
        }
        let last: Option<u64> = match self.last_submit.get(&player) {
            Some(t) => Some(*t),
            None => None,
        };
        match last {
            Some(t) => {
                let age: u64 = if now >= t {
                    now - t
                } else {
                    0
                };
                if age < MIN_SUBMIT_INTERVAL_S {
                    return Err(Error::TooFrequent);
                }
            },
            None => {},
        }
        if self.replay_used(&replay_hash, now) {
            return Err(Error::DuplicateReplay);
        }
        let scope = if puzzle_id == 0 {
            Scope::Global
        } else {
            Scope::Puzzle(puzzle_id)
        };
        let key: u32 = match scope {
            Scope::Global => 0,
            Scope::Puzzle(id) => id,
        };
        let rec = TimeRecord { player, completion_time_ms, timestamp: now, replay_hash };
        let mut sb: ScopeBoards = match self.scopes.remove(&key) {
            Some(x) => x,
            None => ScopeBoards {
                daily: Vec::new(),
                weekly: Vec::new(),
                alltime: Vec::new(),
                best: None,
                last_reset_daily: None,
                last_reset_weekly: None,
            },
        };
        match sb.last_reset_daily {
            None => {
                sb.last_reset_daily = Some(now);
            },
            Some(t) => {
                let age: u64 = if now >= t {
                    now - t
                } else {
                    0
                };
                if age >= DAILY_SECONDS {
                    sb.daily = Vec::new();
                    sb.last_reset_daily = Some(now);
                }
            },
        }
        match sb.last_reset_weekly {
            None => {
                sb.last_reset_weekly = Some(now);
            },
            Some(t) => {
                let age: u64 = if now >= t {
                    now - t
                } else {
                    0
                };
                if age >= WEEKLY_SECONDS {
                    sb.weekly = Vec::new();
                    sb.last_reset_weekly = Some(now);
                }
            },
        }
        let a = insert_time(&sb.alltime, rec);
        sb.alltime = a;
        let d = insert_time(&sb.daily, rec);
        sb.daily = d;
        let w = insert_time(&sb.weekly, rec);
        sb.weekly = w;
        let beats = match &sb.best {
            None => true,
            Some(b) => rec.completion_time_ms < b.completion_time_ms,
        };
        if beats {
            sb.best = Some(rec);
        }
        self.scopes.insert(key, sb);
        self.last_submit.insert(player, now);
        let ghost r0 = self.replays@;
        let mut kept: Vec<ReplayMark> = Vec::new();
        let mut i: usize = 0;
        while i < self.replays.len()
            invariant
                i <= r0.len(),
                self.replays@ == r0,
                spec_prune_from(r0, 0, now) == kept@ + spec_prune_from(r0, i as int, now),
            decreases r0.len() - i,
        {
            let ghost pre = kept@;
            let m = self.replays[i];
            let age: u64 = if now >= m.recorded_at {
                now - m.recorded_at
            } else {
                0
            };
            if age < REPLAY_WINDOW_S {
                kept.push(m);
                proof {
                    assert(seq![r0[i as int]] + spec_prune_from(r0, i as int + 1, now)
                        == spec_prune_from(r0, i as int, now));
                    assert(pre + (seq![r0[i as int]] + spec_prune_from(r0, i as int + 1, now))
                        =~= kept@ + spec_prune_from(r0, i as int + 1, now));
                }
            }
            i = i + 1;
        }
        proof {
            assert(spec_prune_from(r0, r0.len() as int, now) =~= Seq::<ReplayMark>::empty());
            assert(kept@ + spec_prune_from(r0, r0.len() as int, now) =~= kept@);
        }
        self.replays = kept;
        self.replays.push(ReplayMark { hash: replay_hash, recorded_at: now });
        Ok(())
    }

    /// The scope's all-time best (fastest) record, if any.
    pub fn get_best_time(&self, puzzle_id: u32) -> (r: Option<TimeRecord>)
        ensures
            r == self.spec_best(spec_scope_key(spec_scope_for(puzzle_id))),
    {
        let key: u32 = puzzle_id;
        match self.scopes.get(&key) {
            Some(sb) => sb.best,
            None => None,
        }
    }

    /// The scope's board for a window, fastest first. The board is
    /// returned as stored: an elapsed daily or weekly window is only
    /// cleared by the next submission in the scope.
    pub fn get_leaderboard(&self, puzzle_id: u32, period: TimePeriod) -> (r: Vec<TimeRecord>)
        ensures
            r@ == match period {
                TimePeriod::Daily => self.spec_daily(spec_scope_key(spec_scope_for(puzzle_id))),
                TimePeriod::Weekly => self.spec_weekly(spec_scope_key(spec_scope_for(puzzle_id))),
                TimePeriod::AllTime => self.spec_alltime(spec_scope_key(spec_scope_for(puzzle_id))),
            },
    {
        let key: u32 = puzzle_id;
        let mut out: Vec<TimeRecord> = Vec::new();
        match self.scopes.get(&key) {
            Some(sb) => {
                let board: &Vec<TimeRecord> = match period {
                    TimePeriod::Daily => &sb.daily,
                    TimePeriod::Weekly => &sb.weekly,
                    TimePeriod::AllTime => &sb.alltime,
                };
                let mut i: usize = 0;
                while i < board.len()
                    invariant
                        i <= board@.len(),
                        out@ == board@.take(i as int),
                    decreases board@.len() - i,
                {
                    out.push(board[i]);
                    proof {
                        assert(board@.take(i as int).push(board@[i as int]) =~= board@.take(
                            i as int + 1,
                        ));
                    }
                    i = i + 1;
                }
                proof {
                    assert(board@.take(board@.len() as int) =~= board@);
                }
                out
            },
            None => out,
        }
    }

    /// Pure mapping from a completion time to its difficulty bracket.
    pub fn get_time_bracket(completion_time_ms: u64) -> (r: TimeBracket)
        ensures
            r == Self::spec_time_bracket(completion_time_ms),
    {
        Self::time_to_bracket(completion_time_ms)
    }

    /// The bracket boundaries: five-minute steps up to expert.
    pub open spec fn spec_time_bracket(completion_time_ms: u64) -> TimeBracket {
        if completion_time_ms <= 300_000 {
            TimeBracket::Beginner
        } else if completion_time_ms <= 600_000 {
            TimeBracket::Intermediate
        } else if completion_time_ms <= 900_000 {
            TimeBracket::Advanced
        } else {
            TimeBracket::Expert
        }
    }

    /// Maps a completion time to its bracket.
    pub fn time_to_bracket(completion_time_ms: u64) -> (r: TimeBracket)
        ensures
            r == Self::spec_time_bracket(completion_time_ms),
    {
        if completion_time_ms <= 300_000 {
            TimeBracket::Beginner
        } else if completion_time_ms <= 600_000 {
            TimeBracket::Intermediate
        } else if completion_time_ms <= 900_000 {
            TimeBracket::Advanced
        } else {
            TimeBracket::Expert
        }
    }
}

} // verus!
