//! Score leaderboards over daily, weekly and all-time windows. Scores
//! accumulate per player inside the active time bucket; each window keeps
//! a descending-sorted top list of bounded capacity, evicting the worst
//! entry on overflow. Daily and weekly windows are bucketed by
//! `timestamp / period_length`; a bucket change starts a fresh window
//! (the host clock is monotonically non-decreasing).
use vstd::prelude::*;
use vstd::hash_map::HashMapWithView;
use crate::Address;

verus! {

/// The aggregation window of a board.
#[derive(Clone, Copy, Debug, PartialEq, Eq, Structural)]
pub enum TimePeriod {
    Daily,
    Weekly,
    AllTime,
}

/// Failure conditions of the leaderboard entry points.
#[derive(Clone, Copy, Debug, PartialEq, Eq, Structural)]
pub enum Error {
    AlreadyInitialized,
    NotInitialized,
    Unauthorized,
    ContractPaused,
    InvalidAmount,
}

/// Leaderboard parameters.
#[derive(Clone, Copy, Debug, PartialEq, Eq, Structural)]
pub struct LeaderboardConfig {
    pub admin: Address,
    /// Capacity of each top list.
    pub max_top_entries: u32,
    pub daily_period_length: u64,
    pub weekly_period_length: u64,
    pub paused: bool,
}

/// One player's score entry within a window bucket.
#[derive(Clone, Copy, Debug, PartialEq, Eq, Structural)]
pub struct PlayerScore {
    pub player: Address,
    pub score: i128,
    pub timestamp: u64,
    pub period: TimePeriod,
    pub period_id: u64,
}

/// Scores in `s` are in non-increasing order.
pub open spec fn sorted_desc(s: Seq<PlayerScore>) -> bool {
    forall|i: int, j: int| 0 <= i < j < s.len() ==> s[i].score >= s[j].score
}

/// No player appears twice in `s`.
pub open spec fn unique_players(s: Seq<PlayerScore>) -> bool {
    forall|i: int, j: int| 0 <= i < j < s.len() ==> s[i].player != s[j].player
}

/// `s[i..]` with every entry of `player` removed, keeping the order.
pub open spec fn remove_from(s: Seq<PlayerScore>, i: int, player: Address) -> Seq<PlayerScore>
    decreases s.len() - i,
{
    if i < 0 || i >= s.len() {
        Seq::empty()
    } else if s[i].player == player {
        remove_from(s, i + 1, player)
    } else {
        seq![s[i]] + remove_from(s, i + 1, player)
    }
}

/// First position at or after `i` whose score is strictly below `score`;
/// the length when there is none. In a descending list this is where an
/// entry of that score goes, after any equal scores already present.
pub open spec fn insert_pos_from(s: Seq<PlayerScore>, i: int, score: i128) -> int
    decreases s.len() - i,
{
    if i < 0 || i >= s.len() {
        s.len() as int
    } else if s[i].score < score {
        i
    } else {
        insert_pos_from(s, i + 1, score)
    }
}

/// The top list after admitting `entry`: any previous entry of the same
/// player is dropped, the entry goes into its sorted position (after
/// equal scores), and the list is cut back to `max` entries, evicting
/// from the tail.
pub open spec fn spec_insert_top(s: Seq<PlayerScore>, entry: PlayerScore, max: int) -> Seq<
    PlayerScore,
> {
    let s2 = remove_from(s, 0, entry.player);
    let k = insert_pos_from(s2, 0, entry.score);
    let combined = s2.take(k) + seq![entry] + s2.skip(k);
    if combined.len() <= max {
        combined
    } else {
        combined.take(max)
    }
}

/// Removal keeps the order and the remaining players, drops exactly the
/// given player, and never grows the list.
proof fn lemma_remove_from(s: Seq<PlayerScore>, i: int, player: Address)
    requires
        sorted_desc(s),
        unique_players(s),
        0 <= i <= s.len(),
    ensures
        ({
            let r = remove_from(s, i, player);
            &&& r.len() <= s.len() - i
            &&& sorted_desc(r)
            &&& unique_players(r)
            &&& forall|m: int| 0 <= m < r.len() ==> r[m].player != player
            &&& forall|m: int|
                0 <= m < r.len() ==> exists|j: int| i <= j < s.len() && s[j] == #[trigger] r[m]
            &&& forall|m: int|
                0 <= m < r.len() && i < s.len() ==> #[trigger] r[m].score <= s[i].score
        }),
    decreases s.len() - i,
{
    if 0 <= i < s.len() {
        lemma_remove_from(s, i + 1, player);
        let r1 = remove_from(s, i + 1, player);
        if s[i].player == player {
            assert forall|m: int| 0 <= m < r1.len() && i < s.len() implies #[trigger] r1[m].score
                <= s[i].score by {
                if i + 1 < s.len() {
                    assert(r1[m].score <= s[i + 1].score);
                }
            }
            assert forall|m: int| 0 <= m < r1.len() implies exists|j: int|
                i <= j < s.len() && s[j] == #[trigger] r1[m] by {
                let j = choose|j: int| i + 1 <= j < s.len() && s[j] == r1[m];
                assert(i <= j < s.len() && s[j] == r1[m]);
            }
        } else {
            let r = seq![s[i]] + r1;
            assert(r[0] == s[i]);
            assert(forall|m: int| 1 <= m < r.len() ==> r[m] == r1[m - 1]);
            assert forall|m: int| 0 <= m < r.len() && i < s.len() implies #[trigger] r[m].score
                <= s[i].score by {
                if m >= 1 {
                    if i + 1 < s.len() {
                        assert(r1[m - 1].score <= s[i + 1].score);
                        assert(s[i + 1].score <= s[i].score);
                    } else {
                        assert(r1.len() == 0);
                    }
                }
            }
            assert forall|m: int| 0 <= m < r.len() implies exists|j: int|
                i <= j < s.len() && s[j] == #[trigger] r[m] by {
                if m == 0 {
                    assert(s[i] == r[0]);
                } else {
                    let j = choose|j: int| i + 1 <= j < s.len() && s[j] == r1[m - 1];
                    assert(i <= j < s.len() && s[j] == r[m]);
                }
            }
            assert forall|m: int, n: int| 0 <= m < n < r.len() implies r[m].score >= r[n].score by {
                if m >= 1 {
                    assert(r1[m - 1].score >= r1[n - 1].score);
                } else {
                    if i + 1 < s.len() {
                        assert(r1[n - 1].score <= s[i + 1].score);
                        assert(s[i + 1].score <= s[i].score);
                    } else {
                        assert(r1.len() == 0);
                    }
                }
            }
            assert forall|m: int, n: int| 0 <= m < n < r.len() implies r[m].player
                != r[n].player by {
                if m >= 1 {
                    assert(r1[m - 1].player != r1[n - 1].player);
                } else {
                    let j = choose|j: int| i + 1 <= j < s.len() && s[j] == r1[n - 1];
                    assert(s[i].player != s[j].player);
                }
            }
        }
    }
}

/// The insertion position splits the list into scores at or above the
/// new one and scores strictly below it.
proof fn lemma_insert_pos(s: Seq<PlayerScore>, i: int, score: i128)
    requires
        sorted_desc(s),
        0 <= i <= s.len(),
    ensures
        ({
            let k = insert_pos_from(s, i, score);
            &&& i <= k <= s.len()
            &&& forall|j: int| i <= j < k ==> s[j].score >= score
            &&& k < s.len() ==> s[k].score < score
        }),
    decreases s.len() - i,
{
    if 0 <= i < s.len() && s[i].score >= score {
        lemma_insert_pos(s, i + 1, score);
    }
}

/// Admitting an entry keeps the list sorted, keeps players unique, and
/// never exceeds the capacity. This is the bounded-sorted-collection law:
/// it holds after every insertion, whatever the list held before.
pub proof fn lemma_insert_top_props(s: Seq<PlayerScore>, entry: PlayerScore, max: int)
    requires
        sorted_desc(s),
        unique_players(s),
        max >= 0,
    ensures
        ({
            let r = spec_insert_top(s, entry, max);
            &&& sorted_desc(r)
            &&& unique_players(r)
            &&& r.len() <= max
        }),
{
    lemma_remove_from(s, 0, entry.player);
    let s2 = remove_from(s, 0, entry.player);
    lemma_insert_pos(s2, 0, entry.score);
    let k = insert_pos_from(s2, 0, entry.score);
    let combined = s2.take(k) + seq![entry] + s2.skip(k);
    assert(forall|m: int| 0 <= m < k ==> combined[m] == s2[m]);
    assert(combined[k] == entry);
    assert(forall|m: int| k < m < combined.len() ==> combined[m] == s2[m - 1]);
    assert forall|m: int, n: int| 0 <= m < n < combined.len() implies combined[m].score
        >= combined[n].score by {
        if m < k && n == k {
            assert(s2[m].score >= entry.score);
        } else if m == k && n > k {
            assert(s2[n - 1].score < entry.score);
        } else if m < k && n > k {
            assert(s2[m].score >= entry.score);
            assert(s2[n - 1].score < entry.score);
        }
    }
    assert forall|m: int, n: int| 0 <= m < n < combined.len() implies combined[m].player
        != combined[n].player by {
        if n == k {
            assert(s2[m].player != entry.player);
        } else if m == k {
            assert(s2[n - 1].player != entry.player);
        } else if m < k && n > k {
            assert(s2[m].player != s2[n - 1].player);
        }
    }
    let r = spec_insert_top(s, entry, max);
    if combined.len() > max {
        assert(forall|m: int| 0 <= m < r.len() ==> r[m] == combined[m]);
    }
}

/// Builds the top list with `entry` admitted; the returned vector is
/// exactly the specified insertion.
fn insert_top(top: &Vec<PlayerScore>, entry: PlayerScore, max: u32) -> (r: Vec<PlayerScore>)
    requires
        sorted_desc(top@),
        unique_players(top@),
    ensures
        r@ == spec_insert_top(top@, entry, max as int),
        sorted_desc(r@),
        unique_players(r@),
        r@.len() <= max,
{
    proof {
        lemma_remove_from(top@, 0, entry.player);
        lemma_insert_top_props(top@, entry, max as int);
    }
    let ghost s = top@;
    let mut kept: Vec<PlayerScore> = Vec::new();
    let mut i: usize = 0;
    while i < top.len()
        invariant
            i <= s.len(),
            top@ == s,
            remove_from(s, 0, entry.player) == kept@ + remove_from(s, i as int, entry.player),
        decreases s.len() - i,
    {
        let ghost pre = kept@;
        if top[i].player != entry.player {
            kept.push(top[i]);
            proof {
                assert(seq![s[i as int]] + remove_from(s, i as int + 1, entry.player) == remove_from(
                    s,
                    i as int,
                    entry.player,
                ));
                assert(pre + (seq![s[i as int]] + remove_from(s, i as int + 1, entry.player))
                    =~= kept@ + remove_from(s, i as int + 1, entry.player));
            }
        }
        i = i + 1;
    }
    proof {
        assert(remove_from(s, s.len() as int, entry.player) =~= Seq::<PlayerScore>::empty());
        assert(kept@ + remove_from(s, s.len() as int, entry.player) =~= kept@);
    }
    let ghost s2 = remove_from(s, 0, entry.player);
    let mut k: usize = 0;
    while k < kept.len() && kept[k].score >= entry.score
        invariant
            0 <= k <= kept@.len(),
            kept@ == s2,
            insert_pos_from(s2, 0, entry.score) == insert_pos_from(s2, k as int, entry.score),
        decreases kept@.len() - k,
    {
        k = k + 1;
    }
    proof {
        assert(insert_pos_from(s2, 0, entry.score) == k as int);
    }
    let mut out: Vec<PlayerScore> = Vec::new();
    let ghost combined = s2.take(k as int) + seq![entry] + s2.skip(k as int);
    let mut i2: usize = 0;
    while i2 < k
        invariant
            i2 <= k <= kept@.len(),
            kept@ == s2,
            out@.len() <= i2,
            combined == s2.take(k as int) + seq![entry] + s2.skip(k as int),
            out@ == if i2 <= max {
                combined.take(i2 as int)
            } else {
                combined.take(max as int)
            },
        decreases k - i2,
    {
        if out.len() < max as usize {
            out.push(kept[i2]);
            proof {
                assert(combined[i2 as int] == s2[i2 as int]);
                assert(combined.take(i2 as int).push(s2[i2 as int]) =~= combined.take(i2 as int + 1));
            }
        }
        i2 = i2 + 1;
    }
    if out.len() < max as usize {
        out.push(entry);
        proof {
            assert(combined[k as int] == entry);
            assert(combined.take(k as int).push(entry) =~= combined.take(k as int + 1));
        }
    }
    let mut i3: usize = k;
    while i3 < kept.len()
        invariant
            k <= i3 <= kept@.len(),
            kept@ == s2,
            combined == s2.take(k as int) + seq![entry] + s2.skip(k as int),
            out@ == if i3 + 1 <= max {
                combined.take(i3 as int + 1)
            } else {
                combined.take(max as int)
            },
        decreases kept@.len() - i3,
    {
        if out.len() < max as usize {
            out.push(kept[i3]);
            proof {
                assert(combined[i3 as int + 1] == s2[i3 as int]);
                assert(combined.take(i3 as int + 1).push(s2[i3 as int]) =~= combined.take(
                    i3 as int + 2,
                ));
            }
        }
        i3 = i3 + 1;
    }
    proof {
        if combined.len() <= max as int {
            assert(combined.take(combined.len() as int) =~= combined);
        }
        assert(out@ =~= spec_insert_top(s, entry, max as int));
    }
    out
}

/// One window's aggregation state: the bucket it belongs to, each
/// player's cumulative score within it, and the bounded top list.
pub struct PeriodBoard {
    pub period_id: u64,
    pub scores: HashMapWithView<Address, PlayerScore>,
    pub top: Vec<PlayerScore>,
}

/// Well-formedness of one window: the top list is descending, holds each
/// player at most once and fits a `u32` count, and no stored score is
/// negative.
pub open spec fn board_wf(b: &PeriodBoard) -> bool {
    &&& sorted_desc(b.top@)
    &&& unique_players(b.top@)
    &&& b.top@.len() <= u32::MAX
    &&& forall|a: Address| #[trigger] b.scores@.contains_key(a) ==> b.scores@[a].score >= 0
}

/// The bucket index a timestamp falls into for a window.
pub open spec fn spec_period_id(period: TimePeriod, c: LeaderboardConfig, now: u64) -> int {
    match period {
        TimePeriod::Daily => (now as int) / (c.daily_period_length as int),
        TimePeriod::Weekly => (now as int) / (c.weekly_period_length as int),
        TimePeriod::AllTime => 0,
    }
}

/// The player's cumulative score in the window, counting a stale bucket
/// (one whose id differs from the current bucket) as zero.
pub open spec fn spec_bucket_score(b: &PeriodBoard, player: Address, pid: int) -> int {
    if b.period_id == pid && b.scores@.contains_key(player) {
        b.scores@[player].score as int
    } else {
        0
    }
}

/// 1-indexed position of `player` in `s[i..]`; 0 when absent. The 0
/// answer is deliberately shared with "not in the top list".
pub open spec fn rank_from(s: Seq<PlayerScore>, i: int, p: Address) -> int
    decreases s.len() - i,
{
    if i < 0 || i >= s.len() {
        0
    } else if s[i].player == p {
        i + 1
    } else {
        rank_from(s, i + 1, p)
    }
}

proof fn lemma_rank_from_skip_to(s: Seq<PlayerScore>, k: int, i: int, p: Address)
    requires
        0 <= k <= i <= s.len(),
        forall|j: int| k <= j < i ==> s[j].player != p,
    ensures
        rank_from(s, k, p) == rank_from(s, i, p),
    decreases i - k,
{
    if k < i {
        lemma_rank_from_skip_to(s, k + 1, i, p);
    }
}

/// Applies one score event to a window: a stale bucket is reset first;
/// then the player's entry is set to `score` (replacing) or raised by it
/// (accumulating), and admitted to the top list.
fn apply_score(
    b: &mut PeriodBoard,
    player: Address,
    score: i128,
    accumulate: bool,
    period: TimePeriod,
    pid: u64,
    now: u64,
    max: u32,
) -> (cum: i128)
    requires
        board_wf(old(b)),
        score >= 0,
        accumulate ==> spec_bucket_score(old(b), player, pid as int) + score <= i128::MAX,
    ensures
        board_wf(final(b)),
        ({
            let eff = if accumulate {
                spec_bucket_score(old(b), player, pid as int)
            } else {
                0int
            };
            let entry = PlayerScore {
                player,
                score: (eff + score) as i128,
                timestamp: now,
                period,
                period_id: pid,
            };
            &&& cum as int == eff + score
            &&& final(b).period_id == pid
            &&& final(b).scores@ == (if old(b).period_id == pid {
                old(b).scores@
            } else {
                Map::<Address, PlayerScore>::empty()
            }).insert(player, entry)
            &&& final(b).top@ == spec_insert_top(
                if old(b).period_id == pid {
                    old(b).top@
                } else {
                    Seq::<PlayerScore>::empty()
                },
                entry,
                max as int,
            )
            &&& final(b).top@.len() <= max
        }),
{
    if b.period_id != pid {
        b.scores.clear();
        b.top = Vec::new();
        b.period_id = pid;
    }
    let eff: i128 = if accumulate {
        match b.scores.get(&player) {
            Some(e) => e.score,
            None => 0,
        }
    } else {
        0
    };
    let cum = eff + score;
    let entry = PlayerScore { player, score: cum, timestamp: now, period, period_id: pid };
    b.scores.insert(player, entry);
    let t = insert_top(&b.top, entry, max);
    b.top = t;
    proof {
        assert forall|a: Address| #[trigger] b.scores@.contains_key(a) implies b.scores@[a].score
            >= 0 by {
            if a != player {
                assert(old(b).period_id == pid && old(b).scores@.contains_key(a));
            }
        }
    }
    cum
}

/// The leaderboard contract's entire state.
///
/// The host authenticates callers and passes the ledger timestamp as
/// `now`.
pub struct LeaderboardContract {
    /// `None` until `initialize` has run.
    pub config: Option<LeaderboardConfig>,
    pub daily: PeriodBoard,
    pub weekly: PeriodBoard,
    pub alltime: PeriodBoard,
    /// Cumulative lifetime score per player, across all buckets.
    pub all_time_totals: HashMapWithView<Address, i128>,
    pub total_players: u32,
    /// Record high bucket-cumulative score seen per window kind.
    pub high_daily: i128,
    pub high_weekly: i128,
    pub high_alltime: i128,
    /// Addresses allowed to submit scores besides the admin.
    pub verifiers: HashMapWithView<Address, bool>,
}

impl LeaderboardContract {
    /// Well-formedness: each window is well-formed, the all-time window
    /// is bucket 0, configured lengths and capacity are positive, and
    /// lifetime totals and records are non-negative.
    pub open spec fn wf(&self) -> bool {
        &&& board_wf(&self.daily)
        &&& board_wf(&self.weekly)
        &&& board_wf(&self.alltime)
        &&& self.alltime.period_id == 0
        &&& match self.config {
            Some(c) => c.daily_period_length > 0 && c.weekly_period_length > 0
                && c.max_top_entries > 0,
            None => true,
        }
        &&& forall|a: Address|
            #[trigger] self.all_time_totals@.contains_key(a) ==> self.all_time_totals@[a] >= 0
        &&& self.high_daily >= 0
        &&& self.high_weekly >= 0
        &&& self.high_alltime >= 0
    }

    pub open spec fn is_initialized(&self) -> bool {
        self.config is Some
    }

    pub open spec fn spec_config(&self) -> LeaderboardConfig {
        match self.config {
            Some(c) => c,
            None => arbitrary(),
        }
    }

    /// The player's lifetime cumulative score.
    pub open spec fn spec_all_time_total(&self, player: Address) -> int {
        if self.all_time_totals@.contains_key(player) {
            self.all_time_totals@[player] as int
        } else {
            0
        }
    }

    pub open spec fn spec_is_verifier(&self, a: Address) -> bool {
        self.verifiers@.contains_key(a) && self.verifiers@[a]
    }

    /// Whether `submitter` may submit scores: the admin always, and any
    /// registered verifier.
    pub open spec fn spec_authorized_submitter(&self, submitter: Address) -> bool {
        submitter == self.spec_config().admin || self.spec_is_verifier(submitter)
    }

    /// The machine-range conditions for one submission: the cumulative
    /// counters it raises stay within `i128`.
    pub open spec fn submit_fits(&self, player: Address, score: i128, now: u64) -> bool {
        match self.config {
            Some(c) => {
                &&& spec_bucket_score(
                    &self.daily,
                    player,
                    spec_period_id(TimePeriod::Daily, c, now),
                ) + score <= i128::MAX
                &&& spec_bucket_score(
                    &self.weekly,
                    player,
                    spec_period_id(TimePeriod::Weekly, c, now),
                ) + score <= i128::MAX
                &&& spec_bucket_score(&self.alltime, player, 0) + score <= i128::MAX
                &&& self.spec_all_time_total(player) + score <= i128::MAX
            },
            None => true,
        }
    }

    /// The empty, uninitialized contract state.
    pub fn new() -> (t: Self)
        ensures
            t.wf(),
            !t.is_initialized(),
            t.daily.scores@ == Map::<Address, PlayerScore>::empty(),
            t.weekly.scores@ == Map::<Address, PlayerScore>::empty(),
            t.alltime.scores@ == Map::<Address, PlayerScore>::empty(),
            t.daily.top@.len() == 0,
            t.weekly.top@.len() == 0,
            t.alltime.top@.len() == 0,
            t.all_time_totals@ == Map::<Address, i128>::empty(),
            t.verifiers@ == Map::<Address, bool>::empty(),
            t.total_players == 0,
            t.high_daily == 0 && t.high_weekly == 0 && t.high_alltime == 0,
    {
        LeaderboardContract {
            config: None,
            daily: PeriodBoard { period_id: 0, scores: HashMapWithView::new(), top: Vec::new() },
            weekly: PeriodBoard { period_id: 0, scores: HashMapWithView::new(), top: Vec::new() },
            alltime: PeriodBoard { period_id: 0, scores: HashMapWithView::new(), top: Vec::new() },
            all_time_totals: HashMapWithView::new(),
            total_players: 0,
            high_daily: 0,
            high_weekly: 0,
            high_alltime: 0,
            verifiers: HashMapWithView::new(),
        }
    }

    /// Records the configuration; a zero capacity selects the standard
    /// top-100. Fails once a previous call has succeeded.
    pub fn initialize(&mut self, admin: Address, max_top_entries: u32) -> (r: Result<(), Error>)
        requires
            old(self).wf(),
        ensures
            final(self).wf(),
            final(self).daily == old(self).daily,
            final(self).weekly == old(self).weekly,
            final(self).alltime == old(self).alltime,
            final(self).all_time_totals@ == old(self).all_time_totals@,
            final(self).total_players == old(self).total_players,
            final(self).verifiers@ == old(self).verifiers@,
            match r {
                Ok(()) => !old(self).is_initialized() && final(self).config == Some(
                    LeaderboardConfig {
                        admin,
                        max_top_entries: if max_top_entries == 0 {
                            100
                        } else {
                            max_top_entries
                        },
                        daily_period_length: 86_400,
                        weekly_period_length: 604_800,
                        paused: false,
                    },
                ),
                Err(e) => *final(self) == *old(self) && e == Error::AlreadyInitialized && old(self).is_initialized(),
            },
    {
        if self.config.is_some() {
            return Err(Error::AlreadyInitialized);
        }
        let max_entries = if max_top_entries == 0 {
            100
        } else {
            max_top_entries
        };
        self.config = Some(
            LeaderboardConfig {
                admin,
                max_top_entries: max_entries,
                daily_period_length: 86_400,
                weekly_period_length: 604_800,
                paused: false,
            },
        );
        Ok(())
    }

    /// Registers an authorized score verifier (admin only).
    pub fn add_verifier(&mut self, admin: Address, verifier: Address) -> (r: Result<(), Error>)
        requires
            old(self).wf(),
        ensures
            final(self).wf(),
            final(self).config == old(self).config,
            final(self).daily == old(self).daily,
            final(self).weekly == old(self).weekly,
            final(self).alltime == old(self).alltime,
            final(self).all_time_totals@ == old(self).all_time_totals@,
            final(self).total_players == old(self).total_players,
            match r {
                Ok(()) => old(self).is_initialized() && admin == old(self).spec_config().admin
                    && final(self).verifiers@ == old(self).verifiers@.insert(verifier, true),
                Err(e) => *final(self) == *old(self) && match e {
                    Error::NotInitialized => !old(self).is_initialized(),
                    Error::Unauthorized => old(self).is_initialized() && admin != old(self).spec_config().admin,
                    _ => false,
                },
            },
    {
        let c = match self.config {
            Some(c) => c,
            None => { return Err(Error::NotInitialized) },
        };
        if admin != c.admin {
            return Err(Error::Unauthorized);
        }
        self.verifiers.insert(verifier, true);
        Ok(())
    }

    /// Withdraws a verifier registration (admin only).
    pub fn remove_verifier(&mut self, admin: Address, verifier: Address) -> (r: Result<(), Error>)
        requires
            old(self).wf(),
        ensures
            final(self).wf(),
            final(self).config == old(self).config,
            final(self).daily == old(self).daily,
            final(self).weekly == old(self).weekly,
            final(self).alltime == old(self).alltime,
            final(self).all_time_totals@ == old(self).all_time_totals@,
            final(self).total_players == old(self).total_players,
            match r {
                Ok(()) => old(self).is_initialized() && admin == old(self).spec_config().admin
                    && final(self).verifiers@ == old(self).verifiers@.remove(verifier),
                Err(e) => *final(self) == *old(self) && match e {
                    Error::NotInitialized => !old(self).is_initialized(),
                    Error::Unauthorized => old(self).is_initialized() && admin != old(self).spec_config().admin,
                    _ => false,
                },
            },
    {
        let c = match self.config {
            Some(c) => c,
            None => { return Err(Error::NotInitialized) },
        };
        if admin != c.admin {
            return Err(Error::Unauthorized);
        }
        self.verifiers.remove(&verifier);
        Ok(())
    }

    /// Pauses or resumes score submission (admin only).
    pub fn set_paused(&mut self, admin: Address, paused: bool) -> (r: Result<(), Error>)
        requires
            old(self).wf(),
        ensures
            final(self).wf(),
            final(self).daily == old(self).daily,
            final(self).weekly == old(self).weekly,
            final(self).alltime == old(self).alltime,
            final(self).all_time_totals@ == old(self).all_time_totals@,
            final(self).total_players == old(self).total_players,
            final(self).verifiers@ == old(self).verifiers@,
            match r {
                Ok(()) => old(self).is_initialized() && admin == old(self).spec_config().admin
                    && final(self).config == Some(
                    LeaderboardConfig { paused, ..old(self).spec_config() },
                ),
                Err(e) => *final(self) == *old(self) && match e {
                    Error::NotInitialized => !old(self).is_initialized(),
                    Error::Unauthorized => old(self).is_initialized() && admin != old(self).spec_config().admin,
                    _ => false,
                },
            },
    {
        let c = match self.config {
            Some(c) => c,
            None => { return Err(Error::NotInitialized) },
        };
        if admin != c.admin {
            return Err(Error::Unauthorized);
        }
        self.config = Some(LeaderboardConfig { paused, ..c });
        Ok(())
    }

    /// Replaces the window lengths (admin only). A length of zero would
    /// make the bucket index undefined, so both must be positive.
    pub fn update_period_lengths(
        &mut self,
        admin: Address,
        daily_period_length: u64,
        weekly_period_length: u64,
    ) -> (r: Result<(), Error>)
        requires
            old(self).wf(),
            daily_period_length > 0,
            weekly_period_length > 0,
        ensures
            final(self).wf(),
            final(self).daily == old(self).daily,
            final(self).weekly == old(self).weekly,
            final(self).alltime == old(self).alltime,
            final(self).all_time_totals@ == old(self).all_time_totals@,
            final(self).total_players == old(self).total_players,
            final(self).verifiers@ == old(self).verifiers@,
            match r {
                Ok(()) => old(self).is_initialized() && admin == old(self).spec_config().admin
                    && final(self).config == Some(
                    LeaderboardConfig {
                        daily_period_length,
                        weekly_period_length,
                        ..old(self).spec_config()
                    },
                ),
                Err(e) => *final(self) == *old(self) && match e {
                    Error::NotInitialized => !old(self).is_initialized(),
                    Error::Unauthorized => old(self).is_initialized() && admin != old(self).spec_config().admin,
                    _ => false,
                },
            },
    {
        let c = match self.config {
            Some(c) => c,
            None => { return Err(Error::NotInitialized) },
        };
        if admin != c.admin {
            return Err(Error::Unauthorized);
        }
        self.config = Some(
            LeaderboardConfig { daily_period_length, weekly_period_length, ..c },
        );
        Ok(())
    }

    /// Replaces the top-list capacity (admin only); zero is rejected.
    pub fn update_max_entries(&mut self, admin: Address, max_top_entries: u32) -> (r: Result<
        (),
        Error,
    >)
        requires
            old(self).wf(),
        ensures
            final(self).wf(),
            final(self).daily == old(self).daily,
            final(self).weekly == old(self).weekly,
            final(self).alltime == old(self).alltime,
            final(self).all_time_totals@ == old(self).all_time_totals@,
            final(self).total_players == old(self).total_players,
            final(self).verifiers@ == old(self).verifiers@,
            match r {
                Ok(()) => old(self).is_initialized() && admin == old(self).spec_config().admin
                    && max_top_entries > 0 && final(self).config == Some(
                    LeaderboardConfig { max_top_entries, ..old(self).spec_config() },
                ),
                Err(e) => *final(self) == *old(self) && match e {
                    Error::NotInitialized => !old(self).is_initialized(),
                    Error::Unauthorized => old(self).is_initialized() && admin != old(self).spec_config().admin,
                    Error::InvalidAmount => old(self).is_initialized() && admin == old(self).spec_config().admin && max_top_entries == 0,
                    _ => false,
                },
            },
    {
        let c = match self.config {
            Some(c) => c,
            None => { return Err(Error::NotInitialized) },
        };
        if admin != c.admin {
            return Err(Error::Unauthorized);
        }
        if max_top_entries == 0 {
            return Err(Error::InvalidAmount);
        }
        self.config = Some(LeaderboardConfig { max_top_entries, ..c });
        Ok(())
    }

    fn authorized_submitter(&self, submitter: Address, c: &LeaderboardConfig) -> (r: bool)
        requires
            self.config == Some(*c),
        ensures
            r == self.spec_authorized_submitter(submitter),
    {
        if submitter == c.admin {
            return true;
        }
        match self.verifiers.get(&submitter) {
            Some(b) => *b,
            None => false,
        }
    }

    /// Submits a verified score for `player` (admin or registered
    /// verifier only): the score is added to the player's cumulative
    /// entry in each window's current bucket, to the lifetime total, and
    /// each window's record high is raised when beaten.
    pub fn submit_score(&mut self, submitter: Address, player: Address, score: i128, now: u64) -> (r:
        Result<(), Error>)
        requires
            old(self).wf(),
            old(self).submit_fits(player, score, now),
            old(self).total_players < u32::MAX,
        ensures
            final(self).wf(),
            final(self).config == old(self).config,
            final(self).verifiers@ == old(self).verifiers@,
            match r {
                Ok(()) => {
                    let c = old(self).spec_config();
                    let dpid = spec_period_id(TimePeriod::Daily, c, now);
                    let wpid = spec_period_id(TimePeriod::Weekly, c, now);
                    let dcum = spec_bucket_score(&old(self).daily, player, dpid) + score;
                    let wcum = spec_bucket_score(&old(self).weekly, player, wpid) + score;
                    let acum = spec_bucket_score(&old(self).alltime, player, 0) + score;
                    &&& old(self).is_initialized()
                    &&& !c.paused
                    &&& old(self).spec_authorized_submitter(submitter)
                    &&& score >= 0
                    &&& spec_board_bumped(
                        &old(self).daily,
                        &final(self).daily,
                        player,
                        score,
                        TimePeriod::Daily,
                        dpid,
                        now,
                        c.max_top_entries as int,
                    )
                    &&& spec_board_bumped(
                        &old(self).weekly,
                        &final(self).weekly,
                        player,
                        score,
                        TimePeriod::Weekly,
                        wpid,
                        now,
                        c.max_top_entries as int,
                    )
                    &&& spec_board_bumped(
                        &old(self).alltime,
                        &final(self).alltime,
                        player,
                        score,
                        TimePeriod::AllTime,
                        0,
                        now,
                        c.max_top_entries as int,
                    )
                    &&& final(self).all_time_totals@ == old(self).all_time_totals@.insert(
                        player,
                        (old(self).spec_all_time_total(player) + score) as i128,
                    )
                    &&& final(self).total_players == old(self).total_players + if old(self).spec_all_time_total(player) == 0 {
                        1int
                    } else {
                        0int
                    }
                    &&& final(self).high_daily == if dcum > old(self).high_daily {
                        dcum
                    } else {
                        old(self).high_daily as int
                    }
                    &&& final(self).high_weekly == if wcum > old(self).high_weekly {
                        wcum
                    } else {
                        old(self).high_weekly as int
                    }
                    &&& final(self).high_alltime == if acum > old(self).high_alltime {
                        acum
                    } else {
                        old(self).high_alltime as int
                    }
                },
                Err(e) => *final(self) == *old(self) && match e {
                    Error::NotInitialized => !old(self).is_initialized(),
                    Error::ContractPaused => old(self).is_initialized() && old(self).spec_config().paused,
                    Error::Unauthorized => old(self).is_initialized() && !old(self).spec_config().paused && !old(self).spec_authorized_submitter(submitter),
                    Error::InvalidAmount => old(self).is_initialized() && !old(self).spec_config().paused && old(self).spec_authorized_submitter(submitter)
                        && score < 0,
                    _ => false,
                },
            },
    {
        let c = match self.config {
            Some(c) => c,
            None => { return Err(Error::NotInitialized) },
        };
        if c.paused {
            return Err(Error::ContractPaused);
        }
        if !self.authorized_submitter(submitter, &c) {
            return Err(Error::Unauthorized);
        }
        if score < 0 {
            return Err(Error::InvalidAmount);
        }
        let dpid = now / c.daily_period_length;
        let wpid = now / c.weekly_period_length;
        let dcum = apply_score(
            &mut self.daily,
            player,
            score,
            true,
            TimePeriod::Daily,
            dpid,
            now,
            c.max_top_entries,
        );
        let wcum = apply_score(
            &mut self.weekly,
            player,
            score,
            true,
            TimePeriod::Weekly,
            wpid,
            now,
            c.max_top_entries,
        );
        let acum = apply_score(
            &mut self.alltime,
            player,
            score,
            true,
            TimePeriod::AllTime,
            0,
            now,
            c.max_top_entries,
        );
        if dcum > self.high_daily {
            self.high_daily = dcum;
        }
        if wcum > self.high_weekly {
            self.high_weekly = wcum;
        }
        if acum > self.high_alltime {
            self.high_alltime = acum;
        }
        let current_total: i128 = match self.all_time_totals.get(&player) {
            Some(v) => *v,
            None => 0,
        };
        let is_new_player = current_total == 0;
        self.all_time_totals.insert(player, current_total + score);
        if is_new_player {
            self.total_players = self.total_players + 1;
        }
        proof {
            assert forall|a: Address| #[trigger] self.all_time_totals@.contains_key(a) implies self
                .all_time_totals@[a] >= 0 by {
                if a != player {
                    assert(old(self).all_time_totals@.contains_key(a));
                }
            }
        }
        Ok(())
    }

    /// Overwrites (rather than accumulates) the player's entry in one
    /// window's current bucket — the admin's correction path. Lifetime
    /// totals and record highs are left alone.
    pub fn update_score(
        &mut self,
        admin: Address,
        player: Address,
        score: i128,
        period: TimePeriod,
        now: u64,
    ) -> (r: Result<(), Error>)
        requires
            old(self).wf(),
        ensures
            final(self).wf(),
            final(self).config == old(self).config,
            final(self).verifiers@ == old(self).verifiers@,
            final(self).all_time_totals@ == old(self).all_time_totals@,
            final(self).total_players == old(self).total_players,
            final(self).high_daily == old(self).high_daily,
            final(self).high_weekly == old(self).high_weekly,
            final(self).high_alltime == old(self).high_alltime,
            match r {
                Ok(()) => {
                    let c = old(self).spec_config();
                    let pid = spec_period_id(period, c, now);
                    &&& old(self).is_initialized()
                    &&& admin == c.admin
                    &&& !c.paused
                    &&& score >= 0
                    &&& match period {
                        TimePeriod::Daily => spec_board_replaced(
                            &old(self).daily,
                            &final(self).daily,
                            player,
                            score,
                            period,
                            pid,
                            now,
                            c.max_top_entries as int,
                        ) && final(self).weekly == old(self).weekly && final(self).alltime == old(self).alltime,
                        TimePeriod::Weekly => spec_board_replaced(
                            &old(self).weekly,
                            &final(self).weekly,
                            player,
                            score,
                            period,
                            pid,
                            now,
                            c.max_top_entries as int,
                        ) && final(self).daily == old(self).daily && final(self).alltime == old(self).alltime,
                        TimePeriod::AllTime => spec_board_replaced(
                            &old(self).alltime,
                            &final(self).alltime,
                            player,
                            score,
                            period,
                            pid,
                            now,
                            c.max_top_entries as int,
                        ) && final(self).daily == old(self).daily && final(self).weekly == old(self).weekly,
                    }
                },
                Err(e) => *final(self) == *old(self) && match e {
                    Error::NotInitialized => !old(self).is_initialized(),
                    Error::Unauthorized => old(self).is_initialized() && admin != old(self).spec_config().admin,
                    Error::ContractPaused => old(self).is_initialized() && admin == old(self).spec_config().admin && old(self).spec_config().paused,
                    Error::InvalidAmount => old(self).is_initialized() && admin == old(self).spec_config().admin && !old(self).spec_config().paused && score < 0,
                    _ => false,
                },
            },
    {
        let c = match self.config {
            Some(c) => c,
            None => { return Err(Error::NotInitialized) },
        };
        if admin != c.admin {
            return Err(Error::Unauthorized);
        }
        if c.paused {
            return Err(Error::ContractPaused);
        }
        if score < 0 {
            return Err(Error::InvalidAmount);
        }
        let pid = match period {
            TimePeriod::Daily => now / c.daily_period_length,
            TimePeriod::Weekly => now / c.weekly_period_length,
            TimePeriod::AllTime => 0,
        };
        match period {
            TimePeriod::Daily => {
                apply_score(
                    &mut self.daily,
                    player,
                    score,
                    false,
                    period,
                    pid,
                    now,
                    c.max_top_entries,
                );
            },
            TimePeriod::Weekly => {
                apply_score(
                    &mut self.weekly,
                    player,
                    score,
                    false,
                    period,
                    pid,
                    now,
                    c.max_top_entries,
                );
            },
            TimePeriod::AllTime => {
                apply_score(
                    &mut self.alltime,
                    player,
                    score,
                    false,
                    period,
                    pid,
                    now,
                    c.max_top_entries,
                );
            },
        }
        Ok(())
    }

    fn board_for(&self, period: TimePeriod) -> (b: &PeriodBoard)
        ensures
            b == match period {
                TimePeriod::Daily => &self.daily,
                TimePeriod::Weekly => &self.weekly,
                TimePeriod::AllTime => &self.alltime,
            },
    {
        match period {
            TimePeriod::Daily => &self.daily,
            TimePeriod::Weekly => &self.weekly,
            TimePeriod::AllTime => &self.alltime,
        }
    }

    /// The top entries of the window's current bucket, best first, at
    /// most `limit` of them (and never more than the configured
    /// capacity). A bucket that has rolled over reads as empty.
    pub fn get_top_players(&self, period: TimePeriod, limit: u32, now: u64) -> (r: Vec<PlayerScore>)
        requires
            self.wf(),
            self.is_initialized(),
        ensures
            ({
                let c = self.spec_config();
                let b = match period {
                    TimePeriod::Daily => &self.daily,
                    TimePeriod::Weekly => &self.weekly,
                    TimePeriod::AllTime => &self.alltime,
                };
                let pid = spec_period_id(period, c, now);
                let cap = if limit > c.max_top_entries {
                    c.max_top_entries as int
                } else {
                    limit as int
                };
                let n = if b.top@.len() <= cap {
                    b.top@.len() as int
                } else {
                    cap
                };
                r@ == if b.period_id == pid {
                    b.top@.take(n)
                } else {
                    Seq::<PlayerScore>::empty()
                }
            }),
    {
        let c = self.get_config();
        let pid = match period {
            TimePeriod::Daily => now / c.daily_period_length,
            TimePeriod::Weekly => now / c.weekly_period_length,
            TimePeriod::AllTime => 0,
        };
        let b = self.board_for(period);
        let mut result: Vec<PlayerScore> = Vec::new();
        if b.period_id != pid {
            proof {
                assert(result@ =~= Seq::<PlayerScore>::empty());
            }
            return result;
        }
        let actual_limit: u32 = if limit > c.max_top_entries {
            c.max_top_entries
        } else {
            limit
        };
        let mut i: usize = 0;
        while i < b.top.len() && i < actual_limit as usize
            invariant
                i <= b.top@.len(),
                i <= actual_limit,
                result@ == b.top@.take(i as int),
            decreases b.top@.len() - i,
        {
            result.push(b.top[i]);
            proof {
                assert(b.top@.take(i as int).push(b.top@[i as int]) =~= b.top@.take(i as int + 1));
            }
            i = i + 1;
        }
        result
    }

    /// The player's 1-indexed rank in the window's current bucket; 0 when
    /// the player is not in the top list (or the bucket rolled over).
    pub fn get_player_rank(&self, player: Address, period: TimePeriod, now: u64) -> (r: u32)
        requires
            self.wf(),
            self.is_initialized(),
        ensures
            ({
                let b = match period {
                    TimePeriod::Daily => &self.daily,
                    TimePeriod::Weekly => &self.weekly,
                    TimePeriod::AllTime => &self.alltime,
                };
                let pid = spec_period_id(period, self.spec_config(), now);
                r as int == if b.period_id == pid {
                    rank_from(b.top@, 0, player)
                } else {
                    0int
                }
            }),
    {
        let c = self.get_config();
        let pid = match period {
            TimePeriod::Daily => now / c.daily_period_length,
            TimePeriod::Weekly => now / c.weekly_period_length,
            TimePeriod::AllTime => 0,
        };
        let b = self.board_for(period);
        if b.period_id != pid {
            return 0;
        }
        let mut i: usize = 0;
        while i < b.top.len()
            invariant
                i <= b.top@.len(),
                b.top@.len() <= u32::MAX,
                self.is_initialized(),
                b == (match period {
                    TimePeriod::Daily => &self.daily,
                    TimePeriod::Weekly => &self.weekly,
                    TimePeriod::AllTime => &self.alltime,
                }),
                b.period_id == spec_period_id(period, self.spec_config(), now),
                forall|j: int| 0 <= j < i ==> b.top@[j].player != player,
            decreases b.top@.len() - i,
        {
            if b.top[i].player == player {
                proof {
                    lemma_rank_from_skip_to(b.top@, 0, i as int, player);
                    assert(rank_from(b.top@, i as int, player) == i + 1);
                    assert(i < u32::MAX);
                }
                return (i as u32) + 1;
            }
            i = i + 1;
        }
        proof {
            lemma_rank_from_skip_to(b.top@, 0, b.top@.len() as int, player);
        }
        0
    }

    /// The player's entry in the window's current bucket, if any.
    pub fn get_player_score(&self, player: Address, period: TimePeriod, now: u64) -> (r: Option<
        PlayerScore,
    >)
        requires
            self.wf(),
            self.is_initialized(),
        ensures
            ({
                let b = match period {
                    TimePeriod::Daily => &self.daily,
                    TimePeriod::Weekly => &self.weekly,
                    TimePeriod::AllTime => &self.alltime,
                };
                let pid = spec_period_id(period, self.spec_config(), now);
                r == if b.period_id == pid && b.scores@.contains_key(player) {
                    Some(b.scores@[player])
                } else {
                    None::<PlayerScore>
                }
            }),
    {
        let c = self.get_config();
        let pid = match period {
            TimePeriod::Daily => now / c.daily_period_length,
            TimePeriod::Weekly => now / c.weekly_period_length,
            TimePeriod::AllTime => 0,
        };
        let b = self.board_for(period);
        if b.period_id != pid {
            return None;
        }
        match b.scores.get(&player) {
            Some(e) => Some(*e),
            None => None,
        }
    }

    /// The player's lifetime cumulative score.
    pub fn get_player_all_time_total(&self, player: Address) -> (r: i128)
        ensures
            r as int == self.spec_all_time_total(player),
    {
        match self.all_time_totals.get(&player) {
            Some(v) => *v,
            None => 0,
        }
    }

    /// The record bucket-cumulative score ever seen in the window kind.
    pub fn get_high_score(&self, period: TimePeriod) -> (r: i128)
        ensures
            r == match period {
                TimePeriod::Daily => self.high_daily,
                TimePeriod::Weekly => self.high_weekly,
                TimePeriod::AllTime => self.high_alltime,
            },
    {
        match period {
            TimePeriod::Daily => self.high_daily,
            TimePeriod::Weekly => self.high_weekly,
            TimePeriod::AllTime => self.high_alltime,
        }
    }

    /// How many distinct players ever scored.
    pub fn get_total_players(&self) -> (r: u32)
        ensures
            r == self.total_players,
    {
        self.total_players
    }

    /// The current configuration.
    pub fn get_config(&self) -> (c: LeaderboardConfig)
        requires
            self.is_initialized(),
        ensures
            c == self.spec_config(),
    {
        match self.config {
            Some(c) => c,
            None => LeaderboardConfig {
                admin: 0,
                max_top_entries: 0,
                daily_period_length: 1,
                weekly_period_length: 1,
                paused: false,
            },
        }
    }

    /// Whether the address is a registered verifier.
    pub fn is_verifier(&self, address: Address) -> (r: bool)
        ensures
            r == self.spec_is_verifier(address),
    {
        match self.verifiers.get(&address) {
            Some(b) => *b,
            None => false,
        }
    }

    /// The bucket index `now` falls into for the window kind.
    pub fn get_current_period_id_view(&self, period: TimePeriod, now: u64) -> (r: u64)
        requires
            self.wf(),
            self.is_initialized(),
        ensures
            r as int == spec_period_id(period, self.spec_config(), now),
    {
        let c = self.get_config();
        match period {
            TimePeriod::Daily => now / c.daily_period_length,
            TimePeriod::Weekly => now / c.weekly_period_length,
            TimePeriod::AllTime => 0,
        }
    }
}

/// Relation between a window's state before and after one accumulating
/// score event.
pub open spec fn spec_board_bumped(
    b0: &PeriodBoard,
    b1: &PeriodBoard,
    player: Address,
    score: i128,
    period: TimePeriod,
    pid: int,
    now: u64,
    max: int,
) -> bool {
    let entry = PlayerScore {
        player,
        score: (spec_bucket_score(b0, player, pid) + score) as i128,
        timestamp: now,
        period,
        period_id: pid as u64,
    };
    &&& b1.period_id == pid
    &&& b1.scores@ == (if b0.period_id == pid {
        b0.scores@
    } else {
        Map::<Address, PlayerScore>::empty()
    }).insert(player, entry)
    &&& b1.top@ == spec_insert_top(
        if b0.period_id == pid {
            b0.top@
        } else {
            Seq::<PlayerScore>::empty()
        },
        entry,
        max,
    )
    &&& b1.top@.len() <= max
}

/// Relation between a window's state before and after one replacing
/// score event (the admin correction path).
pub open spec fn spec_board_replaced(
    b0: &PeriodBoard,
    b1: &PeriodBoard,
    player: Address,
    score: i128,
    period: TimePeriod,
    pid: int,
    now: u64,
    max: int,
) -> bool {
    let entry = PlayerScore { player, score, timestamp: now, period, period_id: pid as u64 };
    &&& b1.period_id == pid
    &&& b1.scores@ == (if b0.period_id == pid {
        b0.scores@
    } else {
        Map::<Address, PlayerScore>::empty()
    }).insert(player, entry)
    &&& b1.top@ == spec_insert_top(
        if b0.period_id == pid {
            b0.top@
        } else {
            Seq::<PlayerScore>::empty()
        },
        entry,
        max,
    )
    &&& b1.top@.len() <= max
}

} // verus!
