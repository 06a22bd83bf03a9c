use puzzle_contracts::time_attack::{Error, TimeAttack, TimeBracket, TimePeriod};

const ADMIN: u64 = 1;

fn setup() -> TimeAttack {
    let mut t = TimeAttack::new();
    t.initialize(ADMIN).unwrap();
    t
}

#[test]
fn test_initialize() {
    let mut t = TimeAttack::new();
    t.initialize(ADMIN).unwrap();
    let result = t.initialize(ADMIN);
    assert_eq!(result, Err(Error::AlreadyInitialized));
}

#[test]
fn test_submit_time_success() {
    let mut t = setup();
    let player: u64 = 2;
    t.submit_time(player, 1, 120_000, [1u8; 32], 0).unwrap();
    let best = t.get_best_time(1);
    assert!(best.is_some());
    assert_eq!(best.unwrap().completion_time_ms, 120_000);
}

#[test]
fn test_submit_time_invalid_time() {
    let mut t = setup();
    let player: u64 = 2;
    let result = t.submit_time(player, 1, 500, [1u8; 32], 0);
    assert_eq!(result, Err(Error::InvalidTime));
    let result = t.submit_time(player, 1, 4_000_000, [2u8; 32], 0);
    assert_eq!(result, Err(Error::InvalidTime));
}

#[test]
fn test_submit_time_rate_limiting() {
    let mut t = setup();
    let player: u64 = 2;
    t.submit_time(player, 1, 120_000, [1u8; 32], 0).unwrap();
    let result = t.submit_time(player, 1, 120_000, [2u8; 32], 0);
    assert_eq!(result, Err(Error::TooFrequent));
}

#[test]
fn test_submit_time_duplicate_replay() {
    let mut t = setup();
    let player1: u64 = 2;
    let player2: u64 = 3;
    t.submit_time(player1, 1, 120_000, [1u8; 32], 0).unwrap();
    let result = t.submit_time(player2, 1, 120_000, [1u8; 32], 0);
    assert_eq!(result, Err(Error::DuplicateReplay));
}

#[test]
fn test_leaderboard_ordering() {
    let mut t = setup();
    let player1: u64 = 2;
    let player2: u64 = 3;
    let player3: u64 = 4;
    t.submit_time(player1, 1, 150_000, [1u8; 32], 0).unwrap();
    t.submit_time(player2, 1, 100_000, [2u8; 32], 61).unwrap();
    t.submit_time(player3, 1, 125_000, [3u8; 32], 122).unwrap();
    let leaderboard = t.get_leaderboard(1, TimePeriod::AllTime);
    assert_eq!(leaderboard.len(), 3);
    assert_eq!(leaderboard[0].completion_time_ms, 100_000);
    assert_eq!(leaderboard[1].completion_time_ms, 125_000);
    assert_eq!(leaderboard[2].completion_time_ms, 150_000);
}

#[test]
fn test_daily_board_resets_after_24h() {
    let mut t = setup();
    let player1: u64 = 2;
    let player2: u64 = 3;
    t.submit_time(player1, 1, 100_000, [1u8; 32], 0).unwrap();
    let daily = t.get_leaderboard(1, TimePeriod::Daily);
    assert_eq!(daily.len(), 1);
    t.submit_time(player2, 1, 120_000, [2u8; 32], 86_401).unwrap();
    let daily_after = t.get_leaderboard(1, TimePeriod::Daily);
    assert_eq!(daily_after.len(), 1);
    assert_eq!(daily_after[0].player, player2);
    let alltime = t.get_leaderboard(1, TimePeriod::AllTime);
    assert_eq!(alltime.len(), 2);
}

#[test]
fn test_board_capped_at_ten() {
    // The board admits a record in ascending position and never exceeds
    // ten entries: the slowest falls off.
    let mut t = setup();
    let mut now: u64 = 0;
    for i in 0..11u64 {
        let mut hash = [0u8; 32];
        hash[0] = i as u8;
        // Times 30000, 29000, ..., 20000: each submission is faster.
        t.submit_time(100 + i, 7, 30_000 - i * 1_000, hash, now).unwrap();
        now += 61;
    }
    let board = t.get_leaderboard(7, TimePeriod::AllTime);
    assert_eq!(board.len(), 10);
    for w in board.windows(2) {
        assert!(w[0].completion_time_ms <= w[1].completion_time_ms);
    }
    assert_eq!(board[0].completion_time_ms, 20_000);
    // The slowest (30000) was evicted.
    assert_eq!(board[9].completion_time_ms, 29_000);
    // The best record tracks the fastest time ever.
    assert_eq!(t.get_best_time(7).unwrap().completion_time_ms, 20_000);
}

#[test]
fn test_best_time_only_improves() {
    let mut t = setup();
    let player: u64 = 2;
    t.submit_time(player, 1, 90_000, [1u8; 32], 0).unwrap();
    t.submit_time(player, 1, 120_000, [2u8; 32], 61).unwrap();
    assert_eq!(t.get_best_time(1).unwrap().completion_time_ms, 90_000);
    t.submit_time(player, 1, 80_000, [3u8; 32], 122).unwrap();
    assert_eq!(t.get_best_time(1).unwrap().completion_time_ms, 80_000);
}

#[test]
fn test_time_brackets() {
    assert_eq!(TimeAttack::get_time_bracket(120_000), TimeBracket::Beginner);
    assert_eq!(TimeAttack::get_time_bracket(300_000), TimeBracket::Beginner);
    assert_eq!(TimeAttack::get_time_bracket(300_001), TimeBracket::Intermediate);
    assert_eq!(TimeAttack::get_time_bracket(600_001), TimeBracket::Advanced);
    assert_eq!(TimeAttack::get_time_bracket(900_001), TimeBracket::Expert);
    assert_eq!(TimeAttack::time_to_bracket(450_000), TimeBracket::Intermediate);
}

#[test]
fn test_replay_reusable_after_window() {
    // A replay mark expires after a day; the same hash then passes again,
    // and the expired mark is pruned from the store.
    let mut t = setup();
    let player: u64 = 2;
    t.submit_time(player, 1, 120_000, [9u8; 32], 0).unwrap();
    assert_eq!(t.replays.len(), 1);
    assert_eq!(t.submit_time(player, 1, 120_000, [9u8; 32], 10), Err(Error::DuplicateReplay));
    t.submit_time(player, 1, 120_000, [9u8; 32], 90_000).unwrap();
    assert_eq!(t.replays.len(), 1);
    assert_eq!(t.replays[0].recorded_at, 90_000);
}

#[test]
fn test_uninitialized_submission() {
    let mut t = TimeAttack::new();
    let r = t.submit_time(2, 1, 120_000, [1u8; 32], 0);
    assert_eq!(r, Err(Error::ContractNotInitialized));
}
