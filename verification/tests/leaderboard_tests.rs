use puzzle_contracts::leaderboard::{Error, LeaderboardContract, TimePeriod};

const ADMIN: u64 = 1;

fn setup() -> LeaderboardContract {
    let mut l = LeaderboardContract::new();
    l.initialize(ADMIN, 100).unwrap();
    l
}

#[test]
fn leaderboard_test_initialization() {
    let l = setup();
    let config = l.get_config();
    assert_eq!(config.admin, ADMIN);
    assert_eq!(config.max_top_entries, 100);
    assert_eq!(config.daily_period_length, 86_400);
    assert_eq!(config.weekly_period_length, 604_800);
    assert!(!config.paused);
}

#[test]
fn leaderboard_test_double_initialization() {
    let mut l = setup();
    assert_eq!(l.initialize(ADMIN, 100), Err(Error::AlreadyInitialized));
}

#[test]
fn test_submit_score() {
    let mut l = setup();
    let player: u64 = 2;
    l.submit_score(ADMIN, player, 5000, 1000).unwrap();
    let score = l.get_player_score(player, TimePeriod::AllTime, 1000).unwrap();
    assert_eq!(score.score, 5000);
    assert_eq!(score.player, player);
    assert_eq!(score.timestamp, 1000);
    assert_eq!(l.get_player_all_time_total(player), 5000);
    assert_eq!(l.get_total_players(), 1);
}

#[test]
fn test_cumulative_score() {
    let mut l = setup();
    let player: u64 = 2;
    l.submit_score(ADMIN, player, 1000, 1000).unwrap();
    l.submit_score(ADMIN, player, 2000, 1000).unwrap();
    l.submit_score(ADMIN, player, 1500, 1000).unwrap();
    let score = l.get_player_score(player, TimePeriod::AllTime, 1000).unwrap();
    assert_eq!(score.score, 4500);
    assert_eq!(l.get_player_all_time_total(player), 4500);
    assert_eq!(l.get_total_players(), 1);
}

#[test]
fn test_top_players_ranking() {
    let mut l = setup();
    let player1: u64 = 2;
    let player2: u64 = 3;
    let player3: u64 = 4;
    let player4: u64 = 5;
    l.submit_score(ADMIN, player2, 2000, 1000).unwrap();
    l.submit_score(ADMIN, player4, 4000, 1000).unwrap();
    l.submit_score(ADMIN, player1, 1000, 1000).unwrap();
    l.submit_score(ADMIN, player3, 3000, 1000).unwrap();
    let top = l.get_top_players(TimePeriod::AllTime, 10, 1000);
    assert_eq!(top.len(), 4);
    assert_eq!(top[0].player, player4);
    assert_eq!(top[0].score, 4000);
    assert_eq!(top[1].player, player3);
    assert_eq!(top[1].score, 3000);
    assert_eq!(top[2].player, player2);
    assert_eq!(top[2].score, 2000);
    assert_eq!(top[3].player, player1);
    assert_eq!(top[3].score, 1000);
}

#[test]
fn test_player_rank() {
    let mut l = setup();
    let player1: u64 = 2;
    let player2: u64 = 3;
    let player3: u64 = 4;
    l.submit_score(ADMIN, player1, 1000, 1000).unwrap();
    l.submit_score(ADMIN, player2, 3000, 1000).unwrap();
    l.submit_score(ADMIN, player3, 2000, 1000).unwrap();
    assert_eq!(l.get_player_rank(player2, TimePeriod::AllTime, 1000), 1);
    assert_eq!(l.get_player_rank(player3, TimePeriod::AllTime, 1000), 2);
    assert_eq!(l.get_player_rank(player1, TimePeriod::AllTime, 1000), 3);
    let unknown: u64 = 9;
    assert_eq!(l.get_player_rank(unknown, TimePeriod::AllTime, 1000), 0);
}

#[test]
fn test_rank_update_on_score_change() {
    let mut l = setup();
    let player1: u64 = 2;
    let player2: u64 = 3;
    l.submit_score(ADMIN, player1, 1000, 1000).unwrap();
    l.submit_score(ADMIN, player2, 2000, 1000).unwrap();
    assert_eq!(l.get_player_rank(player2, TimePeriod::AllTime, 1000), 1);
    assert_eq!(l.get_player_rank(player1, TimePeriod::AllTime, 1000), 2);
    l.submit_score(ADMIN, player1, 2500, 1000).unwrap();
    assert_eq!(l.get_player_rank(player1, TimePeriod::AllTime, 1000), 1);
    assert_eq!(l.get_player_rank(player2, TimePeriod::AllTime, 1000), 2);
}

#[test]
fn test_daily_period() {
    let mut l = setup();
    let player: u64 = 2;
    l.submit_score(ADMIN, player, 1000, 0).unwrap();
    let daily = l.get_player_score(player, TimePeriod::Daily, 0);
    assert!(daily.is_some());
    assert_eq!(daily.unwrap().score, 1000);
    let daily2 = l.get_player_score(player, TimePeriod::Daily, 86_400);
    assert!(daily2.is_none());
    l.submit_score(ADMIN, player, 2000, 86_400).unwrap();
    let daily3 = l.get_player_score(player, TimePeriod::Daily, 86_400);
    assert_eq!(daily3.unwrap().score, 2000);
    assert_eq!(l.get_player_all_time_total(player), 3000);
}

#[test]
fn test_weekly_period() {
    let mut l = setup();
    let player: u64 = 2;
    l.submit_score(ADMIN, player, 5000, 0).unwrap();
    let weekly = l.get_player_score(player, TimePeriod::Weekly, 0);
    assert!(weekly.is_some());
    assert_eq!(weekly.unwrap().score, 5000);
    let weekly2 = l.get_player_score(player, TimePeriod::Weekly, 604_800);
    assert!(weekly2.is_none());
    l.submit_score(ADMIN, player, 7000, 604_800).unwrap();
    let weekly3 = l.get_player_score(player, TimePeriod::Weekly, 604_800);
    assert_eq!(weekly3.unwrap().score, 7000);
    assert_eq!(l.get_player_all_time_total(player), 12000);
}

#[test]
fn test_high_score_record() {
    let mut l = setup();
    let player1: u64 = 2;
    let player2: u64 = 3;
    l.submit_score(ADMIN, player1, 5000, 1000).unwrap();
    assert_eq!(l.get_high_score(TimePeriod::AllTime), 5000);
    l.submit_score(ADMIN, player2, 8000, 1000).unwrap();
    assert_eq!(l.get_high_score(TimePeriod::AllTime), 8000);
    l.submit_score(ADMIN, player1, 1000, 1000).unwrap();
    assert_eq!(l.get_high_score(TimePeriod::AllTime), 8000);
}

#[test]
fn test_verifier_system() {
    let mut l = setup();
    let verifier: u64 = 6;
    let player: u64 = 2;
    assert!(!l.is_verifier(verifier));
    l.add_verifier(ADMIN, verifier).unwrap();
    assert!(l.is_verifier(verifier));
    l.submit_score(verifier, player, 3000, 1000).unwrap();
    assert_eq!(l.get_player_all_time_total(player), 3000);
    l.remove_verifier(ADMIN, verifier).unwrap();
    assert!(!l.is_verifier(verifier));
}

#[test]
fn test_unauthorized_score_submission() {
    let mut l = setup();
    let random_user: u64 = 7;
    let player: u64 = 2;
    let r = l.submit_score(random_user, player, 1000, 1000);
    assert_eq!(r, Err(Error::Unauthorized));
}

#[test]
fn test_update_score_admin() {
    let mut l = setup();
    let player: u64 = 2;
    l.submit_score(ADMIN, player, 5000, 1000).unwrap();
    l.update_score(ADMIN, player, 7000, TimePeriod::AllTime, 1000).unwrap();
    let score = l.get_player_score(player, TimePeriod::AllTime, 1000).unwrap();
    assert_eq!(score.score, 7000);
}

#[test]
fn leaderboard_test_pause_functionality() {
    let mut l = setup();
    l.set_paused(ADMIN, true).unwrap();
    assert!(l.get_config().paused);
    l.set_paused(ADMIN, false).unwrap();
    assert!(!l.get_config().paused);
}

#[test]
fn test_submit_when_paused() {
    let mut l = setup();
    let player: u64 = 2;
    l.set_paused(ADMIN, true).unwrap();
    let r = l.submit_score(ADMIN, player, 1000, 1000);
    assert_eq!(r, Err(Error::ContractPaused));
}

#[test]
fn test_update_period_lengths() {
    let mut l = setup();
    l.update_period_lengths(ADMIN, 43_200, 302_400).unwrap();
    let config = l.get_config();
    assert_eq!(config.daily_period_length, 43_200);
    assert_eq!(config.weekly_period_length, 302_400);
}

#[test]
fn test_update_max_entries() {
    let mut l = setup();
    l.update_max_entries(ADMIN, 50).unwrap();
    assert_eq!(l.get_config().max_top_entries, 50);
}

#[test]
fn test_update_max_entries_zero() {
    let mut l = setup();
    assert_eq!(l.update_max_entries(ADMIN, 0), Err(Error::InvalidAmount));
}

#[test]
fn test_add_verifier_non_admin() {
    let mut l = setup();
    let random_user: u64 = 7;
    let verifier: u64 = 6;
    assert_eq!(l.add_verifier(random_user, verifier), Err(Error::Unauthorized));
}

#[test]
fn test_negative_score() {
    let mut l = setup();
    let player: u64 = 2;
    assert_eq!(l.submit_score(ADMIN, player, -100, 1000), Err(Error::InvalidAmount));
}

#[test]
fn test_top_players_limit() {
    let mut l = LeaderboardContract::new();
    l.initialize(ADMIN, 3).unwrap();
    let player1: u64 = 2;
    let player2: u64 = 3;
    let player3: u64 = 4;
    let player4: u64 = 5;
    let player5: u64 = 6;
    l.submit_score(ADMIN, player1, 1000, 1000).unwrap();
    l.submit_score(ADMIN, player2, 2000, 1000).unwrap();
    l.submit_score(ADMIN, player3, 3000, 1000).unwrap();
    l.submit_score(ADMIN, player4, 4000, 1000).unwrap();
    l.submit_score(ADMIN, player5, 5000, 1000).unwrap();
    let top = l.get_top_players(TimePeriod::AllTime, 10, 1000);
    assert_eq!(top.len(), 3);
    assert_eq!(top[0].score, 5000);
    assert_eq!(top[1].score, 4000);
    assert_eq!(top[2].score, 3000);
    assert_eq!(l.get_player_rank(player5, TimePeriod::AllTime, 1000), 1);
    assert_eq!(l.get_player_rank(player4, TimePeriod::AllTime, 1000), 2);
    assert_eq!(l.get_player_rank(player3, TimePeriod::AllTime, 1000), 3);
    assert_eq!(l.get_player_rank(player2, TimePeriod::AllTime, 1000), 0);
    assert_eq!(l.get_player_rank(player1, TimePeriod::AllTime, 1000), 0);
}

#[test]
fn test_multiple_periods_independent() {
    let mut l = setup();
    let player1: u64 = 2;
    let player2: u64 = 3;
    l.submit_score(ADMIN, player1, 1000, 1000).unwrap();
    l.submit_score(ADMIN, player2, 2000, 1000).unwrap();
    assert_eq!(l.get_player_rank(player2, TimePeriod::Daily, 1000), 1);
    assert_eq!(l.get_player_rank(player2, TimePeriod::Weekly, 1000), 1);
    assert_eq!(l.get_player_rank(player2, TimePeriod::AllTime, 1000), 1);
    let next_day = 86_400 + 1000;
    assert_eq!(l.get_player_rank(player2, TimePeriod::Daily, next_day), 0);
    assert_eq!(l.get_player_rank(player2, TimePeriod::Weekly, next_day), 1);
    assert_eq!(l.get_player_rank(player2, TimePeriod::AllTime, next_day), 1);
}

#[test]
fn test_get_current_period_id() {
    let l = setup();
    assert_eq!(l.get_current_period_id_view(TimePeriod::Daily, 0), 0);
    assert_eq!(l.get_current_period_id_view(TimePeriod::Weekly, 0), 0);
    assert_eq!(l.get_current_period_id_view(TimePeriod::AllTime, 0), 0);
    assert_eq!(l.get_current_period_id_view(TimePeriod::Daily, 86_400), 1);
    assert_eq!(l.get_current_period_id_view(TimePeriod::Weekly, 86_400), 0);
    assert_eq!(l.get_current_period_id_view(TimePeriod::Daily, 604_800), 7);
    assert_eq!(l.get_current_period_id_view(TimePeriod::Weekly, 604_800), 1);
    assert_eq!(l.get_current_period_id_view(TimePeriod::AllTime, 604_800), 0);
}

#[test]
fn test_full_leaderboard_lifecycle() {
    let mut l = setup();
    let verifier: u64 = 6;
    l.add_verifier(ADMIN, verifier).unwrap();
    let alice: u64 = 2;
    let bob: u64 = 3;
    let charlie: u64 = 4;
    l.submit_score(verifier, alice, 1000, 0).unwrap();
    l.submit_score(verifier, bob, 1500, 0).unwrap();
    l.submit_score(ADMIN, charlie, 800, 0).unwrap();
    assert_eq!(l.get_player_rank(bob, TimePeriod::Daily, 0), 1);
    assert_eq!(l.get_player_rank(alice, TimePeriod::Daily, 0), 2);
    assert_eq!(l.get_player_rank(charlie, TimePeriod::Daily, 0), 3);
    l.submit_score(verifier, alice, 1000, 0).unwrap();
    assert_eq!(l.get_player_rank(alice, TimePeriod::Daily, 0), 1);
    assert_eq!(l.get_player_rank(bob, TimePeriod::Daily, 0), 2);
    assert_eq!(l.get_high_score(TimePeriod::Daily), 2000);
    let day2 = 86_400;
    let daily_top = l.get_top_players(TimePeriod::Daily, 10, day2);
    assert_eq!(daily_top.len(), 0);
    let weekly_top = l.get_top_players(TimePeriod::Weekly, 10, day2);
    assert_eq!(weekly_top.len(), 3);
    l.submit_score(verifier, charlie, 3000, day2).unwrap();
    assert_eq!(l.get_player_rank(charlie, TimePeriod::Daily, day2), 1);
    assert_eq!(l.get_player_all_time_total(alice), 2000);
    assert_eq!(l.get_player_all_time_total(bob), 1500);
    assert_eq!(l.get_player_all_time_total(charlie), 3800);
    assert_eq!(l.get_total_players(), 3);
    let week2 = 604_800;
    let weekly_top2 = l.get_top_players(TimePeriod::Weekly, 10, week2);
    assert_eq!(weekly_top2.len(), 0);
    let all_time_top = l.get_top_players(TimePeriod::AllTime, 10, week2);
    assert_eq!(all_time_top.len(), 3);
    assert_eq!(all_time_top[0].player, charlie);
}

#[test]
fn test_zero_score_submission() {
    let mut l = setup();
    let player: u64 = 2;
    l.submit_score(ADMIN, player, 0, 1000).unwrap();
    let score = l.get_player_score(player, TimePeriod::AllTime, 1000);
    assert!(score.is_some());
    assert_eq!(score.unwrap().score, 0);
}

#[test]
fn test_board_stays_sorted_with_ties() {
    // Entries are kept in descending order after every insertion; equal
    // scores keep their insertion order.
    let mut l = setup();
    for (i, sc) in [500i128, 900, 700, 900, 100, 700].iter().enumerate() {
        l.submit_score(ADMIN, 10 + i as u64, *sc, 1000).unwrap();
    }
    let top = l.get_top_players(TimePeriod::AllTime, 10, 1000);
    assert_eq!(top.len(), 6);
    for w in top.windows(2) {
        assert!(w[0].score >= w[1].score);
    }
    // The first 900 submitted (player 11) stays ahead of the second
    // (player 13); same for the 700s.
    assert_eq!(top[0].player, 11);
    assert_eq!(top[1].player, 13);
    assert_eq!(top[2].player, 12);
    assert_eq!(top[3].player, 15);
}
