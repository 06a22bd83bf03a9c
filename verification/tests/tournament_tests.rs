use puzzle_contracts::tournament::{Error, TournamentContract, TournamentState};
use puzzle_contracts::token::RewardToken;

const ADMIN: u64 = 1;
const USER1: u64 = 2;
const USER2: u64 = 3;
const TOKEN_ADMIN: u64 = 4;
const CONTRACT: u64 = 100;
const TOKEN_ADDR: u64 = 10;

fn make_ledger() -> RewardToken {
    let mut l = RewardToken::new();
    l.initialize(TOKEN_ADMIN, String::from("T"), String::from("T"), 6).unwrap();
    l
}

#[test]
fn test_tournament_flow() {
    let mut t = TournamentContract::new(CONTRACT);
    let mut ledger = make_ledger();
    ledger.mint(TOKEN_ADMIN, USER1, 1000).unwrap();
    ledger.mint(TOKEN_ADMIN, USER2, 1000).unwrap();

    t.initialize(ADMIN, TOKEN_ADDR, 100).unwrap();
    t.register(&mut ledger, USER1).unwrap();
    t.register(&mut ledger, USER2).unwrap();

    assert_eq!(t.get_participants().len(), 2);
    assert_eq!(t.get_prize_pool(), 200);

    t.start_tournament(ADMIN).unwrap();
    assert_eq!(t.get_state(), TournamentState::Started);

    t.record_result(&mut ledger, ADMIN, USER1).unwrap();
    assert_eq!(t.get_state(), TournamentState::Ended);
    assert_eq!(ledger.balance(USER1), 1100);
    assert_eq!(ledger.balance(USER2), 900);
}

#[test]
fn test_cancel_and_refund() {
    let mut t = TournamentContract::new(CONTRACT);
    let mut ledger = make_ledger();
    ledger.mint(TOKEN_ADMIN, USER1, 1000).unwrap();

    t.initialize(ADMIN, TOKEN_ADDR, 100).unwrap();
    t.register(&mut ledger, USER1).unwrap();

    t.cancel_tournament(ADMIN).unwrap();
    assert_eq!(t.get_state(), TournamentState::Cancelled);

    t.withdraw_refund(&mut ledger, USER1).unwrap();
    assert_eq!(ledger.balance(USER1), 1000);
    assert!(!t.get_participants().contains(&USER1));
}

#[test]
fn test_tournament_state_machine_is_final() {
    // Ended and Cancelled are final: no entry point moves a tournament
    // out of them.
    let mut t = TournamentContract::new(CONTRACT);
    let mut ledger = make_ledger();
    ledger.mint(TOKEN_ADMIN, USER1, 1000).unwrap();
    ledger.mint(TOKEN_ADMIN, USER2, 1000).unwrap();
    t.initialize(ADMIN, TOKEN_ADDR, 100).unwrap();
    t.register(&mut ledger, USER1).unwrap();
    t.register(&mut ledger, USER2).unwrap();
    t.start_tournament(ADMIN).unwrap();
    // Registration closed once started.
    let late: u64 = 9;
    assert_eq!(t.register(&mut ledger, late), Err(Error::NotOpen));
    t.record_result(&mut ledger, ADMIN, USER2).unwrap();
    assert_eq!(t.get_state(), TournamentState::Ended);
    assert_eq!(t.cancel_tournament(ADMIN), Err(Error::CannotCancelEnded));
    assert_eq!(t.start_tournament(ADMIN), Err(Error::NotOpen));
    assert_eq!(t.record_result(&mut ledger, ADMIN, USER1), Err(Error::NotInProgress));
    assert_eq!(t.get_state(), TournamentState::Ended);
}

#[test]
fn test_tournament_error_paths() {
    let mut t = TournamentContract::new(CONTRACT);
    let mut ledger = make_ledger();
    assert_eq!(t.register(&mut ledger, USER1), Err(Error::NotInitialized));
    t.initialize(ADMIN, TOKEN_ADDR, 100).unwrap();
    assert_eq!(t.initialize(ADMIN, TOKEN_ADDR, 100), Err(Error::AlreadyInitialized));
    ledger.mint(TOKEN_ADMIN, USER1, 1000).unwrap();
    t.register(&mut ledger, USER1).unwrap();
    assert_eq!(t.register(&mut ledger, USER1), Err(Error::AlreadyRegistered));
    assert_eq!(t.start_tournament(ADMIN), Err(Error::NotEnoughParticipants));
    assert_eq!(t.withdraw_refund(&mut ledger, USER1), Err(Error::NotCancelled));
    t.cancel_tournament(ADMIN).unwrap();
    assert_eq!(t.withdraw_refund(&mut ledger, USER2), Err(Error::NotAParticipant));
    t.withdraw_refund(&mut ledger, USER1).unwrap();
    // The refund strikes the participant off: no double refund.
    assert_eq!(t.withdraw_refund(&mut ledger, USER1), Err(Error::NotAParticipant));
}
