use puzzle_contracts::achievement::{AchievementNFT, Error};

const ADMIN: u64 = 1;
const ALICE: u64 = 2;
const BOB: u64 = 3;

fn setup() -> AchievementNFT {
    let mut a = AchievementNFT::new();
    a.initialize(ADMIN).unwrap();
    a
}

#[test]
fn test_mint_gated_by_completion_flag() {
    let mut a = setup();
    // Without the flag the mint is refused.
    assert_eq!(a.mint(ALICE, 7, String::from("m"), 0), Err(Error::PuzzleNotCompleted));
    a.mark_puzzle_completed(ADMIN, ALICE, 7).unwrap();
    let token_id = a.mint(ALICE, 7, String::from("m"), 0).unwrap();
    assert_eq!(token_id, 1);
    assert_eq!(a.owner_of(token_id), ALICE);
    assert_eq!(a.total_supply(), 1);
    assert_eq!(a.get_collection(ALICE), vec![1]);
    // The flag was consumed: a second mint for the same completion fails.
    assert_eq!(a.mint(ALICE, 7, String::from("m"), 0), Err(Error::PuzzleNotCompleted));
}

#[test]
fn test_transfer_keeps_collections_in_sync() {
    let mut a = setup();
    a.mark_puzzle_completed(ADMIN, ALICE, 1).unwrap();
    a.mark_puzzle_completed(ADMIN, ALICE, 2).unwrap();
    let t1 = a.mint(ALICE, 1, String::from("first"), 10).unwrap();
    let t2 = a.mint(ALICE, 2, String::from("second"), 20).unwrap();
    assert_eq!(a.get_collection(ALICE), vec![t1, t2]);
    a.transfer(ALICE, BOB, t1).unwrap();
    assert_eq!(a.owner_of(t1), BOB);
    assert_eq!(a.get_collection(ALICE), vec![t2]);
    assert_eq!(a.get_collection(BOB), vec![t1]);
    assert_eq!(a.total_supply(), 2);
}

#[test]
fn test_transfer_rejections() {
    let mut a = setup();
    a.mark_puzzle_completed(ADMIN, ALICE, 1).unwrap();
    let t1 = a.mint(ALICE, 1, String::from("x"), 0).unwrap();
    assert_eq!(a.transfer(ALICE, ALICE, t1), Err(Error::CannotTransferToSelf));
    assert_eq!(a.transfer(ALICE, BOB, 99), Err(Error::TokenNotFound));
    assert_eq!(a.transfer(BOB, ALICE, t1), Err(Error::NotOwner));
}

#[test]
fn test_burn_nft() {
    let mut a = setup();
    a.mark_puzzle_completed(ADMIN, ALICE, 1).unwrap();
    let t1 = a.mint(ALICE, 1, String::from("x"), 0).unwrap();
    assert_eq!(a.burn(BOB, t1), Err(Error::Unauthorized));
    a.burn(ALICE, t1).unwrap();
    assert_eq!(a.total_supply(), 0);
    assert!(a.get_collection(ALICE).is_empty());
    assert!(a.get_achievement(t1).is_none());
    assert_eq!(a.burn(ALICE, t1), Err(Error::TokenNotFound));
}

#[test]
fn test_achievement_metadata() {
    let mut a = setup();
    a.mark_puzzle_completed(ADMIN, ALICE, 5).unwrap();
    let t = a.mint(ALICE, 5, String::from("golden key"), 123).unwrap();
    let ach = a.get_achievement(t).unwrap();
    assert_eq!(ach.owner, ALICE);
    assert_eq!(ach.puzzle_id, 5);
    assert_eq!(ach.metadata, String::from("golden key"));
    assert_eq!(ach.timestamp, 123);
}

#[test]
fn test_mark_requires_admin() {
    let mut a = setup();
    assert_eq!(a.mark_puzzle_completed(BOB, ALICE, 1), Err(Error::Unauthorized));
    let mut fresh = AchievementNFT::new();
    assert_eq!(fresh.mark_puzzle_completed(ADMIN, ALICE, 1), Err(Error::NotInitialized));
    assert_eq!(a.initialize(ADMIN), Err(Error::AlreadyInitialized));
}
