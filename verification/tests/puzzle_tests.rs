use puzzle_contracts::puzzle::{Error, PuzzleVerification};

#[test]
fn test_verification() {
    let mut p = PuzzleVerification::new();
    let player: u64 = 2;
    let solution = [1u8; 32];
    p.set_puzzle(1, solution);
    let result = p.verify_solution(player, 1, solution).unwrap();
    assert!(result);
    assert!(p.is_completed(player, 1));
}

#[test]
fn test_wrong_solution_does_not_complete() {
    let mut p = PuzzleVerification::new();
    let player: u64 = 2;
    p.set_puzzle(1, [1u8; 32]);
    let result = p.verify_solution(player, 1, [2u8; 32]).unwrap();
    assert!(!result);
    assert!(!p.is_completed(player, 1));
    // A wrong attempt does not consume the chance: the right hash still
    // verifies.
    assert!(p.verify_solution(player, 1, [1u8; 32]).unwrap());
}

#[test]
fn test_completion_is_one_shot() {
    let mut p = PuzzleVerification::new();
    let player: u64 = 2;
    p.set_puzzle(1, [1u8; 32]);
    assert!(p.verify_solution(player, 1, [1u8; 32]).unwrap());
    // A repeat attempt fails outright, whatever hash it carries.
    assert_eq!(p.verify_solution(player, 1, [1u8; 32]), Err(Error::AlreadyCompleted));
    assert_eq!(p.verify_solution(player, 1, [2u8; 32]), Err(Error::AlreadyCompleted));
}

#[test]
fn test_unknown_puzzle() {
    let mut p = PuzzleVerification::new();
    let player: u64 = 2;
    assert_eq!(p.verify_solution(player, 99, [1u8; 32]), Err(Error::PuzzleNotFound));
    assert!(!p.is_completed(player, 99));
}

#[test]
fn test_completion_is_per_player_and_puzzle() {
    let mut p = PuzzleVerification::new();
    let alice: u64 = 2;
    let bob: u64 = 3;
    p.set_puzzle(1, [1u8; 32]);
    p.set_puzzle(2, [2u8; 32]);
    assert!(p.verify_solution(alice, 1, [1u8; 32]).unwrap());
    assert!(p.is_completed(alice, 1));
    assert!(!p.is_completed(bob, 1));
    assert!(!p.is_completed(alice, 2));
    assert!(p.verify_solution(bob, 1, [1u8; 32]).unwrap());
    assert!(p.verify_solution(alice, 2, [2u8; 32]).unwrap());
}
