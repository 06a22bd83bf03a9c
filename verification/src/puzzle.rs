//! Puzzle verification: a canonical solution hash is stored per puzzle;
//! a player's submitted hash is compared against it, and a correct
//! submission marks the puzzle completed for that player — once. A
//! repeat verification attempt fails outright, whatever hash it carries.
use vstd::prelude::*;
use vstd::hash_map::HashMapWithView;
use crate::{Address, bytes32_eq};

verus! {

/// Failure conditions of the puzzle-verification entry points.
#[derive(Clone, Copy, Debug, PartialEq, Eq, Structural)]
pub enum Error {
    AlreadyCompleted,
    PuzzleNotFound,
}

/// Packs a (player, puzzle) pair into one completion key.
pub open spec fn spec_completion_key(player: Address, puzzle_id: u32) -> u128 {
    ((player as int) * 0x1_0000_0000 + (puzzle_id as int)) as u128
}

/// Distinct pairs pack to distinct keys.
pub proof fn lemma_completion_key_injective(a1: Address, p1: u32, a2: Address, p2: u32)
    requires
        spec_completion_key(a1, p1) == spec_completion_key(a2, p2),
    ensures
        a1 == a2 && p1 == p2,
{
    assert((a1 as int) * 0x1_0000_0000 + (p1 as int) == (a2 as int) * 0x1_0000_0000 + (
    p2 as int));
}

fn completion_key(player: Address, puzzle_id: u32) -> (r: u128)
    ensures
        r == spec_completion_key(player, puzzle_id),
{
    (player as u128) * 0x1_0000_0000u128 + (puzzle_id as u128)
}

/// The puzzle-verification contract's entire state.
///
/// The host authenticates callers before any entry point runs.
pub struct PuzzleVerification {
    /// The canonical solution hash of each puzzle.
    pub solutions: HashMapWithView<u32, [u8; 32]>,
    /// Which (player, puzzle) pairs have verified, keyed by packed pair.
    pub completed: HashMapWithView<u128, bool>,
}

impl PuzzleVerification {
    /// Whether the player has completed the puzzle.
    pub open spec fn spec_completed(&self, player: Address, puzzle_id: u32) -> bool {
        self.completed@.contains_key(spec_completion_key(player, puzzle_id))
            && self.completed@[spec_completion_key(player, puzzle_id)]
    }

    /// The empty contract state.
    pub fn new() -> (t: Self)
        ensures
            t.solutions@ == Map::<u32, [u8; 32]>::empty(),
            t.completed@ == Map::<u128, bool>::empty(),
    {
        PuzzleVerification { solutions: HashMapWithView::new(), completed: HashMapWithView::new() }
    }

    /// Stores (or replaces) a puzzle's canonical solution hash.
    pub fn set_puzzle(&mut self, puzzle_id: u32, solution_hash: [u8; 32])
        ensures
            final(self).solutions@ == old(self).solutions@.insert(puzzle_id, solution_hash),
            final(self).completed@ == old(self).completed@,
    {
        self.solutions.insert(puzzle_id, solution_hash);
    }

    /// Verifies a player's submitted solution hash against the stored
    /// one. A correct hash marks the puzzle completed for the player and
    /// returns true; a wrong hash returns false; a repeat attempt after
    /// completion fails regardless of the hash.
    pub fn verify_solution(&mut self, player: Address, puzzle_id: u32, solution_hash: [u8; 32]) -> (r:
        Result<bool, Error>)
        ensures
            final(self).solutions@ == old(self).solutions@,
            match r {
                Ok(b) => {
                    &&& !old(self).spec_completed(player, puzzle_id)
                    &&& old(self).solutions@.contains_key(puzzle_id)
                    &&& b == (solution_hash@ == old(self).solutions@[puzzle_id]@)
                    &&& b ==> final(self).completed@ == old(self).completed@.insert(
                        spec_completion_key(player, puzzle_id),
                        true,
                    )
                    &&& !b ==> final(self).completed@ == old(self).completed@
                },
                Err(e) => *final(self) == *old(self) && match e {
                    Error::AlreadyCompleted => old(self).spec_completed(player, puzzle_id),
                    Error::PuzzleNotFound => !old(self).spec_completed(player, puzzle_id) && !old(
                        self,
                    ).solutions@.contains_key(puzzle_id),
                    _ => false,
                },
            },
    {
        let k = completion_key(player, puzzle_id);
        let already = match self.completed.get(&k) {
            Some(b) => *b,
            None => false,
        };
        if already {
            return Err(Error::AlreadyCompleted);
        }
        let correct: [u8; 32] = match self.solutions.get(&puzzle_id) {
            Some(h) => *h,
            None => { return Err(Error::PuzzleNotFound) },
        };
        if bytes32_eq(&solution_hash, &correct) {
            self.completed.insert(k, true);
            Ok(true)
        } else {
            Ok(false)
        }
    }

    /// Whether the player has completed the puzzle.
    pub fn is_completed(&self, player: Address, puzzle_id: u32) -> (r: bool)
        ensures
            r == self.spec_completed(player, puzzle_id),
    {
        let k = completion_key(player, puzzle_id);
        match self.completed.get(&k) {
            Some(b) => *b,
            None => false,
        }
    }
}

} // verus!
