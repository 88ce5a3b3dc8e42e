use vstd::prelude::*;

use crate::state::{GameMove, GameResult};

verus! {

/// The resolution rule: identical moves tie; otherwise the standard
/// dominance relation (rock beats scissors, scissors beats paper, paper
/// beats rock) decides between the host and the opponent.
pub open spec fn spec_resolve(host_move: GameMove, opp_move: GameMove) -> GameResult {
    match (host_move, opp_move) {
        (GameMove::Rock, GameMove::Rock) => GameResult::Tie,
        (GameMove::Rock, GameMove::Paper) => GameResult::OpponentWins,
        (GameMove::Rock, GameMove::Scissors) => GameResult::HostWins,
        (GameMove::Paper, GameMove::Rock) => GameResult::HostWins,
        (GameMove::Paper, GameMove::Paper) => GameResult::Tie,
        (GameMove::Paper, GameMove::Scissors) => GameResult::OpponentWins,
        (GameMove::Scissors, GameMove::Rock) => GameResult::OpponentWins,
        (GameMove::Scissors, GameMove::Paper) => GameResult::HostWins,
        (GameMove::Scissors, GameMove::Scissors) => GameResult::Tie,
    }
}

/// Pure, deterministic resolution of a pair of committed moves. Total over
/// all nine move combinations; no state, no randomness.
pub fn resolve(host_move: GameMove, opp_move: GameMove) -> (r: GameResult)
    ensures
        r == spec_resolve(host_move, opp_move),
{
    match (host_move, opp_move) {
        (GameMove::Rock, GameMove::Rock) => GameResult::Tie,
        (GameMove::Rock, GameMove::Paper) => GameResult::OpponentWins,
        (GameMove::Rock, GameMove::Scissors) => GameResult::HostWins,
        (GameMove::Paper, GameMove::Rock) => GameResult::HostWins,
        (GameMove::Paper, GameMove::Paper) => GameResult::Tie,
        (GameMove::Paper, GameMove::Scissors) => GameResult::OpponentWins,
        (GameMove::Scissors, GameMove::Rock) => GameResult::OpponentWins,
        (GameMove::Scissors, GameMove::Paper) => GameResult::HostWins,
        (GameMove::Scissors, GameMove::Scissors) => GameResult::Tie,
    }
}

/// A session whose participants played the same move always ties.
pub proof fn lemma_resolve_self_tie(a: GameMove)
    ensures
        spec_resolve(a, a) == GameResult::Tie,
{
}

/// Loss is symmetric: the host wins a pair of moves exactly when the
/// opponent would win the swapped pair.
pub proof fn lemma_resolve_loss_symmetry(a: GameMove, b: GameMove)
    ensures
        (spec_resolve(a, b) == GameResult::HostWins) <==> (spec_resolve(b, a)
            == GameResult::OpponentWins),
{
}

} // verus!
