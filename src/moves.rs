use vstd::prelude::*;

verus! {

/// A move. Rock beats Scissors, Scissors beats Paper, Paper beats Rock.
#[derive(Clone, Copy, Debug, PartialEq, Eq, Structural)]
pub enum GameMove {
    Rock {},
    Paper {},
    Scissors {},
}

/// The outcome of a game, seen from the host's side.
#[derive(Clone, Copy, Debug, PartialEq, Eq, Structural)]
pub enum GameResult {
    HostWins {},
    OpponentWins {},
    Tie {},
}

/// `a` beats `b` in the three-cycle of dominance.
pub open spec fn beats(a: GameMove, b: GameMove) -> bool {
    (a == GameMove::Rock {} && b == GameMove::Scissors {})
        || (a == GameMove::Scissors {} && b == GameMove::Paper {})
        || (a == GameMove::Paper {} && b == GameMove::Rock {})
}

/// The outcome of a game where the host played `host_move` and the opponent
/// answered with `opp_move`.
pub open spec fn outcome(host_move: GameMove, opp_move: GameMove) -> GameResult {
    if host_move == opp_move {
        GameResult::Tie {}
    } else if beats(host_move, opp_move) {
        GameResult::HostWins {}
    } else {
        GameResult::OpponentWins {}
    }
}

/// Decides the outcome of a game from the two moves; total over all nine pairs.
pub fn resolve(host_move: GameMove, opp_move: GameMove) -> (r: GameResult)
    ensures
        r == outcome(host_move, opp_move),
{
    match (host_move, opp_move) {
        (GameMove::Rock {}, GameMove::Paper {}) => GameResult::OpponentWins {},
        (GameMove::Rock {}, GameMove::Scissors {}) => GameResult::HostWins {},
        (GameMove::Paper {}, GameMove::Rock {}) => GameResult::HostWins {},
        (GameMove::Paper {}, GameMove::Scissors {}) => GameResult::OpponentWins {},
        (GameMove::Scissors {}, GameMove::Rock {}) => GameResult::OpponentWins {},
        (GameMove::Scissors {}, GameMove::Paper {}) => GameResult::HostWins {},
        (GameMove::Rock {}, GameMove::Rock {}) => GameResult::Tie {},
        (GameMove::Paper {}, GameMove::Paper {}) => GameResult::Tie {},
        (GameMove::Scissors {}, GameMove::Scissors {}) => GameResult::Tie {},
    }
}

/// Playing the same move on both sides is always a tie.
pub proof fn lemma_same_move_ties(m: GameMove)
    ensures
        outcome(m, m) == (GameResult::Tie {}),
{
}

/// For two distinct moves, swapping the roles swaps the winner: exactly one
/// order gives the host the win and the other gives it to the opponent.
pub proof fn lemma_distinct_moves_antisymmetric(m1: GameMove, m2: GameMove)
    requires
        m1 != m2,
    ensures
        outcome(m1, m2) != (GameResult::Tie {}),
        outcome(m1, m2) == (GameResult::HostWins {}) <==> outcome(m2, m1) == (GameResult::OpponentWins {}),
        outcome(m1, m2) == (GameResult::OpponentWins {}) <==> outcome(m2, m1) == (GameResult::HostWins {}),
        outcome(m1, m2) == (GameResult::HostWins {}) <==> beats(m1, m2),
{
}

/// The three-cycle fixes every one of the six outcomes between distinct moves.
pub proof fn lemma_cycle_outcomes()
    ensures
        outcome(GameMove::Rock {}, GameMove::Scissors {}) == (GameResult::HostWins {}),
        outcome(GameMove::Scissors {}, GameMove::Paper {}) == (GameResult::HostWins {}),
        outcome(GameMove::Paper {}, GameMove::Rock {}) == (GameResult::HostWins {}),
        outcome(GameMove::Scissors {}, GameMove::Rock {}) == (GameResult::OpponentWins {}),
        outcome(GameMove::Paper {}, GameMove::Scissors {}) == (GameResult::OpponentWins {}),
        outcome(GameMove::Rock {}, GameMove::Paper {}) == (GameResult::OpponentWins {}),
{
}

/// The label shown for an outcome.
pub open spec fn label_of(r: GameResult) -> Seq<char> {
    match r {
        GameResult::Tie {} => seq!['T', 'i', 'e'],
        GameResult::HostWins {} => seq!['H', 'o', 's', 't', ' ', 'w', 'o', 'n'],
        GameResult::OpponentWins {} => seq![
            'O', 'p', 'p', 'o', 'n', 'e', 'n', 't', ' ', 'w', 'o', 'n'
        ],
    }
}

/// A human-readable label for an outcome: "Tie", "Host won" or "Opponent won".
pub fn result_label(r: GameResult) -> (s: &'static str)
    ensures
        s@ == label_of(r),
{
    match r {
        GameResult::Tie {} => {
            proof { reveal_strlit("Tie"); }
            "Tie"
        },
        GameResult::HostWins {} => {
            proof { reveal_strlit("Host won"); }
            "Host won"
        },
        GameResult::OpponentWins {} => {
            proof { reveal_strlit("Opponent won"); }
            "Opponent won"
        },
    }
}

} // verus!
