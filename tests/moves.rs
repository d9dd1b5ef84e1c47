use rps::moves::{resolve, result_label, GameMove, GameResult};

const ALL: [GameMove; 3] = [GameMove::Rock {}, GameMove::Paper {}, GameMove::Scissors {}];

#[test]
fn same_move_is_a_tie() {
    for m in ALL {
        assert_eq!(resolve(m, m), GameResult::Tie {});
    }
}

#[test]
fn distinct_moves_are_antisymmetric() {
    for a in ALL {
        for b in ALL {
            if a != b {
                let (x, y) = (resolve(a, b), resolve(b, a));
                assert!(
                    (x == GameResult::HostWins {} && y == GameResult::OpponentWins {})
                        || (x == GameResult::OpponentWins {} && y == GameResult::HostWins {})
                );
            }
        }
    }
}

#[test]
fn cycle_decides_all_six_outcomes() {
    assert_eq!(resolve(GameMove::Rock {}, GameMove::Scissors {}), GameResult::HostWins {});
    assert_eq!(resolve(GameMove::Scissors {}, GameMove::Paper {}), GameResult::HostWins {});
    assert_eq!(resolve(GameMove::Paper {}, GameMove::Rock {}), GameResult::HostWins {});
    assert_eq!(resolve(GameMove::Scissors {}, GameMove::Rock {}), GameResult::OpponentWins {});
    assert_eq!(resolve(GameMove::Paper {}, GameMove::Scissors {}), GameResult::OpponentWins {});
    assert_eq!(resolve(GameMove::Rock {}, GameMove::Paper {}), GameResult::OpponentWins {});
}

#[test]
fn labels() {
    assert_eq!(result_label(GameResult::Tie {}), "Tie");
    assert_eq!(result_label(GameResult::HostWins {}), "Host won");
    assert_eq!(result_label(GameResult::OpponentWins {}), "Opponent won");
}
