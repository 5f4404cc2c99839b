use sim_core::error::GameError;
use sim_core::game::{Game, MAX_STRATEGIES, MIN_STRATEGIES};
use sim_core::types::StrategyId;

/// Marks each entry as usable exactly when it is a finite number.
fn finiteness(rows: &[Vec<f64>]) -> Vec<Vec<bool>> {
    rows.iter()
        .map(|row| row.iter().map(|value| value.is_finite()).collect())
        .collect()
}

fn try_game(rows: Vec<Vec<f64>>) -> Result<Game<f64>, GameError> {
    let admissible = finiteness(&rows);
    Game::from_rows(&rows, &admissible)
}

/// Deliberately asymmetric: every entry is distinct, so a transposed or
/// column-major read cannot pass by coincidence.
fn asymmetric_3x3() -> Vec<Vec<f64>> {
    vec![
        vec![0.0, 1.0, 2.0],
        vec![10.0, 11.0, 12.0],
        vec![20.0, 21.0, 22.0],
    ]
}

fn game_from(rows: Vec<Vec<f64>>) -> Game<f64> {
    try_game(rows).expect("matrix is valid")
}

#[test]
fn row_is_the_focal_player() {
    let game = game_from(asymmetric_3x3());
    assert_eq!(
        game.payoff(StrategyId::new(0), StrategyId::new(1)),
        Some(1.0)
    );
    assert_eq!(
        game.payoff(StrategyId::new(1), StrategyId::new(0)),
        Some(10.0)
    );
}

#[test]
fn every_entry_keeps_its_position_through_the_flattening() {
    let rows = asymmetric_3x3();
    let game = game_from(rows.clone());

    for (i, row) in rows.iter().enumerate() {
        for (j, &expected) in row.iter().enumerate() {
            let payoff = game.payoff(StrategyId::new(i as u8), StrategyId::new(j as u8));
            assert_eq!(payoff, Some(expected), "entry [{i}][{j}]");
        }
    }
    assert_eq!(game.strategy_count(), 3);
}

#[test]
fn row_view_matches_entry_lookup() {
    let game = game_from(asymmetric_3x3());
    assert_eq!(
        game.row(StrategyId::new(1)),
        Some([10.0, 11.0, 12.0].as_slice())
    );
}

#[test]
fn ids_outside_the_game_are_absent_rather_than_a_panic() {
    let game = game_from(asymmetric_3x3());
    let inside = StrategyId::new(2);
    let outside = StrategyId::new(3);

    assert!(game.contains(inside));
    assert!(!game.contains(outside));
    assert_eq!(game.row(outside), None);
    assert_eq!(game.payoff(outside, inside), None);
    assert_eq!(game.payoff(inside, outside), None);
}

#[test]
fn rejects_fewer_than_two_strategies() {
    for rows in [vec![], vec![vec![1.0]]] {
        let found = rows.len();
        let err = try_game(rows).expect_err("a game needs two strategies");
        assert!(
            matches!(
                err,
                GameError::TooFewStrategies { found: f, minimum }
                    if f == found && minimum == MIN_STRATEGIES
            ),
            "{err:?}"
        );
    }
}

#[test]
fn rejects_more_strategies_than_a_strategy_id_can_name() {
    let n = MAX_STRATEGIES + 1;
    let err = try_game(vec![vec![0.0; n]; n]).expect_err("too many strategies");
    assert!(
        matches!(
            err,
            GameError::TooManyStrategies { found, maximum }
                if found == n && maximum == MAX_STRATEGIES
        ),
        "{err:?}"
    );
}

#[test]
fn rejects_a_short_or_long_row_and_names_the_first_one() {
    let short = vec![vec![1.0, 2.0, 3.0], vec![4.0], vec![5.0, 6.0, 7.0]];
    let err = try_game(short).expect_err("rows must be as long as the matrix");
    assert!(
        matches!(
            err,
            GameError::NotSquare {
                row: 1,
                found: 1,
                expected: 3
            }
        ),
        "{err:?}"
    );

    let long = vec![vec![1.0, 2.0, 9.0], vec![3.0, 4.0]];
    let err = try_game(long).expect_err("rows must be as long as the matrix");
    assert!(
        matches!(
            err,
            GameError::NotSquare {
                row: 0,
                found: 3,
                expected: 2
            }
        ),
        "{err:?}"
    );
}

#[test]
fn rejects_non_finite_entries() {
    for bad in [f64::NAN, f64::INFINITY, f64::NEG_INFINITY] {
        let rows = vec![vec![1.0, 2.0], vec![3.0, bad]];
        let err = try_game(rows.clone()).expect_err("entries must be finite");
        match err {
            GameError::NonFiniteEntry { row, col } => {
                assert_eq!((row, col), (1, 1));
                let value = rows[row][col];
                assert!(!value.is_finite(), "{value}");
            }
            other => panic!("expected a non-finite entry error, got {other:?}"),
        }
    }
}

#[test]
fn a_valid_game_never_holds_a_nan_so_equality_is_meaningful() {
    let game = game_from(asymmetric_3x3());
    assert_eq!(game, game.clone());
}

#[test]
fn the_first_defect_in_reading_order_is_the_one_reported() {
    // Row 0 holds a non-finite entry and row 1 is short: row 0 is read first.
    let rows = vec![vec![1.0, f64::NAN, 3.0], vec![4.0], vec![5.0, 6.0, 7.0]];
    let err = try_game(rows).expect_err("two defects");
    assert_eq!(err, GameError::NonFiniteEntry { row: 0, col: 1 });

    // Within a row, entries are read left to right.
    let rows = vec![vec![1.0, 2.0], vec![f64::INFINITY, f64::NAN]];
    let err = try_game(rows).expect_err("two defects");
    assert_eq!(err, GameError::NonFiniteEntry { row: 1, col: 0 });
}

#[test]
fn admissibility_marks_that_do_not_cover_an_entry_reject_it() {
    let rows = vec![vec![1.0, 2.0], vec![3.0, 4.0]];
    let err = Game::from_rows(&rows, &vec![vec![true, true], vec![true]]).expect_err("uncovered");
    assert_eq!(err, GameError::NonFiniteEntry { row: 1, col: 1 });
}

#[test]
fn the_largest_game_a_strategy_id_can_name_is_accepted() {
    let n = MAX_STRATEGIES;
    let game = try_game(vec![vec![0.5; n]; n]).expect("256 strategies fit in a byte");
    assert_eq!(game.strategy_count(), n);
    assert!(game.contains(StrategyId::new(255)));
    assert_eq!(game.payoff(StrategyId::new(255), StrategyId::new(0)), Some(0.5));
}

#[test]
fn a_row_has_one_entry_per_opponent() {
    let game = game_from(vec![vec![-1.0, 2.0], vec![0.0, 1.0]]);
    assert_eq!(game.row(StrategyId::new(0)), Some([-1.0, 2.0].as_slice()));
    assert_eq!(game.row(StrategyId::new(1)), Some([0.0, 1.0].as_slice()));
    assert_eq!(game.row(StrategyId::new(2)), None);
}

#[test]
fn integer_payoffs_use_the_same_layout() {
    let rows: Vec<Vec<i64>> = vec![vec![1, 2], vec![3, 4]];
    let game = Game::from_rows(&rows, &vec![vec![true, true], vec![true, true]]).expect("valid");
    assert_eq!(game.payoff(StrategyId::new(1), StrategyId::new(0)), Some(3));
}
