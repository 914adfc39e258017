use cascading_tic_tac_toe::{
    generate_winning_combinations, is_draw, is_game_over, is_winner, on_cell_clicked, setup_board,
    Board, CellState, EvalError, GameState, GridCell, PlayerTag, PlayerTurn, RoundInit, Triple,
};

fn board_with(n: u32, marks: &[((u32, u32), PlayerTag)]) -> Board {
    let previous: Vec<GridCell> = marks
        .iter()
        .map(|(coord, player)| GridCell { cell_coord: *coord, state: CellState::Filled(*player) })
        .collect();
    if n == 0 {
        let mut board = setup_board(0, &Vec::new());
        for (coord, player) in marks {
            let turn = match player {
                PlayerTag::X => PlayerTurn::X,
                PlayerTag::O => PlayerTurn::O,
            };
            assert!(on_cell_clicked(&mut board, GameState::GameOngoing, turn, *coord).is_some());
        }
        board
    } else {
        setup_board(n, &previous)
    }
}

fn swapped(marks: &[((u32, u32), PlayerTag)]) -> Vec<((u32, u32), PlayerTag)> {
    marks.iter().map(|(coord, player)| (*coord, player.opponent())).collect()
}

#[test]
fn winning_combinations_of_round_zero() {
    let mut winners: Vec<Triple> = Vec::new();
    generate_winning_combinations(0, &mut winners);
    assert_eq!(
        winners,
        vec![
            [(0, 0), (0, 1), (0, 2)],
            [(1, 0), (1, 1), (1, 2)],
            [(2, 0), (2, 1), (2, 2)],
            [(0, 0), (1, 0), (2, 0)],
            [(0, 1), (1, 1), (2, 1)],
            [(0, 2), (1, 2), (2, 2)],
            [(0, 0), (1, 1), (2, 2)],
            [(0, 2), (1, 1), (2, 0)],
        ]
    );
}

#[test]
fn winning_combinations_of_round_one_add_a_block_and_the_reach_back() {
    let mut winners: Vec<Triple> = Vec::new();
    generate_winning_combinations(1, &mut winners);
    assert_eq!(winners.len(), 22);
    assert_eq!(
        winners[8..].to_vec(),
        vec![
            [(2, 1), (2, 2), (2, 3)],
            [(3, 1), (3, 2), (3, 3)],
            [(4, 1), (4, 2), (4, 3)],
            [(2, 1), (3, 1), (4, 1)],
            [(2, 2), (3, 2), (4, 2)],
            [(2, 3), (3, 3), (4, 3)],
            [(2, 1), (3, 2), (4, 3)],
            [(2, 3), (3, 2), (4, 1)],
            [(0, 1), (1, 2), (2, 3)],
            [(1, 1), (2, 2), (3, 3)],
            [(1, 0), (2, 1), (3, 2)],
            [(2, 0), (3, 1), (4, 2)],
            [(1, 1), (2, 1), (3, 1)],
            [(1, 2), (2, 2), (3, 2)],
        ]
    );
}

#[test]
fn winning_combinations_count_and_bounds() {
    for n in 0..10u32 {
        let mut winners: Vec<Triple> = Vec::new();
        generate_winning_combinations(n, &mut winners);
        assert_eq!(winners.len() as u32, 8 + 14 * n);
        let board = setup_board(n, &Vec::new());
        for (i, t) in winners.iter().enumerate() {
            for cell in t {
                assert_eq!(board.state(cell.0, cell.1), Some(CellState::Valid));
            }
            assert!(!winners[..i].contains(t));
        }
    }
}

#[test]
fn winning_combinations_are_appended() {
    let mut winners: Vec<Triple> = vec![[(7, 7), (8, 8), (9, 9)]];
    generate_winning_combinations(0, &mut winners);
    assert_eq!(winners.len(), 9);
    assert_eq!(winners[0], [(7, 7), (8, 8), (9, 9)]);
}

#[test]
fn a_completed_diagonal_is_credited_once() {
    let board = board_with(
        0,
        &[
            ((0, 0), PlayerTag::X),
            ((1, 0), PlayerTag::O),
            ((1, 1), PlayerTag::X),
            ((2, 0), PlayerTag::O),
            ((2, 2), PlayerTag::X),
        ],
    );
    let mut round = RoundInit::new(1);
    assert_eq!(is_game_over(&board, &mut round), Ok(GameState::Won(PlayerTag::X)));
    assert_eq!(round.x_score(), 1);
    assert_eq!(round.o_score(), 0);
    assert_eq!(round.game_combinations(), &vec![[(0, 0), (1, 1), (2, 2)]]);
    // a second evaluation of the unchanged board credits nothing
    assert_eq!(is_game_over(&board, &mut round), Ok(GameState::Won(PlayerTag::X)));
    assert_eq!(round.x_score(), 1);
    assert_eq!(round.o_score(), 0);
    assert_eq!(round.game_combinations().len(), 1);
}

#[test]
fn a_win_below_the_target_leaves_the_game_ongoing() {
    let board = board_with(
        0,
        &[((0, 0), PlayerTag::O), ((0, 1), PlayerTag::O), ((0, 2), PlayerTag::O)],
    );
    let mut round = RoundInit::new(3);
    assert_eq!(is_game_over(&board, &mut round), Ok(GameState::GameOngoing));
    assert_eq!((round.x_score(), round.o_score()), (0, 1));
    assert!(round.has_scored(&[(0, 0), (0, 1), (0, 2)]));
    assert!(!round.has_scored(&[(0, 0), (1, 0), (2, 0)]));
}

#[test]
fn simultaneous_triples_each_score() {
    // X holds the first row and the first column.
    let board = board_with(
        0,
        &[
            ((0, 0), PlayerTag::X),
            ((0, 1), PlayerTag::X),
            ((0, 2), PlayerTag::X),
            ((1, 0), PlayerTag::X),
            ((2, 0), PlayerTag::X),
        ],
    );
    let mut round = RoundInit::new(5);
    assert!(is_winner(&board, PlayerTag::X, &mut round));
    assert_eq!(round.x_score(), 2);
    assert_eq!(
        round.game_combinations(),
        &vec![[(0, 0), (0, 1), (0, 2)], [(0, 0), (1, 0), (2, 0)]]
    );
    assert!(!is_winner(&board, PlayerTag::X, &mut round));
    assert!(!is_winner(&board, PlayerTag::O, &mut round));
    assert_eq!((round.x_score(), round.o_score()), (2, 0));
}

#[test]
fn a_full_board_without_a_line_is_a_draw() {
    let board = board_with(
        0,
        &[
            ((0, 0), PlayerTag::X),
            ((0, 1), PlayerTag::O),
            ((0, 2), PlayerTag::X),
            ((1, 1), PlayerTag::O),
            ((1, 0), PlayerTag::X),
            ((1, 2), PlayerTag::O),
            ((2, 1), PlayerTag::X),
            ((2, 0), PlayerTag::O),
            ((2, 2), PlayerTag::X),
        ],
    );
    assert!(is_draw(board.cells()));
    let mut round = RoundInit::new(3);
    assert_eq!(is_game_over(&board, &mut round), Ok(GameState::Draw));
    assert_eq!((round.x_score(), round.o_score()), (0, 0));
    assert!(round.game_combinations().is_empty());
}

#[test]
fn a_board_with_a_valid_cell_is_no_draw() {
    let board = board_with(0, &[((0, 0), PlayerTag::X)]);
    assert!(!is_draw(board.cells()));
    assert!(is_draw(&vec![
        GridCell { cell_coord: (0, 0), state: CellState::Filled(PlayerTag::X) },
        GridCell { cell_coord: (0, 1), state: CellState::Filled(PlayerTag::O) },
    ]));
    assert!(!is_draw(&vec![
        GridCell { cell_coord: (0, 0), state: CellState::Filled(PlayerTag::X) },
        GridCell { cell_coord: (0, 1), state: CellState::Valid },
    ]));
    assert!(is_draw(&vec![GridCell { cell_coord: (0, 0), state: CellState::Invalid }]));
    assert!(is_draw(&Vec::new()));
}

#[test]
fn reaching_the_target_beats_a_draw_and_o_beats_x() {
    // full board: X holds the first row, O the last row
    let marks = [
        ((0, 0), PlayerTag::X),
        ((0, 1), PlayerTag::X),
        ((0, 2), PlayerTag::X),
        ((1, 0), PlayerTag::O),
        ((1, 1), PlayerTag::X),
        ((1, 2), PlayerTag::O),
        ((2, 0), PlayerTag::O),
        ((2, 1), PlayerTag::O),
        ((2, 2), PlayerTag::O),
    ];
    let board = board_with(0, &marks);
    let mut round = RoundInit::new(1);
    assert_eq!(is_game_over(&board, &mut round), Ok(GameState::Won(PlayerTag::O)));
    assert_eq!((round.x_score(), round.o_score()), (1, 1));
    let mut round = RoundInit::new(2);
    assert_eq!(is_game_over(&board, &mut round), Ok(GameState::Draw));
    assert_eq!((round.x_score(), round.o_score()), (1, 1));
}

#[test]
fn win_detection_is_symmetric() {
    let marks = [
        ((0, 0), PlayerTag::X),
        ((1, 0), PlayerTag::O),
        ((1, 1), PlayerTag::X),
        ((2, 0), PlayerTag::O),
        ((2, 2), PlayerTag::X),
        ((0, 2), PlayerTag::O),
    ];
    let board = board_with(0, &marks);
    let mirror = board_with(0, &swapped(&marks));
    let mut round = RoundInit::new(1);
    let mut mirror_round = RoundInit::new(1);
    assert_eq!(is_game_over(&board, &mut round), Ok(GameState::Won(PlayerTag::X)));
    assert_eq!(is_game_over(&mirror, &mut mirror_round), Ok(GameState::Won(PlayerTag::O)));
    assert_eq!(round.x_score(), mirror_round.o_score());
    assert_eq!(round.o_score(), mirror_round.x_score());
    assert_eq!(round.game_combinations(), mirror_round.game_combinations());
}

#[test]
fn a_reach_back_triple_scores_across_the_boundary() {
    // (1, 1), (2, 2) lie in the first block, (3, 3) only in the second
    let marks = [((1, 1), PlayerTag::O), ((2, 2), PlayerTag::O), ((3, 3), PlayerTag::O)];
    let board = board_with(1, &marks);
    let mut round = RoundInit::new(4);
    round.next_round();
    assert_eq!(is_game_over(&board, &mut round), Ok(GameState::GameOngoing));
    assert_eq!((round.x_score(), round.o_score()), (0, 1));
    assert_eq!(round.game_combinations(), &vec![[(1, 1), (2, 2), (3, 3)]]);
}

#[test]
fn a_triple_credited_in_an_earlier_round_is_not_credited_again() {
    let marks = [((0, 0), PlayerTag::X), ((1, 1), PlayerTag::X), ((2, 2), PlayerTag::X)];
    let first = board_with(0, &marks);
    let mut round = RoundInit::new(3);
    assert_eq!(is_game_over(&first, &mut round), Ok(GameState::GameOngoing));
    assert_eq!(round.x_score(), 1);
    round.next_round();
    let second = setup_board(1, first.cells());
    assert_eq!(is_game_over(&second, &mut round), Ok(GameState::GameOngoing));
    assert_eq!(round.x_score(), 1);
    assert_eq!(round.round_count(), 1);
}

#[test]
fn a_board_of_another_round_is_refused() {
    let board = setup_board(1, &Vec::new());
    let mut round = RoundInit::new(3);
    let before = round.clone();
    assert_eq!(
        is_game_over(&board, &mut round),
        Err(EvalError::RoundMismatch { board_round: 1, round_count: 0 })
    );
    assert_eq!(round, before);
}

#[test]
fn a_target_of_zero_is_raised_to_one() {
    let round = RoundInit::new(0);
    assert_eq!(round.target(), 1);
    assert_eq!(round.round_count(), 0);
    assert_eq!((round.x_score(), round.o_score()), (0, 0));
    assert!(round.game_combinations().is_empty());
    assert_eq!(RoundInit::new(3).target(), 3);
    let board = setup_board(0, &Vec::new());
    let mut round = RoundInit::new(0);
    assert_eq!(is_game_over(&board, &mut round), Ok(GameState::GameOngoing));
}

#[test]
fn reset_starts_the_match_over() {
    let marks = [((0, 0), PlayerTag::X), ((1, 1), PlayerTag::X), ((2, 2), PlayerTag::X)];
    let board = board_with(0, &marks);
    let mut round = RoundInit::new(2);
    assert_eq!(is_game_over(&board, &mut round), Ok(GameState::GameOngoing));
    round.next_round();
    round.reset();
    assert_eq!(round, RoundInit::new(2));
}

#[test]
fn test_is_draw() {
    let filled = vec![
        GridCell { cell_coord: (0, 0), state: CellState::Filled(PlayerTag::X) },
        GridCell { cell_coord: (0, 1), state: CellState::Filled(PlayerTag::O) },
    ];
    assert_eq!(is_draw(&filled), true);
    let open = vec![
        GridCell { cell_coord: (0, 0), state: CellState::Filled(PlayerTag::X) },
        GridCell { cell_coord: (0, 1), state: CellState::Valid },
    ];
    assert_eq!(is_draw(&open), false);
}
