use cascading_tic_tac_toe::{
    generate_invalid_cells, get_index, is_invalid_cell, on_cell_clicked, setup_board,
    update_cell_state, update_player_turn, CellState, GameState, GridCell, PlayerTag, PlayerTurn,
};

fn empty_board(n: u32) -> cascading_tic_tac_toe::Board {
    setup_board(n, &Vec::new())
}

#[test]
fn round_zero_is_a_three_by_three_board_of_valid_cells() {
    let board = empty_board(0);
    assert_eq!(board.round(), 0);
    assert_eq!(board.cells().len(), 9);
    for x in 0..3u32 {
        for y in 0..3u32 {
            assert_eq!(board.state(x, y), Some(CellState::Valid));
            let cell = board.cells()[(x * 3 + y) as usize];
            assert_eq!(cell.cell_coord, (x, y));
            assert_eq!(cell.state, CellState::Valid);
        }
    }
    assert_eq!(board.state(3, 0), None);
    assert_eq!(board.state(0, 3), None);
}

#[test]
fn round_zero_ignores_the_cells_before() {
    let previous = vec![
        GridCell { cell_coord: (1, 1), state: CellState::Filled(PlayerTag::X) },
        GridCell { cell_coord: (0, 2), state: CellState::Filled(PlayerTag::O) },
    ];
    let board = setup_board(0, &previous);
    assert_eq!(board, empty_board(0));
}

#[test]
fn round_one_blocks_the_ceiling_and_the_side_walls() {
    let board = empty_board(1);
    assert_eq!(board.cells().len(), 20);
    let blocked = [(0u32, 3u32), (1, 3), (3, 0), (4, 0)];
    for x in 0..5u32 {
        for y in 0..4u32 {
            let expected = if blocked.contains(&(x, y)) {
                CellState::Invalid
            } else {
                CellState::Valid
            };
            assert_eq!(board.state(x, y), Some(expected), "cell ({x}, {y})");
        }
    }
}

#[test]
fn invalid_cells_of_round_one_in_order() {
    let mut list = Vec::new();
    generate_invalid_cells(1, &mut list);
    assert_eq!(list, vec![(0, 3), (1, 3), (3, 0), (4, 0)]);
}

#[test]
fn invalid_cells_of_round_two_in_order() {
    let mut list = vec![(9, 9)];
    generate_invalid_cells(2, &mut list);
    assert_eq!(
        list,
        vec![
            (9, 9),
            (0, 3),
            (1, 3),
            (3, 0),
            (4, 0),
            (0, 4),
            (1, 4),
            (2, 4),
            (3, 4),
            (5, 0),
            (6, 0),
            (5, 1),
            (6, 1),
        ]
    );
}

#[test]
fn invalid_cells_of_round_zero_are_none() {
    let mut list: Vec<(u32, u32)> = Vec::new();
    generate_invalid_cells(0, &mut list);
    assert!(list.is_empty());
}

#[test]
fn invalid_cell_count_is_two_n_times_n_plus_one() {
    for n in 0..12u32 {
        let mut list = Vec::new();
        generate_invalid_cells(n, &mut list);
        assert_eq!(list.len() as u32, 2 * n * (n + 1));
    }
}

#[test]
fn is_invalid_cell_agrees_with_the_list() {
    for n in 0..7u32 {
        let mut list = Vec::new();
        generate_invalid_cells(n, &mut list);
        for x in 0..(2 * n + 6) {
            for y in 0..(n + 6) {
                assert_eq!(is_invalid_cell(n, x, y), list.contains(&(x, y)), "n={n} ({x}, {y})");
            }
        }
    }
}

#[test]
fn invalid_cells_do_not_depend_on_the_fills() {
    let mut previous = Vec::new();
    for x in 0..5u32 {
        for y in 0..4u32 {
            previous.push(GridCell { cell_coord: (x, y), state: CellState::Filled(PlayerTag::O) });
        }
    }
    let filled = setup_board(2, &previous);
    let empty = empty_board(2);
    for x in 0..7u32 {
        for y in 0..5u32 {
            assert_eq!(
                filled.state(x, y) == Some(CellState::Invalid),
                empty.state(x, y) == Some(CellState::Invalid)
            );
        }
    }
}

#[test]
fn invalid_takes_precedence_over_a_carried_fill() {
    let previous = vec![GridCell { cell_coord: (0, 3), state: CellState::Filled(PlayerTag::X) }];
    let board = setup_board(1, &previous);
    assert_eq!(board.state(0, 3), Some(CellState::Invalid));
}

#[test]
fn filled_cells_are_carried_into_the_next_round() {
    let mut board = empty_board(0);
    let turn = on_cell_clicked(&mut board, GameState::GameOngoing, PlayerTurn::X, (1, 1));
    assert_eq!(turn, Some(PlayerTurn::O));
    let turn = on_cell_clicked(&mut board, GameState::GameOngoing, PlayerTurn::O, (2, 0));
    assert_eq!(turn, Some(PlayerTurn::X));
    let next = setup_board(1, board.cells());
    assert_eq!(next.round(), 1);
    assert_eq!(next.state(1, 1), Some(CellState::Filled(PlayerTag::X)));
    assert_eq!(next.state(2, 0), Some(CellState::Filled(PlayerTag::O)));
    assert_eq!(next.state(0, 0), Some(CellState::Valid));
    assert_eq!(next.state(4, 3), Some(CellState::Valid));
    assert_eq!(next.state(3, 0), Some(CellState::Invalid));
}

#[test]
fn the_last_filled_cell_at_a_coordinate_is_carried() {
    let previous = vec![
        GridCell { cell_coord: (2, 2), state: CellState::Filled(PlayerTag::X) },
        GridCell { cell_coord: (2, 2), state: CellState::Filled(PlayerTag::O) },
        GridCell { cell_coord: (2, 2), state: CellState::Valid },
        GridCell { cell_coord: (1, 1), state: CellState::Won(PlayerTag::X) },
        GridCell { cell_coord: (40, 40), state: CellState::Filled(PlayerTag::X) },
    ];
    let board = setup_board(1, &previous);
    assert_eq!(board.state(2, 2), Some(CellState::Filled(PlayerTag::O)));
    assert_eq!(board.state(1, 1), Some(CellState::Valid));
}

#[test]
fn a_move_is_refused_unless_the_game_is_ongoing_and_the_cell_valid() {
    let mut board = empty_board(1);
    let untouched = board.clone();
    for state in [
        GameState::NotPlaying,
        GameState::LoadingNewGame,
        GameState::RestartingGame,
        GameState::Updating,
        GameState::Won(PlayerTag::X),
        GameState::Draw,
    ] {
        assert_eq!(on_cell_clicked(&mut board, state, PlayerTurn::X, (0, 0)), None);
        assert_eq!(board, untouched);
    }
    // blocked cell
    assert_eq!(on_cell_clicked(&mut board, GameState::GameOngoing, PlayerTurn::X, (0, 3)), None);
    // no such cell
    assert_eq!(on_cell_clicked(&mut board, GameState::GameOngoing, PlayerTurn::X, (5, 0)), None);
    assert_eq!(on_cell_clicked(&mut board, GameState::GameOngoing, PlayerTurn::X, (0, 4)), None);
    assert_eq!(board, untouched);
    // playable cell, then the same cell again
    assert_eq!(
        on_cell_clicked(&mut board, GameState::GameOngoing, PlayerTurn::O, (2, 3)),
        Some(PlayerTurn::X)
    );
    assert_eq!(board.state(2, 3), Some(CellState::Filled(PlayerTag::O)));
    let marked = board.clone();
    assert_eq!(on_cell_clicked(&mut board, GameState::GameOngoing, PlayerTurn::X, (2, 3)), None);
    assert_eq!(board, marked);
}

#[test]
fn update_cell_state_marks_for_the_player_to_move() {
    let mut cell = GridCell { cell_coord: (4, 2), state: CellState::Valid };
    update_cell_state(&mut cell, PlayerTurn::O);
    assert_eq!(cell, GridCell { cell_coord: (4, 2), state: CellState::Filled(PlayerTag::O) });
    update_cell_state(&mut cell, PlayerTurn::X);
    assert_eq!(cell.state, CellState::Filled(PlayerTag::X));
}

#[test]
fn update_player_turn_alternates() {
    assert_eq!(update_player_turn(PlayerTurn::X), PlayerTurn::O);
    assert_eq!(update_player_turn(PlayerTurn::O), PlayerTurn::X);
}

#[test]
fn get_index_is_row_major() {
    assert_eq!(get_index(0, 0, 3), 0);
    assert_eq!(get_index(2, 1, 3), 7);
    assert_eq!(get_index(4, 3, 4), 19);
    assert_eq!(get_index(92_678, 46_340, 46_341), 4_294_837_538);
}
