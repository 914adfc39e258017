use cascading_tic_tac_toe::{
    is_game_over, setup_board, Board, BoardError, CellState, GameState, GridCell, PlayerTag,
    RoundInit, MAX_ROUND,
};

fn grid(n: u32) -> Vec<GridCell> {
    setup_board(n, &Vec::new()).cells().clone()
}

#[test]
fn the_cells_of_a_board_make_the_same_board() {
    for n in 0..4u32 {
        let board = setup_board(n, &Vec::new());
        assert_eq!(Board::from_cells(n, board.cells()), Ok(board));
    }
}

#[test]
fn cells_are_taken_in_any_order() {
    let mut cells = grid(1);
    cells[6].state = CellState::Filled(PlayerTag::O);
    cells[9].state = CellState::Filled(PlayerTag::X);
    let expected = Board::from_cells(1, &cells).unwrap();
    assert_eq!(expected.state(1, 2), Some(CellState::Filled(PlayerTag::O)));
    assert_eq!(expected.state(2, 1), Some(CellState::Filled(PlayerTag::X)));
    assert_eq!(expected.cells(), &cells);
    cells.reverse();
    assert_eq!(Board::from_cells(1, &cells), Ok(expected.clone()));
    cells.swap(3, 11);
    cells.swap(0, 19);
    assert_eq!(Board::from_cells(1, &cells), Ok(expected));
}

#[test]
fn a_board_made_of_cells_is_evaluated() {
    let mut cells = grid(0);
    for index in [2, 4, 6] {
        cells[index].state = CellState::Filled(PlayerTag::O);
    }
    let board = Board::from_cells(0, &cells).unwrap();
    let mut round = RoundInit::new(1);
    assert_eq!(is_game_over(&board, &mut round), Ok(GameState::Won(PlayerTag::O)));
    assert_eq!(round.game_combinations(), &vec![[(0, 2), (1, 1), (2, 0)]]);
}

#[test]
fn a_cell_outside_the_grid_is_reported() {
    let mut cells = grid(0);
    cells[4].cell_coord = (3, 0);
    assert_eq!(
        Board::from_cells(0, &cells),
        Err(BoardError::OutOfBounds { cell_coord: (3, 0) })
    );
    let mut cells = grid(0);
    cells.push(GridCell { cell_coord: (0, 3), state: CellState::Valid });
    assert_eq!(
        Board::from_cells(0, &cells),
        Err(BoardError::OutOfBounds { cell_coord: (0, 3) })
    );
}

#[test]
fn a_second_cell_at_the_same_coordinates_is_reported() {
    let mut cells = grid(0);
    cells.push(GridCell { cell_coord: (1, 1), state: CellState::Filled(PlayerTag::X) });
    assert_eq!(
        Board::from_cells(0, &cells),
        Err(BoardError::DuplicateCell { cell_coord: (1, 1) })
    );
}

#[test]
fn the_first_fault_in_the_list_is_reported() {
    let mut cells = grid(0);
    cells.insert(2, GridCell { cell_coord: (0, 0), state: CellState::Valid });
    cells.insert(5, GridCell { cell_coord: (9, 9), state: CellState::Valid });
    assert_eq!(
        Board::from_cells(0, &cells),
        Err(BoardError::DuplicateCell { cell_coord: (0, 0) })
    );
    cells.swap(2, 5);
    assert_eq!(
        Board::from_cells(0, &cells),
        Err(BoardError::OutOfBounds { cell_coord: (9, 9) })
    );
}

#[test]
fn the_first_position_without_a_cell_is_reported() {
    let mut cells = grid(1);
    cells.remove(13);
    cells.remove(6);
    assert_eq!(
        Board::from_cells(1, &cells),
        Err(BoardError::MissingCell { cell_coord: (1, 2) })
    );
    assert_eq!(
        Board::from_cells(0, &Vec::new()),
        Err(BoardError::MissingCell { cell_coord: (0, 0) })
    );
}

#[test]
fn cells_of_another_round_are_no_board() {
    assert_eq!(
        Board::from_cells(0, &grid(1)),
        Err(BoardError::OutOfBounds { cell_coord: (0, 3) })
    );
    assert_eq!(
        Board::from_cells(1, &grid(0)),
        Err(BoardError::MissingCell { cell_coord: (0, 3) })
    );
}

#[test]
fn a_round_beyond_the_largest_is_refused() {
    assert_eq!(MAX_ROUND, 46_338);
    assert_eq!(
        Board::from_cells(MAX_ROUND + 1, &Vec::new()),
        Err(BoardError::RoundTooLarge { round: MAX_ROUND + 1 })
    );
    assert_eq!(
        Board::from_cells(u32::MAX, &grid(0)),
        Err(BoardError::RoundTooLarge { round: u32::MAX })
    );
}
