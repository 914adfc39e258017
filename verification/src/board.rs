//! The board of a round: how it is built from the cells of the board before,
//! how it is made of loose cells, and how a move marks it.

use vstd::prelude::*;
use crate::components::{GridCell, Interaction};
use crate::states::{CellState, GameState, PlayerTag, PlayerTurn};
use crate::topology::{
    blocked_by_sub_round, coord_at, flat_index, get_index, grid_size, in_bounds, is_invalid,
    is_invalid_cell, num_cols, num_rows, MAX_ROUND,
};
use crate::topology::{
    lemma_coord_of_position, lemma_flat_index_bound, lemma_flat_index_inverse,
    lemma_grid_size_bound,
};

verus! {

/// The mark that the cells of `previous` carry to `(x, y)`: that of the last
/// filled cell among them that lies there, if there is one.
pub open spec fn carried_fill(previous: Seq<GridCell>, x: int, y: int) -> Option<PlayerTag>
    decreases previous.len(),
{
    if previous.len() == 0 {
        None
    } else {
        let cell = previous.last();
        match cell.state {
            CellState::Filled(player) if cell.cell_coord.0 == x && cell.cell_coord.1 == y => Some(
                player,
            ),
            _ => carried_fill(previous.drop_last(), x, y),
        }
    }
}

/// What the cell `(x, y)` of a newly built board of round `n` holds, given
/// the cells that were on the board before. Round `0` is all playable. In a
/// later round a blocked cell is `Invalid`, whatever was there before;
/// another cell keeps the mark it carried, and is playable if it carried
/// none.
pub open spec fn built_state(n: nat, previous: Seq<GridCell>, x: int, y: int) -> CellState {
    if n == 0 {
        CellState::Valid
    } else if is_invalid(n, x, y) {
        CellState::Invalid
    } else {
        match carried_fill(previous, x, y) {
            Some(player) => CellState::Filled(player),
            None => CellState::Valid,
        }
    }
}

/// The cells of a newly built board of round `n`, row by row.
pub open spec fn built_cells(n: nat, previous: Seq<GridCell>) -> Seq<GridCell> {
    Seq::new(
        grid_size(n),
        |i: int|
            GridCell {
                cell_coord: coord_at(n, i),
                state: built_state(n, previous, coord_at(n, i).0 as int, coord_at(n, i).1 as int),
            },
    )
}

/// Whether `cells` are the cells of the grid of round `n`, row by row: one
/// for each position, with the coordinates of its position.
pub open spec fn is_grid(n: nat, cells: Seq<GridCell>) -> bool {
    &&& cells.len() == grid_size(n)
    &&& forall|i: int|
        0 <= i < cells.len() ==> (#[trigger] cells[i]).cell_coord == coord_at(n, i)
}

/// Whether `cells` are blocked where round `n` blocks them, and nowhere
/// else.
pub open spec fn respects_topology(n: nat, cells: Seq<GridCell>) -> bool {
    forall|i: int|
        0 <= i < cells.len() ==> ((#[trigger] cells[i]).state == CellState::Invalid <==> is_invalid(
            n,
            cells[i].cell_coord.0 as int,
            cells[i].cell_coord.1 as int,
        ))
}

/// The board of one round: its cells in row-major order, each at the
/// position that its coordinates name.
#[derive(Debug, Clone, PartialEq, Eq)]
pub struct Board {
    round: u32,
    cells: Vec<GridCell>,
}

impl Board {
    /// The round that the board belongs to.
    pub closed spec fn spec_round(&self) -> u32 {
        self.round
    }

    /// The cells of the board, row by row.
    pub closed spec fn spec_cells(&self) -> Seq<GridCell> {
        self.cells@
    }

    /// The board holds each cell of its round's grid once, at its row-major
    /// position.
    pub open spec fn wf(&self) -> bool {
        &&& self.spec_round() <= MAX_ROUND
        &&& is_grid(self.spec_round() as nat, self.spec_cells())
    }

    /// What the cell `(x, y)` holds.
    pub open spec fn state_at(&self, x: int, y: int) -> CellState {
        self.spec_cells()[flat_index(x, y, num_cols(self.spec_round() as nat) as int)].state
    }

    /// The round that the board belongs to.
    #[verifier::when_used_as_spec(spec_round)]
    pub fn round(&self) -> (n: u32)
        ensures
            n == self.spec_round(),
    {
        self.round
    }

    /// The cells of the board, row by row.
    pub fn cells(&self) -> (cells: &Vec<GridCell>)
        ensures
            cells@ == self.spec_cells(),
    {
        &self.cells
    }

    /// What the cell `(x, y)` holds; nothing where the grid has no such cell.
    pub fn state(&self, x: u32, y: u32) -> (state: Option<CellState>)
        requires
            self.wf(),
        ensures
            state == if in_bounds(self.round() as nat, x as int, y as int) {
                Some(self.state_at(x as int, y as int))
            } else {
                None
            },
    {
        let rows: u32 = 2 * self.round + 3;
        let cols: u32 = self.round + 3;
        if x < rows && y < cols {
            proof {
                lemma_grid_size_bound(self.round as nat);
                lemma_flat_index_bound(x as int, y as int, rows as int, cols as int);
            }
            Some(self.cells[get_index(x, y, cols)].state)
        } else {
            None
        }
    }
}

/// Builds the board of round `n`. Round `0` is a 3 by 3 board of playable
/// cells. In a later round the blocked cells are found first; every other
/// cell keeps the mark that `previous`, the cells of the board before, hold
/// at its coordinates, and is playable where they hold none.
pub fn setup_board(n: u32, previous: &Vec<GridCell>) -> (board: Board)
    requires
        n <= MAX_ROUND,
    ensures
        board.wf(),
        board.round() == n,
        board.spec_cells() == built_cells(n as nat, previous@),
        forall|x: int, y: int|
            in_bounds(n as nat, x, y) ==> #[trigger] board.state_at(x, y) == built_state(
                n as nat,
                previous@,
                x,
                y,
            ),
{
    let rows: u32 = 2 * n + 3;
    let cols: u32 = n + 3;
    let ghost none = Seq::<GridCell>::empty();
    proof {
        lemma_grid_size_bound(n as nat);
    }
    let mut cells: Vec<GridCell> = Vec::new();
    let mut x: u32 = 0;
    while x < rows
        invariant
            n <= MAX_ROUND,
            rows == num_rows(n as nat),
            cols == num_cols(n as nat),
            rows * cols <= u32::MAX,
            0 <= x <= rows,
            none == Seq::<GridCell>::empty(),
            cells@.len() == x * cols,
            forall|i: int|
                0 <= i < cells@.len() ==> (#[trigger] cells@[i]) == (GridCell {
                    cell_coord: coord_at(n as nat, i),
                    state: built_state(
                        n as nat,
                        none,
                        coord_at(n as nat, i).0 as int,
                        coord_at(n as nat, i).1 as int,
                    ),
                }),
        decreases rows - x,
    {
        let mut y: u32 = 0;
        while y < cols
            invariant
                n <= MAX_ROUND,
                rows == num_rows(n as nat),
                cols == num_cols(n as nat),
                rows * cols <= u32::MAX,
                0 <= x < rows,
                0 <= y <= cols,
                none == Seq::<GridCell>::empty(),
                cells@.len() == x * cols + y,
                forall|i: int|
                    0 <= i < cells@.len() ==> (#[trigger] cells@[i]) == (GridCell {
                        cell_coord: coord_at(n as nat, i),
                        state: built_state(
                            n as nat,
                            none,
                            coord_at(n as nat, i).0 as int,
                            coord_at(n as nat, i).1 as int,
                        ),
                    }),
            decreases cols - y,
        {
            let state = if n > 0 && is_invalid_cell(n, x, y) {
                CellState::Invalid
            } else {
                CellState::Valid
            };
            proof {
                lemma_flat_index_inverse(x as int, y as int, cols as int);
                lemma_flat_index_bound(x as int, y as int, rows as int, cols as int);
            }
            cells.push(GridCell { cell_coord: (x, y), state });
            y += 1;
        }
        assert(x * cols + cols == (x + 1) * cols) by (nonlinear_arith);
        x += 1;
    }
    assert(previous@.take(0) =~= none);
    if n > 0 {
        let mut i: usize = 0;
        while i < previous.len()
            invariant
                0 < n <= MAX_ROUND,
                rows == num_rows(n as nat),
                cols == num_cols(n as nat),
                rows * cols <= u32::MAX,
                0 <= i <= previous.len(),
                cells@.len() == rows * cols,
                forall|j: int|
                    0 <= j < cells@.len() ==> (#[trigger] cells@[j]) == (GridCell {
                        cell_coord: coord_at(n as nat, j),
                        state: built_state(
                            n as nat,
                            previous@.take(i as int),
                            coord_at(n as nat, j).0 as int,
                            coord_at(n as nat, j).1 as int,
                        ),
                    }),
            decreases previous.len() - i,
        {
            let cell = previous[i];
            let (cx, cy) = cell.cell_coord;
            proof {
                assert(previous@.take(i + 1).drop_last() =~= previous@.take(i as int));
                assert(previous@.take(i + 1).last() == cell);
                assert forall|j: int| 0 <= j < rows * cols implies ({
                    let c = #[trigger] coord_at(n as nat, j);
                    c.0 < rows && c.1 < cols && flat_index(c.0 as int, c.1 as int, cols as int)
                        == j
                }) by {
                    lemma_coord_of_position(j, rows as int, cols as int);
                }
            }
            match cell.state {
                CellState::Filled(player) => {
                    if cx < rows && cy < cols && !is_invalid_cell(n, cx, cy) {
                        proof {
                            lemma_flat_index_bound(
                                cx as int,
                                cy as int,
                                rows as int,
                                cols as int,
                            );
                            lemma_flat_index_inverse(cx as int, cy as int, cols as int);
                        }
                        let index = get_index(cx, cy, cols);
                        cells.set(index, GridCell { cell_coord: (cx, cy), state: cell.state });
                    }
                },
                _ => {},
            }
            i += 1;
        }
        assert(previous@.take(previous.len() as int) =~= previous@);
    }
    let board = Board { round: n, cells };
    proof {
        assert(board.spec_cells() =~= built_cells(n as nat, previous@));
        assert forall|x: int, y: int| in_bounds(n as nat, x, y) implies #[trigger] board.state_at(
            x,
            y,
        ) == built_state(n as nat, previous@, x, y) by {
            lemma_flat_index_bound(x, y, rows as int, cols as int);
            lemma_flat_index_inverse(x, y, cols as int);
        }
    }
    board
}

/// Why a list of cells is not the board of a round.
#[derive(Debug, Clone, Copy, PartialEq, Eq)]
pub enum BoardError {
    /// The grid of the round cannot be counted in a `u32`.
    RoundTooLarge { round: u32 },
    /// A cell lies outside the grid of the round.
    OutOfBounds { cell_coord: (u32, u32) },
    /// Two cells lie at the same coordinates.
    DuplicateCell { cell_coord: (u32, u32) },
    /// The grid has a position that no cell lies at.
    MissingCell { cell_coord: (u32, u32) },
}

/// The row-major position of `cell` in the grid of round `n`.
pub open spec fn position(n: nat, cell: GridCell) -> int {
    flat_index(cell.cell_coord.0 as int, cell.cell_coord.1 as int, num_cols(n) as int)
}

/// Whether the cell at `i` lies outside the grid of round `n`.
pub open spec fn out_of_grid(n: nat, cells: Seq<GridCell>, i: int) -> bool {
    !in_bounds(n, cells[i].cell_coord.0 as int, cells[i].cell_coord.1 as int)
}

/// Whether the cell at `i` lies where an earlier cell lies.
pub open spec fn repeated(cells: Seq<GridCell>, i: int) -> bool {
    exists|j: int| 0 <= j < i && (#[trigger] cells[j]).cell_coord == cells[i].cell_coord
}

/// Whether the first `i` cells lie in the grid of round `n`, no two of them
/// at the same coordinates.
pub open spec fn clean_up_to(n: nat, cells: Seq<GridCell>, i: int) -> bool {
    forall|j: int| 0 <= j < i ==> !#[trigger] out_of_grid(n, cells, j) && !repeated(cells, j)
}

/// Whether one of the cells lies at `coord`.
pub open spec fn has_cell_at(cells: Seq<GridCell>, coord: (u32, u32)) -> bool {
    exists|j: int| 0 <= j < cells.len() && (#[trigger] cells[j]).cell_coord == coord
}

/// Whether one of the first `i` cells lies at the row-major position `at`
/// of the grid of round `n`.
pub open spec fn covered(n: nat, cells: Seq<GridCell>, i: int, at: int) -> bool {
    exists|j: int| 0 <= j < i && #[trigger] position(n, cells[j]) == at
}

impl Board {
    /// Makes the board of round `n` out of its cells, given in any order.
    /// Each position of the grid must be taken by exactly one cell. The
    /// first cell that lies outside the grid or where an earlier cell lies
    /// is reported; if there is none, the first position of the grid, row by
    /// row, that no cell lies at.
    pub fn from_cells(n: u32, cells: &Vec<GridCell>) -> (result: Result<Board, BoardError>)
        ensures
            match result {
                Ok(board) => {
                    &&& n <= MAX_ROUND
                    &&& clean_up_to(n as nat, cells@, cells@.len() as int)
                    &&& forall|at: int|
                        0 <= at < grid_size(n as nat) ==> has_cell_at(
                            cells@,
                            #[trigger] coord_at(n as nat, at),
                        )
                    &&& board.wf()
                    &&& board.round() == n
                    &&& forall|j: int|
                        0 <= j < cells@.len() ==> board.state_at(
                            (#[trigger] cells@[j]).cell_coord.0 as int,
                            cells@[j].cell_coord.1 as int,
                        ) == cells@[j].state
                },
                Err(BoardError::RoundTooLarge { round }) => round == n && n > MAX_ROUND,
                Err(BoardError::OutOfBounds { cell_coord }) => {
                    &&& n <= MAX_ROUND
                    &&& exists|i: int|
                        0 <= i < cells@.len() && clean_up_to(n as nat, cells@, i) && (
                        #[trigger] cells@[i]).cell_coord == cell_coord && out_of_grid(
                            n as nat,
                            cells@,
                            i,
                        )
                },
                Err(BoardError::DuplicateCell { cell_coord }) => {
                    &&& n <= MAX_ROUND
                    &&& exists|i: int|
                        0 <= i < cells@.len() && clean_up_to(n as nat, cells@, i) && (
                        #[trigger] cells@[i]).cell_coord == cell_coord && !out_of_grid(
                            n as nat,
                            cells@,
                            i,
                        ) && repeated(cells@, i)
                },
                Err(BoardError::MissingCell { cell_coord }) => {
                    &&& n <= MAX_ROUND
                    &&& clean_up_to(n as nat, cells@, cells@.len() as int)
                    &&& exists|at: int|
                        0 <= at < grid_size(n as nat) && #[trigger] coord_at(n as nat, at)
                            == cell_coord && !has_cell_at(cells@, cell_coord) && forall|k: int|
                            0 <= k < at ==> has_cell_at(cells@, #[trigger] coord_at(n as nat, k))
                },
            },
    {
        if n > MAX_ROUND {
            return Err(BoardError::RoundTooLarge { round: n });
        }
        let rows: u32 = 2 * n + 3;
        let cols: u32 = n + 3;
        proof {
            lemma_grid_size_bound(n as nat);
        }
        let size: usize = (rows * cols) as usize;
        let blank: Vec<GridCell> = Vec::new();
        let mut board = setup_board(n, &blank);
        let mut seen: Vec<bool> = Vec::new();
        let mut at: usize = 0;
        while at < size
            invariant
                0 <= at <= size,
                seen@.len() == at,
                forall|k: int| 0 <= k < at ==> !(#[trigger] seen@[k]),
            decreases size - at,
        {
            seen.push(false);
            at += 1;
        }
        proof {
            assert forall|at: int| 0 <= at < size implies ({
                let c = #[trigger] coord_at(n as nat, at);
                c.0 < rows && c.1 < cols && flat_index(c.0 as int, c.1 as int, cols as int) == at
            }) by {
                lemma_coord_of_position(at, rows as int, cols as int);
            }
        }
        let mut i: usize = 0;
        while i < cells.len()
            invariant
                n <= MAX_ROUND,
                rows == num_rows(n as nat),
                cols == num_cols(n as nat),
                size == grid_size(n as nat),
                size <= u32::MAX,
                0 <= i <= cells@.len(),
                board.wf(),
                board.round() == n,
                seen@.len() == size,
                clean_up_to(n as nat, cells@, i as int),
                forall|at: int|
                    0 <= at < size ==> (#[trigger] seen@[at] <==> covered(
                        n as nat,
                        cells@,
                        i as int,
                        at,
                    )),
                forall|j: int|
                    0 <= j < i ==> board.state_at(
                        (#[trigger] cells@[j]).cell_coord.0 as int,
                        cells@[j].cell_coord.1 as int,
                    ) == cells@[j].state,
                forall|at: int|
                    0 <= at < size ==> ({
                        let c = #[trigger] coord_at(n as nat, at);
                        c.0 < rows && c.1 < cols && flat_index(
                            c.0 as int,
                            c.1 as int,
                            cols as int,
                        ) == at
                    }),
            decreases cells.len() - i,
        {
            let cell = cells[i];
            let (x, y) = cell.cell_coord;
            if !(x < rows && y < cols) {
                return Err(BoardError::OutOfBounds { cell_coord: cell.cell_coord });
            }
            proof {
                lemma_flat_index_bound(x as int, y as int, rows as int, cols as int);
                lemma_flat_index_inverse(x as int, y as int, cols as int);
                assert forall|j: int| 0 <= j < i implies (position(n as nat, cells@[j])
                    == position(n as nat, cell) <==> (#[trigger] cells@[j]).cell_coord
                    == cell.cell_coord) by {
                    assert(!out_of_grid(n as nat, cells@, j));
                    lemma_flat_index_inverse(
                        cells@[j].cell_coord.0 as int,
                        cells@[j].cell_coord.1 as int,
                        cols as int,
                    );
                }
            }
            let index = get_index(x, y, cols);
            if seen[index] {
                proof {
                    let j = choose|j: int|
                        0 <= j < i && #[trigger] position(n as nat, cells@[j]) == index;
                    assert(cells@[j].cell_coord == cell.cell_coord);
                }
                return Err(BoardError::DuplicateCell { cell_coord: cell.cell_coord });
            }
            proof {
                assert(!covered(n as nat, cells@, i as int, index as int));
                if repeated(cells@, i as int) {
                    let j = choose|j: int|
                        0 <= j < i && (#[trigger] cells@[j]).cell_coord == cells@[i as int].cell_coord;
                    assert(position(n as nat, cells@[j]) == index);
                }
            }
            let ghost before = board;
            seen.set(index, true);
            board.cells.set(index, cell);
            proof {
                assert(clean_up_to(n as nat, cells@, i + 1));
                assert forall|at: int| 0 <= at < size implies (#[trigger] seen@[at] <==> covered(
                    n as nat,
                    cells@,
                    i + 1,
                    at,
                )) by {
                    if covered(n as nat, cells@, i as int, at) {
                        let j = choose|j: int|
                            0 <= j < i && #[trigger] position(n as nat, cells@[j]) == at;
                        assert(position(n as nat, cells@[j]) == at);
                    }
                    if covered(n as nat, cells@, i + 1, at) {
                        let j = choose|j: int|
                            0 <= j < i + 1 && #[trigger] position(n as nat, cells@[j]) == at;
                        if j < i {
                            assert(covered(n as nat, cells@, i as int, at));
                        }
                    }
                    if at == index {
                        assert(position(n as nat, cells@[i as int]) == at);
                    }
                }
                assert forall|j: int| 0 <= j < i + 1 implies board.state_at(
                    (#[trigger] cells@[j]).cell_coord.0 as int,
                    cells@[j].cell_coord.1 as int,
                ) == cells@[j].state by {
                    if j < i {
                        assert(!out_of_grid(n as nat, cells@, j));
                        lemma_flat_index_bound(
                            cells@[j].cell_coord.0 as int,
                            cells@[j].cell_coord.1 as int,
                            rows as int,
                            cols as int,
                        );
                        assert(position(n as nat, cells@[j]) != index);
                        assert(before.state_at(
                            cells@[j].cell_coord.0 as int,
                            cells@[j].cell_coord.1 as int,
                        ) == cells@[j].state);
                    }
                }
            }
            i += 1;
        }
        let mut at: usize = 0;
        while at < size
            invariant
                n <= MAX_ROUND,
                rows == num_rows(n as nat),
                cols == num_cols(n as nat),
                size == grid_size(n as nat),
                size <= u32::MAX,
                0 <= at <= size,
                seen@.len() == size,
                clean_up_to(n as nat, cells@, cells@.len() as int),
                forall|k: int|
                    0 <= k < size ==> (#[trigger] seen@[k] <==> covered(
                        n as nat,
                        cells@,
                        cells@.len() as int,
                        k,
                    )),
                forall|k: int| 0 <= k < at ==> has_cell_at(cells@, #[trigger] coord_at(n as nat, k)),
                forall|k: int|
                    0 <= k < size ==> ({
                        let c = #[trigger] coord_at(n as nat, k);
                        c.0 < rows && c.1 < cols && flat_index(
                            c.0 as int,
                            c.1 as int,
                            cols as int,
                        ) == k
                    }),
            decreases size - at,
        {
            if !seen[at] {
                let cell_coord = ((at / cols as usize) as u32, (at % cols as usize) as u32);
                proof {
                    assert(cell_coord == coord_at(n as nat, at as int));
                    if has_cell_at(cells@, cell_coord) {
                        let j = choose|j: int|
                            0 <= j < cells@.len() && (#[trigger] cells@[j]).cell_coord == cell_coord;
                        assert(position(n as nat, cells@[j]) == at);
                        assert(covered(n as nat, cells@, cells@.len() as int, at as int));
                    }
                }
                return Err(BoardError::MissingCell { cell_coord });
            }
            proof {
                let j = choose|j: int|
                    0 <= j < cells@.len() && #[trigger] position(n as nat, cells@[j]) == at;
                assert(!out_of_grid(n as nat, cells@, j));
                lemma_flat_index_inverse(
                    cells@[j].cell_coord.0 as int,
                    cells@[j].cell_coord.1 as int,
                    cols as int,
                );
                assert(cells@[j].cell_coord == coord_at(n as nat, at as int));
            }
            at += 1;
        }
        Ok(board)
    }
}

/// Whether a move to `coord` is accepted: the game is going on and the cell
/// exists and is playable.
pub open spec fn move_accepted(board: Board, game_state: GameState, coord: (u32, u32)) -> bool {
    &&& game_state == GameState::GameOngoing
    &&& in_bounds(board.round() as nat, coord.0 as int, coord.1 as int)
    &&& board.state_at(coord.0 as int, coord.1 as int) == CellState::Valid
}

/// Marks `cell` for the player whose turn it is.
pub fn update_cell_state(cell: &mut GridCell, player_turn: PlayerTurn)
    ensures
        final(cell).cell_coord == old(cell).cell_coord,
        final(cell).state == CellState::Filled(player_turn.tag()),
{
    cell.state = match player_turn {
        PlayerTurn::X => CellState::Filled(PlayerTag::X),
        PlayerTurn::O => CellState::Filled(PlayerTag::O),
    };
}

/// The turn after `player_turn`: the other player's.
pub fn update_player_turn(player_turn: PlayerTurn) -> (next: PlayerTurn)
    ensures
        next == player_turn.flipped(),
{
    match player_turn {
        PlayerTurn::X => PlayerTurn::O,
        PlayerTurn::O => PlayerTurn::X,
    }
}

/// Handles the activation of the cell at `coord`. Where the game is going
/// on and the cell is playable, the cell is marked for the player whose turn
/// it is and the turn that follows is returned. Otherwise nothing changes
/// and nothing is returned.
pub fn on_cell_clicked(
    board: &mut Board,
    game_state: GameState,
    player_turn: PlayerTurn,
    coord: (u32, u32),
) -> (next: Option<PlayerTurn>)
    requires
        old(board).wf(),
    ensures
        final(board).wf(),
        final(board).round() == old(board).round(),
        move_accepted(*old(board), game_state, coord) ==> {
            &&& next == Some(player_turn.flipped())
            &&& final(board).spec_cells() == old(board).spec_cells().update(
                flat_index(
                    coord.0 as int,
                    coord.1 as int,
                    num_cols(old(board).round() as nat) as int,
                ),
                (GridCell { cell_coord: coord, state: CellState::Filled(player_turn.tag()) }),
            )
        },
        !move_accepted(*old(board), game_state, coord) ==> {
            &&& next == None::<PlayerTurn>
            &&& final(board).spec_cells() == old(board).spec_cells()
        },
{
    if game_state != GameState::GameOngoing {
        return None;
    }
    match board.state(coord.0, coord.1) {
        Some(CellState::Valid) => {
            let cols: u32 = board.round + 3;
            proof {
                lemma_grid_size_bound(board.round as nat);
                lemma_flat_index_bound(
                    coord.0 as int,
                    coord.1 as int,
                    num_rows(board.round as nat) as int,
                    cols as int,
                );
                lemma_flat_index_inverse(coord.0 as int, coord.1 as int, cols as int);
            }
            let index = get_index(coord.0, coord.1, cols);
            let mut cell = board.cells[index];
            update_cell_state(&mut cell, player_turn);
            board.cells.set(index, cell);
            Some(update_player_turn(player_turn))
        },
        _ => None,
    }
}

/// How a cell of the board answers the pointer.
#[derive(Debug, Clone, Copy, PartialEq, Eq, Hash, Structural)]
pub enum CellFeedback {
    /// The cell takes no part: it is not playable, or no game is going on.
    Ignored,
    /// The cell was activated: a move to it is requested.
    Clicked,
    /// The pointer is over the cell: it shows the mark of the player to move.
    Hover(PlayerTag),
    /// The pointer has left the cell: it shows nothing again.
    Cleared,
}

/// How the cell answers the pointer. A cell that is not playable, and any
/// cell while no game is going on, is ignored. Otherwise a press activates
/// the cell, the pointer over it shows the mark of the player to move,
/// and the pointer elsewhere takes that mark away again.
pub fn board_cell_interaction_system(
    cell: &GridCell,
    game_state: GameState,
    interaction: Interaction,
    player_turn: PlayerTurn,
) -> (feedback: CellFeedback)
    ensures
        feedback == if cell.state != CellState::Valid || game_state != GameState::GameOngoing {
            CellFeedback::Ignored
        } else {
            match interaction {
                Interaction::Pressed => CellFeedback::Clicked,
                Interaction::Hovered => CellFeedback::Hover(player_turn.tag()),
                Interaction::Idle => CellFeedback::Cleared,
            }
        },
{
    if cell.state != CellState::Valid || game_state != GameState::GameOngoing {
        return CellFeedback::Ignored;
    }
    match interaction {
        Interaction::Pressed => CellFeedback::Clicked,
        Interaction::Hovered => CellFeedback::Hover(player_turn.tag()),
        Interaction::Idle => CellFeedback::Cleared,
    }
}

/// The text of a cell that the player to move has just marked.
pub fn update_cell_text(player_turn: PlayerTurn) -> (text: &'static str)
    ensures
        text@ == player_turn.tag().name(),
{
    match player_turn {
        PlayerTurn::X => "X",
        PlayerTurn::O => "O",
    }
}

/// In the grid of a round the cell `(x, y)` stands at its row-major
/// position, and nowhere else.
pub proof fn lemma_grid_cell_position(n: nat, cells: Seq<GridCell>, x: int, y: int)
    requires
        n <= MAX_ROUND,
        is_grid(n, cells),
        in_bounds(n, x, y),
    ensures
        0 <= flat_index(x, y, num_cols(n) as int) < cells.len(),
        cells[flat_index(x, y, num_cols(n) as int)].cell_coord == (x as u32, y as u32),
        forall|i: int|
            0 <= i < cells.len() && (#[trigger] cells[i]).cell_coord == (x as u32, y as u32) ==> i
                == flat_index(x, y, num_cols(n) as int),
{
    let rows = num_rows(n) as int;
    let cols = num_cols(n) as int;
    lemma_grid_size_bound(n);
    lemma_flat_index_bound(x, y, rows, cols);
    lemma_flat_index_inverse(x, y, cols);
    assert forall|i: int|
        0 <= i < cells.len() && (#[trigger] cells[i]).cell_coord == (
            x as u32,
            y as u32,
        ) implies i == flat_index(x, y, cols) by {
        lemma_coord_of_position(i, rows, cols);
    }
}

/// No cell `(x, y)` is among `cells`.
pub open spec fn no_cell_at(cells: Seq<GridCell>, x: int, y: int) -> bool {
    forall|j: int|
        0 <= j < cells.len() ==> !((#[trigger] cells[j]).cell_coord.0 == x && cells[j].cell_coord.1
            == y)
}

/// Cells that do not lie at `(x, y)` carry nothing there.
pub proof fn lemma_carried_fill_absent(cells: Seq<GridCell>, x: int, y: int)
    requires
        no_cell_at(cells, x, y),
    ensures
        carried_fill(cells, x, y) == None::<PlayerTag>,
    decreases cells.len(),
{
    if cells.len() > 0 {
        assert(!(cells[cells.len() - 1].cell_coord.0 == x && cells[cells.len() - 1].cell_coord.1
            == y));
        lemma_carried_fill_absent(cells.drop_last(), x, y);
    }
}

/// Where one cell alone lies at `(x, y)`, it decides what is carried there:
/// its mark if it is filled, nothing otherwise.
pub proof fn lemma_carried_fill_single(cells: Seq<GridCell>, x: int, y: int, at: int)
    requires
        0 <= at < cells.len(),
        cells[at].cell_coord.0 == x,
        cells[at].cell_coord.1 == y,
        forall|j: int|
            0 <= j < cells.len() && j != at ==> !((#[trigger] cells[j]).cell_coord.0 == x
                && cells[j].cell_coord.1 == y),
    ensures
        carried_fill(cells, x, y) == match cells[at].state {
            CellState::Filled(player) => Some(player),
            _ => None,
        },
    decreases cells.len(),
{
    let rest = cells.drop_last();
    if at == cells.len() - 1 {
        assert forall|j: int| 0 <= j < rest.len() implies !((#[trigger] rest[j]).cell_coord.0 == x
            && rest[j].cell_coord.1 == y) by {
            assert(rest[j] == cells[j]);
        }
        lemma_carried_fill_absent(rest, x, y);
    } else {
        assert(!(cells[cells.len() - 1].cell_coord.0 == x && cells[cells.len() - 1].cell_coord.1
            == y));
        assert forall|j: int| 0 <= j < rest.len() && j != at implies !((
        #[trigger] rest[j]).cell_coord.0 == x && rest[j].cell_coord.1 == y) by {
            assert(rest[j] == cells[j]);
        }
        lemma_carried_fill_single(rest, x, y, at);
    }
}

/// What the grid of a round carries: at a cell of the grid the mark of that
/// cell, if it is filled, and nothing anywhere else.
pub proof fn lemma_carried_from_grid(n: nat, cells: Seq<GridCell>, x: int, y: int)
    requires
        n <= MAX_ROUND,
        is_grid(n, cells),
        0 <= x <= u32::MAX,
        0 <= y <= u32::MAX,
    ensures
        carried_fill(cells, x, y) == if in_bounds(n, x, y) {
            match cells[flat_index(x, y, num_cols(n) as int)].state {
                CellState::Filled(player) => Some(player),
                _ => None,
            }
        } else {
            None
        },
{
    let rows = num_rows(n) as int;
    let cols = num_cols(n) as int;
    lemma_grid_size_bound(n);
    if in_bounds(n, x, y) {
        lemma_grid_cell_position(n, cells, x, y);
        lemma_carried_fill_single(cells, x, y, flat_index(x, y, cols));
    } else {
        assert forall|j: int| 0 <= j < cells.len() implies !((#[trigger] cells[j]).cell_coord.0
            == x && cells[j].cell_coord.1 == y) by {
            lemma_coord_of_position(j, rows, cols);
        }
        lemma_carried_fill_absent(cells, x, y);
    }
}

/// A newly built board is the grid of its round, blocked where the round
/// blocks it and nowhere else.
pub proof fn lemma_built_cells_respect_topology(n: nat, previous: Seq<GridCell>)
    ensures
        is_grid(n, built_cells(n, previous)),
        respects_topology(n, built_cells(n, previous)),
{
    let cells = built_cells(n, previous);
    assert forall|i: int| 0 <= i < cells.len() implies ((#[trigger] cells[i]).state
        == CellState::Invalid <==> is_invalid(
        n,
        cells[i].cell_coord.0 as int,
        cells[i].cell_coord.1 as int,
    )) by {
        lemma_invalid_cells_independent_of_fills(
            n,
            previous,
            previous,
            coord_at(n, i).0 as int,
            coord_at(n, i).1 as int,
        );
    }
}

/// Which cells of a newly built board are blocked depends on the round
/// alone: a cell is `Invalid` exactly if `is_invalid` names it, whatever the
/// board before held.
pub proof fn lemma_invalid_cells_independent_of_fills(
    n: nat,
    previous: Seq<GridCell>,
    other: Seq<GridCell>,
    x: int,
    y: int,
)
    ensures
        built_state(n, previous, x, y) == CellState::Invalid <==> is_invalid(n, x, y),
        built_state(n, previous, x, y) == CellState::Invalid <==> built_state(n, other, x, y)
            == CellState::Invalid,
{
    if n == 0 && is_invalid(n, x, y) {
        let k = choose|k: int| 1 <= k <= n && #[trigger] blocked_by_sub_round(k, x, y);
        assert(false);
    }
}

/// A mark is carried into the next round: a cell that `player` has filled
/// on the board of round `n`, unless round `n + 1` blocks it, is filled by
/// the same player on the board that is built from it for round `n + 1`.
pub proof fn lemma_round_carry(board: Board, x: int, y: int, player: PlayerTag)
    requires
        board.wf(),
        in_bounds(board.round() as nat, x, y),
        board.state_at(x, y) == CellState::Filled(player),
        !is_invalid(board.round() as nat + 1, x, y),
    ensures
        built_state(board.round() as nat + 1, board.spec_cells(), x, y) == CellState::Filled(
            player,
        ),
{
    lemma_grid_size_bound(board.round() as nat);
    lemma_carried_from_grid(board.round() as nat, board.spec_cells(), x, y);
}

/// Round `0` is the classic board: three rows, three columns, nine cells,
/// each of them playable whatever was there before.
pub proof fn lemma_first_round_is_classic(previous: Seq<GridCell>, x: int, y: int)
    ensures
        num_rows(0) == 3,
        num_cols(0) == 3,
        grid_size(0) == 9,
        built_state(0, previous, x, y) == CellState::Valid,
{
}

} // verus!
