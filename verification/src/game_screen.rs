//! The round and turn state machine: what the game screen owns, and how a
//! move, an evaluation, a round update and a restart change it.

use vstd::prelude::*;
use crate::board::{
    built_cells, built_state, is_grid, on_cell_clicked, respects_topology, setup_board, Board,
};
use crate::board::{
    lemma_built_cells_respect_topology, lemma_carried_from_grid, lemma_grid_cell_position,
};
use crate::topology::{flat_index, in_bounds, num_cols, num_rows, MAX_ROUND};
use crate::topology::{
    lemma_blocked_cells_are_stable, lemma_flat_index_bound, lemma_flat_index_inverse,
    lemma_grid_size_bound, lemma_is_invalid_closed_form,
};
use crate::components::{GridCell, StateRequests};
use crate::resources::RoundInit;
use crate::states::{CellState, GameState, PlayerTurn, RoundState};
use crate::states::PlayerTag;
use crate::winning_logic::{
    credited_after, evaluated, is_game_over, lemma_credited_after_extends, no_valid_cell, o_gain,
    outcome, state_in, winning_combinations, x_gain, Triple,
};

verus! {

/// The state of the game screen as plain values.
pub struct GameView {
    /// The round reached.
    pub round: nat,
    /// The cells of the board, row by row.
    pub cells: Seq<GridCell>,
    /// The score that wins the match.
    pub target: nat,
    /// The points of player X.
    pub x_score: nat,
    /// The points of player O.
    pub o_score: nat,
    /// The triples credited so far.
    pub credited: Seq<Triple>,
    /// Whose move it is.
    pub turn: PlayerTurn,
    /// Where the match stands.
    pub state: GameState,
    /// Whether a round update is due.
    pub round_state: RoundState,
}

impl GameView {
    /// The cells are the grid of the round, blocked where the round blocks
    /// them and nowhere else, and the target is at least one.
    pub open spec fn wf(self) -> bool {
        &&& self.round <= MAX_ROUND
        &&& is_grid(self.round, self.cells)
        &&& respects_topology(self.round, self.cells)
        &&& self.target >= 1
    }

    /// What the cell `(x, y)` holds.
    pub open spec fn state_at(self, x: int, y: int) -> CellState {
        self.cells[flat_index(x, y, num_cols(self.round) as int)].state
    }
}

/// The screen before the first game: nothing played, player X to move.
pub open spec fn initial_view(target: nat) -> GameView {
    GameView {
        round: 0,
        cells: built_cells(0, Seq::empty()),
        target,
        x_score: 0,
        o_score: 0,
        credited: Seq::empty(),
        turn: PlayerTurn::X,
        state: GameState::NotPlaying,
        round_state: RoundState::NotUpdating,
    }
}

/// Whether a move to `coord` is accepted: the game is going on and the cell
/// exists and is playable.
pub open spec fn move_allowed(v: GameView, coord: (u32, u32)) -> bool {
    &&& v.state == GameState::GameOngoing
    &&& in_bounds(v.round, coord.0 as int, coord.1 as int)
    &&& state_in(v.round, v.cells, coord) == CellState::Valid
}

/// The screen after the cell at `coord` has been marked for the player to
/// move and the turn has passed to the other player.
pub open spec fn after_mark(v: GameView, coord: (u32, u32)) -> GameView {
    GameView {
        cells: v.cells.update(
            flat_index(coord.0 as int, coord.1 as int, num_cols(v.round) as int),
            GridCell { cell_coord: coord, state: CellState::Filled(v.turn.tag()) },
        ),
        turn: v.turn.flipped(),
        ..v
    }
}

/// The screen after the board has been evaluated. While the game is going
/// on, the completed triples are credited and the match moves to the state
/// that the scores and the board give; a draw ends the round only, and asks
/// for the round update. In any other state nothing changes.
pub open spec fn after_evaluation(v: GameView) -> GameView {
    if v.state != GameState::GameOngoing {
        v
    } else {
        let x_score = (v.x_score + x_gain(v.round, v.cells, v.credited)) as nat;
        let o_score = (v.o_score + o_gain(v.round, v.cells, v.credited)) as nat;
        let state = outcome(
            x_score as int,
            o_score as int,
            v.target as int,
            no_valid_cell(v.cells),
        );
        GameView {
            credited: evaluated(v.round, v.cells, v.credited),
            x_score,
            o_score,
            state,
            round_state: if state == GameState::Draw {
                RoundState::UpdatingRound
            } else {
                v.round_state
            },
            ..v
        }
    }
}

/// The screen after a request to play the cell at `coord`: an accepted move
/// marks the cell, passes the turn and evaluates the board; a move that is
/// not accepted changes nothing.
pub open spec fn after_move(v: GameView, coord: (u32, u32)) -> GameView {
    if move_allowed(v, coord) {
        after_evaluation(after_mark(v, coord))
    } else {
        v
    }
}

/// The screen after the round update. Where one is due, the next round
/// begins on a board built from the cells of the one before, and the game
/// goes on. Where none is due nothing changes.
pub open spec fn after_round_update(v: GameView) -> GameView {
    if v.round_state != RoundState::UpdatingRound {
        v
    } else {
        GameView {
            round: v.round + 1,
            cells: built_cells(v.round + 1, v.cells),
            state: GameState::GameOngoing,
            round_state: RoundState::NotUpdating,
            ..v
        }
    }
}

/// The screen after the state changes that a button asked for: each of the
/// two lifecycle states and the turn is the requested one, where one is
/// requested, and stays otherwise.
pub open spec fn after_requests(v: GameView, requests: StateRequests) -> GameView {
    GameView {
        state: match requests.game {
            Some(state) => state,
            None => v.state,
        },
        round_state: match requests.round {
            Some(round_state) => round_state,
            None => v.round_state,
        },
        turn: match requests.turn {
            Some(turn) => turn,
            None => v.turn,
        },
        ..v
    }
}

/// The screen after the match has been started over: round `0` on an empty
/// board, no points, nothing credited, player X to move. The target stays,
/// and so do the two lifecycle states.
pub open spec fn after_restart(v: GameView) -> GameView {
    GameView { state: v.state, round_state: v.round_state, ..initial_view(v.target) }
}

/// What the game screen owns: the board, the accumulator of the match, the
/// player to move and the two lifecycle states.
#[derive(Debug, Clone, PartialEq, Eq)]
pub struct GameScreen {
    board: Board,
    round_init: RoundInit,
    player_turn: PlayerTurn,
    game_state: GameState,
    round_state: RoundState,
}

impl View for GameScreen {
    type V = GameView;

    closed spec fn view(&self) -> GameView {
        GameView {
            round: self.board.round() as nat,
            cells: self.board.spec_cells(),
            target: self.round_init.target() as nat,
            x_score: self.round_init.x_score() as nat,
            o_score: self.round_init.o_score() as nat,
            credited: self.round_init.spec_game_combinations(),
            turn: self.player_turn,
            state: self.game_state,
            round_state: self.round_state,
        }
    }
}

impl GameScreen {
    /// The board.
    pub closed spec fn spec_board(&self) -> Board {
        self.board
    }

    /// The accumulator of the match.
    pub closed spec fn spec_round_init(&self) -> RoundInit {
        self.round_init
    }

    /// Board and accumulator are well formed and belong to the same round,
    /// and the view shows what they hold.
    pub open spec fn wf(&self) -> bool {
        &&& self.spec_board().wf()
        &&& self.spec_round_init().wf()
        &&& self.spec_board().round() == self.spec_round_init().round_count()
        &&& self@.round == self.spec_board().round()
        &&& self@.cells == self.spec_board().spec_cells()
        &&& self@.target == self.spec_round_init().target()
        &&& self@.x_score == self.spec_round_init().x_score()
        &&& self@.o_score == self.spec_round_init().o_score()
        &&& self@.credited == self.spec_round_init().spec_game_combinations()
        &&& self@.wf()
    }

    /// The screen before the first game, for a match to `init_target`
    /// points. A target of `0` is raised to `1`.
    pub fn build(init_target: u32) -> (screen: GameScreen)
        ensures
            screen.wf(),
            screen@ == initial_view(
                if init_target == 0 {
                    1nat
                } else {
                    init_target as nat
                },
            ),
    {
        let none: Vec<GridCell> = Vec::new();
        proof {
            lemma_built_cells_respect_topology(0, none@);
        }
        GameScreen {
            board: setup_board(0, &none),
            round_init: RoundInit::new(init_target),
            player_turn: PlayerTurn::X,
            game_state: GameState::NotPlaying,
            round_state: RoundState::NotUpdating,
        }
    }

    /// The board.
    pub fn board(&self) -> (board: &Board)
        ensures
            *board == self.spec_board(),
    {
        &self.board
    }

    /// The accumulator of the match.
    pub fn round_init(&self) -> (round_init: &RoundInit)
        ensures
            *round_init == self.spec_round_init(),
    {
        &self.round_init
    }

    /// Whose move it is.
    pub fn player_turn(&self) -> (turn: PlayerTurn)
        ensures
            turn == self@.turn,
    {
        self.player_turn
    }

    /// Where the match stands.
    pub fn game_state(&self) -> (state: GameState)
        ensures
            state == self@.state,
    {
        self.game_state
    }

    /// Whether a round update is due.
    pub fn round_state(&self) -> (state: RoundState)
        ensures
            state == self@.round_state,
    {
        self.round_state
    }

    /// Moves the match to `state`; nothing else changes.
    pub fn enter(&mut self, state: GameState)
        requires
            old(self).wf(),
        ensures
            final(self).wf(),
            final(self)@ == (GameView { state, ..old(self)@ }),
    {
        self.game_state = state;
    }

    /// Takes over the state changes that a button asked for, as
    /// `after_requests` says.
    pub fn apply(&mut self, requests: StateRequests)
        requires
            old(self).wf(),
        ensures
            final(self).wf(),
            final(self)@ == after_requests(old(self)@, requests),
    {
        if let Some(state) = requests.game {
            self.game_state = state;
        }
        if let Some(round_state) = requests.round {
            self.round_state = round_state;
        }
        if let Some(turn) = requests.turn {
            self.player_turn = turn;
        }
    }

    /// Ends the loading of the screen: no round update is due any more, and
    /// the game goes on.
    pub fn loading_finished(&mut self)
        requires
            old(self).wf(),
        ensures
            final(self).wf(),
            final(self)@ == (GameView {
                state: GameState::GameOngoing,
                round_state: RoundState::NotUpdating,
                ..old(self)@
            }),
    {
        self.round_state = RoundState::NotUpdating;
        self.game_state = GameState::GameOngoing;
    }

    /// Evaluates the board, as `after_evaluation` says.
    pub fn evaluate(&mut self)
        requires
            old(self).wf(),
        ensures
            final(self).wf(),
            final(self)@ == after_evaluation(old(self)@),
    {
        if self.game_state != GameState::GameOngoing {
            return ;
        }
        match is_game_over(&self.board, &mut self.round_init) {
            Ok(state) => {
                self.game_state = state;
                if state == GameState::Draw {
                    self.round_state = RoundState::UpdatingRound;
                }
            },
            Err(_) => {
                assert(false);
            },
        }
    }

    /// Handles the activation of the cell at `coord`, as `after_move` says.
    /// Returns whether the move was accepted.
    pub fn cell_clicked(&mut self, coord: (u32, u32)) -> (accepted: bool)
        requires
            old(self).wf(),
        ensures
            final(self).wf(),
            accepted == move_allowed(old(self)@, coord),
            final(self)@ == after_move(old(self)@, coord),
    {
        proof {
            lemma_grid_size_bound(self@.round);
            if in_bounds(self@.round, coord.0 as int, coord.1 as int) {
                lemma_grid_cell_position(self@.round, self@.cells, coord.0 as int, coord.1 as int);
            }
        }
        match on_cell_clicked(&mut self.board, self.game_state, self.player_turn, coord) {
            Some(next) => {
                self.player_turn = next;
                assert(self@ == after_mark(old(self)@, coord));
                self.evaluate();
                true
            },
            None => {
                assert(self@ == old(self)@);
                false
            },
        }
    }

    /// Performs the round update, as `after_round_update` says: where one
    /// is due, the round count goes up by one, the board is rebuilt with the
    /// marks of the board before, and the game goes on.
    pub fn update_round(&mut self)
        requires
            old(self).wf(),
            old(self)@.round < MAX_ROUND,
        ensures
            final(self).wf(),
            final(self)@ == after_round_update(old(self)@),
    {
        if self.round_state != RoundState::UpdatingRound {
            return ;
        }
        proof {
            lemma_built_cells_respect_topology(self@.round + 1, self@.cells);
        }
        self.round_init.next_round();
        self.board = setup_board(self.round_init.round_count(), self.board.cells());
        self.loading_finished();
    }

    /// Starts the match over, as `after_restart` says.
    pub fn restart_game(&mut self)
        requires
            old(self).wf(),
        ensures
            final(self).wf(),
            final(self)@ == after_restart(old(self)@),
    {
        let none: Vec<GridCell> = Vec::new();
        proof {
            lemma_built_cells_respect_topology(0, none@);
        }
        self.round_init.reset();
        self.board = setup_board(0, &none);
        self.player_turn = PlayerTurn::X;
    }

    /// Ends the restart: the screen is loaded anew.
    pub fn finished_restarting(&mut self)
        requires
            old(self).wf(),
        ensures
            final(self).wf(),
            final(self)@ == (GameView { state: GameState::LoadingNewGame, ..old(self)@ }),
    {
        self.game_state = GameState::LoadingNewGame;
    }
}


/// Every transition leads from a well-formed screen to a well-formed
/// screen.
pub proof fn lemma_transitions_keep_wf(v: GameView, coord: (u32, u32))
    requires
        v.wf(),
    ensures
        after_move(v, coord).wf(),
        after_evaluation(v).wf(),
        after_restart(v).wf(),
        v.round < MAX_ROUND ==> after_round_update(v).wf(),
{
    lemma_built_cells_respect_topology(0, Seq::empty());
    lemma_built_cells_respect_topology(v.round + 1, v.cells);
    if move_allowed(v, coord) {
        lemma_grid_cell_position(v.round, v.cells, coord.0 as int, coord.1 as int);
    }
}

/// Within a round marks are permanent. A move leaves a blocked cell blocked
/// and a filled cell filled by the same player, and blocks no cell; a
/// playable cell stays playable unless the move is accepted and goes
/// there, in which case the player to move holds it afterwards.
pub proof fn lemma_move_keeps_marks(v: GameView, coord: (u32, u32), x: int, y: int)
    requires
        v.wf(),
        in_bounds(v.round, x, y),
    ensures
        after_move(v, coord).round == v.round,
        ({
            let before = v.state_at(x, y);
            let after = after_move(v, coord).state_at(x, y);
            &&& (before == CellState::Invalid <==> after == CellState::Invalid)
            &&& (before != CellState::Valid ==> after == before)
            &&& (before == CellState::Valid ==> after == if move_allowed(v, coord) && coord == (
                x as u32,
                y as u32,
            ) {
                CellState::Filled(v.turn.tag())
            } else {
                CellState::Valid
            })
        }),
{
    lemma_grid_size_bound(v.round);
    lemma_grid_cell_position(v.round, v.cells, x, y);
    if move_allowed(v, coord) {
        lemma_grid_cell_position(v.round, v.cells, coord.0 as int, coord.1 as int);
    }
}

/// Marks cascade into the next round. After a round update that was due,
/// every cell of the board before holds on the new, larger board what it
/// held before: a filled cell stays filled by the same player, a blocked
/// cell stays blocked and a playable cell stays playable.
pub proof fn lemma_round_update_carries_marks(v: GameView, x: int, y: int)
    requires
        v.wf(),
        v.round < MAX_ROUND,
        v.round_state == RoundState::UpdatingRound,
        in_bounds(v.round, x, y),
    ensures
        after_round_update(v).round == v.round + 1,
        in_bounds(v.round + 1, x, y),
        v.state_at(x, y) is Filled || v.state_at(x, y) == CellState::Invalid || v.state_at(x, y)
            == CellState::Valid ==> after_round_update(v).state_at(x, y) == v.state_at(x, y),
{
    let n = v.round;
    let w = after_round_update(v);
    lemma_grid_size_bound(n);
    lemma_grid_size_bound(n + 1);
    lemma_grid_cell_position(n, v.cells, x, y);
    lemma_flat_index_bound(x, y, num_rows(n + 1) as int, num_cols(n + 1) as int);
    lemma_flat_index_inverse(x, y, num_cols(n + 1) as int);
    lemma_blocked_cells_are_stable(n, x, y);
    lemma_carried_from_grid(n, v.cells, x, y);
    assert(w.state_at(x, y) == built_state(n + 1, v.cells, x, y));
}

/// Credit is never taken back: a move leaves every credited triple where
/// it was in the list, and lowers no score.
pub proof fn lemma_credit_only_grows(v: GameView, coord: (u32, u32))
    ensures
        v.credited.len() <= after_move(v, coord).credited.len(),
        after_move(v, coord).credited.take(v.credited.len() as int) == v.credited,
        v.x_score <= after_move(v, coord).x_score,
        v.o_score <= after_move(v, coord).o_score,
{
    if move_allowed(v, coord) {
        let marked = after_mark(v, coord);
        let candidates = winning_combinations(v.round);
        let after_x = credited_after(v.round, marked.cells, PlayerTag::X, candidates, v.credited);
        lemma_credited_after_extends(v.round, marked.cells, PlayerTag::X, candidates, v.credited);
        lemma_credited_after_extends(v.round, marked.cells, PlayerTag::O, candidates, after_x);
        let all = evaluated(v.round, marked.cells, v.credited);
        assert(all.take(v.credited.len() as int) =~= all.take(after_x.len() as int).take(
            v.credited.len() as int,
        ));
    } else {
        assert(v.credited.take(v.credited.len() as int) =~= v.credited);
    }
}

/// A match that is won is over: no move is accepted any more, and an
/// evaluation changes nothing.
pub proof fn lemma_won_match_is_over(v: GameView, coord: (u32, u32))
    requires
        v.state is Won,
    ensures
        !move_allowed(v, coord),
        after_move(v, coord) == v,
        after_evaluation(v) == v,
{
}

/// A round never begins exhausted: after a round update that was due, the
/// cell in the far corner of the new grid is playable.
pub proof fn lemma_new_round_is_playable(v: GameView)
    requires
        v.wf(),
        v.round < MAX_ROUND,
        v.round_state == RoundState::UpdatingRound,
    ensures
        after_round_update(v).state_at(2 * v.round as int + 4, v.round as int + 3)
            == CellState::Valid,
        !no_valid_cell(after_round_update(v).cells),
{
    let n = v.round;
    let w = after_round_update(v);
    let x = 2 * n + 4;
    let y = n + 3;
    lemma_grid_size_bound(n);
    lemma_grid_size_bound(n + 1);
    lemma_flat_index_bound(x as int, y as int, num_rows(n + 1) as int, num_cols(n + 1) as int);
    lemma_flat_index_inverse(x as int, y as int, num_cols(n + 1) as int);
    lemma_is_invalid_closed_form(n + 1, x as int, y as int);
    lemma_carried_from_grid(n, v.cells, x as int, y as int);
    assert(w.state_at(x as int, y as int) == built_state(n + 1, v.cells, x as int, y as int));
    assert(w.cells[flat_index(x as int, y as int, num_cols(n + 1) as int)].state
        == CellState::Valid);
}

} // verus!
