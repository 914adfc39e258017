//! The win and draw evaluation: the candidate triples of a round, which of
//! them a player has completed, and what follows for the match.

use vstd::prelude::*;
use crate::board::Board;
use crate::topology::{
    flat_index, get_index, grid_size, in_bounds, is_invalid, num_cols, num_rows, MAX_ROUND,
};
use crate::topology::{
    lemma_flat_index_bound, lemma_grid_size_bound, lemma_is_invalid_closed_form,
};
use crate::components::GridCell;
use crate::resources::RoundInit;
use crate::states::{CellState, GameState, PlayerTag};

verus! {

/// Three cells in a line: a winning triple once one player holds all three.
pub type Triple = [(u32, u32); 3];

/// The triple of the cells `a`, `b` and `c`, in this order.
pub open spec fn triple(a: (u32, u32), b: (u32, u32), c: (u32, u32)) -> Triple {
    [a, b, c]
}

/// The triple that starts at `(x, y)` and goes on by `(dx, dy)` twice.
pub open spec fn line(x: int, y: int, dx: int, dy: int) -> Triple {
    triple(
        (x as u32, y as u32),
        ((x + dx) as u32, (y + dy) as u32),
        ((x + 2 * dx) as u32, (y + 2 * dy) as u32),
    )
}

/// The eight triples of the 3 by 3 block of sub-round `k`, whose corner is
/// `(2k, k)`: its three rows, its three columns and its two diagonals.
pub open spec fn block_triples(k: int) -> Seq<Triple> {
    seq![
        line(2 * k, k, 0, 1),
        line(2 * k + 1, k, 0, 1),
        line(2 * k + 2, k, 0, 1),
        line(2 * k, k, 1, 0),
        line(2 * k, k + 1, 1, 0),
        line(2 * k, k + 2, 1, 0),
        line(2 * k, k, 1, 1),
        line(2 * k, k + 2, 1, -1),
    ]
}

/// The six triples that bridge the block of sub-round `k` and the block
/// before it: four diagonals and two columns.
pub open spec fn reach_back_triples(k: int) -> Seq<Triple> {
    seq![
        line(2 * k - 2, k, 1, 1),
        line(2 * k - 1, k, 1, 1),
        line(2 * k - 1, k - 1, 1, 1),
        line(2 * k, k - 1, 1, 1),
        line(2 * k - 1, k, 1, 0),
        line(2 * k - 1, k + 1, 1, 0),
    ]
}

/// The triples anchored at sub-round `k`: those of its block and, after the
/// first sub-round, those that reach back.
pub open spec fn sub_round_triples(k: nat) -> Seq<Triple> {
    if k == 0 {
        block_triples(0)
    } else {
        block_triples(k as int) + reach_back_triples(k as int)
    }
}

/// The candidate triples of round `n`: those of every sub-round from `0` to
/// `n`, in this order.
pub open spec fn winning_combinations(n: nat) -> Seq<Triple>
    decreases n,
{
    if n == 0 {
        sub_round_triples(0)
    } else {
        winning_combinations((n - 1) as nat) + sub_round_triples(n)
    }
}

/// Whether the three cells of `t` lie in the grid of round `n`.
pub open spec fn triple_in_bounds(n: nat, t: Triple) -> bool {
    &&& in_bounds(n, t[0].0 as int, t[0].1 as int)
    &&& in_bounds(n, t[1].0 as int, t[1].1 as int)
    &&& in_bounds(n, t[2].0 as int, t[2].1 as int)
}

/// Whether round `n` blocks none of the three cells of `t`.
pub open spec fn triple_unblocked(n: nat, t: Triple) -> bool {
    &&& !is_invalid(n, t[0].0 as int, t[0].1 as int)
    &&& !is_invalid(n, t[1].0 as int, t[1].1 as int)
    &&& !is_invalid(n, t[2].0 as int, t[2].1 as int)
}

/// Builds the triple of three cells.
fn triple_of(a: (u32, u32), b: (u32, u32), c: (u32, u32)) -> (t: Triple)
    ensures
        t == triple(a, b, c),
{
    let t = [a, b, c];
    assert(t =~= triple(a, b, c));
    t
}

/// Appends the candidate triples of round `round_init` to `winners`: for each
/// sub-round the three rows, the three columns and the two diagonals of its
/// block, then, after the first sub-round, the six triples that reach back.
pub fn generate_winning_combinations(round_init: u32, winners: &mut Vec<Triple>)
    requires
        2 * round_init + 2 <= u32::MAX,
    ensures
        final(winners)@ == old(winners)@ + winning_combinations(round_init as nat),
{
    let mut n: u32 = 0;
    while n <= round_init
        invariant
            2 * round_init + 2 <= u32::MAX,
            0 <= n <= round_init + 1,
            n == 0 ==> winners@ == old(winners)@,
            n > 0 ==> winners@ == old(winners)@ + winning_combinations((n - 1) as nat),
        decreases round_init + 1 - n,
    {
        let ghost before = winners@;
        // horizontal
        winners.push(triple_of((2 * n, n), (2 * n, n + 1), (2 * n, n + 2)));
        winners.push(triple_of((2 * n + 1, n), (2 * n + 1, n + 1), (2 * n + 1, n + 2)));
        winners.push(triple_of((2 * n + 2, n), (2 * n + 2, n + 1), (2 * n + 2, n + 2)));
        // vertical
        winners.push(triple_of((2 * n, n), (2 * n + 1, n), (2 * n + 2, n)));
        winners.push(triple_of((2 * n, n + 1), (2 * n + 1, n + 1), (2 * n + 2, n + 1)));
        winners.push(triple_of((2 * n, n + 2), (2 * n + 1, n + 2), (2 * n + 2, n + 2)));
        // diagonals
        winners.push(triple_of((2 * n, n), (2 * n + 1, n + 1), (2 * n + 2, n + 2)));
        winners.push(triple_of((2 * n, n + 2), (2 * n + 1, n + 1), (2 * n + 2, n)));
        assert(winners@ =~= before + block_triples(n as int));
        if n > 0 {
            // reach-back
            winners.push(triple_of((2 * n - 2, n), (2 * n - 1, n + 1), (2 * n, n + 2)));
            winners.push(triple_of((2 * n - 1, n), (2 * n, n + 1), (2 * n + 1, n + 2)));
            winners.push(triple_of((2 * n - 1, n - 1), (2 * n, n), (2 * n + 1, n + 1)));
            winners.push(triple_of((2 * n, n - 1), (2 * n + 1, n), (2 * n + 2, n + 1)));
            winners.push(triple_of((2 * n - 1, n), (2 * n, n), (2 * n + 1, n)));
            winners.push(triple_of((2 * n - 1, n + 1), (2 * n, n + 1), (2 * n + 1, n + 1)));
            assert(winners@ =~= before + block_triples(n as int) + reach_back_triples(n as int));
        }
        assert(winners@ =~= old(winners)@ + winning_combinations(n as nat));
        n += 1;
    }
}

/// Round `n` has `8 + 14n` candidate triples.
pub proof fn lemma_winning_combinations_len(n: nat)
    ensures
        winning_combinations(n).len() == 8 + 14 * n,
    decreases n,
{
    if n > 0 {
        lemma_winning_combinations_len((n - 1) as nat);
    }
}

/// The candidate triples of a round are candidates of every later round,
/// at the same place.
pub proof fn lemma_winning_combinations_grow(m: nat, n: nat)
    requires
        m <= n,
    ensures
        winning_combinations(m).len() <= winning_combinations(n).len(),
        forall|i: int|
            0 <= i < winning_combinations(m).len() ==> winning_combinations(n)[i]
                == #[trigger] winning_combinations(m)[i],
    decreases n,
{
    if m < n {
        lemma_winning_combinations_grow(m, (n - 1) as nat);
    }
}

/// Every candidate triple of round `n` lies in the grid of round `n`.
pub proof fn lemma_winning_combinations_in_bounds(n: nat)
    ensures
        forall|i: int|
            0 <= i < winning_combinations(n).len() ==> triple_in_bounds(
                n,
                #[trigger] winning_combinations(n)[i],
            ),
    decreases n,
{
    if n > 0 {
        lemma_winning_combinations_in_bounds((n - 1) as nat);
    }
    assert forall|i: int| 0 <= i < winning_combinations(n).len() implies triple_in_bounds(
        n,
        #[trigger] winning_combinations(n)[i],
    ) by {
        if n > 0 && i < winning_combinations((n - 1) as nat).len() {
            assert(winning_combinations(n)[i] == winning_combinations((n - 1) as nat)[i]);
            assert(triple_in_bounds((n - 1) as nat, winning_combinations((n - 1) as nat)[i]));
        } else {
            let j = if n > 0 {
                i - winning_combinations((n - 1) as nat).len()
            } else {
                i
            };
            assert(winning_combinations(n)[i] == sub_round_triples(n)[j]);
            lemma_sub_round_triples_in_bounds(n, j);
        }
    }
}

/// Every triple anchored at sub-round `k` lies in the grid of round `k`.
proof fn lemma_sub_round_triples_in_bounds(k: nat, j: int)
    requires
        0 <= j < sub_round_triples(k).len(),
    ensures
        triple_in_bounds(k, sub_round_triples(k)[j]),
{
    if j < 8 {
        assert(sub_round_triples(k)[j] == block_triples(k as int)[j]);
    } else {
        assert(sub_round_triples(k)[j] == reach_back_triples(k as int)[j - 8]);
    }
}

/// No triple anchored at a sub-round runs through a cell that a round
/// blocks.
proof fn lemma_sub_round_triples_unblocked(n: nat, k: nat, j: int)
    requires
        2 * k + 2 <= u32::MAX,
        0 <= j < sub_round_triples(k).len(),
    ensures
        triple_unblocked(n, sub_round_triples(k)[j]),
{
    let t = sub_round_triples(k)[j];
    if j < 8 {
        assert(t == block_triples(k as int)[j]);
    } else {
        assert(t == reach_back_triples(k as int)[j - 8]);
    }
    lemma_is_invalid_closed_form(n, t[0].0 as int, t[0].1 as int);
    lemma_is_invalid_closed_form(n, t[1].0 as int, t[1].1 as int);
    lemma_is_invalid_closed_form(n, t[2].0 as int, t[2].1 as int);
}

/// No candidate triple of round `m` runs through a cell that round `n`
/// blocks.
proof fn lemma_candidate_unblocked(n: nat, m: nat, i: int)
    requires
        2 * m + 2 <= u32::MAX,
        0 <= i < winning_combinations(m).len(),
    ensures
        triple_unblocked(n, winning_combinations(m)[i]),
    decreases m,
{
    if m > 0 && i < winning_combinations((m - 1) as nat).len() {
        lemma_candidate_unblocked(n, (m - 1) as nat, i);
    } else {
        let j = if m > 0 {
            i - winning_combinations((m - 1) as nat).len()
        } else {
            i
        };
        assert(winning_combinations(m)[i] == sub_round_triples(m)[j]);
        lemma_sub_round_triples_unblocked(n, m, j);
    }
}

/// The two algorithms agree: no candidate triple of a round runs through a
/// cell that the round blocks.
pub proof fn lemma_winning_combinations_unblocked(n: nat)
    requires
        2 * n + 2 <= u32::MAX,
    ensures
        forall|i: int|
            0 <= i < winning_combinations(n).len() ==> triple_unblocked(
                n,
                #[trigger] winning_combinations(n)[i],
            ),
{
    assert forall|i: int| 0 <= i < winning_combinations(n).len() implies triple_unblocked(
        n,
        #[trigger] winning_combinations(n)[i],
    ) by {
        lemma_candidate_unblocked(n, n, i);
    }
}

/// Why a board could not be evaluated.
#[derive(Debug, Clone, Copy, PartialEq, Eq)]
pub enum EvalError {
    /// The board belongs to another round than the one the match has reached.
    RoundMismatch { board_round: u32, round_count: u32 },
}

/// What the cell at `coord` holds, in the row-major cells of round `n`.
pub open spec fn state_in(n: nat, cells: Seq<GridCell>, coord: (u32, u32)) -> CellState {
    cells[flat_index(coord.0 as int, coord.1 as int, num_cols(n) as int)].state
}

/// Whether `player` holds all three cells of `t`.
pub open spec fn completes(n: nat, cells: Seq<GridCell>, player: PlayerTag, t: Triple) -> bool {
    &&& state_in(n, cells, t[0]) == CellState::Filled(player)
    &&& state_in(n, cells, t[1]) == CellState::Filled(player)
    &&& state_in(n, cells, t[2]) == CellState::Filled(player)
}

/// The credited triples after `candidates` have been scanned for `player`,
/// first to last: each candidate that the player holds and that is not
/// credited yet joins the credited ones.
pub open spec fn credited_after(
    n: nat,
    cells: Seq<GridCell>,
    player: PlayerTag,
    candidates: Seq<Triple>,
    scored: Seq<Triple>,
) -> Seq<Triple>
    decreases candidates.len(),
{
    if candidates.len() == 0 {
        scored
    } else {
        let before = credited_after(n, cells, player, candidates.drop_last(), scored);
        let t = candidates.last();
        if completes(n, cells, player, t) && !before.contains(t) {
            before.push(t)
        } else {
            before
        }
    }
}

/// Whether no cell is left to play: every cell is filled or blocked.
pub open spec fn no_valid_cell(cells: Seq<GridCell>) -> bool {
    forall|i: int| 0 <= i < cells.len() ==> (#[trigger] cells[i]).state != CellState::Valid
}

/// What follows for the match from the scores and the board: a player who
/// has reached the target has won, O before X; if neither has, an exhausted
/// board is a draw; otherwise the game goes on.
pub open spec fn outcome(x_score: int, o_score: int, target: int, draw: bool) -> GameState {
    if o_score >= target {
        GameState::Won(PlayerTag::O)
    } else if x_score >= target {
        GameState::Won(PlayerTag::X)
    } else if draw {
        GameState::Draw
    } else {
        GameState::GameOngoing
    }
}

/// The credited triples after a board of round `n` has been evaluated:
/// first for player X, then for player O.
pub open spec fn evaluated(n: nat, cells: Seq<GridCell>, scored: Seq<Triple>) -> Seq<Triple> {
    credited_after(
        n,
        cells,
        PlayerTag::O,
        winning_combinations(n),
        credited_after(n, cells, PlayerTag::X, winning_combinations(n), scored),
    )
}

/// The points that the evaluation of a board of round `n` brings player X.
pub open spec fn x_gain(n: nat, cells: Seq<GridCell>, scored: Seq<Triple>) -> int {
    credited_after(n, cells, PlayerTag::X, winning_combinations(n), scored).len() - scored.len()
}

/// The points that the evaluation of a board of round `n` brings player O.
pub open spec fn o_gain(n: nat, cells: Seq<GridCell>, scored: Seq<Triple>) -> int {
    evaluated(n, cells, scored).len() - credited_after(
        n,
        cells,
        PlayerTag::X,
        winning_combinations(n),
        scored,
    ).len()
}

/// Scans the candidate triples of the board's round for `player` and credits
/// each one that the player holds and that is not credited yet: the triple
/// joins the credited ones and the player gains a point. Returns whether
/// anything was credited.
pub fn is_winner(board: &Board, player: PlayerTag, round_init: &mut RoundInit) -> (won: bool)
    requires
        board.wf(),
        old(round_init).wf(),
        board.round() == old(round_init).round_count(),
    ensures
        final(round_init).wf(),
        final(round_init).round_count() == old(round_init).round_count(),
        final(round_init).target() == old(round_init).target(),
        final(round_init).score_of(player.opponent())
            == old(round_init).score_of(player.opponent()),
        ({
            let n = board.round() as nat;
            let before = old(round_init).spec_game_combinations();
            let after = final(round_init).spec_game_combinations();
            &&& after == credited_after(
                n,
                board.spec_cells(),
                player,
                winning_combinations(n),
                before,
            )
            &&& forall|t: Triple|
                #![trigger after.contains(t)]
                after.contains(t) <==> (before.contains(t) || (winning_combinations(n).contains(t)
                    && completes(n, board.spec_cells(), player, t)))
            &&& final(round_init).score_of(player) == old(round_init).score_of(player)
                + after.len() - before.len()
            &&& won == (after.len() > before.len())
        }),
{
    let n = board.round();
    let cols: u32 = n + 3;
    let cells = board.cells();
    let ghost scored = round_init.spec_game_combinations();
    let ghost points = round_init.score_of(player);
    let ghost other_points = round_init.score_of(player.opponent());
    let ghost target = round_init.target();
    let mut winning_combinations: Vec<Triple> = Vec::new();
    generate_winning_combinations(n, &mut winning_combinations);
    proof {
        assert(winning_combinations@ =~= self::winning_combinations(n as nat));
        assert(winning_combinations@.take(0) =~= Seq::<Triple>::empty());
        lemma_winning_combinations_in_bounds(n as nat);
        lemma_grid_size_bound(n as nat);
    }
    let mut won = false;
    let mut i: usize = 0;
    while i < winning_combinations.len()
        invariant
            board.wf(),
            board.round() == n,
            n <= MAX_ROUND,
            cols == num_cols(n as nat),
            cells@ == board.spec_cells(),
            winning_combinations@ == self::winning_combinations(n as nat),
            forall|j: int|
                0 <= j < winning_combinations@.len() ==> triple_in_bounds(
                    n as nat,
                    #[trigger] winning_combinations@[j],
                ),
            0 <= i <= winning_combinations@.len(),
            round_init.wf(),
            round_init.round_count() == n,
            round_init.target() == target,
            round_init.spec_game_combinations() == credited_after(
                n as nat,
                cells@,
                player,
                winning_combinations@.take(i as int),
                scored,
            ),
            scored.len() <= round_init.spec_game_combinations().len(),
            round_init.score_of(player) == points + (round_init.spec_game_combinations().len()
                - scored.len()),
            round_init.score_of(player.opponent()) == other_points,
            won == (round_init.spec_game_combinations().len() > scored.len()),
        decreases winning_combinations.len() - i,
    {
        let t: Triple = winning_combinations[i];
        proof {
            assert(winning_combinations@.take(i + 1).drop_last() =~= winning_combinations@.take(
                i as int,
            ));
            assert(winning_combinations@.take(i + 1).last() == t);
            assert(triple_in_bounds(n as nat, winning_combinations@[i as int]));
            lemma_grid_size_bound(n as nat);
            lemma_flat_index_bound(
                t[0].0 as int,
                t[0].1 as int,
                num_rows(n as nat) as int,
                cols as int,
            );
            lemma_flat_index_bound(
                t[1].0 as int,
                t[1].1 as int,
                num_rows(n as nat) as int,
                cols as int,
            );
            lemma_flat_index_bound(
                t[2].0 as int,
                t[2].1 as int,
                num_rows(n as nat) as int,
                cols as int,
            );
        }
        if !round_init.has_scored(&t) {
            let state = CellState::Filled(player);
            let first = cells[get_index(t[0].0, t[0].1, cols)].state;
            let second = cells[get_index(t[1].0, t[1].1, cols)].state;
            let third = cells[get_index(t[2].0, t[2].1, cols)].state;
            if first == state && second == state && third == state {
                round_init.credit(player, t);
                won = true;
            }
        }
        i += 1;
    }
    proof {
        assert(winning_combinations@.take(winning_combinations@.len() as int)
            =~= winning_combinations@);
        assert forall|t: Triple|
            #![trigger round_init.spec_game_combinations().contains(t)]
            round_init.spec_game_combinations().contains(t) <==> (scored.contains(t) || (
                self::winning_combinations(n as nat).contains(t) && completes(
                    n as nat,
                    cells@,
                    player,
                    t,
                ))) by {
            lemma_credited_after_contains(
                n as nat,
                cells@,
                player,
                self::winning_combinations(n as nat),
                scored,
                t,
            );
        }
    }
    won
}

/// Whether the round is a draw: no cell is left to play.
pub fn is_draw(cells: &Vec<GridCell>) -> (draw: bool)
    ensures
        draw == no_valid_cell(cells@),
{
    let mut i: usize = 0;
    while i < cells.len()
        invariant
            0 <= i <= cells@.len(),
            forall|j: int| 0 <= j < i ==> (#[trigger] cells@[j]).state != CellState::Valid,
        decreases cells.len() - i,
    {
        if cells[i].state == CellState::Valid {
            return false;
        }
        i += 1;
    }
    true
}

/// Evaluates the board for the match. Every candidate triple that a player
/// holds and that is not credited yet is credited, one point each, first
/// those of X, then those of O. The result is the state that the match
/// moves to: `Won` for a player whose score has reached the target, `Draw`
/// if neither has and no cell is left to play, `GameOngoing` otherwise.
/// A board of another round than the match has reached is refused, and the
/// match is left as it was.
pub fn is_game_over(board: &Board, round_init: &mut RoundInit) -> (state: Result<
    GameState,
    EvalError,
>)
    requires
        board.wf(),
        old(round_init).wf(),
    ensures
        final(round_init).wf(),
        final(round_init).round_count() == old(round_init).round_count(),
        final(round_init).target() == old(round_init).target(),
        ({
            let n = board.round() as nat;
            let cells = board.spec_cells();
            let before = old(round_init).spec_game_combinations();
            let after = final(round_init).spec_game_combinations();
            if board.round() != old(round_init).round_count() {
                &&& state == Err::<GameState, EvalError>(
                    (EvalError::RoundMismatch {
                        board_round: board.round(),
                        round_count: old(round_init).round_count(),
                    }),
                )
                &&& *final(round_init) == *old(round_init)
            } else {
                &&& after == evaluated(n, cells, before)
                &&& forall|t: Triple|
                    #![trigger after.contains(t)]
                    after.contains(t) <==> (before.contains(t) || (winning_combinations(
                        n,
                    ).contains(t) && (completes(n, cells, PlayerTag::X, t) || completes(
                        n,
                        cells,
                        PlayerTag::O,
                        t,
                    ))))
                &&& final(round_init).x_score() == old(round_init).x_score() + x_gain(
                    n,
                    cells,
                    before,
                )
                &&& final(round_init).o_score() == old(round_init).o_score() + o_gain(
                    n,
                    cells,
                    before,
                )
                &&& state == Ok::<GameState, EvalError>(
                    outcome(
                        final(round_init).x_score() as int,
                        final(round_init).o_score() as int,
                        final(round_init).target() as int,
                        no_valid_cell(cells),
                    ),
                )
            }
        }),
{
    if board.round() != round_init.round_count() {
        return Err(
            EvalError::RoundMismatch {
                board_round: board.round(),
                round_count: round_init.round_count(),
            },
        );
    }
    // Check if player X has won
    is_winner(board, PlayerTag::X, round_init);
    // Check if player O has won
    is_winner(board, PlayerTag::O, round_init);
    let draw = is_draw(board.cells());
    if round_init.o_score() >= round_init.target() {
        Ok(GameState::Won(PlayerTag::O))
    } else if round_init.x_score() >= round_init.target() {
        Ok(GameState::Won(PlayerTag::X))
    } else if draw {
        Ok(GameState::Draw)
    } else {
        Ok(GameState::GameOngoing)
    }
}

/// The state of a cell with the two players exchanged.
pub open spec fn swapped_state(state: CellState) -> CellState {
    match state {
        CellState::Filled(player) => CellState::Filled(player.opponent()),
        CellState::Won(player) => CellState::Won(player.opponent()),
        other => other,
    }
}

/// The cells of a board with the two players exchanged.
pub open spec fn swapped_cells(cells: Seq<GridCell>) -> Seq<GridCell> {
    Seq::new(
        cells.len(),
        |i: int| GridCell { cell_coord: cells[i].cell_coord, state: swapped_state(cells[i].state) },
    )
}

/// The state of a match with the two players exchanged.
pub open spec fn swapped_outcome(state: GameState) -> GameState {
    match state {
        GameState::Won(player) => GameState::Won(player.opponent()),
        other => other,
    }
}

/// Scanning never removes a credited triple.
pub proof fn lemma_credited_after_extends(
    n: nat,
    cells: Seq<GridCell>,
    player: PlayerTag,
    candidates: Seq<Triple>,
    scored: Seq<Triple>,
)
    ensures
        scored.len() <= credited_after(n, cells, player, candidates, scored).len(),
        credited_after(n, cells, player, candidates, scored).take(scored.len() as int) == scored,
    decreases candidates.len(),
{
    if candidates.len() > 0 {
        lemma_credited_after_extends(n, cells, player, candidates.drop_last(), scored);
        let before = credited_after(n, cells, player, candidates.drop_last(), scored);
        assert(before.push(candidates.last()).take(scored.len() as int) =~= before.take(
            scored.len() as int,
        ));
    } else {
        assert(scored.take(scored.len() as int) =~= scored);
    }
}

/// An item is in a sequence with one more item at its end if it is in the
/// sequence or is that item.
proof fn lemma_contains_push<A>(s: Seq<A>, last: A, a: A)
    ensures
        s.push(last).contains(a) <==> (s.contains(a) || last == a),
{
    if s.push(last).contains(a) {
        let i = choose|i: int| 0 <= i < s.push(last).len() && s.push(last)[i] == a;
        if i < s.len() {
            assert(s[i] == a);
        }
    }
    if s.contains(a) {
        let i = choose|i: int| 0 <= i < s.len() && s[i] == a;
        assert(s.push(last)[i] == a);
    }
    if last == a {
        assert(s.push(last)[s.len() as int] == a);
    }
}

/// What is credited after a scan: what was credited before, and every
/// candidate that the player holds.
pub proof fn lemma_credited_after_contains(
    n: nat,
    cells: Seq<GridCell>,
    player: PlayerTag,
    candidates: Seq<Triple>,
    scored: Seq<Triple>,
    t: Triple,
)
    ensures
        credited_after(n, cells, player, candidates, scored).contains(t) <==> (scored.contains(t)
            || (candidates.contains(t) && completes(n, cells, player, t))),
    decreases candidates.len(),
{
    if candidates.len() > 0 {
        let rest = candidates.drop_last();
        let last = candidates.last();
        let before = credited_after(n, cells, player, rest, scored);
        lemma_credited_after_contains(n, cells, player, rest, scored, t);
        assert(candidates =~= rest.push(last));
        lemma_contains_push(rest, last, t);
        lemma_contains_push(before, last, t);
    }
}

/// A scan that finds every held candidate credited already credits nothing.
pub proof fn lemma_credited_after_unchanged(
    n: nat,
    cells: Seq<GridCell>,
    player: PlayerTag,
    candidates: Seq<Triple>,
    scored: Seq<Triple>,
)
    requires
        forall|t: Triple|
            candidates.contains(t) && completes(n, cells, player, t) ==> #[trigger] scored.contains(
                t,
            ),
    ensures
        credited_after(n, cells, player, candidates, scored) == scored,
    decreases candidates.len(),
{
    if candidates.len() > 0 {
        let rest = candidates.drop_last();
        let last = candidates.last();
        assert(candidates =~= rest.push(last));
        assert forall|t: Triple|
            rest.contains(t) && completes(n, cells, player, t) implies #[trigger] scored.contains(
            t,
        ) by {
            lemma_contains_push(rest, last, t);
        }
        lemma_credited_after_unchanged(n, cells, player, rest, scored);
        lemma_contains_push(rest, last, last);
    }
}

/// How many triples a scan credits to a player does not depend on credited
/// triples that the player does not hold.
pub proof fn lemma_gain_ignores_other_triples(
    n: nat,
    cells: Seq<GridCell>,
    player: PlayerTag,
    candidates: Seq<Triple>,
    scored: Seq<Triple>,
    other: Seq<Triple>,
)
    requires
        forall|t: Triple|
            completes(n, cells, player, t) ==> (#[trigger] scored.contains(t) <==> other.contains(
                t,
            )),
    ensures
        credited_after(n, cells, player, candidates, scored).len() - scored.len()
            == credited_after(n, cells, player, candidates, other).len() - other.len(),
        forall|t: Triple|
            completes(n, cells, player, t) ==> (#[trigger] credited_after(
                n,
                cells,
                player,
                candidates,
                scored,
            ).contains(t) <==> credited_after(n, cells, player, candidates, other).contains(t)),
    decreases candidates.len(),
{
    if candidates.len() > 0 {
        let rest = candidates.drop_last();
        let last = candidates.last();
        lemma_gain_ignores_other_triples(n, cells, player, rest, scored, other);
        let before = credited_after(n, cells, player, rest, scored);
        let other_before = credited_after(n, cells, player, rest, other);
        if completes(n, cells, player, last) {
            assert(before.contains(last) <==> other_before.contains(last));
        }
        assert forall|t: Triple| completes(n, cells, player, t) implies (#[trigger] credited_after(
            n,
            cells,
            player,
            candidates,
            scored,
        ).contains(t) <==> credited_after(n, cells, player, candidates, other).contains(t)) by {
            assert(before.contains(t) <==> other_before.contains(t));
            lemma_contains_push(before, last, t);
            lemma_contains_push(other_before, last, t);
        }
    }
}

/// A player holds a triple on a board exactly if the other player holds it
/// on the board with the players exchanged.
proof fn lemma_completes_swapped(n: nat, cells: Seq<GridCell>, player: PlayerTag, t: Triple)
    requires
        cells.len() == grid_size(n),
        triple_in_bounds(n, t),
    ensures
        completes(n, swapped_cells(cells), player.opponent(), t) == completes(
            n,
            cells,
            player,
            t,
        ),
{
    let rows = num_rows(n) as int;
    let cols = num_cols(n) as int;
    lemma_flat_index_bound(t[0].0 as int, t[0].1 as int, rows, cols);
    lemma_flat_index_bound(t[1].0 as int, t[1].1 as int, rows, cols);
    lemma_flat_index_bound(t[2].0 as int, t[2].1 as int, rows, cols);
}

/// Scanning for a player gives what scanning for the other player gives on
/// the board with the players exchanged.
proof fn lemma_credited_after_swapped(
    n: nat,
    cells: Seq<GridCell>,
    player: PlayerTag,
    candidates: Seq<Triple>,
    scored: Seq<Triple>,
)
    requires
        cells.len() == grid_size(n),
        forall|i: int| 0 <= i < candidates.len() ==> triple_in_bounds(n, #[trigger] candidates[i]),
    ensures
        credited_after(n, swapped_cells(cells), player.opponent(), candidates, scored)
            == credited_after(n, cells, player, candidates, scored),
    decreases candidates.len(),
{
    if candidates.len() > 0 {
        let rest = candidates.drop_last();
        assert forall|i: int| 0 <= i < rest.len() implies triple_in_bounds(
            n,
            #[trigger] rest[i],
        ) by {
            assert(rest[i] == candidates[i]);
        }
        lemma_credited_after_swapped(n, cells, player, rest, scored);
        assert(triple_in_bounds(n, candidates[candidates.len() - 1]));
        lemma_completes_swapped(n, cells, player, candidates.last());
    }
}

/// No triple is held by both players.
proof fn lemma_one_holder(n: nat, cells: Seq<GridCell>, t: Triple)
    ensures
        !(completes(n, cells, PlayerTag::X, t) && completes(n, cells, PlayerTag::O, t)),
{
}

/// The points that an evaluation brings one player are those that the
/// player's own scan brings, whether or not the other player was credited
/// first.
proof fn lemma_gains_are_independent(n: nat, cells: Seq<GridCell>, scored: Seq<Triple>)
    ensures
        o_gain(n, cells, scored) == credited_after(
            n,
            cells,
            PlayerTag::O,
            winning_combinations(n),
            scored,
        ).len() - scored.len(),
        x_gain(n, cells, scored) == credited_after(
            n,
            cells,
            PlayerTag::X,
            winning_combinations(n),
            credited_after(n, cells, PlayerTag::O, winning_combinations(n), scored),
        ).len() - credited_after(n, cells, PlayerTag::O, winning_combinations(n), scored).len(),
{
    let candidates = winning_combinations(n);
    let after_x = credited_after(n, cells, PlayerTag::X, candidates, scored);
    let after_o = credited_after(n, cells, PlayerTag::O, candidates, scored);
    assert forall|t: Triple| completes(n, cells, PlayerTag::O, t) implies (
    #[trigger] after_x.contains(t) <==> scored.contains(t)) by {
        lemma_credited_after_contains(n, cells, PlayerTag::X, candidates, scored, t);
        lemma_one_holder(n, cells, t);
    }
    lemma_gain_ignores_other_triples(n, cells, PlayerTag::O, candidates, after_x, scored);
    assert forall|t: Triple| completes(n, cells, PlayerTag::X, t) implies (
    #[trigger] after_o.contains(t) <==> scored.contains(t)) by {
        lemma_credited_after_contains(n, cells, PlayerTag::O, candidates, scored, t);
        lemma_one_holder(n, cells, t);
    }
    lemma_gain_ignores_other_triples(n, cells, PlayerTag::X, candidates, after_o, scored);
}

/// Win detection is symmetric: with the two players exchanged on the board,
/// the scan for one player credits exactly what the scan for the other
/// player credits on the board as it is.
pub proof fn lemma_win_detection_is_symmetric(
    n: nat,
    cells: Seq<GridCell>,
    player: PlayerTag,
    scored: Seq<Triple>,
)
    requires
        cells.len() == grid_size(n),
    ensures
        credited_after(
            n,
            swapped_cells(cells),
            player.opponent(),
            winning_combinations(n),
            scored,
        ) == credited_after(n, cells, player, winning_combinations(n), scored),
{
    lemma_winning_combinations_in_bounds(n);
    lemma_credited_after_swapped(n, cells, player, winning_combinations(n), scored);
}

/// The evaluation is symmetric: with the two players exchanged on the
/// board, each player gains the points that the other gains on the board as
/// it is, and the board is exhausted in the one case exactly if it is in the
/// other. Unless both players reach the target at once, the match then
/// moves to the exchanged state: the other player wins where one player
/// won.
pub proof fn lemma_evaluation_is_symmetric(
    n: nat,
    cells: Seq<GridCell>,
    scored: Seq<Triple>,
    x_score: int,
    o_score: int,
    target: int,
)
    requires
        cells.len() == grid_size(n),
    ensures
        x_gain(n, swapped_cells(cells), scored) == o_gain(n, cells, scored),
        o_gain(n, swapped_cells(cells), scored) == x_gain(n, cells, scored),
        no_valid_cell(swapped_cells(cells)) == no_valid_cell(cells),
        !(x_score >= target && o_score >= target) ==> outcome(
            o_score,
            x_score,
            target,
            no_valid_cell(swapped_cells(cells)),
        ) == swapped_outcome(outcome(x_score, o_score, target, no_valid_cell(cells))),
{
    let candidates = winning_combinations(n);
    let swapped = swapped_cells(cells);
    lemma_gains_are_independent(n, cells, scored);
    lemma_gains_are_independent(n, swapped, scored);
    lemma_win_detection_is_symmetric(n, cells, PlayerTag::O, scored);
    lemma_win_detection_is_symmetric(n, cells, PlayerTag::X, scored);
    lemma_win_detection_is_symmetric(
        n,
        cells,
        PlayerTag::X,
        credited_after(n, cells, PlayerTag::O, candidates, scored),
    );
    if no_valid_cell(cells) {
        assert forall|i: int| 0 <= i < swapped.len() implies (#[trigger] swapped[i]).state
            != CellState::Valid by {
            assert(cells[i].state != CellState::Valid);
        }
    }
    if no_valid_cell(swapped) {
        assert forall|i: int| 0 <= i < cells.len() implies (#[trigger] cells[i]).state
            != CellState::Valid by {
            assert(swapped[i].state != CellState::Valid);
        }
    }
}

/// No triple is credited twice: a second evaluation of an unchanged board
/// credits nothing and brings no player a point.
pub proof fn lemma_evaluation_is_idempotent(n: nat, cells: Seq<GridCell>, scored: Seq<Triple>)
    ensures
        evaluated(n, cells, evaluated(n, cells, scored)) == evaluated(n, cells, scored),
        x_gain(n, cells, evaluated(n, cells, scored)) == 0,
        o_gain(n, cells, evaluated(n, cells, scored)) == 0,
{
    let candidates = winning_combinations(n);
    let once = evaluated(n, cells, scored);
    let after_x = credited_after(n, cells, PlayerTag::X, candidates, scored);
    assert forall|t: Triple|
        candidates.contains(t) && completes(n, cells, PlayerTag::X, t) implies #[trigger] once.contains(
        t,
    ) by {
        lemma_credited_after_contains(n, cells, PlayerTag::X, candidates, scored, t);
        lemma_credited_after_contains(n, cells, PlayerTag::O, candidates, after_x, t);
    }
    lemma_credited_after_unchanged(n, cells, PlayerTag::X, candidates, once);
    assert forall|t: Triple|
        candidates.contains(t) && completes(n, cells, PlayerTag::O, t) implies #[trigger] once.contains(
        t,
    ) by {
        lemma_credited_after_contains(n, cells, PlayerTag::O, candidates, after_x, t);
    }
    lemma_credited_after_unchanged(n, cells, PlayerTag::O, candidates, once);
}

/// A board without a playable cell on which neither player holds a
/// candidate triple is a draw: the evaluation credits nothing, and while
/// neither score has reached the target the match moves to `Draw`.
pub proof fn lemma_exhausted_board_is_draw(
    n: nat,
    cells: Seq<GridCell>,
    scored: Seq<Triple>,
    x_score: int,
    o_score: int,
    target: int,
)
    requires
        no_valid_cell(cells),
        forall|t: Triple| #[trigger]
            winning_combinations(n).contains(t) ==> !completes(n, cells, PlayerTag::X, t)
                && !completes(n, cells, PlayerTag::O, t),
        x_score < target,
        o_score < target,
    ensures
        evaluated(n, cells, scored) == scored,
        x_gain(n, cells, scored) == 0,
        o_gain(n, cells, scored) == 0,
        outcome(
            x_score + x_gain(n, cells, scored),
            o_score + o_gain(n, cells, scored),
            target,
            no_valid_cell(cells),
        ) == GameState::Draw,
{
    let candidates = winning_combinations(n);
    lemma_credited_after_unchanged(n, cells, PlayerTag::X, candidates, scored);
    lemma_credited_after_unchanged(n, cells, PlayerTag::O, candidates, scored);
}

} // verus!
