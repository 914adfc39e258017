//! The instruction line of the game screen: whose turn it is, and how the
//! game ended.

use vstd::prelude::*;
use crate::states::{GameState, PlayerTag, PlayerTurn};

verus! {

/// The instruction that names the player to move.
pub open spec fn turn_text(player_turn: PlayerTurn) -> Seq<char> {
    match player_turn {
        PlayerTurn::X => "Player's turn: X"@,
        PlayerTurn::O => "Player's turn: O"@,
    }
}

/// The instruction that tells how the game ended, for the states that end
/// it.
pub open spec fn result_text(game_state: GameState) -> Option<Seq<char>> {
    match game_state {
        GameState::Won(PlayerTag::X) => Some("X Won!!!"@),
        GameState::Won(PlayerTag::O) => Some("O Won!!!"@),
        GameState::Draw => Some("Draw :-("@),
        _ => None,
    }
}

/// The instruction to show after a change, if any: how the game ended,
/// where the state of the game has changed to one that ends it; else the
/// player to move, where the turn has changed; else none.
pub open spec fn instruction_text(
    turn_changed: bool,
    player_turn: PlayerTurn,
    state_changed: bool,
    game_state: GameState,
) -> Option<Seq<char>> {
    if state_changed && result_text(game_state).is_some() {
        result_text(game_state)
    } else if turn_changed {
        Some(turn_text(player_turn))
    } else {
        None
    }
}

/// The new text of the instruction line, as `instruction_text` says, or
/// nothing where the line stays as it is.
pub fn update_instruction_on_state_change(
    turn_changed: bool,
    player_turn: PlayerTurn,
    state_changed: bool,
    game_state: GameState,
) -> (text: Option<&'static str>)
    ensures
        text.is_some() == instruction_text(
            turn_changed,
            player_turn,
            state_changed,
            game_state,
        ).is_some(),
        text.is_some() ==> text.unwrap()@ == instruction_text(
            turn_changed,
            player_turn,
            state_changed,
            game_state,
        ).unwrap(),
{
    let mut text: Option<&'static str> = None;
    // If player turn changes, update instruction text accordingly
    if turn_changed {
        text = Some(
            match player_turn {
                PlayerTurn::X => "Player's turn: X",
                PlayerTurn::O => "Player's turn: O",
            },
        );
    }
    // If game state changes, update instruction text accordingly
    if state_changed {
        match game_state {
            GameState::Won(PlayerTag::X) => {
                text = Some("X Won!!!");
            },
            GameState::Won(PlayerTag::O) => {
                text = Some("O Won!!!");
            },
            GameState::Draw => {
                text = Some("Draw :-(");
            },
            _ => {},
        }
    }
    text
}

} // verus!
