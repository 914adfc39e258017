//! The "New Game" button: starting local play, and back to a fresh game.

use vstd::prelude::*;
use crate::components::{ButtonResponse, ButtonShade, Interaction, StateRequests};
use crate::states::{GameState, PlayerTurn, PlayingState};

verus! {

/// How the "New Game" button answers the pointer: it is shaded as hovered
/// while the pointer is over it and as normal otherwise, and asks for local
/// play when it is pressed.
pub fn reload_button_interactions(interaction: Interaction) -> (response: ButtonResponse)
    ensures
        response.shade == if interaction == Interaction::Hovered {
            ButtonShade::Hovered
        } else {
            ButtonShade::Normal
        },
        response.requests == if interaction == Interaction::Pressed {
            (StateRequests { playing: Some(PlayingState::Local), ..StateRequests::none() })
        } else {
            StateRequests::none()
        },
{
    let mut requests = StateRequests::none();
    match interaction {
        Interaction::Pressed => {
            requests.playing = Some(PlayingState::Local);
            ButtonResponse { shade: ButtonShade::Normal, requests }
        },
        Interaction::Hovered => ButtonResponse { shade: ButtonShade::Hovered, requests },
        Interaction::Idle => ButtonResponse { shade: ButtonShade::Normal, requests },
    }
}

/// The state changes that bring a fresh game: play stops, the game goes on
/// unless it does already, and player X is to move unless that is so
/// already.
pub fn reload_game(game_state: GameState, player_turn: PlayerTurn) -> (requests: StateRequests)
    ensures
        requests == (StateRequests {
            playing: Some(PlayingState::NotPlaying),
            game: if game_state != GameState::GameOngoing {
                Some(GameState::GameOngoing)
            } else {
                None
            },
            turn: if player_turn != PlayerTurn::X {
                Some(PlayerTurn::X)
            } else {
                None
            },
            ..StateRequests::none()
        }),
{
    let mut requests = StateRequests::none();
    requests.playing = Some(PlayingState::NotPlaying);
    if game_state != GameState::GameOngoing {
        requests.game = Some(GameState::GameOngoing);
    }
    if player_turn != PlayerTurn::X {
        requests.turn = Some(PlayerTurn::X);
    }
    requests
}

} // verus!
