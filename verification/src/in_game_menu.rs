//! The two buttons of the game screen: back to the main menu, and restart.

use vstd::prelude::*;
use crate::components::{ButtonResponse, ButtonShade, Interaction, StateRequests};
use crate::states::{GameState, MenuState, PlayingState, RoundState};

verus! {

/// The buttons of the game screen.
#[derive(Debug, Clone, Copy, PartialEq, Eq, Hash, Structural)]
pub enum InGameButtonActions {
    MainMenuButton,
    RestartButton,
}

/// The state changes that a button of the game screen asks for when it is
/// pressed. The main menu button leaves the game for the main menu; the
/// restart button has the match restarted. Either way no round update is
/// due any more.
pub open spec fn in_game_requests(action: InGameButtonActions) -> StateRequests {
    match action {
        InGameButtonActions::MainMenuButton => StateRequests {
            menu: Some(MenuState::Main),
            playing: Some(PlayingState::NotPlaying),
            game: Some(GameState::NotPlaying),
            round: Some(RoundState::NotUpdating),
            ..StateRequests::none()
        },
        InGameButtonActions::RestartButton => StateRequests {
            game: Some(GameState::RestartingGame),
            round: Some(RoundState::NotUpdating),
            ..StateRequests::none()
        },
    }
}

/// How a button of the game screen answers the pointer: it is shaded as
/// hovered while the pointer is over it and as normal otherwise, and asks
/// for the state changes of its action when it is pressed.
pub fn button_interactions(interaction: Interaction, action: InGameButtonActions) -> (response:
    ButtonResponse)
    ensures
        response.shade == if interaction == Interaction::Hovered {
            ButtonShade::Hovered
        } else {
            ButtonShade::Normal
        },
        response.requests == if interaction == Interaction::Pressed {
            in_game_requests(action)
        } else {
            StateRequests::none()
        },
{
    let mut requests = StateRequests::none();
    match interaction {
        Interaction::Pressed => {
            match action {
                InGameButtonActions::MainMenuButton => {
                    requests.menu = Some(MenuState::Main);
                    requests.playing = Some(PlayingState::NotPlaying);
                    requests.game = Some(GameState::NotPlaying);
                    requests.round = Some(RoundState::NotUpdating);
                },
                InGameButtonActions::RestartButton => {
                    requests.game = Some(GameState::RestartingGame);
                    requests.round = Some(RoundState::NotUpdating);
                },
            }
            ButtonResponse { shade: ButtonShade::Normal, requests }
        },
        Interaction::Hovered => ButtonResponse { shade: ButtonShade::Hovered, requests },
        Interaction::Idle => ButtonResponse { shade: ButtonShade::Normal, requests },
    }
}

} // verus!
