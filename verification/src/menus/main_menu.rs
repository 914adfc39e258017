//! The main menu: where its buttons lead and how they are shaded.

use vstd::prelude::*;
use crate::components::{ButtonShade, Interaction, MenuButtonAction, StateRequests};
use crate::states::{GameState, MenuState, PlayingState};

verus! {

/// The state changes that a menu button asks for when it is pressed. `Play`
/// starts a local game and disables the menu, `Quit` ends the program, and
/// every other button leads to the menu screen it names.
pub open spec fn menu_requests(action: MenuButtonAction) -> StateRequests {
    match action {
        MenuButtonAction::Quit => StateRequests { exit: true, ..StateRequests::none() },
        MenuButtonAction::Play => StateRequests {
            playing: Some(PlayingState::Local),
            game: Some(GameState::LoadingNewGame),
            menu: Some(MenuState::Disabled),
            ..StateRequests::none()
        },
        MenuButtonAction::Settings => StateRequests {
            menu: Some(MenuState::Settings),
            ..StateRequests::none()
        },
        MenuButtonAction::SettingsDisplay => StateRequests {
            menu: Some(MenuState::SettingsDisplay),
            ..StateRequests::none()
        },
        MenuButtonAction::SettingsSound => StateRequests {
            menu: Some(MenuState::SettingsSound),
            ..StateRequests::none()
        },
        MenuButtonAction::BackToMainMenu => StateRequests {
            menu: Some(MenuState::Main),
            ..StateRequests::none()
        },
        MenuButtonAction::BackToSettings => StateRequests {
            menu: Some(MenuState::Settings),
            ..StateRequests::none()
        },
    }
}

/// The state changes that a menu button asks for: those of its action when
/// it is pressed, none otherwise.
pub fn menu_action(interaction: Interaction, menu_button_action: MenuButtonAction) -> (requests:
    StateRequests)
    ensures
        requests == if interaction == Interaction::Pressed {
            menu_requests(menu_button_action)
        } else {
            StateRequests::none()
        },
{
    let mut requests = StateRequests::none();
    if interaction == Interaction::Pressed {
        match menu_button_action {
            MenuButtonAction::Quit => {
                requests.exit = true;
            },
            MenuButtonAction::Play => {
                requests.playing = Some(PlayingState::Local);
                requests.game = Some(GameState::LoadingNewGame);
                requests.menu = Some(MenuState::Disabled);
            },
            MenuButtonAction::Settings => {
                requests.menu = Some(MenuState::Settings);
            },
            MenuButtonAction::SettingsDisplay => {
                requests.menu = Some(MenuState::SettingsDisplay);
            },
            MenuButtonAction::SettingsSound => {
                requests.menu = Some(MenuState::SettingsSound);
            },
            MenuButtonAction::BackToMainMenu => {
                requests.menu = Some(MenuState::Main);
            },
            MenuButtonAction::BackToSettings => {
                requests.menu = Some(MenuState::Settings);
            },
        }
    }
    requests
}

/// The shade of a menu button: pressed while it is pressed, and also while
/// it is the selected option and the pointer is elsewhere; hovered while the
/// pointer is over it, in its own shade if it is the selected option; normal
/// otherwise.
pub fn button_system(interaction: Interaction, selected: bool) -> (shade: ButtonShade)
    ensures
        shade == match (interaction, selected) {
            (Interaction::Pressed, _) => ButtonShade::Pressed,
            (Interaction::Idle, true) => ButtonShade::Pressed,
            (Interaction::Hovered, true) => ButtonShade::HoveredPressed,
            (Interaction::Hovered, false) => ButtonShade::Hovered,
            (Interaction::Idle, false) => ButtonShade::Normal,
        },
{
    match interaction {
        Interaction::Pressed => ButtonShade::Pressed,
        Interaction::Hovered => if selected {
            ButtonShade::HoveredPressed
        } else {
            ButtonShade::Hovered
        },
        Interaction::Idle => if selected {
            ButtonShade::Pressed
        } else {
            ButtonShade::Normal
        },
    }
}

/// Whether the button of a setting becomes the selected option: it is
/// pressed, and its value differs from the one that is set.
pub fn setting_button(interaction: Interaction, differs: bool) -> (select: bool)
    ensures
        select == (interaction == Interaction::Pressed && differs),
{
    interaction == Interaction::Pressed && differs
}

} // verus!
