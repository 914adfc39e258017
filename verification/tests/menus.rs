use cascading_tic_tac_toe::{
    button_interactions, button_system, menu_action, reload_button_interactions, reload_game,
    setting_button, toggle_resolution, toggle_volume, ButtonResponse, ButtonShade, DisplaySize,
    GameState, InGameButtonActions, Interaction, MenuButtonAction, MenuState, PlayerTurn,
    PlayingState, ResolutionSettings, RoundState, SoundVolume, StateRequests,
};

const NOT_PRESSED: [Interaction; 2] = [Interaction::Hovered, Interaction::Idle];

fn menu_only(menu: MenuState) -> StateRequests {
    StateRequests { menu: Some(menu), ..StateRequests::none() }
}

#[test]
fn no_request_asks_for_nothing() {
    assert_eq!(
        StateRequests::none(),
        StateRequests { menu: None, playing: None, game: None, round: None, turn: None, exit: false }
    );
}

#[test]
fn play_starts_a_local_game_and_disables_the_menu() {
    assert_eq!(
        menu_action(Interaction::Pressed, MenuButtonAction::Play),
        StateRequests {
            menu: Some(MenuState::Disabled),
            playing: Some(PlayingState::Local),
            game: Some(GameState::LoadingNewGame),
            round: None,
            turn: None,
            exit: false,
        }
    );
}

#[test]
fn quit_ends_the_program() {
    assert_eq!(
        menu_action(Interaction::Pressed, MenuButtonAction::Quit),
        StateRequests { exit: true, ..StateRequests::none() }
    );
}

#[test]
fn the_other_menu_buttons_lead_to_their_screens() {
    let pressed = Interaction::Pressed;
    assert_eq!(menu_action(pressed, MenuButtonAction::Settings), menu_only(MenuState::Settings));
    assert_eq!(
        menu_action(pressed, MenuButtonAction::SettingsDisplay),
        menu_only(MenuState::SettingsDisplay)
    );
    assert_eq!(
        menu_action(pressed, MenuButtonAction::SettingsSound),
        menu_only(MenuState::SettingsSound)
    );
    assert_eq!(menu_action(pressed, MenuButtonAction::BackToMainMenu), menu_only(MenuState::Main));
    assert_eq!(
        menu_action(pressed, MenuButtonAction::BackToSettings),
        menu_only(MenuState::Settings)
    );
}

#[test]
fn a_menu_button_that_is_not_pressed_asks_for_nothing() {
    for interaction in NOT_PRESSED {
        for action in [
            MenuButtonAction::Play,
            MenuButtonAction::Settings,
            MenuButtonAction::SettingsDisplay,
            MenuButtonAction::SettingsSound,
            MenuButtonAction::BackToMainMenu,
            MenuButtonAction::BackToSettings,
            MenuButtonAction::Quit,
        ] {
            assert_eq!(menu_action(interaction, action), StateRequests::none());
        }
    }
}

#[test]
fn menu_buttons_are_shaded_by_pointer_and_selection() {
    assert_eq!(button_system(Interaction::Pressed, false), ButtonShade::Pressed);
    assert_eq!(button_system(Interaction::Pressed, true), ButtonShade::Pressed);
    assert_eq!(button_system(Interaction::Idle, true), ButtonShade::Pressed);
    assert_eq!(button_system(Interaction::Hovered, true), ButtonShade::HoveredPressed);
    assert_eq!(button_system(Interaction::Hovered, false), ButtonShade::Hovered);
    assert_eq!(button_system(Interaction::Idle, false), ButtonShade::Normal);
}

#[test]
fn a_setting_is_selected_when_pressed_and_different() {
    assert!(setting_button(Interaction::Pressed, true));
    assert!(!setting_button(Interaction::Pressed, false));
    assert!(!setting_button(Interaction::Hovered, true));
    assert!(!setting_button(Interaction::Idle, true));
    assert!(!setting_button(Interaction::Idle, false));
}

#[test]
fn a_pressed_display_button_asks_for_its_resolution() {
    let resolution =
        ResolutionSettings { large: (1920, 1080), medium: (1000, 600), small: (560, 820) };
    let pressed = Interaction::Pressed;
    assert_eq!(toggle_resolution(pressed, DisplaySize::Small, &resolution), Some((560, 820)));
    assert_eq!(toggle_resolution(pressed, DisplaySize::Medium, &resolution), Some((1000, 600)));
    assert_eq!(toggle_resolution(pressed, DisplaySize::Large, &resolution), Some((1920, 1080)));
    for interaction in NOT_PRESSED {
        assert_eq!(toggle_resolution(interaction, DisplaySize::Large, &resolution), None);
    }
}

#[test]
fn a_pressed_volume_button_asks_for_its_loudness() {
    let quarters = [0, 1, 2, 3, 4, 6, 8, 10, 12, 16];
    for (setting, expected) in quarters.iter().enumerate() {
        assert_eq!(
            toggle_volume(Interaction::Pressed, SoundVolume(setting as u32)),
            Some(*expected),
            "setting {setting}"
        );
    }
    assert_eq!(toggle_volume(Interaction::Pressed, SoundVolume(10)), Some(16));
    assert_eq!(toggle_volume(Interaction::Pressed, SoundVolume(u32::MAX)), Some(16));
    for interaction in NOT_PRESSED {
        assert_eq!(toggle_volume(interaction, SoundVolume(7)), None);
    }
}

#[test]
fn the_main_menu_button_leaves_the_game() {
    assert_eq!(
        button_interactions(Interaction::Pressed, InGameButtonActions::MainMenuButton),
        ButtonResponse {
            shade: ButtonShade::Normal,
            requests: StateRequests {
                menu: Some(MenuState::Main),
                playing: Some(PlayingState::NotPlaying),
                game: Some(GameState::NotPlaying),
                round: Some(RoundState::NotUpdating),
                turn: None,
                exit: false,
            },
        }
    );
}

#[test]
fn the_restart_button_restarts_the_match() {
    assert_eq!(
        button_interactions(Interaction::Pressed, InGameButtonActions::RestartButton),
        ButtonResponse {
            shade: ButtonShade::Normal,
            requests: StateRequests {
                menu: None,
                playing: None,
                game: Some(GameState::RestartingGame),
                round: Some(RoundState::NotUpdating),
                turn: None,
                exit: false,
            },
        }
    );
}

#[test]
fn game_screen_buttons_that_are_not_pressed_only_change_shade() {
    for action in [InGameButtonActions::MainMenuButton, InGameButtonActions::RestartButton] {
        assert_eq!(
            button_interactions(Interaction::Hovered, action),
            ButtonResponse { shade: ButtonShade::Hovered, requests: StateRequests::none() }
        );
        assert_eq!(
            button_interactions(Interaction::Idle, action),
            ButtonResponse { shade: ButtonShade::Normal, requests: StateRequests::none() }
        );
    }
}

#[test]
fn the_new_game_button_asks_for_local_play() {
    assert_eq!(
        reload_button_interactions(Interaction::Pressed),
        ButtonResponse {
            shade: ButtonShade::Normal,
            requests: StateRequests {
                playing: Some(PlayingState::Local),
                ..StateRequests::none()
            },
        }
    );
    assert_eq!(
        reload_button_interactions(Interaction::Hovered),
        ButtonResponse { shade: ButtonShade::Hovered, requests: StateRequests::none() }
    );
    assert_eq!(
        reload_button_interactions(Interaction::Idle),
        ButtonResponse { shade: ButtonShade::Normal, requests: StateRequests::none() }
    );
}

#[test]
fn reloading_asks_only_for_what_is_not_so_already() {
    assert_eq!(
        reload_game(GameState::GameOngoing, PlayerTurn::X),
        StateRequests { playing: Some(PlayingState::NotPlaying), ..StateRequests::none() }
    );
    assert_eq!(
        reload_game(GameState::Draw, PlayerTurn::O),
        StateRequests {
            playing: Some(PlayingState::NotPlaying),
            game: Some(GameState::GameOngoing),
            turn: Some(PlayerTurn::X),
            ..StateRequests::none()
        }
    );
    assert_eq!(
        reload_game(GameState::GameOngoing, PlayerTurn::O),
        StateRequests {
            playing: Some(PlayingState::NotPlaying),
            turn: Some(PlayerTurn::X),
            ..StateRequests::none()
        }
    );
}
