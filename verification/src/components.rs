//! Plain data that the board and the menus are made of.

use vstd::prelude::*;
use crate::states::{CellState, GameState, MenuState, PlayerTurn, PlayingState, RoundState};

verus! {

/// One cell of the board: where it lies and what it holds.
#[derive(Debug, Clone, Copy, PartialEq, Eq)]
pub struct GridCell {
    /// Row and column of the cell; unique within a board.
    pub cell_coord: (u32, u32),
    /// What the cell holds.
    pub state: CellState,
}

/// Marks the camera of the menus.
#[derive(Debug, Clone, Copy, PartialEq, Eq, Hash, Structural)]
pub struct CameraMenu;

/// Marks what is shown on the main menu screen.
#[derive(Debug, Clone, Copy, PartialEq, Eq, Hash, Structural)]
pub struct OnMainMenuScreen;

/// Marks what is shown on the settings menu screen.
#[derive(Debug, Clone, Copy, PartialEq, Eq, Hash, Structural)]
pub struct OnSettingsMenuScreen;

/// Marks what is shown on the display settings menu screen.
#[derive(Debug, Clone, Copy, PartialEq, Eq, Hash, Structural)]
pub struct OnDisplaySettingsMenuScreen;

/// Marks what is shown on the sound settings menu screen.
#[derive(Debug, Clone, Copy, PartialEq, Eq, Hash, Structural)]
pub struct OnSoundSettingsMenuScreen;

/// Marks the button of the setting that is selected.
#[derive(Debug, Clone, Copy, PartialEq, Eq, Hash, Structural)]
pub struct SelectedOption;

/// Marks the background music.
#[derive(Debug, Clone, Copy, PartialEq, Eq, Hash, Structural)]
pub struct MyMusic;

/// What a button of the menus does when it is pressed.
#[derive(Debug, Clone, Copy, PartialEq, Eq, Hash, Structural)]
pub enum MenuButtonAction {
    Play,
    Settings,
    SettingsDisplay,
    SettingsSound,
    BackToMainMenu,
    BackToSettings,
    Quit,
}

/// The volume setting, from `0` to `9`.
#[derive(Debug, Clone, Copy, PartialEq, Eq, Hash, Structural)]
pub struct SoundVolume(pub u32);

/// The display setting.
#[derive(Debug, Clone, Copy, PartialEq, Eq, Hash, Structural)]
pub enum DisplaySize {
    Small,
    Medium,
    Large,
}

/// The window resolutions to select between, each as width and height in
/// whole pixels.
#[derive(Debug, Clone, Copy, PartialEq, Eq)]
pub struct ResolutionSettings {
    pub large: (u32, u32),
    pub medium: (u32, u32),
    pub small: (u32, u32),
}

/// What the pointer does to a button.
#[derive(Debug, Clone, Copy, PartialEq, Eq, Hash, Structural)]
pub enum Interaction {
    /// The button is pressed.
    Pressed,
    /// The pointer is over the button.
    Hovered,
    /// Neither.
    Idle,
}

/// The shade that a button is drawn in.
#[derive(Debug, Clone, Copy, PartialEq, Eq, Hash, Structural)]
pub enum ButtonShade {
    Normal,
    Hovered,
    HoveredPressed,
    Pressed,
}

/// The state changes that a button asks for. A field that holds nothing
/// leaves its state as it is.
#[derive(Debug, Clone, Copy, PartialEq, Eq, Hash, Structural)]
pub struct StateRequests {
    pub menu: Option<MenuState>,
    pub playing: Option<PlayingState>,
    pub game: Option<GameState>,
    pub round: Option<RoundState>,
    pub turn: Option<PlayerTurn>,
    /// Whether the program is to end.
    pub exit: bool,
}

impl StateRequests {
    /// No change at all.
    pub open spec fn spec_none() -> StateRequests {
        StateRequests { menu: None, playing: None, game: None, round: None, turn: None, exit: false }
    }

    /// No change at all.
    #[verifier::when_used_as_spec(spec_none)]
    pub fn none() -> (requests: StateRequests)
        ensures
            requests == StateRequests::spec_none(),
    {
        StateRequests { menu: None, playing: None, game: None, round: None, turn: None, exit: false }
    }
}

/// How a button answers the pointer: its shade and the state changes it
/// asks for.
#[derive(Debug, Clone, Copy, PartialEq, Eq, Hash, Structural)]
pub struct ButtonResponse {
    pub shade: ButtonShade,
    pub requests: StateRequests,
}

} // verus!
