//! The state enumerations of the game: players, cells and the coarse lifecycle.

use vstd::prelude::*;

verus! {

/// One of the two opposing players.
#[derive(Debug, Clone, Copy, PartialEq, Eq, Hash, Structural)]
pub enum PlayerTag {
    X,
    O,
}

/// A player; another name for `PlayerTag`.
pub type Player = PlayerTag;

impl PlayerTag {
    /// The other player.
    pub open spec fn spec_opponent(self) -> PlayerTag {
        match self {
            PlayerTag::X => PlayerTag::O,
            PlayerTag::O => PlayerTag::X,
        }
    }

    /// The other player.
    #[verifier::when_used_as_spec(spec_opponent)]
    pub fn opponent(self) -> (other: PlayerTag)
        ensures
            other == self.spec_opponent(),
    {
        match self {
            PlayerTag::X => PlayerTag::O,
            PlayerTag::O => PlayerTag::X,
        }
    }
}

impl PlayerTag {
    /// The name of the player: `X` or `O`.
    pub open spec fn name(self) -> Seq<char> {
        match self {
            PlayerTag::X => "X"@,
            PlayerTag::O => "O"@,
        }
    }

    /// The name of the player as text.
    pub fn to_string(&self) -> (text: String)
        ensures
            text@ == self.name(),
    {
        match self {
            PlayerTag::X => String::from_str("X"),
            PlayerTag::O => String::from_str("O"),
        }
    }
}

/// Whose move it is.
#[derive(Debug, Clone, Copy, PartialEq, Eq, Hash, Structural)]
pub enum PlayerTurn {
    X,
    O,
}

impl PlayerTurn {
    /// The player who moves on this turn.
    pub open spec fn spec_tag(self) -> PlayerTag {
        match self {
            PlayerTurn::X => PlayerTag::X,
            PlayerTurn::O => PlayerTag::O,
        }
    }

    /// The player who moves on this turn.
    #[verifier::when_used_as_spec(spec_tag)]
    pub fn tag(self) -> (player: PlayerTag)
        ensures
            player == self.spec_tag(),
    {
        match self {
            PlayerTurn::X => PlayerTag::X,
            PlayerTurn::O => PlayerTag::O,
        }
    }

    /// The turn that follows this one.
    pub open spec fn spec_flipped(self) -> PlayerTurn {
        match self {
            PlayerTurn::X => PlayerTurn::O,
            PlayerTurn::O => PlayerTurn::X,
        }
    }

    /// The turn that follows this one.
    #[verifier::when_used_as_spec(spec_flipped)]
    pub fn flipped(self) -> (next: PlayerTurn)
        ensures
            next == self.spec_flipped(),
    {
        match self {
            PlayerTurn::X => PlayerTurn::O,
            PlayerTurn::O => PlayerTurn::X,
        }
    }
}

/// What a cell of the board holds.
#[derive(Debug, Clone, Copy, PartialEq, Eq, Hash, Structural)]
pub enum CellState {
    /// Empty and playable.
    Valid,
    /// Outside the playable lattice of the current round.
    Invalid,
    /// Marked by a player.
    Filled(PlayerTag),
    /// Part of a credited winning triple of a player.
    Won(PlayerTag),
}

impl CellState {
    /// What a cell shows: nothing while it is playable, a dash while it is
    /// blocked, and the name of the player who holds it.
    pub open spec fn label_text(self) -> Seq<char> {
        match self {
            CellState::Valid => ""@,
            CellState::Invalid => "-"@,
            CellState::Filled(player) => player.name(),
            CellState::Won(player) => player.name(),
        }
    }

    /// The text that the cell shows.
    pub fn label(&self) -> (text: &'static str)
        ensures
            text@ == self.label_text(),
    {
        match self {
            CellState::Valid => "",
            CellState::Invalid => "-",
            CellState::Filled(PlayerTag::X) => "X",
            CellState::Filled(PlayerTag::O) => "O",
            CellState::Won(PlayerTag::X) => "X",
            CellState::Won(PlayerTag::O) => "O",
        }
    }
}

/// The coarse lifecycle of a match.
#[derive(Debug, Clone, Copy, PartialEq, Eq, Hash, Structural)]
pub enum GameState {
    NotPlaying,
    LoadingNewGame,
    RestartingGame,
    GameOngoing,
    Updating,
    Won(PlayerTag),
    Draw,
}

impl Default for GameState {
    fn default() -> (state: GameState)
        ensures
            state == GameState::NotPlaying,
    {
        GameState::NotPlaying
    }
}

/// Whether the score-and-rebuild sequence between two rounds is under way.
#[derive(Debug, Clone, Copy, PartialEq, Eq, Hash, Structural)]
pub enum RoundState {
    NotUpdating,
    UpdatingRound,
}

impl Default for RoundState {
    fn default() -> (state: RoundState)
        ensures
            state == RoundState::NotUpdating,
    {
        RoundState::NotUpdating
    }
}

/// Where the game is played. Only local play exists.
#[derive(Debug, Clone, Copy, PartialEq, Eq, Hash, Structural)]
pub enum PlayingState {
    NotPlaying,
    Loading,
    Local,
    Online,
    VsComputer,
}

impl Default for PlayingState {
    fn default() -> (state: PlayingState)
        ensures
            state == PlayingState::NotPlaying,
    {
        PlayingState::NotPlaying
    }
}

/// The screen of the start menu that is shown.
#[derive(Debug, Clone, Copy, PartialEq, Eq, Hash, Structural)]
pub enum MenuState {
    Main,
    Round,
    RoundTarget,
    RoundTimer,
    Settings,
    SettingsDisplay,
    SettingsSound,
    Disabled,
}

impl Default for MenuState {
    fn default() -> (state: MenuState)
        ensures
            state == MenuState::Main,
    {
        MenuState::Main
    }
}

} // verus!
