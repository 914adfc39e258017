//! Cascading tic-tac-toe: the rules of a tic-tac-toe variant whose board grows
//! along a diagonal lattice from round to round, carrying the marks already
//! placed into the next, larger board.
//!
//! The crate holds the board topology, the win and draw evaluation and the
//! round and turn state machine, each with a contract that Verus proves.

pub mod board;
pub mod components;
pub mod decimal;
pub mod game_instructions;
pub mod game_scores;
pub mod game_screen;
pub mod in_game_menu;
pub mod menus;
pub mod new_game;
pub mod resources;
pub mod states;
pub mod timer;
pub mod topology;
pub mod winning_logic;

pub use board::{
    board_cell_interaction_system, on_cell_clicked, setup_board, update_cell_state,
    update_cell_text, update_player_turn, Board, BoardError, CellFeedback,
};
pub use components::{
    ButtonResponse, ButtonShade, CameraMenu, DisplaySize, GridCell, Interaction, MenuButtonAction,
    MyMusic, OnDisplaySettingsMenuScreen, OnMainMenuScreen, OnSettingsMenuScreen,
    OnSoundSettingsMenuScreen, ResolutionSettings, SelectedOption, SoundVolume, StateRequests,
};
pub use game_instructions::update_instruction_on_state_change;
pub use game_scores::setup_scores_text;
pub use game_screen::GameScreen;
pub use in_game_menu::{button_interactions, InGameButtonActions};
pub use menus::display_menu::toggle_resolution;
pub use menus::main_menu::{button_system, menu_action, setting_button};
pub use menus::sound_menu::toggle_volume;
pub use new_game::{reload_button_interactions, reload_game};
pub use resources::RoundInit;
pub use states::{
    CellState, GameState, MenuState, Player, PlayerTag, PlayerTurn, PlayingState, RoundState,
};
pub use timer::{time, update_time, TIME};
pub use topology::{generate_invalid_cells, get_index, is_invalid_cell, MAX_ROUND};
pub use winning_logic::{
    generate_winning_combinations, is_draw, is_game_over, is_winner, EvalError, Triple,
};
