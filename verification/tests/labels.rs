use cascading_tic_tac_toe::decimal::{decimal_string, two_digit_string};
use cascading_tic_tac_toe::{
    board_cell_interaction_system, setup_scores_text, time, update_cell_text,
    update_instruction_on_state_change, update_time, CellFeedback, CellState, GameState, GridCell,
    Interaction, MenuState, PlayerTag, PlayerTurn, PlayingState, RoundState, TIME,
};

#[test]
fn decimal_digits_of_numbers() {
    assert_eq!(decimal_string(0), "0");
    assert_eq!(decimal_string(7), "7");
    assert_eq!(decimal_string(10), "10");
    assert_eq!(decimal_string(1234567890), "1234567890");
    assert_eq!(decimal_string(u64::MAX), "18446744073709551615");
    for n in 0..2000u64 {
        assert_eq!(decimal_string(n), n.to_string());
    }
}

#[test]
fn two_digits_pad_with_a_zero() {
    assert_eq!(two_digit_string(0), "00");
    assert_eq!(two_digit_string(9), "09");
    assert_eq!(two_digit_string(10), "10");
    assert_eq!(two_digit_string(59), "59");
    assert_eq!(two_digit_string(100), "100");
}

#[test]
fn the_countdown_starts_at_ten_minutes() {
    assert_eq!(TIME, 600);
    assert_eq!(time(TIME as u64), "00:10:00");
}

#[test]
fn time_shows_hours_minutes_and_seconds() {
    assert_eq!(time(0), "00:00:00");
    assert_eq!(time(59), "00:00:59");
    assert_eq!(time(60), "00:01:00");
    assert_eq!(time(3599), "00:59:59");
    assert_eq!(time(3600), "01:00:00");
    assert_eq!(time(3661), "01:01:01");
    assert_eq!(time(86399), "23:59:59");
    assert_eq!(time(360000), "100:00:00");
    assert_eq!(time(u64::MAX), "5124095576030431:00:15");
}

#[test]
fn the_countdown_text_changes_when_a_second_has_passed() {
    assert_eq!(update_time(true, 600, 1), Some("00:09:59".to_string()));
    assert_eq!(update_time(true, 600, 600), Some("00:00:00".to_string()));
    assert_eq!(update_time(true, 600, 0), Some("00:10:00".to_string()));
    assert_eq!(update_time(false, 600, 1), None);
}

#[test]
fn the_score_line_names_both_scores() {
    assert_eq!(setup_scores_text(0, 0), "X Score: 0\nO Score: 0");
    assert_eq!(setup_scores_text(2, 13), "X Score: 2\nO Score: 13");
    assert_eq!(setup_scores_text(u32::MAX, 1), "X Score: 4294967295\nO Score: 1");
}

#[test]
fn the_instruction_names_the_player_to_move() {
    assert_eq!(
        update_instruction_on_state_change(true, PlayerTurn::X, false, GameState::GameOngoing),
        Some("Player's turn: X")
    );
    assert_eq!(
        update_instruction_on_state_change(true, PlayerTurn::O, true, GameState::GameOngoing),
        Some("Player's turn: O")
    );
}

#[test]
fn the_instruction_tells_how_the_game_ended() {
    assert_eq!(
        update_instruction_on_state_change(true, PlayerTurn::O, true, GameState::Won(PlayerTag::X)),
        Some("X Won!!!")
    );
    assert_eq!(
        update_instruction_on_state_change(
            false,
            PlayerTurn::O,
            true,
            GameState::Won(PlayerTag::O)
        ),
        Some("O Won!!!")
    );
    assert_eq!(
        update_instruction_on_state_change(false, PlayerTurn::X, true, GameState::Draw),
        Some("Draw :-(")
    );
}

#[test]
fn the_instruction_stays_without_a_change() {
    assert_eq!(
        update_instruction_on_state_change(false, PlayerTurn::X, false, GameState::Draw),
        None
    );
    assert_eq!(
        update_instruction_on_state_change(false, PlayerTurn::X, true, GameState::GameOngoing),
        None
    );
    assert_eq!(
        update_instruction_on_state_change(false, PlayerTurn::X, true, GameState::NotPlaying),
        None
    );
    // an ended game is told only when the state has changed
    assert_eq!(
        update_instruction_on_state_change(
            true,
            PlayerTurn::X,
            false,
            GameState::Won(PlayerTag::O)
        ),
        Some("Player's turn: X")
    );
}

#[test]
fn cells_show_their_state() {
    assert_eq!(CellState::Valid.label(), "");
    assert_eq!(CellState::Invalid.label(), "-");
    assert_eq!(CellState::Filled(PlayerTag::X).label(), "X");
    assert_eq!(CellState::Filled(PlayerTag::O).label(), "O");
    assert_eq!(CellState::Won(PlayerTag::X).label(), "X");
    assert_eq!(CellState::Won(PlayerTag::O).label(), "O");
    assert_eq!(update_cell_text(PlayerTurn::X), "X");
    assert_eq!(update_cell_text(PlayerTurn::O), "O");
}

#[test]
fn players_are_named_x_and_o() {
    assert_eq!(PlayerTag::X.to_string(), "X");
    assert_eq!(PlayerTag::O.to_string(), "O");
    assert_eq!(PlayerTag::X.opponent(), PlayerTag::O);
    assert_eq!(PlayerTag::O.opponent(), PlayerTag::X);
    assert_eq!(PlayerTurn::X.tag(), PlayerTag::X);
    assert_eq!(PlayerTurn::O.tag(), PlayerTag::O);
    assert_eq!(PlayerTurn::X.flipped(), PlayerTurn::O);
    assert_eq!(PlayerTurn::O.flipped(), PlayerTurn::X);
}

#[test]
fn the_states_start_where_nothing_is_played() {
    assert_eq!(GameState::default(), GameState::NotPlaying);
    assert_eq!(RoundState::default(), RoundState::NotUpdating);
    assert_eq!(PlayingState::default(), PlayingState::NotPlaying);
    assert_eq!(MenuState::default(), MenuState::Main);
}

#[test]
fn a_playable_cell_answers_the_pointer_while_the_game_goes_on() {
    let cell = GridCell { cell_coord: (1, 2), state: CellState::Valid };
    let ongoing = GameState::GameOngoing;
    assert_eq!(
        board_cell_interaction_system(&cell, ongoing, Interaction::Pressed, PlayerTurn::X),
        CellFeedback::Clicked
    );
    assert_eq!(
        board_cell_interaction_system(&cell, ongoing, Interaction::Hovered, PlayerTurn::X),
        CellFeedback::Hover(PlayerTag::X)
    );
    assert_eq!(
        board_cell_interaction_system(&cell, ongoing, Interaction::Hovered, PlayerTurn::O),
        CellFeedback::Hover(PlayerTag::O)
    );
    assert_eq!(
        board_cell_interaction_system(&cell, ongoing, Interaction::Idle, PlayerTurn::O),
        CellFeedback::Cleared
    );
}

#[test]
fn other_cells_and_other_states_are_ignored() {
    for state in [
        CellState::Invalid,
        CellState::Filled(PlayerTag::X),
        CellState::Filled(PlayerTag::O),
        CellState::Won(PlayerTag::X),
    ] {
        let cell = GridCell { cell_coord: (0, 0), state };
        for interaction in [Interaction::Pressed, Interaction::Hovered, Interaction::Idle] {
            assert_eq!(
                board_cell_interaction_system(
                    &cell,
                    GameState::GameOngoing,
                    interaction,
                    PlayerTurn::X
                ),
                CellFeedback::Ignored
            );
        }
    }
    let cell = GridCell { cell_coord: (0, 0), state: CellState::Valid };
    for game_state in [
        GameState::NotPlaying,
        GameState::LoadingNewGame,
        GameState::RestartingGame,
        GameState::Updating,
        GameState::Won(PlayerTag::O),
        GameState::Draw,
    ] {
        assert_eq!(
            board_cell_interaction_system(&cell, game_state, Interaction::Pressed, PlayerTurn::X),
            CellFeedback::Ignored
        );
    }
}
