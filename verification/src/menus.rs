//! The decisions of the start menu and its settings screens.

pub mod display_menu;
pub mod main_menu;
pub mod sound_menu;
