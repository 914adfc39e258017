//! The display settings: which resolution a button asks for.

use vstd::prelude::*;
use crate::components::{DisplaySize, Interaction, ResolutionSettings};

verus! {

/// The resolution that stands for `display_size`.
pub open spec fn resolution_of(display_size: DisplaySize, resolution: ResolutionSettings) -> (
    u32,
    u32,
) {
    match display_size {
        DisplaySize::Small => resolution.small,
        DisplaySize::Medium => resolution.medium,
        DisplaySize::Large => resolution.large,
    }
}

/// The resolution that the window is to take: that of the button's display
/// size when the button is pressed, none otherwise.
pub fn toggle_resolution(
    interaction: Interaction,
    display_size: DisplaySize,
    resolution: &ResolutionSettings,
) -> (request: Option<(u32, u32)>)
    ensures
        request == if interaction == Interaction::Pressed {
            Some(resolution_of(display_size, *resolution))
        } else {
            None
        },
{
    if interaction == Interaction::Pressed {
        match display_size {
            DisplaySize::Small => Some(resolution.small),
            DisplaySize::Medium => Some(resolution.medium),
            DisplaySize::Large => Some(resolution.large),
        }
    } else {
        None
    }
}

} // verus!
