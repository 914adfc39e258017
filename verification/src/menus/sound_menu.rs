//! The sound settings: which loudness a volume button asks for.

use vstd::prelude::*;
use crate::components::{Interaction, SoundVolume};

verus! {

/// The loudness of a volume setting, in quarters of the normal loudness:
/// quarter steps up to the normal loudness at setting `4`, half steps up to
/// three times at setting `8`, and four times at `9` and above.
pub open spec fn volume_quarters(volume: SoundVolume) -> u32 {
    if volume.0 <= 4 {
        volume.0
    } else if volume.0 <= 8 {
        (2 * volume.0 - 4) as u32
    } else {
        16
    }
}

/// The loudness that the music is to take, in quarters of the normal
/// loudness: that of the button's setting when the button is pressed, none
/// otherwise.
pub fn toggle_volume(interaction: Interaction, sound_volume: SoundVolume) -> (request: Option<u32>)
    ensures
        request == if interaction == Interaction::Pressed {
            Some(volume_quarters(sound_volume))
        } else {
            None
        },
{
    if interaction == Interaction::Pressed {
        let quarters: u32 = match sound_volume.0 {
            0 => 0,
            1 => 1,
            2 => 2,
            3 => 3,
            4 => 4,
            5 => 6,
            6 => 8,
            7 => 10,
            8 => 12,
            _ => 16,
        };
        Some(quarters)
    } else {
        None
    }
}

} // verus!
