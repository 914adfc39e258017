//! The countdown of the game screen as text.

use vstd::prelude::*;
use crate::decimal::{two_digit_string, two_digits};

verus! {

/// The length of the countdown in seconds.
pub const TIME: u16 = 10 * 60;

/// A time span of `seconds` seconds as hours, minutes and seconds, each in
/// at least two digits, with colons between them.
pub open spec fn clock(seconds: nat) -> Seq<char> {
    two_digits(seconds / 3600) + seq![':'] + two_digits(seconds / 60 % 60) + seq![':']
        + two_digits(seconds % 60)
}

/// The time span of `seconds` seconds as text, as `clock` says: `00:10:00`
/// for ten minutes.
pub fn time(seconds: u64) -> (text: String)
    ensures
        text@ == clock(seconds as nat),
{
    let hour = seconds / 3600;
    let minute = seconds / 60 % 60;
    let second = seconds % 60;
    proof {
        reveal_strlit(":");
    }
    let mut text = two_digit_string(hour);
    text.append(":");
    text.append(two_digit_string(minute).as_str());
    text.append(":");
    text.append(two_digit_string(second).as_str());
    assert(text@ =~= clock(seconds as nat));
    text
}

/// The new text of the countdown after a tick: once a full second has just
/// passed, the time that is left of `duration` seconds after `elapsed`
/// seconds; no new text otherwise.
pub fn update_time(unit_just_finished: bool, duration: u64, elapsed: u64) -> (text: Option<String>)
    requires
        elapsed <= duration,
    ensures
        unit_just_finished ==> text.is_some() && text.unwrap()@ == clock(
            (duration - elapsed) as nat,
        ),
        !unit_just_finished ==> text.is_none(),
{
    if unit_just_finished {
        Some(time(duration - elapsed))
    } else {
        None
    }
}

} // verus!
