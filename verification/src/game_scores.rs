//! The score line of the game screen.

use vstd::prelude::*;
use crate::decimal::{decimal, decimal_string};

verus! {

/// The two scores as text, on two lines.
pub open spec fn scores_text(x_score: nat, o_score: nat) -> Seq<char> {
    "X Score: "@ + decimal(x_score) + "\nO Score: "@ + decimal(o_score)
}

/// The text of the score line for the two scores.
pub fn setup_scores_text(x_score: u32, o_score: u32) -> (label: String)
    ensures
        label@ == scores_text(x_score as nat, o_score as nat),
{
    let mut label = String::new();
    label.append("X Score: ");
    label.append(decimal_string(x_score as u64).as_str());
    label.append("\nO Score: ");
    label.append(decimal_string(o_score as u64).as_str());
    assert(label@ =~= scores_text(x_score as nat, o_score as nat));
    label
}

} // verus!
