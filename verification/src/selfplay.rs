//! Self-play game outcomes and the value labels they give each ply.
use vstd::prelude::*;

verus! {

/// The outcome of a self-play game from white's perspective.
#[derive(Debug, Clone, Copy, PartialEq, Eq, Structural)]
pub enum Outcome {
    WhiteWin,
    BlackWin,
    Draw,
}

/// The value of an outcome from white's side: 1 for a white win, -1 for a
/// black win, 0 for a draw.
pub open spec fn outcome_value(o: Outcome) -> int {
    match o {
        Outcome::WhiteWin => 1,
        Outcome::BlackWin => -1,
        Outcome::Draw => 0,
    }
}

/// The value target of the sample at position `ply` of a game: the outcome's
/// value on even plies (white to move), its negation on odd plies.
pub open spec fn ply_value(o: Outcome, ply: int) -> int {
    if ply % 2 == 0 {
        outcome_value(o)
    } else {
        -outcome_value(o)
    }
}

impl Outcome {
    /// The outcome's value from white's side, as an integer.
    pub fn value(self) -> (v: i8)
        ensures
            v == outcome_value(self),
    {
        match self {
            Outcome::WhiteWin => 1,
            Outcome::BlackWin => -1,
            Outcome::Draw => 0,
        }
    }
}

/// The value label of the sample at position `ply` of a game that ended in
/// `outcome`, flipped for plies played by black.
pub fn ply_label(outcome: Outcome, ply: usize) -> (v: i8)
    ensures
        v == ply_value(outcome, ply as int),
{
    let final_value = outcome.value();
    if ply % 2 == 0 {
        final_value
    } else {
        -final_value
    }
}

/// Neighbouring plies get opposite labels.
pub proof fn lemma_labels_alternate(o: Outcome, ply: int)
    requires
        0 <= ply,
    ensures
        ply_value(o, ply + 1) == -ply_value(o, ply),
{
}

/// A drawn game labels every ply with zero.
pub proof fn lemma_draw_labels_zero(ply: int)
    ensures
        ply_value(Outcome::Draw, ply) == 0,
{
}

/// The first ply of a game carries the outcome's own value.
pub proof fn lemma_first_ply_is_outcome(o: Outcome)
    ensures
        ply_value(o, 0) == outcome_value(o),
{
}

} // verus!
