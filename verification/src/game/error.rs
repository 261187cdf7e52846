//! The ways in which the game refuses a request.

use vstd::prelude::*;

verus! {

/// Why a merge, a placement or an action was refused.
#[derive(Debug, Clone, Copy, PartialEq, Eq, Structural)]
pub enum Error {
    /// The levels of the two merging pieces add up to more than a piece can hold.
    LevelTooHigh,
    /// Every attempt to merge two capability sets left some direction without
    /// a fresh vector to contribute.
    MergeStalled,
    /// The team has no piece left to place.
    PlacementBudgetExhausted,
    /// Another piece already stands on the cell.
    CellOccupied,
    /// The piece is not on the board.
    PieceNotFound,
}

impl Error {
    /// The text of [`Error::message`].
    pub open spec fn text(self) -> Seq<char> {
        match self {
            Error::LevelTooHigh => "that level is too high to control"@,
            Error::MergeStalled => "these capabilities cannot be merged"@,
            Error::PlacementBudgetExhausted => "cannot place any more pieces"@,
            Error::CellOccupied => "cannot place on top of another piece"@,
            Error::PieceNotFound => "piece does not exist in this game"@,
        }
    }

    /// A sentence for the player.
    pub fn message(&self) -> (s: String)
        ensures
            s@ == self.text(),
    {
        match self {
            Error::LevelTooHigh => "that level is too high to control".to_owned(),
            Error::MergeStalled => "these capabilities cannot be merged".to_owned(),
            Error::PlacementBudgetExhausted => "cannot place any more pieces".to_owned(),
            Error::CellOccupied => "cannot place on top of another piece".to_owned(),
            Error::PieceNotFound => "piece does not exist in this game".to_owned(),
        }
    }
}

} // verus!
