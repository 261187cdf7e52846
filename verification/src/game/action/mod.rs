//! The changes that can be made to a board, as values.

pub mod composite_vals;

use vstd::prelude::*;
use std::sync::Arc;
use crate::game::action::composite_vals::CaptureVal;
use crate::game::pieces::Piece;
use crate::game::pieces::PieceView;
use crate::game::pieces::merge_fits;
use crate::game::pieces::MAX_LEVEL;

verus! {

/// One change of the board, with the pieces it concerns as they were when
/// the action was made.
#[derive(Debug)]
pub enum Action {
    /// Puts the piece on its cell.
    Place(Piece),
    /// Takes the piece off the board.
    Remove(Piece),
    /// Moves the piece by the two displacements.
    Move(Piece, i32, i32),
    /// Merges the first piece, which is given up, into the second.
    Upgrade(Piece, Piece),
    /// Several actions carried out as one.
    Composite(Composite),
}

/// The actions that are made of other actions.
#[derive(Debug)]
pub enum Composite {
    /// An enemy piece is removed and the capturing piece moves onto its cell.
    Capture(Arc<CaptureVal>),
}

/// An action as the rules see it.
pub enum ActionView {
    Place(PieceView),
    Remove(PieceView),
    Move(PieceView, int, int),
    Upgrade(PieceView, PieceView),
    Capture(Box<ActionView>, Box<ActionView>),
}

impl View for Action {
    type V = ActionView;

    open spec fn view(&self) -> ActionView
        decreases self,
    {
        match self {
            Action::Place(p) => ActionView::Place(p@),
            Action::Remove(p) => ActionView::Remove(p@),
            Action::Move(p, dx, dy) => ActionView::Move(p@, *dx as int, *dy as int),
            Action::Upgrade(sacrifice, target) => ActionView::Upgrade(sacrifice@, target@),
            Action::Composite(Composite::Capture(c)) => ActionView::Capture(
                Box::new(c.remove_action@),
                Box::new(c.move_action@),
            ),
        }
    }
}

impl ActionView {
    /// Whether every cell and every vector that applying the action computes
    /// is representable: the cell a moved piece arrives on, and the sums that
    /// a merge forms.
    pub open spec fn fits(self) -> bool
        decreases self,
    {
        match self {
            ActionView::Place(_) => true,
            ActionView::Remove(_) => true,
            ActionView::Move(p, dx, dy) => {
                &&& i32::MIN <= p.x + dx <= i32::MAX
                &&& i32::MIN <= p.y + dy <= i32::MAX
            },
            ActionView::Upgrade(sacrifice, target) => target.level + sacrifice.level <= MAX_LEVEL
                ==> merge_fits(target.moves, sacrifice.moves),
            ActionView::Capture(first, second) => first.fits() && second.fits(),
        }
    }
}

impl Action {
    /// Whether the action can be applied without leaving the range of the
    /// machine's integers.
    pub fn fits(&self) -> (fits: bool)
        ensures
            fits == self@.fits(),
        decreases self,
    {
        match self {
            Action::Place(_) => true,
            Action::Remove(_) => true,
            Action::Move(p, dx, dy) => {
                let x: i64 = p.x as i64 + *dx as i64;
                let y: i64 = p.y as i64 + *dy as i64;
                i32::MIN as i64 <= x && x <= i32::MAX as i64 && i32::MIN as i64 <= y && y
                    <= i32::MAX as i64
            },
            Action::Upgrade(sacrifice, target) => {
                target.level as u64 + sacrifice.level as u64 > MAX_LEVEL as u64
                    || target.poss_moves.sums_fit(&sacrifice.poss_moves)
            },
            Action::Composite(Composite::Capture(c)) => {
                c.remove_action.fits() && c.move_action.fits()
            },
        }
    }
}

impl Clone for Action {
    fn clone(&self) -> (copy: Self)
        ensures
            copy@ == self@,
    {
        match self {
            Action::Place(p) => Action::Place(p.clone()),
            Action::Remove(p) => Action::Remove(p.clone()),
            Action::Move(p, dx, dy) => Action::Move(p.clone(), *dx, *dy),
            Action::Upgrade(sacrifice, target) => Action::Upgrade(sacrifice.clone(), target.clone()),
            Action::Composite(c) => Action::Composite(c.clone()),
        }
    }
}

impl Clone for Composite {
    fn clone(&self) -> (copy: Self)
        ensures
            copy == *self,
    {
        match self {
            Composite::Capture(c) => Composite::Capture(Arc::clone(c)),
        }
    }
}

} // verus!
