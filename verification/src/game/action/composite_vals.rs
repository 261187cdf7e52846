//! What the composite actions are made of.

use vstd::prelude::*;
use crate::game::action::Action;

verus! {

/// The two halves of a capture: the removal of the captured piece and the
/// move of the capturing one.
#[derive(Debug)]
pub struct CaptureVal {
    pub remove_action: Action,
    pub move_action: Action,
}

impl Clone for CaptureVal {
    fn clone(&self) -> (copy: Self)
        ensures
            copy.remove_action@ == self.remove_action@,
            copy.move_action@ == self.move_action@,
    {
        Self { remove_action: self.remove_action.clone(), move_action: self.move_action.clone() }
    }
}

/// A capture made of a removal and a move, in this order.
impl From<[Action; 2]> for CaptureVal {
    fn from(actions: [Action; 2]) -> (val: Self)
        ensures
            val.remove_action@ == actions[0]@,
            val.move_action@ == actions[1]@,
    {
        Self { remove_action: actions[0].clone(), move_action: actions[1].clone() }
    }
}

/// What `from` returns is stated by its contract, over the views of the two
/// actions, and not by `from_spec`.
impl vstd::std_specs::convert::FromSpecImpl<[Action; 2]> for CaptureVal {
    open spec fn obeys_from_spec() -> bool {
        false
    }

    open spec fn from_spec(actions: [Action; 2]) -> Self {
        CaptureVal { remove_action: actions[0], move_action: actions[1] }
    }
}

} // verus!
