use vstd::prelude::*;
use crate::actions::base::All;
use crate::board::board_class::{spec_solved, Board};
use crate::solving::adapter::{LoopMoveAvoider, Unique};
use crate::solving::benchmark::{actions_correct, spec_actions_correct};
use crate::solving::board_state_iterator::BoardStateIterator;

verus! {

/// No way to solve the board was found.
#[derive(Debug, Clone, Copy, PartialEq, Eq)]
pub struct Error {}

impl Error {
    /// What the error says.
    pub fn message(&self) -> (result: &'static str)
        ensures
            result@ == "Board options exhausted, no solution found"@,
    {
        "Board options exhausted, no solution found"
    }
}

/// Looks for actions that solve the board: walks through the boards that
/// can be reached, depth first, and leaves boards that it has seen before
/// and boards that a loop move led to.
pub fn solve(solboard: &Board) -> (result: Result<Vec<All>, Error>)
    ensures
        result matches Ok(actions) ==> spec_actions_correct(solboard@, actions@),
        spec_solved(solboard@) ==> (result matches Ok(actions) && actions@.len() == 0),
{
    if solboard.solved() {
        return Ok(Vec::new());
    }
    let mut stack = LoopMoveAvoider::new(Unique::new(BoardStateIterator::new(solboard.duplicate())));
    loop
        invariant
            stack.base().wf(),
            !spec_solved(solboard@),
        decreases stack.base().budget(),
    {
        if !stack.next() {
            return Err(Error {  });
        }
        if stack.board().solved() {
            let actions = stack.action_stack();
            if actions_correct(actions.as_slice(), solboard.duplicate()) {
                return Ok(actions);
            }
        }
    }
}

} // verus!
