use vstd::prelude::*;
use crate::actions::base::All;
use crate::board::board_class::{spec_solved, Board, BoardView};

verus! {

/// Whether the actions can be made one after the other on the board and
/// leave it solved.
pub open spec fn spec_actions_correct(board: BoardView, actions: Seq<All>) -> bool
    decreases actions.len(),
{
    if actions.len() == 0 {
        spec_solved(board)
    } else {
        actions[0].fits(board) && spec_actions_correct(
            actions[0].spec_apply(board),
            actions.drop_first(),
        )
    }
}

/// Whether the actions can be made one after the other on the board and
/// leave it solved.
#[must_use]
pub fn actions_correct(actions: &[All], board: Board) -> (result: bool)
    ensures
        result == spec_actions_correct(board@, actions@),
{
    let mut current = board;
    let mut index: usize = 0;
    assert(actions@.subrange(0, actions@.len() as int) =~= actions@);
    while index < actions.len()
        invariant
            index <= actions@.len(),
            spec_actions_correct(board@, actions@) == spec_actions_correct(
                current@,
                actions@.subrange(index as int, actions@.len() as int),
            ),
        decreases actions@.len() - index,
    {
        let ghost rest = actions@.subrange(index as int, actions@.len() as int);
        proof {
            assert(rest[0] == actions@[index as int]);
            assert(rest.drop_first() =~= actions@.subrange(
                index as int + 1,
                actions@.len() as int,
            ));
        }
        if !actions[index].check_fits(&current) {
            return false;
        }
        actions[index].apply(&mut current);
        index = index + 1;
    }
    current.solved()
}

} // verus!
