use vstd::prelude::*;
use crate::actions::base::{
    move_fits,
    spec_apply_move,
    spec_undo_move,
    Bunkerize,
    Goal,
    HuaKill,
};
use crate::actions::move_action::Move;
use crate::board::board_class::BoardView;
use crate::board::positions::PositionNoGoal;

verus! {

/// Whether a board has its eight columns, three goal piles and three
/// bunker slots.
pub open spec fn shaped(board: BoardView) -> bool {
    board.field.len() == 8 && board.goal.len() == 3 && board.bunker.len() == 3
}

/// A goal action that can be made leaves a board to which the board it
/// was made on comes back when the action is taken back.
pub proof fn lemma_goal_round_trip(action: Goal, board: BoardView)
    requires
        shaped(board),
        action.fits(),
        action.spec_can_apply(board),
        action.source matches PositionNoGoal::Field(cell) ==> board.field[cell.spec_column()].len()
            > 0,
        board.goal[action.goal_slot_index as int] matches Some(top) ==> top.value >= 1,
    ensures
        action.spec_undo(action.spec_apply(board)) == board,
{
    if let PositionNoGoal::Field(cell) = action.source {
        cell.lemma_parts();
    }
    let after = action.spec_apply(board);
    let back = action.spec_undo(after);
    match action.source {
        PositionNoGoal::Field(cell) => {
            let column = board.field[cell.spec_column()];
            assert(column.drop_last().push(column.last()) =~= column);
            assert(back.field =~= board.field);
        },
        PositionNoGoal::Bunker { slot_index } => {
            assert(back.field =~= board.field);
        },
    }
    assert(back.bunker =~= board.bunker);
    assert(back.goal =~= board.goal);
}

/// A bunker action that can be made leaves a board to which the board it
/// was made on comes back when the action is taken back.
pub proof fn lemma_bunkerize_round_trip(action: Bunkerize, board: BoardView)
    requires
        shaped(board),
        action.fits(),
        action.spec_can_apply(board),
        action.to_bunker ==> board.field[action.field_position.spec_column()].len() > 0,
    ensures
        action.spec_undo(action.spec_apply(board)) == board,
{
    action.field_position.lemma_parts();
    let back = action.spec_undo(action.spec_apply(board));
    let column = board.field[action.field_position.spec_column()];
    if action.to_bunker {
        assert(column.drop_last().push(column.last()) =~= column);
    } else {
        assert(column.push(action.card.with_hua()).drop_last() =~= column);
    }
    assert(back.field =~= board.field);
    assert(back.bunker =~= board.bunker);
}

/// A kill of the flower that can be made on a board whose flower is not
/// set leaves a board to which that board comes back when the kill is
/// taken back.
pub proof fn lemma_huakill_round_trip(action: HuaKill, board: BoardView)
    requires
        shaped(board),
        action.fits(),
        action.spec_can_apply(board),
        !board.hua_set,
    ensures
        action.spec_undo(action.spec_apply(board)) == board,
{
    action.field_position.lemma_parts();
    let back = action.spec_undo(action.spec_apply(board));
    let column = board.field[action.field_position.spec_column()];
    assert(column.drop_last().push(column.last()) =~= column);
    assert(back.field =~= board.field);
}

/// A move between two columns of the cards that lie on top of its source
/// column leaves a board to which the board it was made on comes back
/// when the move is taken back.
pub proof fn lemma_move_round_trip(action: Move, board: BoardView)
    requires
        shaped(board),
        action.valid(),
        move_fits(action, board),
        action.spec_source().spec_column() != action.spec_destination().spec_column(),
        board.field[action.spec_source().spec_column()].skip(
            board.field[action.spec_source().spec_column()].len() - action.spec_stack_len(),
        ) == action.spec_cards(),
    ensures
        spec_undo_move(action, spec_apply_move(action, board)) == board,
{
    action.spec_source().lemma_parts();
    action.spec_destination().lemma_parts();
    let from = action.spec_source().spec_column();
    let to = action.spec_destination().spec_column();
    let count = action.spec_stack_len() as int;
    let back = spec_undo_move(action, spec_apply_move(action, board));
    let source = board.field[from];
    let target = board.field[to];
    assert(action.spec_cards().len() == count);
    assert((target + action.spec_cards()).take(target.len() as int) =~= target);
    assert(source.take(source.len() - count) + source.skip(source.len() - count) =~= source);
    assert(back.field =~= board.field);
}

} // verus!
