use vstd::prelude::*;
use crate::actions::base::All;
use crate::actions::possibilities::filter_actions;
use crate::board::board_class::{Board, BoardView};
use crate::solving::action_board::{ActionBoard, Record};
use crate::solving::stack_frame::{FrameView, StackFrame};

verus! {

/// A walk as values: the board with the actions that were made on it,
/// the frames from the outermost to the innermost, and the steps that
/// the walk may still take.
pub struct Walk {
    pub record: Record,
    pub frames: Seq<FrameView>,
    pub budget: nat,
}

/// The frames as values, one for one.
pub open spec fn frame_views(frames: Seq<StackFrame>) -> Seq<FrameView> {
    Seq::new(frames.len(), |i: int| frames[i]@)
}

/// The walk after it has left the board that it stood on for the next
/// one that has not been tried. The last action is taken back and the
/// innermost frame goes on to its next action; if it has one, that action
/// is made. If it has none, the frame is dropped and the same is done
/// with the frame before it. With no frame left the walk stays as it is.
pub open spec fn spec_unwind(walk: Walk) -> Walk
    decreases walk.frames.len(),
{
    if walk.frames.len() == 0 {
        walk
    } else {
        let frame = walk.frames.last().stepped();
        if frame.position < frame.options.len() {
            Walk {
                record: walk.record.spec_pop().spec_push(frame.options[frame.position as int]),
                frames: walk.frames.drop_last().push(frame),
                budget: walk.budget,
            }
        } else {
            spec_unwind(
                Walk {
                    record: walk.record.spec_pop(),
                    frames: walk.frames.drop_last(),
                    budget: walk.budget,
                },
            )
        }
    }
}

/// The walk after it has left its innermost frame altogether: the frame
/// is dropped, the last action is taken back, and the walk goes on from
/// the frame before it to the next board that has not been tried.
pub open spec fn spec_leave(walk: Walk) -> Walk {
    if walk.frames.len() == 0 {
        walk
    } else {
        spec_unwind(
            Walk {
                record: walk.record.spec_pop(),
                frames: walk.frames.drop_last(),
                budget: walk.budget,
            },
        )
    }
}

/// The walk with the board that it stands on marked as one to leave: the
/// mark is set in the innermost frame, and nothing else changes.
pub open spec fn spec_kill(walk: Walk) -> Walk {
    if walk.frames.len() == 0 {
        walk
    } else {
        Walk {
            record: walk.record,
            frames: walk.frames.drop_last().push(walk.frames.last().marked()),
            budget: walk.budget,
        }
    }
}

/// A walk through the boards that can be reached from a board, depth
/// first: at each depth the actions that are worth trying and the one
/// that is being tried.
#[derive(Debug)]
pub(crate) struct BoardStateIterator {
    board: ActionBoard,
    stack: Vec<StackFrame>,
    steps_left: u64,
}

impl BoardStateIterator {
    /// The frames of the walk, the outermost first.
    pub closed spec fn frames(self) -> Seq<StackFrame> {
        self.stack@
    }

    /// The board that the walk stands on.
    pub closed spec fn current(self) -> BoardView {
        self.board.current()
    }

    /// The number of steps that the walk may still take.
    pub closed spec fn budget(self) -> nat {
        self.steps_left as nat
    }

    /// The board with the actions that were made on it.
    pub closed spec fn record(self) -> Record {
        self.board.record()
    }

    /// The walk as values.
    pub open spec fn walk(self) -> Walk {
        Walk { record: self.record(), frames: frame_views(self.frames()), budget: self.budget() }
    }

    /// What holds of every walk: each frame is being tried at one of its actions.
    pub closed spec fn wf(self) -> bool {
        forall|i: int|
            0 <= i < self.stack@.len() ==> (#[trigger] self.stack@[i]).wf() && self.stack@[i].position()
                < self.stack@[i].options().len()
    }

    /// Starts a walk at a board.
    pub fn new(board: Board) -> (result: Self)
        ensures
            result.wf(),
            result.budget() == u64::MAX,
    {
        let mut result = Self { board: ActionBoard::new(board), stack: Vec::new(), steps_left: u64::MAX };
        let actions = filter_actions(result.board.board());
        if actions.len() > 0 {
            result.push(actions);
        }
        result
    }

    /// Leaves the board that the walk stands on for the next one that has
    /// not been tried: the next action of the innermost frame that has one.
    pub fn unwind(&mut self)
        requires
            old(self).wf(),
        ensures
            final(self).wf(),
            final(self).walk() == spec_unwind(old(self).walk()),
            final(self).budget() == old(self).budget(),
    {
        while self.stack.len() > 0
            invariant
                self.wf(),
                self.budget() == old(self).budget(),
                spec_unwind(self.walk()) == spec_unwind(old(self).walk()),
            decreases self.stack@.len(),
        {
            let ghost before = self.walk();
            self.board.pop();
            let mut frame = match self.stack.pop() {
                Some(frame) => frame,
                None => {
                    return ;
                },
            };
            assert(self.board.record() == before.record.spec_pop());
            assert(frame_views(self.stack@) =~= before.frames.drop_last());
            assert(frame@ == before.frames.last());
            if let Some(action) = frame.next() {
                self.board.push(action);
                self.stack.push(frame);
                assert(self.board.record() == before.record.spec_pop().spec_push(action));
                assert(frame_views(self.stack@) =~= before.frames.drop_last().push(frame@));
                assert(self.walk() == spec_unwind(before));
                return ;
            }
            assert(spec_unwind(self.walk()) == spec_unwind(before));
        }
    }

    /// Leaves the innermost frame altogether.
    pub fn pop(&mut self)
        requires
            old(self).wf(),
        ensures
            final(self).wf(),
            final(self).walk() == spec_leave(old(self).walk()),
            final(self).budget() == old(self).budget(),
    {
        if self.stack.len() == 0 {
            return ;
        }
        self.stack.pop();
        self.board.pop();
        assert(frame_views(self.stack@) =~= old(self).walk().frames.drop_last());
        assert(self.board.record() == old(self).walk().record.spec_pop());
        self.unwind();
    }

    /// Goes one level deeper: tries the first of `actions`.
    pub fn push(&mut self, actions: Vec<All>)
        requires
            old(self).wf(),
            actions@.len() > 0,
        ensures
            final(self).wf(),
            final(self).budget() == old(self).budget(),
            final(self).frames().len() == old(self).frames().len() + 1,
    {
        self.board.push(actions[0]);
        self.stack.push(StackFrame::new(actions));
    }

    /// The actions that lead from the first board to the one that the walk
    /// stands on.
    pub fn action_stack(&self) -> (result: Vec<All>)
        requires
            self.wf(),
        ensures
            result@.len() == self.frames().len(),
            forall|i: int|
                0 <= i < result@.len() ==> #[trigger] result@[i] == self.frames()[i].options()[self.frames()[i].position() as int],
    {
        let mut result: Vec<All> = Vec::new();
        let mut i: usize = 0;
        while i < self.stack.len()
            invariant
                i <= self.stack@.len(),
                self.wf(),
                result@.len() == i,
                forall|k: int|
                    0 <= k < i ==> #[trigger] result@[k] == self.frames()[k].options()[self.frames()[k].position() as int],
            decreases self.stack@.len() - i,
        {
            if let Some(action) = self.stack[i].get() {
                result.push(action);
            }
            i = i + 1;
        }
        result
    }

    /// Whether the walk stands on a board; it does not once every board
    /// has been tried.
    pub fn has_state(&self) -> (result: bool)
        ensures
            result == (self.frames().len() > 0),
    {
        self.stack.len() > 0
    }

    /// The board that the walk stands on.
    pub fn board(&self) -> (result: &Board)
        ensures
            result@ == self.current(),
    {
        self.board.board()
    }

    /// Marks the board that the walk stands on as one to leave at the next step.
    pub fn kill(&mut self)
        requires
            old(self).wf(),
        ensures
            final(self).wf(),
            final(self).walk() == spec_kill(old(self).walk()),
    {
        if let Some(mut node) = self.stack.pop() {
            node.taint_child();
            self.stack.push(node);
            assert(frame_views(self.stack@) =~= old(self).walk().frames.drop_last().push(
                old(self).walk().frames.last().marked(),
            ));
        }
    }

    /// Takes a step and says whether the walk stands on a board.
    pub fn next(&mut self) -> (result: bool)
        requires
            old(self).wf(),
        ensures
            final(self).wf(),
            result == (final(self).frames().len() > 0),
            !result || final(self).budget() < old(self).budget(),
    {
        self.advance();
        self.has_state()
    }

    /// Takes a step: goes one level deeper where the board allows an
    /// action and is not to be left, else on to the next board that has
    /// not been tried. The walk ends when its steps are used up.
    pub fn advance(&mut self)
        requires
            old(self).wf(),
        ensures
            final(self).wf(),
            final(self).frames().len() == 0 || final(self).budget() < old(self).budget(),
    {
        if self.steps_left == 0 {
            self.stack = Vec::new();
            return ;
        }
        self.steps_left = self.steps_left - 1;
        if self.stack.len() > 0 {
            if self.stack[self.stack.len() - 1].child_tainted() {
                self.unwind();
                return ;
            }
            let actions = filter_actions(self.board.board());
            if actions.len() == 0 {
                self.unwind();
                return ;
            }
            self.push(actions);
        }
    }
}

} // verus!
