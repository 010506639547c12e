use vstd::prelude::*;
use crate::actions::base::All;
use crate::board::board_class::{Board, BoardView};

verus! {

/// A board and the actions that have been made on it, as values: each
/// action with whether it could be made on the board.
pub struct Record {
    pub board: BoardView,
    pub made: Seq<(All, bool)>,
}

impl Record {
    /// The record after an action: it is made if the board has the places
    /// that it names, and noted in either case.
    pub open spec fn spec_push(self, action: All) -> Record {
        Record {
            board: if action.fits(self.board) {
                action.spec_apply(self.board)
            } else {
                self.board
            },
            made: self.made.push((action, action.fits(self.board))),
        }
    }

    /// The record with its last action taken back: the action is undone
    /// if it was made and the board has the places that it names.
    pub open spec fn spec_pop(self) -> Record {
        if self.made.len() == 0 {
            self
        } else {
            Record {
                board: if self.made.last().1 && self.made.last().0.fits_back(self.board) {
                    self.made.last().0.spec_undo(self.board)
                } else {
                    self.board
                },
                made: self.made.drop_last(),
            }
        }
    }
}

/// A board and the actions that have been made on it.
#[derive(Debug)]
pub(crate) struct ActionBoard {
    board: Board,
    stack: Vec<(All, bool)>,
}

impl ActionBoard {
    /// The board as it is now.
    pub closed spec fn current(self) -> BoardView {
        self.board@
    }

    /// The actions that were pushed and not popped since, each with
    /// whether it could be made on the board.
    pub closed spec fn made(self) -> Seq<(All, bool)> {
        self.stack@
    }

    /// The board and the actions, as values.
    pub open spec fn record(self) -> Record {
        Record { board: self.current(), made: self.made() }
    }

    /// A board on which no action has been made.
    pub fn new(board: Board) -> (result: Self)
        ensures
            result.current() == board@,
            result.made() == Seq::<(All, bool)>::empty(),
    {
        Self { board, stack: Vec::new() }
    }

    /// Makes an action on the board, if the board has the places that the
    /// action names; notes the action in either case.
    pub fn push(&mut self, action: All)
        ensures
            final(self).made() == old(self).made().push((action, action.fits(old(self).current()))),
            final(self).current() == (if action.fits(old(self).current()) {
                action.spec_apply(old(self).current())
            } else {
                old(self).current()
            }),
    {
        let fits = action.check_fits(&self.board);
        if fits {
            action.apply(&mut self.board);
        }
        self.stack.push((action, fits));
    }

    /// Takes the last action back, if it was made and the board has the
    /// places that the action names.
    pub fn pop(&mut self) -> (result: Option<All>)
        ensures
            old(self).made().len() == 0 ==> result is None && final(self).made() == old(
                self,
            ).made() && final(self).current() == old(self).current(),
            old(self).made().len() > 0 ==> {
                let (action, was_made) = old(self).made().last();
                &&& result == Some(action)
                &&& final(self).made() == old(self).made().drop_last()
                &&& final(self).current() == (if was_made && action.fits_back(
                    old(self).current(),
                ) {
                    action.spec_undo(old(self).current())
                } else {
                    old(self).current()
                })
            },
    {
        if let Some((action, was_made)) = self.stack.pop() {
            if was_made && action.check_fits_back(&self.board) {
                action.undo(&mut self.board);
            }
            return Some(action);
        }
        None
    }

    /// The board as it is now.
    pub fn board(&self) -> (result: &Board)
        ensures
            result@ == self.current(),
    {
        &self.board
    }
}

} // verus!
