use vstd::prelude::*;
use std::collections::HashSet;
use crate::actions::base::All;
use crate::board::board_class::Board;
use crate::board::hashing::BoardEqHash;
use crate::solving::board_state_iterator::{spec_kill, BoardStateIterator};

verus! {

/// A walk that leaves every board which it has stood on before, in
/// whatever order its columns and bunker slots were then.
#[derive(Debug)]
pub(crate) struct Unique {
    base_iterator: BoardStateIterator,
    known_boards: HashSet<BoardEqHash>,
}

impl Unique {
    /// The walk that is filtered.
    pub closed spec fn base(self) -> BoardStateIterator {
        self.base_iterator
    }

    /// The boards that the walk has stood on, each by its mark.
    pub closed spec fn known(self) -> Set<BoardEqHash> {
        self.known_boards@
    }

    /// Filters a walk that has not begun.
    pub fn new(base_iterator: BoardStateIterator) -> (result: Self)
        ensures
            result.base() == base_iterator,
    {
        Self { base_iterator, known_boards: HashSet::new() }
    }

    /// Whether the walk stands on a board.
    pub fn has_state(&self) -> (result: bool)
        ensures
            result == (self.base().frames().len() > 0),
    {
        self.base_iterator.has_state()
    }

    /// The board that the walk stands on.
    pub fn board(&self) -> (result: &Board)
        ensures
            result@ == self.base().current(),
    {
        self.base_iterator.board()
    }

    /// The actions that lead to the board that the walk stands on.
    pub fn action_stack(&self) -> (result: Vec<All>)
        requires
            self.base().wf(),
        ensures
            result@.len() == self.base().frames().len(),
    {
        self.base_iterator.action_stack()
    }

    /// Marks the board that the walk stands on as one to leave at the next step.
    pub fn kill(&mut self)
        requires
            old(self).base().wf(),
        ensures
            final(self).base().wf(),
            final(self).base().walk() == spec_kill(old(self).base().walk()),
            final(self).known() == old(self).known(),
    {
        self.base_iterator.kill();
    }

    /// Takes steps until the walk stands on a board that it has not stood
    /// on before, or on none.
    pub fn advance(&mut self)
        requires
            old(self).base().wf(),
        ensures
            final(self).base().wf(),
            final(self).base().frames().len() == 0 || final(self).base().budget() < old(
                self,
            ).base().budget(),
    {
        loop
            invariant_except_break
                self.base().wf(),
                self.base().budget() <= old(self).base().budget(),
            ensures
                self.base().wf(),
                self.base().frames().len() == 0 || self.base().budget() < old(
                    self,
                ).base().budget(),
            decreases self.base().budget(),
        {
            if !self.base_iterator.next() {
                break ;
            }
            if !self.base_iterator.board().can_hash() {
                break ;
            }
            let eq_hash = self.base_iterator.board().equivalence_hash();
            if !self.known_boards.contains(&eq_hash) {
                self.known_boards.insert(eq_hash);
                break ;
            }
            self.base_iterator.kill();
        }
    }

    /// Takes steps and says whether the walk stands on a board.
    pub fn next(&mut self) -> (result: bool)
        requires
            old(self).base().wf(),
        ensures
            final(self).base().wf(),
            result == (final(self).base().frames().len() > 0),
            !result || final(self).base().budget() < old(self).base().budget(),
    {
        self.advance();
        self.has_state()
    }
}

/// Whether the last of the actions is a move, and one of those before it
/// moved the same cards.
pub open spec fn spec_is_loop_move(actions: Seq<All>) -> bool {
    actions.len() > 0 && (actions.last() matches All::Move(last) && exists|i: int|
        0 <= i < actions.len() - 1 && (#[trigger] actions[i] matches All::Move(earlier)
            && earlier.spec_cards() == last.spec_cards()))
}

/// Whether the last of the actions is a move, and one of those before it
/// moved the same cards.
pub fn is_loop_move(actions: &Vec<All>) -> (result: bool)
    ensures
        result == spec_is_loop_move(actions@),
{
    if actions.len() == 0 {
        return false;
    }
    if let All::Move(last_move_action) = actions[actions.len() - 1] {
        let wanted = last_move_action.cards();
        let mut i: usize = actions.len() - 1;
        while i > 0
            invariant
                i <= actions@.len() - 1,
                actions@.last() == All::Move(last_move_action),
                wanted@ == last_move_action.spec_cards(),
                forall|k: int|
                    i <= k < actions@.len() - 1 ==> !(#[trigger] actions@[k] matches All::Move(
                        earlier,
                    ) && earlier.spec_cards() == last_move_action.spec_cards()),
            decreases i,
        {
            i = i - 1;
            if let All::Move(action) = actions[i] {
                if same_cards(&action.cards(), &wanted) {
                    return true;
                }
            }
        }
        false
    } else {
        false
    }
}

fn same_cards(left: &Vec<crate::board::cards::CardType>, right: &Vec<
    crate::board::cards::CardType,
>) -> (result: bool)
    ensures
        result == (left@ == right@),
{
    if left.len() != right.len() {
        return false;
    }
    let mut i: usize = 0;
    while i < left.len()
        invariant
            i <= left@.len(),
            left@.len() == right@.len(),
            forall|k: int| 0 <= k < i ==> left@[k] == right@[k],
        decreases left@.len() - i,
    {
        if left[i] != right[i] {
            return false;
        }
        i = i + 1;
    }
    assert(left@ =~= right@);
    true
}

/// A walk that leaves every board which a move led to that moved cards
/// which an earlier move of the walk had moved.
#[derive(Debug)]
pub(crate) struct LoopMoveAvoider {
    base_iterator: Unique,
}

impl LoopMoveAvoider {
    /// The walk that is filtered.
    pub closed spec fn base(self) -> BoardStateIterator {
        self.base_iterator.base()
    }

    /// Filters a walk that has not begun.
    pub fn new(base_iterator: Unique) -> (result: Self)
        ensures
            result.base() == base_iterator.base(),
    {
        Self { base_iterator }
    }

    /// Whether the walk stands on a board.
    pub fn has_state(&self) -> (result: bool)
        ensures
            result == (self.base().frames().len() > 0),
    {
        self.base_iterator.has_state()
    }

    /// The board that the walk stands on.
    pub fn board(&self) -> (result: &Board)
        ensures
            result@ == self.base().current(),
    {
        self.base_iterator.board()
    }

    /// The actions that lead to the board that the walk stands on.
    pub fn action_stack(&self) -> (result: Vec<All>)
        requires
            self.base().wf(),
        ensures
            result@.len() == self.base().frames().len(),
    {
        self.base_iterator.action_stack()
    }

    /// Takes steps until the walk stands on a board that no loop move led
    /// to, or on none.
    pub fn advance(&mut self)
        requires
            old(self).base().wf(),
        ensures
            final(self).base().wf(),
            final(self).base().frames().len() == 0 || final(self).base().budget() < old(
                self,
            ).base().budget(),
    {
        loop
            invariant_except_break
                self.base().wf(),
                self.base().budget() <= old(self).base().budget(),
            ensures
                self.base().wf(),
                self.base().frames().len() == 0 || self.base().budget() < old(
                    self,
                ).base().budget(),
            decreases self.base().budget(),
        {
            if !self.base_iterator.next() {
                break ;
            }
            if !is_loop_move(&self.base_iterator.action_stack()) {
                break ;
            }
            self.base_iterator.kill();
        }
    }

    /// Takes steps and says whether the walk stands on a board.
    pub fn next(&mut self) -> (result: bool)
        requires
            old(self).base().wf(),
        ensures
            final(self).base().wf(),
            result == (final(self).base().frames().len() > 0),
            !result || final(self).base().budget() < old(self).base().budget(),
    {
        self.advance();
        self.has_state()
    }
}

} // verus!
