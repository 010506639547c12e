use vstd::prelude::*;
use crate::actions::base::All;

verus! {

/// A frame as values: its actions, the place of the one that is being
/// tried (the number of actions once all have been tried), and whether
/// the board behind that action is to be left.
pub struct FrameView {
    pub options: Seq<All>,
    pub position: nat,
    pub tainted: bool,
}

impl FrameView {
    /// The frame once it has gone on to its next action: the place moves
    /// on by one unless all actions have been tried, and the mark on the
    /// board behind the action is gone.
    pub open spec fn stepped(self) -> FrameView {
        FrameView {
            options: self.options,
            position: if self.position < self.options.len() {
                self.position + 1
            } else {
                self.position
            },
            tainted: false,
        }
    }

    /// The frame with the board behind its action marked as one to leave.
    pub open spec fn marked(self) -> FrameView {
        FrameView { options: self.options, position: self.position, tainted: true }
    }
}

/// The actions that can be tried at one depth of the search, and which of
/// them is being tried.
#[derive(Debug)]
pub(crate) struct StackFrame {
    all_options: Vec<All>,
    options_iter: usize,
    child_tainted: bool,
}

impl View for StackFrame {
    type V = FrameView;

    open spec fn view(&self) -> FrameView {
        FrameView { options: self.options(), position: self.position(), tainted: self.tainted() }
    }
}

impl StackFrame {
    /// The actions of the frame.
    pub closed spec fn options(self) -> Seq<All> {
        self.all_options@
    }

    /// The place of the action that is being tried; the number of actions
    /// once all have been tried.
    pub closed spec fn position(self) -> nat {
        self.options_iter as nat
    }

    /// Whether the board behind the action that is being tried is to be left.
    pub closed spec fn tainted(self) -> bool {
        self.child_tainted
    }

    /// What holds of every frame.
    pub closed spec fn wf(self) -> bool {
        self.options_iter <= self.all_options@.len()
    }

    /// A frame that tries the first of the actions.
    pub fn new(actions: Vec<All>) -> (result: Self)
        ensures
            result.wf(),
            result.options() == actions@,
            result.position() == 0,
            !result.tainted(),
    {
        Self { all_options: actions, child_tainted: false, options_iter: 0 }
    }

    /// The action that is being tried.
    pub fn get(&self) -> (result: Option<All>)
        requires
            self.wf(),
        ensures
            result == (if self.position() < self.options().len() {
                Some(self.options()[self.position() as int])
            } else {
                None
            }),
    {
        if self.options_iter >= self.all_options.len() {
            return None;
        }
        Some(self.all_options[self.options_iter])
    }

    /// Goes on to the next action, if there is one left.
    pub fn advance(&mut self)
        requires
            old(self).wf(),
        ensures
            final(self)@ == old(self)@.stepped(),
            final(self).wf(),
            final(self).options() == old(self).options(),
            final(self).position() == (if old(self).position() < old(self).options().len() {
                old(self).position() + 1
            } else {
                old(self).position()
            }),
            !final(self).tainted(),
    {
        if self.options_iter < self.all_options.len() {
            self.options_iter = self.options_iter + 1;
        }
        self.child_tainted = false;
    }

    /// Goes on to the next action and returns it.
    pub fn next(&mut self) -> (result: Option<All>)
        requires
            old(self).wf(),
        ensures
            final(self)@ == old(self)@.stepped(),
            final(self).wf(),
            final(self).options() == old(self).options(),
            final(self).position() == (if old(self).position() < old(self).options().len() {
                old(self).position() + 1
            } else {
                old(self).position()
            }),
            !final(self).tainted(),
            result == (if final(self).position() < final(self).options().len() {
                Some(final(self).options()[final(self).position() as int])
            } else {
                None
            }),
    {
        self.advance();
        self.get()
    }

    /// Marks the board behind the action that is being tried as one to leave.
    pub fn taint_child(&mut self)
        ensures
            final(self)@ == old(self)@.marked(),
            final(self).wf() == old(self).wf(),
            final(self).options() == old(self).options(),
            final(self).position() == old(self).position(),
            final(self).tainted(),
    {
        self.child_tainted = true;
    }

    /// Whether the board behind the action that is being tried is to be left.
    pub fn child_tainted(&self) -> (result: bool)
        ensures
            result == self.tainted(),
    {
        self.child_tainted
    }
}

} // verus!
