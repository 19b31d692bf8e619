//! The interpreter as a step machine: it hands out one storage call at a
//! time, takes back how the call went, and stops at the first failure.

use vstd::prelude::*;
use crate::tree::{Effect, Entry, Op, effects, effects_of, plan};

verus! {

/// A walk over a declared tree. The caller performs each call that
/// [`Walk::next_op`] hands out and reports its outcome with [`Walk::report`];
/// nothing already done is ever undone.
pub struct Walk<E> {
    ops: Vec<Op>,
    done: usize,
    failure: Option<E>,
}

impl<E> Walk<E> {
    /// Every call of the walk, in order, as though all succeed.
    pub closed spec fn planned(&self) -> Seq<Effect> {
        effects_of(self.ops@)
    }

    /// How many calls have succeeded so far.
    pub closed spec fn done(&self) -> nat {
        self.done as nat
    }

    /// The failure that stopped the walk, if one did.
    pub closed spec fn failure(&self) -> Option<E> {
        self.failure
    }

    /// The cursor stays within the plan, and a failure always belongs to
    /// the call at the cursor.
    pub closed spec fn wf(&self) -> bool {
        &&& self.done <= self.ops.len()
        &&& self.failure is Some ==> self.done < self.ops.len()
    }

    /// Whether a call is waiting to be made.
    pub open spec fn pending(&self) -> bool {
        self.failure() is None && self.done() < self.planned().len()
    }

    /// Starts the walk of `tree` under `root`.
    pub fn new(root: &str, tree: &Vec<Entry>) -> (w: Self)
        ensures
            w.wf(),
            w.planned() == effects(root@, tree@),
            w.done() == 0,
            w.failure() is None,
    {
        Walk { ops: plan(root, tree), done: 0, failure: None }
    }

    /// The call to make next; `None` once the walk has finished or failed.
    pub fn next_op(&self) -> (r: Option<&Op>)
        requires
            self.wf(),
        ensures
            self.done() <= self.planned().len(),
            r is Some <==> self.pending(),
            r is Some ==> r->0@ == self.planned()[self.done() as int],
    {
        if self.failure.is_none() && self.done < self.ops.len() {
            Some(&self.ops[self.done])
        } else {
            None
        }
    }

    /// Records how the pending call went: a success moves on to the next
    /// call, a failure stops the walk for good.
    pub fn report(&mut self, outcome: Result<(), E>)
        requires
            old(self).wf(),
            old(self).pending(),
        ensures
            final(self).wf(),
            final(self).planned() == old(self).planned(),
            outcome is Ok ==> final(self).done() == old(self).done() + 1 && final(self).failure() is None,
            outcome is Err ==> final(self).done() == old(self).done() && final(self).failure() == Some(outcome->Err_0),
    {
        match outcome {
            Ok(()) => {
                self.done = self.done + 1;
            },
            Err(e) => {
                self.failure = Some(e);
            },
        }
    }

    /// The result of a finished walk: its first failure, or success.
    pub fn finish(self) -> (r: Result<(), E>)
        requires
            self.wf(),
            !self.pending(),
        ensures
            self.failure() is None ==> r is Ok && self.done() == self.planned().len(),
            self.failure() is Some ==> r == Err::<(), E>(self.failure()->0),
    {
        match self.failure {
            None => Ok(()),
            Some(e) => Err(e),
        }
    }
}

} // verus!
