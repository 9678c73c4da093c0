//! A stack of handlers called in turn until one of them answers with
//! something other than `Next`.
use vstd::prelude::*;

use crate::handler::{Action, Error};

verus! {

/// The handlers of a stack, in the order they are called.
pub struct Stack<H> {
    handlers: Vec<H>,
}

/// What the stack does after a handler answered: call the handler at an
/// index, or finish with a result.
pub enum StackStep {
    Call(usize),
    Finish(Result<Action, Error>),
}

impl<H> Stack<H> {
    pub closed spec fn handlers(&self) -> Seq<H> {
        self.handlers@
    }

    pub fn new() -> (s: Stack<H>)
        ensures
            s.handlers() == Seq::<H>::empty(),
    {
        Stack { handlers: Vec::new() }
    }

    /// The stack with a handler added at the end.
    pub fn push(self, handler: H) -> (s: Stack<H>)
        ensures
            s.handlers() == self.handlers().push(handler),
    {
        let mut s = self;
        s.handlers.push(handler);
        s
    }

    /// Adds handlers at the end, in order.
    pub fn extend(&mut self, handlers: Vec<H>)
        ensures
            final(self).handlers() == old(self).handlers() + handlers@,
    {
        let mut hs = handlers;
        self.handlers.append(&mut hs);
    }

    pub fn len(&self) -> (n: usize)
        ensures
            n == self.handlers().len(),
    {
        self.handlers.len()
    }

    /// The handler at an index.
    pub fn handler(&self, i: usize) -> (h: &H)
        requires
            i < self.handlers().len(),
        ensures
            *h == self.handlers()[i as int],
    {
        &self.handlers[i]
    }

    /// The first step: call the first handler, or finish with `Done` when
    /// there is none.
    pub fn first_step(&self) -> (s: StackStep)
        ensures
            self.handlers().len() > 0 ==> s == StackStep::Call(0),
            self.handlers().len() == 0 ==> s == StackStep::Finish(Ok(Action::Done)),
    {
        if self.handlers.len() > 0 {
            StackStep::Call(0)
        } else {
            StackStep::Finish(Ok(Action::Done))
        }
    }

    /// The step after the handler at `index` answered: the next handler when
    /// it answered `Next` and there is one, else finish with its answer.
    pub fn next_step(&self, index: usize, result: Result<Action, Error>) -> (s: StackStep)
        requires
            index < self.handlers().len(),
        ensures
            s == step_after(self.handlers().len(), index as nat, result),
    {
        match result {
            Ok(Action::Next) => {
                if index < self.handlers.len() - 1 {
                    StackStep::Call(index + 1)
                } else {
                    StackStep::Finish(Ok(Action::Next))
                }
            },
            other => StackStep::Finish(other),
        }
    }
}


/// The step after the handler at `index` of `n` answered `result`.
pub open spec fn step_after(n: nat, index: nat, result: Result<Action, Error>) -> StackStep {
    if result matches Ok(Action::Next) && index + 1 < n {
        StackStep::Call((index + 1) as usize)
    } else {
        StackStep::Finish(result)
    }
}

/// The index of the handler that ends a run that has reached handler `i`,
/// when handler `j` answers `answers[j]`: the first from `i` on that does not
/// answer `Next`, or the last handler.
pub open spec fn stop_index(answers: Seq<Result<Action, Error>>, n: nat, i: nat) -> nat
    decreases n - i,
{
    if i + 1 >= n || !(answers[i as int] matches Ok(Action::Next)) {
        i
    } else {
        stop_index(answers, n, i + 1)
    }
}

proof fn lemma_stack_run_from(answers: Seq<Result<Action, Error>>, n: nat, i: nat)
    requires
        i < n,
        answers.len() == n,
    ensures
        i <= stop_index(answers, n, i) < n,
        forall|j: nat|
            i <= j < stop_index(answers, n, i) ==> (answers[j as int] matches Ok(Action::Next))
                && #[trigger] step_after(n, j, answers[j as int]) == StackStep::Call((j + 1) as usize),
        step_after(n, stop_index(answers, n, i), answers[stop_index(answers, n, i) as int])
            == StackStep::Finish(answers[stop_index(answers, n, i) as int]),
    decreases n - i,
{
    if i + 1 < n && answers[i as int] matches Ok(Action::Next) {
        lemma_stack_run_from(answers, n, i + 1);
    }
}

/// A stack calls its handlers in order: from the first, each handler that
/// answers `Next` is followed by the next one, and the first handler that
/// answers anything else, or the last handler, ends the run with its answer.
/// (A stack without handlers finishes with `Done`: see `first_step`.)
pub proof fn stack_calls_in_order(answers: Seq<Result<Action, Error>>, n: nat)
    requires
        n > 0,
        answers.len() == n,
    ensures
        ({
            let k = stop_index(answers, n, 0);
            &&& k < n
            &&& forall|j: nat| j < k ==> (answers[j as int] matches Ok(Action::Next))
                && #[trigger] step_after(n, j, answers[j as int]) == StackStep::Call((j + 1) as usize)
            &&& step_after(n, k, answers[k as int]) == StackStep::Finish(answers[k as int])
        }),
{
    lemma_stack_run_from(answers, n, 0);
}

} // verus!
