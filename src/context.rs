//! The current-program context: a scoped binding of the program being checked.
use vstd::prelude::*;
use std::sync::Arc;
use crate::ir::ProgramIr;

verus! {

/// Code run while a program is bound as the current one.
pub trait ScopedBody<R> {
    /// Runs with `program` bound in `context`.
    fn run(&mut self, context: &mut ProgramContext, program: &Arc<ProgramIr>) -> R
        requires
            old(context).bound() == Some(*program),
    ;
}

/// Holds the program currently being checked, if any.
#[derive(Debug)]
pub struct ProgramContext {
    current: Option<Arc<ProgramIr>>,
}

impl ProgramContext {
    /// The program bound right now, if any.
    pub closed spec fn bound(self) -> Option<Arc<ProgramIr>> {
        self.current
    }

    /// Whether `program` may be bound now: nothing is bound, or the same program is.
    pub open spec fn admits(self, program: Arc<ProgramIr>) -> bool {
        self.bound() is None || self.bound() == Some(program)
    }

    /// A context with no program bound.
    pub fn new() -> (r: ProgramContext)
        ensures
            r.bound() is None,
    {
        ProgramContext { current: None }
    }

    /// The program bound right now, if any.
    pub fn current_program(&self) -> (r: Option<Arc<ProgramIr>>)
        ensures
            r == self.bound(),
    {
        match &self.current {
            Some(p) => Some(p.clone()),
            None => None,
        }
    }

    /// Binds `program` and hands back the binding it replaces.
    pub(crate) fn enter(&mut self, program: Arc<ProgramIr>) -> (prior: Option<Arc<ProgramIr>>)
        requires
            old(self).admits(program),
        ensures
            prior == old(self).bound(),
            final(self).bound() == Some(program),
    {
        let prior = self.current.take();
        self.current = Some(program);
        prior
    }

    /// Restores a binding handed back by `enter`.
    pub(crate) fn leave(&mut self, prior: Option<Arc<ProgramIr>>)
        ensures
            final(self).bound() == prior,
    {
        self.current = prior;
    }

    /// Runs `body` with `program` bound as the current program (its `requires`), then
    /// restores the binding that was there before, whatever `body` returned or did to the
    /// binding.
    pub fn with_current_program<R, B: ScopedBody<R>>(
        &mut self,
        program: Arc<ProgramIr>,
        body: &mut B,
    ) -> (r: R)
        requires
            old(self).admits(program),
        ensures
            final(self).bound() == old(self).bound(),
    {
        let prior = self.enter(program.clone());
        let r = body.run(self, &program);
        self.leave(prior);
        r
    }
}

} // verus!
