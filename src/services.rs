//! The outside algorithms the pipeline orchestrates.
use vstd::prelude::*;
use crate::context::ProgramContext;
use std::sync::Arc;
use crate::database::{CallLog, Request, WfTarget};
use crate::ir::{ChalkError, ProgramEnvironment, ProgramIr, SolverChoice, SpecializationPriorities};

verus! {

/// The parser, lowering, coherence, orphan and well-formedness algorithms. Nothing is
/// assumed about what they return; the pipeline calls them only through `Recorder`.
/// Each check receives the context with the program under check bound.
pub trait ProgramServices {
    /// The raw syntax tree that parsing produces.
    type SyntaxTree;

    /// Parses `text` into a syntax tree.
    fn parse(&mut self, text: &str) -> Result<Self::SyntaxTree, ChalkError>;

    /// Lowers a syntax tree to a typed program.
    fn lower(&mut self, tree: &Self::SyntaxTree) -> Result<ProgramIr, ChalkError>;

    /// Computes which implementations of trait `trait_id` specialize which.
    fn specialization_priorities(
        &mut self,
        context: &ProgramContext,
        program: &ProgramIr,
        solver_choice: SolverChoice,
        trait_id: u64,
    ) -> Result<SpecializationPriorities, ChalkError>;

    /// Checks implementation `impl_id` against the orphan rule.
    fn orphan_check_impl(
        &mut self,
        context: &ProgramContext,
        program: &ProgramIr,
        solver_choice: SolverChoice,
        impl_id: u64,
    ) -> Result<(), ChalkError>;

    /// Checks that struct `struct_id` is well-formed.
    fn verify_struct_decl(
        &mut self,
        context: &ProgramContext,
        program: &ProgramIr,
        solver_choice: SolverChoice,
        struct_id: u64,
    ) -> Result<(), ChalkError>;

    /// Checks that implementation `impl_id` is well-formed.
    fn verify_trait_impl(
        &mut self,
        context: &ProgramContext,
        program: &ProgramIr,
        solver_choice: SolverChoice,
        impl_id: u64,
    ) -> Result<(), ChalkError>;

    /// Projects the program into its logic clauses.
    fn environment(&mut self, program: &ProgramIr) -> ProgramEnvironment;
}

} // verus!

verus! {

/// The services together with a record of every call made to them. The record can only
/// grow through the methods below, each of which makes exactly one call and records what
/// it was handed (including the binding of the context it was handed) and what it
/// returned.
pub struct Recorder<S: ProgramServices> {
    services: S,
    parsed: Ghost<Seq<(Seq<char>, Result<S::SyntaxTree, ChalkError>)>>,
    trees_lowered: Ghost<Seq<S::SyntaxTree>>,
    lowered: Ghost<Seq<(Seq<char>, Result<Arc<ProgramIr>, ChalkError>)>>,
    prioritized: Ghost<CallLog<Request<u64>, Arc<SpecializationPriorities>>>,
    orphan_checked: Ghost<CallLog<Request<u64>, ()>>,
    wf_checked: Ghost<CallLog<Request<WfTarget>, ()>>,
    projected: Ghost<Seq<(Arc<ProgramIr>, Arc<ProgramEnvironment>)>>,
}

impl<S: ProgramServices> Recorder<S> {
    /// The services' own state.
    pub closed spec fn state(self) -> S {
        self.services
    }

    /// Every parse, in order: the text handed to it and what came back.
    pub closed spec fn parsed(self) -> Seq<(Seq<char>, Result<S::SyntaxTree, ChalkError>)> {
        self.parsed@
    }

    /// Every syntax tree handed to lowering, in order.
    pub closed spec fn trees_lowered(self) -> Seq<S::SyntaxTree> {
        self.trees_lowered@
    }

    /// Every request for a lowered program, in order: the text and what came back,
    /// the parse error or the lowering outcome.
    pub closed spec fn lowered(self) -> Seq<(Seq<char>, Result<Arc<ProgramIr>, ChalkError>)> {
        self.lowered@
    }

    /// Every specialization-priority computation: its request and outcome.
    pub closed spec fn prioritized(self) -> CallLog<Request<u64>, Arc<SpecializationPriorities>> {
        self.prioritized@
    }

    /// Every orphan check: its request and outcome.
    pub closed spec fn orphan_checked(self) -> CallLog<Request<u64>, ()> {
        self.orphan_checked@
    }

    /// Every well-formedness check: its request and outcome.
    pub closed spec fn wf_checked(self) -> CallLog<Request<WfTarget>, ()> {
        self.wf_checked@
    }

    /// Every environment projection: the program handed to it and what came back.
    pub closed spec fn projected(self) -> Seq<(Arc<ProgramIr>, Arc<ProgramEnvironment>)> {
        self.projected@
    }

    /// Records other than the lowering ones are the same in `a` and `b`.
    pub open spec fn same_but_lowered(a: Self, b: Self) -> bool {
        &&& b.prioritized() == a.prioritized() && b.orphan_checked() == a.orphan_checked()
        &&& b.wf_checked() == a.wf_checked() && b.projected() == a.projected()
    }

    /// Records other than the priority ones are the same in `a` and `b`.
    pub open spec fn same_but_prioritized(a: Self, b: Self) -> bool {
        &&& b.parsed() == a.parsed() && b.trees_lowered() == a.trees_lowered()
        &&& b.lowered() == a.lowered() && b.orphan_checked() == a.orphan_checked()
        &&& b.wf_checked() == a.wf_checked() && b.projected() == a.projected()
    }

    /// Records other than the orphan ones are the same in `a` and `b`.
    pub open spec fn same_but_orphan_checked(a: Self, b: Self) -> bool {
        &&& b.parsed() == a.parsed() && b.trees_lowered() == a.trees_lowered()
        &&& b.lowered() == a.lowered() && b.prioritized() == a.prioritized()
        &&& b.wf_checked() == a.wf_checked() && b.projected() == a.projected()
    }

    /// Records other than the well-formedness ones are the same in `a` and `b`.
    pub open spec fn same_but_wf_checked(a: Self, b: Self) -> bool {
        &&& b.parsed() == a.parsed() && b.trees_lowered() == a.trees_lowered()
        &&& b.lowered() == a.lowered() && b.prioritized() == a.prioritized()
        &&& b.orphan_checked() == a.orphan_checked() && b.projected() == a.projected()
    }

    /// Records other than the projection ones are the same in `a` and `b`.
    pub open spec fn same_but_projected(a: Self, b: Self) -> bool {
        &&& b.parsed() == a.parsed() && b.trees_lowered() == a.trees_lowered()
        &&& b.lowered() == a.lowered() && b.prioritized() == a.prioritized()
        &&& b.orphan_checked() == a.orphan_checked() && b.wf_checked() == a.wf_checked()
    }

    /// Wraps `services` with empty records.
    pub fn new(services: S) -> (r: Self)
        ensures
            r.state() == services,
            r.parsed().len() == 0,
            r.trees_lowered().len() == 0,
            r.lowered().len() == 0,
            r.prioritized().len() == 0,
            r.orphan_checked().len() == 0,
            r.wf_checked().len() == 0,
            r.projected().len() == 0,
    {
        Recorder {
            services,
            parsed: Ghost(Seq::empty()),
            trees_lowered: Ghost(Seq::empty()),
            lowered: Ghost(Seq::empty()),
            prioritized: Ghost(Seq::empty()),
            orphan_checked: Ghost(Seq::empty()),
            wf_checked: Ghost(Seq::empty()),
            projected: Ghost(Seq::empty()),
        }
    }

    /// The services.
    pub fn services(&self) -> (r: &S)
        ensures
            *r == self.state(),
    {
        &self.services
    }

    /// Parses `text`, then lowers the tree; a parse error is returned as it is, and then
    /// nothing is lowered.
    pub fn lower_program(&mut self, text: &str) -> (r: Result<Arc<ProgramIr>, ChalkError>)
        ensures
            final(self).lowered() == old(self).lowered().push((text@, r)),
            Self::same_but_lowered(*old(self), *final(self)),
            final(self).parsed().len() == old(self).parsed().len() + 1,
            final(self).parsed().drop_last() == old(self).parsed(),
            final(self).parsed().last().0 == text@,
            match final(self).parsed().last().1 {
                Ok(tree) => final(self).trees_lowered() == old(self).trees_lowered().push(tree),
                Err(e) => r == Err::<Arc<ProgramIr>, ChalkError>(e)
                    && final(self).trees_lowered() == old(self).trees_lowered(),
            },
    {
        let parsed = self.services.parse(text);
        self.parsed = Ghost(self.parsed@.push((text@, parsed)));
        assert(self.parsed@.drop_last() =~= old(self).parsed@);
        let r = match parsed {
            Ok(tree) => {
                let lowered = self.services.lower(&tree);
                self.trees_lowered = Ghost(self.trees_lowered@.push(tree));
                match lowered {
                    Ok(p) => Ok(Arc::new(p)),
                    Err(e) => Err(e),
                }
            },
            Err(e) => Err(e),
        };
        self.lowered = Ghost(self.lowered@.push((text@, r)));
        r
    }

    /// Computes the specialization priorities of trait `trait_id`.
    pub fn specialization_priorities(
        &mut self,
        context: &ProgramContext,
        program: &Arc<ProgramIr>,
        solver_choice: SolverChoice,
        trait_id: u64,
    ) -> (r: Result<Arc<SpecializationPriorities>, ChalkError>)
        ensures
            final(self).prioritized() == old(self).prioritized().push(
                ((trait_id, *program, solver_choice, context.bound()), r),
            ),
            Self::same_but_prioritized(*old(self), *final(self)),
    {
        let r = match self.services.specialization_priorities(context, program, solver_choice, trait_id) {
            Ok(sp) => Ok(Arc::new(sp)),
            Err(e) => Err(e),
        };
        self.prioritized = Ghost(self.prioritized@.push(((trait_id, *program, solver_choice, context.bound()), r)));
        r
    }

    /// Checks implementation `impl_id` against the orphan rule.
    pub fn orphan_check_impl(
        &mut self,
        context: &ProgramContext,
        program: &Arc<ProgramIr>,
        solver_choice: SolverChoice,
        impl_id: u64,
    ) -> (r: Result<(), ChalkError>)
        ensures
            final(self).orphan_checked() == old(self).orphan_checked().push(
                ((impl_id, *program, solver_choice, context.bound()), r),
            ),
            Self::same_but_orphan_checked(*old(self), *final(self)),
    {
        let r = self.services.orphan_check_impl(context, program, solver_choice, impl_id);
        self.orphan_checked = Ghost(self.orphan_checked@.push(((impl_id, *program, solver_choice, context.bound()), r)));
        r
    }

    /// Checks that the struct or implementation `target` is well-formed.
    pub fn verify_decl(
        &mut self,
        context: &ProgramContext,
        program: &Arc<ProgramIr>,
        solver_choice: SolverChoice,
        target: WfTarget,
    ) -> (r: Result<(), ChalkError>)
        ensures
            final(self).wf_checked() == old(self).wf_checked().push(
                ((target, *program, solver_choice, context.bound()), r),
            ),
            Self::same_but_wf_checked(*old(self), *final(self)),
    {
        let r = match target {
            WfTarget::Struct(id) => self.services.verify_struct_decl(context, program, solver_choice, id),
            WfTarget::Impl(id) => self.services.verify_trait_impl(context, program, solver_choice, id),
        };
        self.wf_checked = Ghost(self.wf_checked@.push(((target, *program, solver_choice, context.bound()), r)));
        r
    }

    /// Projects `program` into its logic clauses.
    pub fn environment(&mut self, program: &Arc<ProgramIr>) -> (r: Arc<ProgramEnvironment>)
        ensures
            final(self).projected() == old(self).projected().push((*program, r)),
            Self::same_but_projected(*old(self), *final(self)),
    {
        let r = Arc::new(self.services.environment(program));
        self.projected = Ghost(self.projected@.push((*program, r)));
        r
    }
}

} // verus!
