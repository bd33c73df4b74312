//! The memoizing database: inputs, derived computations and their invalidation.
use vstd::prelude::*;
use std::collections::BTreeMap;
use std::sync::Arc;
use crate::context::ProgramContext;
use crate::deps::{all_query_ids, depends_on, reads_input, InputId, QueryId};
use crate::ir::{local_ids, strictly_increasing, ChalkError, ProgramEnvironment, ProgramIr, SolverChoice, SpecializationPriorities};
use crate::services::{ProgramServices, Recorder};

verus! {

/// A declaration handed to the well-formedness checks.
#[derive(Clone, Copy, Debug, PartialEq, Eq, Structural)]
pub enum WfTarget {
    Struct(u64),
    Impl(u64),
}

/// The map of specialization priorities, keyed by trait.
pub type PriorityMap = BTreeMap<u64, Arc<SpecializationPriorities>>;

/// A record of calls made one subject after another, each with its outcome.
pub type CallLog<K, T> = Seq<(K, Result<T, ChalkError>)>;

/// What a check is handed: its subject, the program and the solver choice; last, the
/// program bound as the current one while it ran.
pub type Request<K> = (K, Arc<ProgramIr>, SolverChoice, Option<Arc<ProgramIr>>);

/// The requests for `ids` in order, each with program `p`, solver choice `c` and
/// binding `b`.
pub open spec fn requests<K>(
    ids: Seq<K>,
    p: Arc<ProgramIr>,
    c: SolverChoice,
    b: Option<Arc<ProgramIr>>,
) -> Seq<Request<K>> {
    ids.map_values(|k: K| (k, p, c, b))
}

/// `seg` is a fail-fast run over `ids`: the calls go to `ids` in order, every call but
/// the last succeeded, and the run stops early only after a failure.
pub open spec fn is_fail_fast_run<K, T>(ids: Seq<K>, seg: CallLog<K, T>) -> bool {
    &&& seg.len() <= ids.len()
    &&& forall|k: int| 0 <= k < seg.len() ==> #[trigger] seg[k].0 == ids[k]
    &&& forall|k: int| 0 <= k < seg.len() - 1 ==> #[trigger] seg[k].1 is Ok
    &&& seg.len() < ids.len() ==> seg.len() > 0 && seg.last().1 is Err
}

/// The error that ended a run, if one did.
pub open spec fn run_error<K, T>(seg: CallLog<K, T>) -> Option<ChalkError> {
    if seg.len() > 0 && seg.last().1 is Err {
        Some(seg.last().1->Err_0)
    } else {
        None
    }
}

/// What a run of checks returns: the error that ended it, or success.
pub open spec fn run_outcome<K>(seg: CallLog<K, ()>) -> Result<(), ChalkError> {
    match run_error(seg) {
        Some(e) => Err(e),
        None => Ok(()),
    }
}

/// The declarations a well-formedness pass visits: every struct, then every implementation.
pub open spec fn wf_targets(p: ProgramIr) -> Seq<WfTarget> {
    p.structs().map_values(|s: u64| WfTarget::Struct(s)) + crate::ir::impl_ids(p.impls()).map_values(
        |i: u64| WfTarget::Impl(i),
    )
}

/// The part of `log` added after its first `n` entries.
pub open spec fn added<A>(log: Seq<A>, n: nat) -> Seq<A> {
    log.subrange(n as int, log.len() as int)
}

/// `log` extends `before`.
pub open spec fn extends<A>(log: Seq<A>, before: Seq<A>) -> bool {
    log.len() >= before.len() && log.subrange(0, before.len() as int) == before
}

proof fn lemma_extends_refl<A>(s: Seq<A>)
    ensures
        extends(s, s),
        added(s, s.len()).len() == 0,
{
    assert(s.subrange(0, s.len() as int) =~= s);
}

/// The error a memo holds, if it holds one.
pub open spec fn memo_error<T>(m: Option<Result<T, ChalkError>>) -> Option<ChalkError> {
    match m {
        Some(Err(e)) => Some(e),
        _ => None,
    }
}

/// Two memos that both hold an error hold the same one.
pub open spec fn same_error<T, U>(a: Option<Result<T, ChalkError>>, b: Option<Result<U, ChalkError>>) -> bool {
    memo_error(a) is Some && memo_error(b) is Some ==> memo_error(a) == memo_error(b)
}

/// The view of a memoized coherence result.
pub open spec fn coherence_view(r: Result<PriorityMap, ChalkError>) -> Result<
    Map<u64, Arc<SpecializationPriorities>>,
    ChalkError,
> {
    match r {
        Ok(m) => Ok(m@),
        Err(e) => Err(e),
    }
}

/// The verification pipeline over program text and a solver choice, with every derived
/// result memoized until an input it reads is set again.
pub struct LoweringDatabase<S: ProgramServices> {
    services: Recorder<S>,
    program_text: String,
    solver_choice: SolverChoice,
    context: ProgramContext,
    program_ir_memo: Option<Result<Arc<ProgramIr>, ChalkError>>,
    orphan_memo: Option<Result<(), ChalkError>>,
    environment_memo: Option<Result<Arc<ProgramEnvironment>, ChalkError>>,
    coherence_memo: Option<Result<PriorityMap, ChalkError>>,
    checked_memo: Option<Result<Arc<ProgramIr>, ChalkError>>,
}

/// A second handle on a memoized result.
fn share<T>(r: &Result<Arc<T>, ChalkError>) -> (c: Result<Arc<T>, ChalkError>)
    ensures
        c == *r,
{
    match r {
        Ok(a) => Ok(a.clone()),
        Err(e) => Err(*e),
    }
}

/// A copy of a memoized coherence result.
fn share_map(r: &Result<PriorityMap, ChalkError>) -> (c: Result<PriorityMap, ChalkError>)
    ensures
        coherence_view(c) == coherence_view(*r),
{
    match r {
        Ok(m) => Ok(m.clone()),
        Err(e) => Err(*e),
    }
}

impl<S: ProgramServices> LoweringDatabase<S> {
    /// The current program text.
    pub closed spec fn text(self) -> Seq<char> {
        self.program_text@
    }

    /// The services' own state.
    pub closed spec fn service_state(self) -> S {
        self.services.state()
    }

    /// The services together with their call records.
    pub closed spec fn recorder(self) -> Recorder<S> {
        self.services
    }

    /// The current solver choice.
    pub closed spec fn choice(self) -> SolverChoice {
        self.solver_choice
    }

    /// The memoized lowered program, if any.
    pub closed spec fn memo_program_ir(self) -> Option<Result<Arc<ProgramIr>, ChalkError>> {
        self.program_ir_memo
    }

    /// The memoized orphan-check result, if any.
    pub closed spec fn memo_orphan_check(self) -> Option<Result<(), ChalkError>> {
        self.orphan_memo
    }

    /// The memoized environment, if any.
    pub closed spec fn memo_environment(self) -> Option<Result<Arc<ProgramEnvironment>, ChalkError>> {
        self.environment_memo
    }

    /// The memoized coherence result, as a map, if any.
    pub closed spec fn memo_coherence(self) -> Option<
        Result<Map<u64, Arc<SpecializationPriorities>>, ChalkError>,
    > {
        match self.coherence_memo {
            Some(r) => Some(coherence_view(r)),
            None => None,
        }
    }

    /// The memoized checked program, if any.
    pub closed spec fn memo_checked_program(self) -> Option<Result<Arc<ProgramIr>, ChalkError>> {
        self.checked_memo
    }

    /// Every lowering call, in order: the text handed to it and what came back.
    pub closed spec fn lowered(self) -> Seq<(Seq<char>, Result<Arc<ProgramIr>, ChalkError>)> {
        self.services.lowered()
    }

    /// Every specialization-priority computation, with its trait and outcome.
    pub closed spec fn prioritized(self) -> CallLog<Request<u64>, Arc<SpecializationPriorities>> {
        self.services.prioritized()
    }

    /// Every orphan check, with its implementation and outcome.
    pub closed spec fn orphan_checked(self) -> CallLog<Request<u64>, ()> {
        self.services.orphan_checked()
    }

    /// Every well-formedness check, with its declaration and outcome.
    pub closed spec fn wf_checked(self) -> CallLog<Request<WfTarget>, ()> {
        self.services.wf_checked()
    }

    /// Every environment projection, in order: the program handed to it and what came back.
    pub closed spec fn projected(self) -> Seq<(Arc<ProgramIr>, Arc<ProgramEnvironment>)> {
        self.services.projected()
    }

    /// The program bound as the current one.
    pub closed spec fn bound_program(self) -> Option<Arc<ProgramIr>> {
        self.context.bound()
    }

    /// Whether the result of `q` is memoized.
    pub open spec fn cached(self, q: QueryId) -> bool {
        match q {
            QueryId::ProgramIr => self.memo_program_ir() is Some,
            QueryId::OrphanCheck => self.memo_orphan_check() is Some,
            QueryId::Environment => self.memo_environment() is Some,
            QueryId::Coherence => self.memo_coherence() is Some,
            QueryId::CheckedProgram => self.memo_checked_program() is Some,
        }
    }

    /// Whether the memo of `q` is the same in `a` and `b`.
    pub open spec fn same_memo(a: Self, b: Self, q: QueryId) -> bool {
        match q {
            QueryId::ProgramIr => a.memo_program_ir() == b.memo_program_ir(),
            QueryId::OrphanCheck => a.memo_orphan_check() == b.memo_orphan_check(),
            QueryId::Environment => a.memo_environment() == b.memo_environment(),
            QueryId::Coherence => a.memo_coherence() == b.memo_coherence(),
            QueryId::CheckedProgram => a.memo_checked_program() == b.memo_checked_program(),
        }
    }

    /// Each memo comes from the records: the memoized lowered program is the last
    /// lowering, of the current text; a memoized environment is the last projection, of
    /// the memoized program, or its lowering error; a memoized checked program is the
    /// memoized lowered program; a memoized error of a later stage is the memoized
    /// lowering or coherence error where one of those failed. A bound program is the memoized lowered program; a memoized coherence map has one entry per
    /// trait of the memoized program and comes with a memoized successful orphan check; a
    /// memoized checked program comes with a memoized successful coherence result.
    pub open spec fn wf(self) -> bool {
        &&& self.bound_program() is None || (self.memo_program_ir() matches Some(Ok(p))
            && self.bound_program() == Some(p))
        &&& self.memo_program_ir() matches Some(r) ==> (self.lowered().len() > 0
            && self.lowered().last() == (self.text(), r))
        &&& self.memo_environment() matches Some(Ok(e)) ==> (self.memo_program_ir() matches Some(
            Ok(p),
        ) && self.projected().len() > 0 && self.projected().last() == (p, e))
        &&& self.memo_environment() matches Some(Err(e)) ==> self.memo_program_ir() == Some(
            Err::<Arc<ProgramIr>, ChalkError>(e),
        )
        &&& self.memo_checked_program() matches Some(Ok(p)) ==> self.memo_program_ir() == Some(
            Ok::<Arc<ProgramIr>, ChalkError>(p),
        )
        &&& self.memo_checked_program() is Some ==> self.memo_program_ir() is Some
        &&& same_error(self.memo_coherence(), self.memo_program_ir())
        &&& same_error(self.memo_orphan_check(), self.memo_program_ir())
        &&& same_error(self.memo_checked_program(), self.memo_program_ir())
        &&& same_error(self.memo_checked_program(), self.memo_coherence())
        &&& (self.memo_checked_program() is Some && (self.memo_program_ir() matches Some(Ok(_))))
            ==> self.memo_coherence() is Some
        &&& (self.memo_checked_program() matches Some(Ok(_))) ==> (self.memo_coherence() matches Some(
            Ok(_),
        ))
        &&& self.memo_coherence() is Some ==> self.memo_program_ir() is Some
        &&& self.memo_orphan_check() is Some ==> self.memo_program_ir() is Some
        &&& self.memo_coherence() matches Some(Ok(m)) ==> (self.memo_program_ir() matches Some(
            Ok(p),
        ) && m.dom() == p.traits().to_set())
        &&& (self.memo_coherence() matches Some(Ok(_))) ==> (self.memo_orphan_check() matches Some(
            Ok(_),
        ))
    }

    /// `b` holds the same inputs and the same records as `a`.
    pub open spec fn same_inputs_and_records(a: Self, b: Self) -> bool {
        &&& b.text() == a.text()
        &&& b.choice() == a.choice()
        &&& b.lowered() == a.lowered()
        &&& b.prioritized() == a.prioritized()
        &&& b.orphan_checked() == a.orphan_checked()
        &&& b.wf_checked() == a.wf_checked()
        &&& b.projected() == a.projected()
    }

    /// A fresh database: nothing memoized, nothing recorded.
    pub fn new(services: S, program_text: String, solver_choice: SolverChoice) -> (r: Self)
        ensures
            r.wf(),
            r.text() == program_text@,
            r.choice() == solver_choice,
            forall|q: QueryId| !r.cached(q),
            r.lowered().len() == 0,
            r.prioritized().len() == 0,
            r.orphan_checked().len() == 0,
            r.wf_checked().len() == 0,
            r.projected().len() == 0,
    {
        LoweringDatabase {
            services: Recorder::new(services),
            program_text,
            solver_choice,
            context: ProgramContext::new(),
            program_ir_memo: None,
            orphan_memo: None,
            environment_memo: None,
            coherence_memo: None,
            checked_memo: None,
        }
    }

    /// The services the pipeline calls.
    pub fn services(&self) -> (r: &S)
        ensures
            *r == self.service_state(),
    {
        self.services.services()
    }

    /// The current program text.
    pub fn program_text(&self) -> (r: &String)
        ensures
            r@ == self.text(),
    {
        &self.program_text
    }

    /// The current solver choice.
    pub fn solver_choice(&self) -> (r: SolverChoice)
        ensures
            r == self.choice(),
    {
        self.solver_choice
    }

    fn clear(&mut self, q: QueryId)
        requires
            old(self).bound_program() is None,
        ensures
            !final(self).cached(q),
            forall|p: QueryId| p != q ==> #[trigger] Self::same_memo(*old(self), *final(self), p),
            Self::same_inputs_and_records(*old(self), *final(self)),
            final(self).bound_program() is None,
    {
        match q {
            QueryId::ProgramIr => self.program_ir_memo = None,
            QueryId::OrphanCheck => self.orphan_memo = None,
            QueryId::Environment => self.environment_memo = None,
            QueryId::Coherence => self.coherence_memo = None,
            QueryId::CheckedProgram => self.checked_memo = None,
        }
    }

    /// Drops the memo of every computation that reads input `i`, and no other.
    fn invalidate(&mut self, i: InputId)
        requires
            old(self).wf(),
            old(self).bound_program() is None,
        ensures
            final(self).wf(),
            final(self).bound_program() is None,
            forall|q: QueryId| #[trigger] final(self).cached(q) == (old(self).cached(q)
                && !reads_input(q, i)),
            forall|q: QueryId| !reads_input(q, i) ==> #[trigger] Self::same_memo(*old(self), *final(self), q),
            Self::same_inputs_and_records(*old(self), *final(self)),
    {
        let queries = all_query_ids();
        let ghost mut done: Set<QueryId> = Set::empty();
        let mut k: usize = 0;
        while k < queries.len()
            invariant
                k <= queries.len(),
                queries@ == crate::deps::all_queries(),
                self.bound_program() is None,
                Self::same_inputs_and_records(*old(self), *self),
                forall|j: int| 0 <= j < k ==> done.contains(#[trigger] queries@[j]),
                forall|q: QueryId| #[trigger] done.contains(q) && reads_input(q, i) ==> !self.cached(q),
                forall|q: QueryId| !(#[trigger] done.contains(q) && reads_input(q, i))
                    ==> Self::same_memo(*old(self), *self, q),
            decreases queries.len() - k,
        {
            let q = queries[k];
            let ghost pre = *self;
            let ghost pre_done = done;
            let hit = depends_on(q, i);
            if hit {
                self.clear(q);
            }
            proof {
                done = done.insert(q);
                assert forall|p: QueryId| p != q implies #[trigger] Self::same_memo(pre, *self, p) by {}
                assert forall|p: QueryId| #[trigger] done.contains(p) && reads_input(p, i)
                    implies !self.cached(p) by {
                    if p != q {
                        assert(Self::same_memo(pre, *self, p));
                        assert(pre_done.contains(p));
                    }
                }
                assert forall|p: QueryId| !(#[trigger] done.contains(p) && reads_input(p, i))
                    implies Self::same_memo(*old(self), *self, p) by {
                    if p != q {
                        assert(Self::same_memo(pre, *self, p));
                        assert(!(pre_done.contains(p) && reads_input(p, i)));
                    } else {
                        assert(!hit);
                    }
                }
            }
            k = k + 1;
        }
        assert(done.contains(queries@[0]) && done.contains(queries@[1]) && done.contains(queries@[2])
            && done.contains(queries@[3]) && done.contains(queries@[4]));
        assert forall|q: QueryId| done.contains(q) by {
            match q {
                QueryId::ProgramIr => assert(queries@[0] == q),
                QueryId::OrphanCheck => assert(queries@[1] == q),
                QueryId::Environment => assert(queries@[2] == q),
                QueryId::Coherence => assert(queries@[3] == q),
                QueryId::CheckedProgram => assert(queries@[4] == q),
            }
        }
        proof {
            crate::deps::lemma_invalidation_reach(QueryId::ProgramIr);
            crate::deps::lemma_invalidation_reach(QueryId::Coherence);
            crate::deps::lemma_invalidation_reach(QueryId::OrphanCheck);
            crate::deps::lemma_invalidation_reach(QueryId::CheckedProgram);
            assert(Self::same_memo(*old(self), *self, QueryId::Coherence) || !self.cached(
                QueryId::CheckedProgram,
            ));
        }
    }

    /// Replaces the program text; every derived result is dropped, to be recomputed when
    /// next asked for.
    pub fn set_program_text(&mut self, text: String)
        requires
            old(self).wf(),
            old(self).bound_program() is None,
        ensures
            Self::set_input_post(*old(self), *final(self), InputId::ProgramText),
            final(self).text() == text@,
            final(self).choice() == old(self).choice(),
    {
        self.invalidate(InputId::ProgramText);
        let ghost mid = *self;
        proof {
            crate::deps::lemma_invalidation_reach(QueryId::ProgramIr);
            crate::deps::lemma_invalidation_reach(QueryId::Environment);
            crate::deps::lemma_invalidation_reach(QueryId::CheckedProgram);
            assert(!mid.cached(QueryId::ProgramIr));
            assert(!mid.cached(QueryId::Environment));
            assert(!mid.cached(QueryId::CheckedProgram));
        }
        self.program_text = text;
        assert forall|q: QueryId| #[trigger] Self::same_memo(mid, *self, q) by {}
        assert forall|q: QueryId| #[trigger] self.cached(q) == mid.cached(q) by {
            assert(Self::same_memo(mid, *self, q));
        }
        assert forall|q: QueryId| !reads_input(q, InputId::ProgramText) implies #[trigger] Self::same_memo(
            *old(self),
            *self,
            q,
        ) by {
            assert(Self::same_memo(*old(self), mid, q));
            assert(Self::same_memo(mid, *self, q));
        }
    }

    /// Replaces the solver choice; the results that read it are dropped.
    pub fn set_solver_choice(&mut self, choice: SolverChoice)
        requires
            old(self).wf(),
            old(self).bound_program() is None,
        ensures
            Self::set_input_post(*old(self), *final(self), InputId::SolverChoice),
            final(self).text() == old(self).text(),
            final(self).choice() == choice,
    {
        self.invalidate(InputId::SolverChoice);
        let ghost mid = *self;
        self.solver_choice = choice;
        assert forall|q: QueryId| #[trigger] Self::same_memo(mid, *self, q) by {}
        assert forall|q: QueryId| #[trigger] self.cached(q) == mid.cached(q) by {
            assert(Self::same_memo(mid, *self, q));
        }
        assert forall|q: QueryId| !reads_input(q, InputId::SolverChoice) implies #[trigger] Self::same_memo(
            *old(self),
            *self,
            q,
        ) by {
            assert(Self::same_memo(*old(self), mid, q));
            assert(Self::same_memo(mid, *self, q));
        }
    }

    /// What setting input `i` does: exactly the memos of the computations that read `i`
    /// are dropped; the others and every record stay.
    pub open spec fn set_input_post(o: Self, f: Self, i: InputId) -> bool {
        &&& f.wf()
        &&& f.bound_program() is None
        &&& forall|q: QueryId| #[trigger] f.cached(q) == (o.cached(q) && !reads_input(q, i))
        &&& forall|q: QueryId| !reads_input(q, i) ==> #[trigger] Self::same_memo(o, f, q)
        &&& f.lowered() == o.lowered()
        &&& f.prioritized() == o.prioritized()
        &&& f.orphan_checked() == o.orphan_checked()
        &&& f.wf_checked() == o.wf_checked()
        &&& f.projected() == o.projected()
    }

    spec fn keeps_memos(a: Self, b: Self) -> bool {
        &&& b.program_ir_memo == a.program_ir_memo
        &&& b.orphan_memo == a.orphan_memo
        &&& b.environment_memo == a.environment_memo
        &&& b.coherence_memo == a.coherence_memo
        &&& b.checked_memo == a.checked_memo
        &&& b.program_text == a.program_text
        &&& b.solver_choice == a.solver_choice
    }

    /// What asking for the lowered program does to its memo and the lowering record:
    /// a memoized result stays and lowering is not called; otherwise lowering is called
    /// once, on the current text, and its result is memoized.
    pub open spec fn lowering_step(o: Self, f: Self) -> bool {
        match o.memo_program_ir() {
            Some(m) => f.memo_program_ir() == Some(m) && f.lowered() == o.lowered()
                && Self::same_parsing(o, f),
            None => {
                let parsed = f.recorder().parsed();
                &&& f.memo_program_ir() is Some
                &&& f.lowered() == o.lowered().push((o.text(), f.memo_program_ir()->Some_0))
                &&& parsed.len() == o.recorder().parsed().len() + 1
                &&& parsed.drop_last() == o.recorder().parsed()
                &&& parsed.last().0 == o.text()
                &&& match parsed.last().1 {
                    Ok(tree) => f.recorder().trees_lowered() == o.recorder().trees_lowered().push(tree),
                    Err(e) => f.memo_program_ir() == Some(Err::<Arc<ProgramIr>, ChalkError>(e))
                        && f.recorder().trees_lowered() == o.recorder().trees_lowered(),
                }
            },
        }
    }

    /// The parse and lowering-call records are the same in `a` and `b`.
    pub open spec fn same_parsing(a: Self, b: Self) -> bool {
        &&& b.recorder().parsed() == a.recorder().parsed()
        &&& b.recorder().trees_lowered() == a.recorder().trees_lowered()
    }

    /// The contract of `program_ir`.
    pub open spec fn program_ir_post(o: Self, f: Self, r: Result<Arc<ProgramIr>, ChalkError>) -> bool {
        &&& f.wf()
        &&& o.memo_program_ir() is Some ==> f.recorder() == o.recorder()
        &&& f.bound_program() == o.bound_program()
        &&& Self::lowering_step(o, f)
        &&& f.memo_program_ir() == Some(r)
        &&& f.text() == o.text() && f.choice() == o.choice()
        &&& f.prioritized() == o.prioritized() && f.orphan_checked() == o.orphan_checked()
        &&& f.wf_checked() == o.wf_checked() && f.projected() == o.projected()
        &&& Self::same_memo(o, f, QueryId::OrphanCheck) && Self::same_memo(o, f, QueryId::Environment)
        &&& Self::same_memo(o, f, QueryId::Coherence) && Self::same_memo(o, f, QueryId::CheckedProgram)
    }

    /// The lowered program for the current text: memoized, else parsed and lowered by
    /// the services.
    pub fn program_ir(&mut self) -> (r: Result<Arc<ProgramIr>, ChalkError>)
        requires
            old(self).wf(),
        ensures
            Self::program_ir_post(*old(self), *final(self), r),
    {
        if let Some(m) = &self.program_ir_memo {
            return share(m);
        }
        let r = self.services.lower_program(self.program_text.as_str());
        self.program_ir_memo = Some(share(&r));
        r
    }

    fn run_orphan_checks(&mut self, program: &Arc<ProgramIr>, ids: &Vec<u64>) -> (r: Result<(), ChalkError>)
        requires
            old(self).context.bound() == Some(*program),
        ensures
            final(self).context.bound() == Some(*program),
            Self::keeps_memos(*old(self), *final(self)),
            Self::same_parsing(*old(self), *final(self)),
            final(self).lowered() == old(self).lowered(),
            final(self).prioritized() == old(self).prioritized(),
            final(self).wf_checked() == old(self).wf_checked(),
            final(self).projected() == old(self).projected(),
            extends(final(self).orphan_checked(), old(self).orphan_checked()),
            is_fail_fast_run(requests(ids@, *program, old(self).solver_choice, Some(*program)), added(final(self).orphan_checked(), old(self).orphan_checked().len())),
            r == run_outcome(added(final(self).orphan_checked(), old(self).orphan_checked().len())),
    {
        let choice = self.solver_choice;
        let ghost start = self.orphan_checked();
        proof {
            lemma_extends_refl(start);
        }
        let mut failed: Option<ChalkError> = None;
        let mut k: usize = 0;
        while k < ids.len() && failed.is_none()
            invariant
                k <= ids.len(),
                self.context.bound() == Some(*program),
                Self::keeps_memos(*old(self), *self),
                Self::same_parsing(*old(self), *self),
                self.lowered() == old(self).lowered(),
                self.prioritized() == old(self).prioritized(),
                self.wf_checked() == old(self).wf_checked(),
                self.projected() == old(self).projected(),
                choice == self.solver_choice,
                extends(self.orphan_checked(), start),
                added(self.orphan_checked(), start.len()).len() == k,
                forall|j: int| 0 <= j < k ==> #[trigger] added(self.orphan_checked(), start.len())[j].0 == (ids@[j], *program, choice, Some(*program)),
                failed is None ==> forall|j: int| 0 <= j < k ==> #[trigger] added(self.orphan_checked(), start.len())[j].1 is Ok,
                failed matches Some(e) ==> k > 0 && added(self.orphan_checked(), start.len())[k - 1].1 == Err::<(), ChalkError>(e)
                    && forall|j: int| 0 <= j < k - 1 ==> #[trigger] added(self.orphan_checked(), start.len())[j].1 is Ok,
            decreases ids.len() - k,
        {
            let id = ids[k];
            let ghost before = self.orphan_checked();
            let res = self.services.orphan_check_impl(&self.context, program, choice, id);
            assert(added(self.orphan_checked(), start.len()) =~= added(before, start.len()).push(((id, *program, choice, Some(*program)), res)));
            assert(self.orphan_checked().subrange(0, start.len() as int) =~= before.subrange(0, start.len() as int));
            if let Err(e) = res {
                failed = Some(e);
            }
            k = k + 1;
        }
        match failed {
            Some(e) => Err(e),
            None => Ok(()),
        }
    }

    /// The contract of `orphan_check`.
    pub open spec fn orphan_check_post(o: Self, f: Self, r: Result<(), ChalkError>) -> bool {
        &&& f.wf()
        &&& o.memo_orphan_check() is Some ==> f.recorder() == o.recorder()
        &&& f.bound_program() == o.bound_program()
        &&& f.memo_orphan_check() == Some(r)
        &&& f.text() == o.text() && f.choice() == o.choice()
        &&& f.prioritized() == o.prioritized() && f.wf_checked() == o.wf_checked()
        &&& f.projected() == o.projected()
        &&& Self::same_memo(o, f, QueryId::Environment) && Self::same_memo(o, f, QueryId::Coherence)
        &&& Self::same_memo(o, f, QueryId::CheckedProgram)
        &&& extends(f.orphan_checked(), o.orphan_checked())
        &&& match o.memo_orphan_check() {
            Some(m) => r == m && f.lowered() == o.lowered() && f.orphan_checked() == o.orphan_checked()
                && Self::same_memo(o, f, QueryId::ProgramIr),
            None => Self::lowering_step(o, f) && match f.memo_program_ir() {
                Some(Ok(p)) => {
                    let seg = added(f.orphan_checked(), o.orphan_checked().len());
                    is_fail_fast_run(requests(local_ids(p.impls()), p, o.choice(), Some(p)), seg) && r == run_outcome(seg)
                },
                Some(Err(e)) => r == Err::<(), ChalkError>(e) && f.orphan_checked() == o.orphan_checked(),
                None => false,
            },
        }
    }

    /// Checks every local implementation against the orphan rule, in order, with the
    /// program bound as the current one; stops at the first violation.
    pub fn orphan_check(&mut self) -> (r: Result<(), ChalkError>)
        requires
            old(self).wf(),
        ensures
            Self::orphan_check_post(*old(self), *final(self), r),
    {
        proof {
            lemma_extends_refl(self.orphan_checked());
        }
        if let Some(m) = &self.orphan_memo {
            return *m;
        }
        let program = match self.program_ir() {
            Ok(p) => p,
            Err(e) => {
                self.orphan_memo = Some(Err(e));
                return Err(e);
            },
        };
        let ids = program.local_impl_ids();
        let prior = self.context.enter(program.clone());
        let r = self.run_orphan_checks(&program, &ids);
        self.context.leave(prior);
        self.orphan_memo = Some(r);
        r
    }

    fn compute_priorities(&mut self, program: &Arc<ProgramIr>, traits: &Vec<u64>) -> (r: Result<PriorityMap, ChalkError>)
        requires
            strictly_increasing(traits@),
        ensures
            final(self).context.bound() == old(self).context.bound(),
            Self::keeps_memos(*old(self), *final(self)),
            Self::same_parsing(*old(self), *final(self)),
            final(self).lowered() == old(self).lowered(),
            final(self).orphan_checked() == old(self).orphan_checked(),
            final(self).wf_checked() == old(self).wf_checked(),
            final(self).projected() == old(self).projected(),
            extends(final(self).prioritized(), old(self).prioritized()),
            is_fail_fast_run(requests(traits@, *program, old(self).solver_choice, old(self).context.bound()), added(final(self).prioritized(), old(self).prioritized().len())),
            ({
                let seg = added(final(self).prioritized(), old(self).prioritized().len());
                match r {
                    Ok(m) => run_error(seg) is None && m@.dom() == traits@.to_set()
                        && forall|k: int| 0 <= k < seg.len() ==> m@[#[trigger] seg[k].0.0] == seg[k].1->Ok_0,
                    Err(e) => run_error(seg) == Some(e),
                }
            }),
    {
        let choice = self.solver_choice;
        let ghost start = self.prioritized();
        proof {
            lemma_extends_refl(start);
        }
        let mut map: PriorityMap = BTreeMap::new();
        let mut failed: Option<ChalkError> = None;
        let mut k: usize = 0;
        while k < traits.len() && failed.is_none()
            invariant
                k <= traits.len(),
                strictly_increasing(traits@),
                self.context.bound() == old(self).context.bound(),
                Self::keeps_memos(*old(self), *self),
                Self::same_parsing(*old(self), *self),
                self.lowered() == old(self).lowered(),
                self.orphan_checked() == old(self).orphan_checked(),
                self.wf_checked() == old(self).wf_checked(),
                self.projected() == old(self).projected(),
                choice == self.solver_choice,
                extends(self.prioritized(), start),
                added(self.prioritized(), start.len()).len() == k,
                forall|j: int| 0 <= j < k ==> #[trigger] added(self.prioritized(), start.len())[j].0 == (traits@[j], *program, choice, old(self).context.bound()),
                failed is None ==> forall|j: int| 0 <= j < k ==> #[trigger] added(self.prioritized(), start.len())[j].1 is Ok,
                failed is None ==> forall|x: u64| map@.contains_key(x) <==> traits@.subrange(0, k as int).contains(x),
                failed is None ==> forall|j: int| 0 <= j < k ==> map@[#[trigger] traits@[j]] == added(self.prioritized(), start.len())[j].1->Ok_0,
                failed matches Some(e) ==> k > 0 && added(self.prioritized(), start.len())[k - 1].1
                    == Err::<Arc<SpecializationPriorities>, ChalkError>(e)
                    && forall|j: int| 0 <= j < k - 1 ==> #[trigger] added(self.prioritized(), start.len())[j].1 is Ok,
            decreases traits.len() - k,
        {
            let t = traits[k];
            let ghost before = self.prioritized();
            let res = self.services.specialization_priorities(&self.context, program, choice, t);
            assert(added(self.prioritized(), start.len()) =~= added(before, start.len()).push(((t, *program, choice, self.context.bound()), res)));
            assert(self.prioritized().subrange(0, start.len() as int) =~= before.subrange(0, start.len() as int));
            match res {
                Err(e) => {
                    failed = Some(e);
                },
                Ok(a) => {
                    map.insert(t, a);
                    assert(traits@.subrange(0, k + 1 as int) =~= traits@.subrange(0, k as int).push(t));
                    assert forall|x: u64| map@.contains_key(x) <==> traits@.subrange(0, k + 1 as int).contains(x) by {
                        if x == t {
                            assert(traits@.subrange(0, k + 1 as int)[k as int] == x);
                        }
                        if traits@.subrange(0, k + 1 as int).contains(x) && x != t {
                            let w = choose|w: int| 0 <= w < k + 1 && #[trigger] traits@.subrange(0, k + 1 as int)[w] == x;
                            assert(traits@.subrange(0, k as int)[w] == x);
                        }
                        if traits@.subrange(0, k as int).contains(x) {
                            let w = choose|w: int| 0 <= w < k && #[trigger] traits@.subrange(0, k as int)[w] == x;
                            assert(traits@.subrange(0, k + 1 as int)[w] == x);
                        }
                    }
                    assert forall|j: int| 0 <= j < k + 1 implies map@[#[trigger] traits@[j]] == added(self.prioritized(), start.len())[j].1->Ok_0 by {
                        if j < k {
                            assert(traits@[j] < traits@[k as int]);
                        }
                    }
                },
            }
            k = k + 1;
        }
        match failed {
            Some(e) => Err(e),
            None => {
                assert(traits@.subrange(0, traits.len() as int) =~= traits@);
                assert(map@.dom() =~= traits@.to_set());
                Ok(map)
            },
        }
    }

    /// The contract of `coherence`.
    pub open spec fn coherence_post(o: Self, f: Self, r: Result<PriorityMap, ChalkError>) -> bool {
        &&& f.wf()
        &&& o.memo_coherence() is Some ==> f.recorder() == o.recorder()
        &&& f.bound_program() == o.bound_program()
        &&& Self::coherence_step(o, f, coherence_view(r))
        &&& f.wf_checked() == o.wf_checked() && f.projected() == o.projected()
        &&& Self::same_memo(o, f, QueryId::Environment) && Self::same_memo(o, f, QueryId::CheckedProgram)
    }

    /// What asking for the orphan check of program `p` does to its memo and record: a
    /// memoized result stays and no check runs; otherwise the local implementations of
    /// `p` are checked in a fail-fast run, with `p` bound, and its outcome is memoized.
    pub open spec fn orphan_step(o: Self, f: Self, p: Arc<ProgramIr>) -> bool {
        match o.memo_orphan_check() {
            Some(x) => f.memo_orphan_check() == Some(x) && f.orphan_checked() == o.orphan_checked(),
            None => {
                let seg = added(f.orphan_checked(), o.orphan_checked().len());
                &&& is_fail_fast_run(requests(local_ids(p.impls()), p, o.choice(), Some(p)), seg)
                &&& f.memo_orphan_check() == Some(run_outcome(seg))
            },
        }
    }

    /// What asking for coherence does to the lowering, priority and orphan memos and
    /// records, `c` being the coherence result: a memoized result stays and nothing runs;
    /// otherwise the priorities of every trait are computed in a fail-fast run, and only
    /// when all succeed is the orphan check asked for, which then decides the result.
    pub open spec fn coherence_step(
        o: Self,
        f: Self,
        c: Result<Map<u64, Arc<SpecializationPriorities>>, ChalkError>,
    ) -> bool {
        &&& f.memo_coherence() == Some(c)
        &&& f.text() == o.text() && f.choice() == o.choice()
        &&& extends(f.prioritized(), o.prioritized()) && extends(f.orphan_checked(), o.orphan_checked())
        &&& c matches Ok(m) ==> (f.memo_program_ir() matches Some(Ok(p)) && m.dom() == p.traits().to_set())
        &&& match o.memo_coherence() {
            Some(m) => c == m && f.lowered() == o.lowered()
                && f.prioritized() == o.prioritized() && f.orphan_checked() == o.orphan_checked()
                && Self::same_memo(o, f, QueryId::ProgramIr) && Self::same_memo(o, f, QueryId::OrphanCheck),
            None => Self::lowering_step(o, f) && match f.memo_program_ir() {
                Some(Ok(p)) => {
                    let seg = added(f.prioritized(), o.prioritized().len());
                    &&& is_fail_fast_run(requests(p.traits(), p, o.choice(), o.bound_program()), seg)
                    &&& match run_error(seg) {
                        Some(e) => c == Err::<Map<u64, Arc<SpecializationPriorities>>, ChalkError>(e)
                            && f.orphan_checked() == o.orphan_checked()
                            && Self::same_memo(o, f, QueryId::OrphanCheck),
                        None => Self::orphan_step(o, f, p) && match f.memo_orphan_check() {
                            Some(Err(e)) => c == Err::<Map<u64, Arc<SpecializationPriorities>>, ChalkError>(e),
                            Some(Ok(())) => c matches Ok(m) && forall|k: int| 0 <= k < seg.len()
                                ==> m[#[trigger] seg[k].0.0] == seg[k].1->Ok_0,
                            None => false,
                        },
                    }
                },
                Some(Err(e)) => c == Err::<Map<u64, Arc<SpecializationPriorities>>, ChalkError>(e)
                    && f.prioritized() == o.prioritized() && f.orphan_checked() == o.orphan_checked()
                    && Self::same_memo(o, f, QueryId::OrphanCheck),
                None => false,
            },
        }
    }

    /// The specialization priorities of every trait, keyed by trait, computed in order of
    /// trait and stopping at the first failure; then the orphan check, whose failure
    /// fails this too.
    pub fn coherence(&mut self) -> (r: Result<PriorityMap, ChalkError>)
        requires
            old(self).wf(),
        ensures
            Self::coherence_post(*old(self), *final(self), r),
    {
        proof {
            lemma_extends_refl(self.prioritized());
            lemma_extends_refl(self.orphan_checked());
        }
        if let Some(m) = &self.coherence_memo {
            return share_map(m);
        }
        let program = match self.program_ir() {
            Ok(p) => p,
            Err(e) => {
                self.coherence_memo = Some(Err(e));
                return Err(e);
            },
        };
        let traits = program.trait_ids();
        let priorities = match self.compute_priorities(&program, traits) {
            Ok(m) => m,
            Err(e) => {
                self.coherence_memo = Some(Err(e));
                return Err(e);
            },
        };
        let ghost before_orphan = *self;
        let orphan = self.orphan_check();
        proof {
            assert(before_orphan.memo_orphan_check() == old(self).memo_orphan_check());
            assert(before_orphan.orphan_checked() == old(self).orphan_checked());
            assert(Self::orphan_step(*old(self), *self, program));
        }
        if let Err(e) = orphan {
            self.coherence_memo = Some(Err(e));
            return Err(e);
        }
        let r = Ok(priorities);
        self.coherence_memo = Some(share_map(&r));
        r
    }

    fn wf_target_list(program: &ProgramIr) -> (r: Vec<WfTarget>)
        ensures
            r@ == wf_targets(*program),
    {
        let structs = program.struct_ids();
        let impls = program.impl_ids();
        let ghost head = program.structs().map_values(|s: u64| WfTarget::Struct(s));
        let mut r: Vec<WfTarget> = Vec::new();
        let mut k: usize = 0;
        while k < structs.len()
            invariant
                k <= structs.len(),
                structs@ == program.structs(),
                r@ == structs@.subrange(0, k as int).map_values(|s: u64| WfTarget::Struct(s)),
            decreases structs.len() - k,
        {
            r.push(WfTarget::Struct(structs[k]));
            k = k + 1;
            assert(r@ =~= structs@.subrange(0, k as int).map_values(|s: u64| WfTarget::Struct(s)));
        }
        assert(structs@.subrange(0, k as int) =~= structs@);
        assert(r@ =~= head);
        let mut k: usize = 0;
        while k < impls.len()
            invariant
                k <= impls.len(),
                impls@ == crate::ir::impl_ids(program.impls()),
                r@ == head + impls@.subrange(0, k as int).map_values(|i: u64| WfTarget::Impl(i)),
            decreases impls.len() - k,
        {
            r.push(WfTarget::Impl(impls[k]));
            k = k + 1;
            assert(r@ =~= head + impls@.subrange(0, k as int).map_values(|i: u64| WfTarget::Impl(i)));
        }
        assert(impls@.subrange(0, k as int) =~= impls@);
        assert(r@ =~= wf_targets(*program));
        r
    }

    fn run_wf_checks(&mut self, program: &Arc<ProgramIr>, targets: &Vec<WfTarget>) -> (r: Result<(), ChalkError>)
        requires
            old(self).context.bound() == Some(*program),
        ensures
            final(self).context.bound() == Some(*program),
            Self::keeps_memos(*old(self), *final(self)),
            Self::same_parsing(*old(self), *final(self)),
            final(self).lowered() == old(self).lowered(),
            final(self).prioritized() == old(self).prioritized(),
            final(self).orphan_checked() == old(self).orphan_checked(),
            final(self).projected() == old(self).projected(),
            extends(final(self).wf_checked(), old(self).wf_checked()),
            is_fail_fast_run(requests(targets@, *program, old(self).solver_choice, Some(*program)), added(final(self).wf_checked(), old(self).wf_checked().len())),
            r == run_outcome(added(final(self).wf_checked(), old(self).wf_checked().len())),
    {
        let choice = self.solver_choice;
        let ghost start = self.wf_checked();
        proof {
            lemma_extends_refl(start);
        }
        let mut failed: Option<ChalkError> = None;
        let mut k: usize = 0;
        while k < targets.len() && failed.is_none()
            invariant
                k <= targets.len(),
                self.context.bound() == Some(*program),
                Self::keeps_memos(*old(self), *self),
                Self::same_parsing(*old(self), *self),
                self.lowered() == old(self).lowered(),
                self.prioritized() == old(self).prioritized(),
                self.orphan_checked() == old(self).orphan_checked(),
                self.projected() == old(self).projected(),
                choice == self.solver_choice,
                extends(self.wf_checked(), start),
                added(self.wf_checked(), start.len()).len() == k,
                forall|j: int| 0 <= j < k ==> #[trigger] added(self.wf_checked(), start.len())[j].0 == (targets@[j], *program, choice, Some(*program)),
                failed is None ==> forall|j: int| 0 <= j < k ==> #[trigger] added(self.wf_checked(), start.len())[j].1 is Ok,
                failed matches Some(e) ==> k > 0 && added(self.wf_checked(), start.len())[k - 1].1 == Err::<(), ChalkError>(e)
                    && forall|j: int| 0 <= j < k - 1 ==> #[trigger] added(self.wf_checked(), start.len())[j].1 is Ok,
            decreases targets.len() - k,
        {
            let target = targets[k];
            let ghost before = self.wf_checked();
            let res = self.services.verify_decl(&self.context, program, choice, target);
            assert(added(self.wf_checked(), start.len()) =~= added(before, start.len()).push(((target, *program, choice, Some(*program)), res)));
            assert(self.wf_checked().subrange(0, start.len() as int) =~= before.subrange(0, start.len() as int));
            if let Err(e) = res {
                failed = Some(e);
            }
            k = k + 1;
        }
        match failed {
            Some(e) => Err(e),
            None => Ok(()),
        }
    }

    /// The contract of `checked_program`.
    pub open spec fn checked_program_post(o: Self, f: Self, r: Result<Arc<ProgramIr>, ChalkError>) -> bool {
        &&& f.wf()
        &&& o.memo_checked_program() is Some ==> f.recorder() == o.recorder()
        &&& f.bound_program() == o.bound_program()
        &&& f.memo_checked_program() == Some(r)
        &&& f.text() == o.text() && f.choice() == o.choice()
        &&& f.projected() == o.projected()
        &&& Self::same_memo(o, f, QueryId::Environment)
        &&& extends(f.prioritized(), o.prioritized()) && extends(f.orphan_checked(), o.orphan_checked())
        &&& extends(f.wf_checked(), o.wf_checked())
        &&& match o.memo_checked_program() {
            Some(m) => r == m && f.lowered() == o.lowered() && f.prioritized() == o.prioritized()
                && f.orphan_checked() == o.orphan_checked() && f.wf_checked() == o.wf_checked()
                && Self::same_memo(o, f, QueryId::ProgramIr) && Self::same_memo(o, f, QueryId::OrphanCheck)
                && Self::same_memo(o, f, QueryId::Coherence),
            None => Self::lowering_step(o, f) && match f.memo_program_ir() {
                Some(Ok(p)) => f.memo_coherence() is Some && Self::coherence_step(o, f, f.memo_coherence()->Some_0)
                    && match f.memo_coherence() {
                    Some(Err(e)) => r == Err::<Arc<ProgramIr>, ChalkError>(e) && f.wf_checked() == o.wf_checked(),
                    Some(Ok(_)) => {
                        let seg = added(f.wf_checked(), o.wf_checked().len());
                        &&& is_fail_fast_run(requests(wf_targets(*p), p, o.choice(), Some(p)), seg)
                        &&& match run_error(seg) {
                            Some(e) => r == Err::<Arc<ProgramIr>, ChalkError>(e),
                            None => r == Ok::<Arc<ProgramIr>, ChalkError>(p),
                        }
                    },
                    None => false,
                },
                Some(Err(e)) => r == Err::<Arc<ProgramIr>, ChalkError>(e) && f.wf_checked() == o.wf_checked(),
                None => false,
            },
        }
    }

    /// The lowered program once coherence (with the orphan check) has succeeded and every
    /// struct, then every implementation, has been checked well-formed with the program
    /// bound as the current one. A coherence failure is returned as it is, and then no
    /// well-formedness check runs.
    pub fn checked_program(&mut self) -> (r: Result<Arc<ProgramIr>, ChalkError>)
        requires
            old(self).wf(),
        ensures
            Self::checked_program_post(*old(self), *final(self), r),
    {
        proof {
            lemma_extends_refl(self.prioritized());
            lemma_extends_refl(self.orphan_checked());
            lemma_extends_refl(self.wf_checked());
        }
        if let Some(m) = &self.checked_memo {
            return share(m);
        }
        let program = match self.program_ir() {
            Ok(p) => p,
            Err(e) => {
                self.checked_memo = Some(Err(e));
                return Err(e);
            },
        };
        if let Err(e) = self.coherence() {
            self.checked_memo = Some(Err(e));
            return Err(e);
        }
        let targets = Self::wf_target_list(&program);
        let prior = self.context.enter(program.clone());
        let checked = self.run_wf_checks(&program, &targets);
        self.context.leave(prior);
        let r = match checked {
            Ok(()) => Ok(program),
            Err(e) => Err(e),
        };
        self.checked_memo = Some(share(&r));
        r
    }

    /// The contract of `environment`.
    pub open spec fn environment_post(o: Self, f: Self, r: Result<Arc<ProgramEnvironment>, ChalkError>) -> bool {
        &&& f.wf()
        &&& o.memo_environment() is Some ==> f.recorder() == o.recorder()
        &&& f.bound_program() == o.bound_program()
        &&& f.memo_environment() == Some(r)
        &&& f.text() == o.text() && f.choice() == o.choice()
        &&& f.prioritized() == o.prioritized() && f.orphan_checked() == o.orphan_checked()
        &&& f.wf_checked() == o.wf_checked()
        &&& Self::same_memo(o, f, QueryId::OrphanCheck) && Self::same_memo(o, f, QueryId::Coherence)
        &&& Self::same_memo(o, f, QueryId::CheckedProgram)
        &&& match o.memo_environment() {
            Some(m) => r == m && f.lowered() == o.lowered() && f.projected() == o.projected()
                && Self::same_memo(o, f, QueryId::ProgramIr),
            None => Self::lowering_step(o, f) && match f.memo_program_ir() {
                Some(Ok(p)) => r is Ok && f.projected() == o.projected().push((p, r->Ok_0)),
                Some(Err(e)) => r == Err::<Arc<ProgramEnvironment>, ChalkError>(e) && f.projected() == o.projected(),
                None => false,
            },
        }
    }

    /// The lowered program's logic clauses. Runs no coherence or well-formedness check.
    pub fn environment(&mut self) -> (r: Result<Arc<ProgramEnvironment>, ChalkError>)
        requires
            old(self).wf(),
        ensures
            Self::environment_post(*old(self), *final(self), r),
    {
        if let Some(m) = &self.environment_memo {
            return share(m);
        }
        let program = match self.program_ir() {
            Ok(p) => p,
            Err(e) => {
                self.environment_memo = Some(Err(e));
                return Err(e);
            },
        };
        let env = self.services.environment(&program);
        let r = Ok(env);
        self.environment_memo = Some(share(&r));
        r
    }

    /// Asking for the lowered program twice with no input set in between gives the same
    /// result, and lowering runs at most once over both calls.
    pub proof fn lemma_program_ir_memoized(
        d0: Self,
        d1: Self,
        d2: Self,
        r1: Result<Arc<ProgramIr>, ChalkError>,
        r2: Result<Arc<ProgramIr>, ChalkError>,
    )
        requires
            Self::program_ir_post(d0, d1, r1),
            Self::program_ir_post(d1, d2, r2),
        ensures
            r1 == r2,
            d2.lowered() == d1.lowered(),
            d1.lowered().len() <= d0.lowered().len() + 1,
    {
    }

    /// Asking for the orphan check twice with no input set in between gives the same
    /// result, and the second call runs no check.
    pub proof fn lemma_orphan_check_memoized(
        d0: Self,
        d1: Self,
        d2: Self,
        r1: Result<(), ChalkError>,
        r2: Result<(), ChalkError>,
    )
        requires
            Self::orphan_check_post(d0, d1, r1),
            Self::orphan_check_post(d1, d2, r2),
        ensures
            r1 == r2,
            d2.lowered() == d1.lowered(),
            d2.orphan_checked() == d1.orphan_checked(),
    {
    }

    /// Asking for coherence twice with no input set in between gives the same map or
    /// error, and the second call runs neither lowering nor any check.
    pub proof fn lemma_coherence_memoized(
        d0: Self,
        d1: Self,
        d2: Self,
        r1: Result<PriorityMap, ChalkError>,
        r2: Result<PriorityMap, ChalkError>,
    )
        requires
            Self::coherence_post(d0, d1, r1),
            Self::coherence_post(d1, d2, r2),
        ensures
            coherence_view(r1) == coherence_view(r2),
            d2.lowered() == d1.lowered(),
            d2.prioritized() == d1.prioritized(),
            d2.orphan_checked() == d1.orphan_checked(),
    {
    }

    /// Asking for the checked program twice with no input set in between gives the same
    /// result, and the second call runs neither lowering nor any check.
    pub proof fn lemma_checked_program_memoized(
        d0: Self,
        d1: Self,
        d2: Self,
        r1: Result<Arc<ProgramIr>, ChalkError>,
        r2: Result<Arc<ProgramIr>, ChalkError>,
    )
        requires
            Self::checked_program_post(d0, d1, r1),
            Self::checked_program_post(d1, d2, r2),
        ensures
            r1 == r2,
            d2.lowered() == d1.lowered(),
            d2.prioritized() == d1.prioritized(),
            d2.orphan_checked() == d1.orphan_checked(),
            d2.wf_checked() == d1.wf_checked(),
    {
    }

    /// Asking for the environment twice with no input set in between gives the same
    /// result, and the projection runs at most once over both calls.
    pub proof fn lemma_environment_memoized(
        d0: Self,
        d1: Self,
        d2: Self,
        r1: Result<Arc<ProgramEnvironment>, ChalkError>,
        r2: Result<Arc<ProgramEnvironment>, ChalkError>,
    )
        requires
            Self::environment_post(d0, d1, r1),
            Self::environment_post(d1, d2, r2),
        ensures
            r1 == r2,
            d2.lowered() == d1.lowered(),
            d2.projected() == d1.projected(),
    {
    }

    /// Setting the program text drops every derived result.
    pub proof fn lemma_text_change_invalidates_all(d0: Self, d1: Self)
        requires
            Self::set_input_post(d0, d1, InputId::ProgramText),
        ensures
            forall|q: QueryId| !#[trigger] d1.cached(q),
    {
        assert forall|q: QueryId| !#[trigger] d1.cached(q) by {
            crate::deps::lemma_invalidation_reach(q);
        }
    }

    /// Setting the solver choice keeps the lowered program and its environment, and drops
    /// coherence, the orphan check and the checked program.
    pub proof fn lemma_choice_change_invalidates_checks(d0: Self, d1: Self)
        requires
            Self::set_input_post(d0, d1, InputId::SolverChoice),
        ensures
            d1.memo_program_ir() == d0.memo_program_ir(),
            d1.memo_environment() == d0.memo_environment(),
            !d1.cached(QueryId::Coherence),
            !d1.cached(QueryId::OrphanCheck),
            !d1.cached(QueryId::CheckedProgram),
    {
        crate::deps::lemma_invalidation_reach(QueryId::ProgramIr);
        crate::deps::lemma_invalidation_reach(QueryId::Environment);
        crate::deps::lemma_invalidation_reach(QueryId::Coherence);
        crate::deps::lemma_invalidation_reach(QueryId::OrphanCheck);
        crate::deps::lemma_invalidation_reach(QueryId::CheckedProgram);
        assert(d1.cached(QueryId::Coherence) == (d0.cached(QueryId::Coherence) && !reads_input(
            QueryId::Coherence,
            InputId::SolverChoice,
        )));
        assert(d1.cached(QueryId::OrphanCheck) == (d0.cached(QueryId::OrphanCheck) && !reads_input(
            QueryId::OrphanCheck,
            InputId::SolverChoice,
        )));
        assert(d1.cached(QueryId::CheckedProgram) == (d0.cached(QueryId::CheckedProgram)
            && !reads_input(QueryId::CheckedProgram, InputId::SolverChoice)));
        assert(Self::same_memo(d0, d1, QueryId::ProgramIr));
        assert(Self::same_memo(d0, d1, QueryId::Environment));
    }

    /// When coherence has failed, asking for the checked program runs no well-formedness
    /// check and fails.
    pub proof fn lemma_wf_gated_on_coherence(d0: Self, d1: Self, r: Result<Arc<ProgramIr>, ChalkError>)
        requires
            Self::checked_program_post(d0, d1, r),
            d1.memo_coherence() matches Some(Err(_)),
        ensures
            d1.wf_checked() == d0.wf_checked(),
            r is Err,
    {
    }

    /// A successful coherence map has exactly one key per trait of the lowered program.
    pub proof fn lemma_coherence_complete(
        d0: Self,
        d1: Self,
        r: Result<PriorityMap, ChalkError>,
        p: Arc<ProgramIr>,
    )
        requires
            Self::coherence_post(d0, d1, r),
            r is Ok,
            d1.memo_program_ir() == Some(Ok::<Arc<ProgramIr>, ChalkError>(p)),
        ensures
            r->Ok_0@.dom() == p.traits().to_set(),
    {
    }

    /// When the priorities of the trait at position `k` fail, coherence returns that
    /// error, computes nothing for the traits after it, and runs no orphan check.
    pub proof fn lemma_coherence_fail_fast(
        d0: Self,
        d1: Self,
        r: Result<PriorityMap, ChalkError>,
        p: Arc<ProgramIr>,
        k: int,
    )
        requires
            Self::coherence_post(d0, d1, r),
            d0.memo_coherence() is None,
            d1.memo_program_ir() == Some(Ok::<Arc<ProgramIr>, ChalkError>(p)),
            0 <= k < added(d1.prioritized(), d0.prioritized().len()).len(),
            added(d1.prioritized(), d0.prioritized().len())[k].1 is Err,
        ensures
            added(d1.prioritized(), d0.prioritized().len()).len() == k + 1,
            added(d1.prioritized(), d0.prioritized().len())[k].0 == (p.traits()[k], p, d0.choice(), d0.bound_program()),
            r == Err::<PriorityMap, ChalkError>(added(d1.prioritized(), d0.prioritized().len())[k].1->Err_0),
            d1.orphan_checked() == d0.orphan_checked(),
    {
    }

    /// A failed orphan check fails coherence; when coherence was not memoized and every
    /// trait's priorities were computed, coherence fails with the orphan check's error.
    pub proof fn lemma_orphan_failure_fails_coherence(
        d0: Self,
        d1: Self,
        r: Result<PriorityMap, ChalkError>,
        e: ChalkError,
    )
        requires
            Self::coherence_post(d0, d1, r),
            d1.memo_orphan_check() == Some(Err::<(), ChalkError>(e)),
        ensures
            r is Err,
            (d0.memo_coherence() is None && run_error(added(d1.prioritized(), d0.prioritized().len()))
                is None && (d1.memo_program_ir() matches Some(Ok(_)))) ==> r == Err::<PriorityMap, ChalkError>(e),
    {
    }

    /// A failed orphan check fails the checked program, and no well-formedness check runs.
    pub proof fn lemma_orphan_failure_fails_checked_program(
        d0: Self,
        d1: Self,
        r: Result<Arc<ProgramIr>, ChalkError>,
        e: ChalkError,
    )
        requires
            Self::checked_program_post(d0, d1, r),
            d1.memo_orphan_check() == Some(Err::<(), ChalkError>(e)),
        ensures
            r is Err,
            d1.wf_checked() == d0.wf_checked(),
    {
    }

    /// After the solver choice is set, asking for the checked program runs coherence
    /// again, handing the new choice to every priority computation.
    pub proof fn lemma_choice_change_reruns_coherence(
        d0: Self,
        d1: Self,
        d2: Self,
        r: Result<Arc<ProgramIr>, ChalkError>,
        p: Arc<ProgramIr>,
    )
        requires
            Self::set_input_post(d0, d1, InputId::SolverChoice),
            Self::checked_program_post(d1, d2, r),
            d2.memo_program_ir() == Some(Ok::<Arc<ProgramIr>, ChalkError>(p)),
        ensures
            is_fail_fast_run(
                requests(p.traits(), p, d1.choice(), None),
                added(d2.prioritized(), d1.prioritized().len()),
            ),
            d2.lowered() == d1.lowered() || d1.memo_program_ir() is None,
    {
        Self::lemma_choice_change_invalidates_checks(d0, d1);
    }

    /// The lowered program is what the last request for it gave, for the current text;
    /// when that was not memoized and parsing failed, the parse error comes back as it is
    /// and nothing is lowered.
    pub proof fn lemma_program_ir_is_lowering(d0: Self, d1: Self, r: Result<Arc<ProgramIr>, ChalkError>)
        requires
            Self::program_ir_post(d0, d1, r),
        ensures
            d1.lowered().len() > 0 && d1.lowered().last() == (d1.text(), r),
            (d0.memo_program_ir() is None && d1.recorder().parsed().last().1 is Err) ==> (r
                == Err::<Arc<ProgramIr>, ChalkError>(d1.recorder().parsed().last().1->Err_0)
                && d1.recorder().trees_lowered() == d0.recorder().trees_lowered()),
    {
    }

    /// The environment is the projection of the lowered program, or its lowering error.
    pub proof fn lemma_environment_is_projection(
        d0: Self,
        d1: Self,
        r: Result<Arc<ProgramEnvironment>, ChalkError>,
    )
        requires
            Self::environment_post(d0, d1, r),
        ensures
            r matches Ok(e) ==> (d1.memo_program_ir() matches Some(Ok(p)) && d1.projected().len() > 0
                && d1.projected().last() == (p, e)),
            r matches Err(e) ==> d1.memo_program_ir() == Some(Err::<Arc<ProgramIr>, ChalkError>(e)),
    {
    }
}

} // verus!
