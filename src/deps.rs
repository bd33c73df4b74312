//! The registry of derived computations and the inputs they read.
use vstd::prelude::*;

verus! {

/// An input value supplied by the caller.
#[derive(Clone, Copy, Debug, PartialEq, Eq, Structural)]
pub enum InputId {
    ProgramText,
    SolverChoice,
}

/// A derived (memoized) computation.
#[derive(Clone, Copy, Debug, PartialEq, Eq, Structural)]
pub enum QueryId {
    ProgramIr,
    OrphanCheck,
    Environment,
    Coherence,
    CheckedProgram,
}

/// A direct dependency of a derived computation.
#[derive(Clone, Copy, Debug, PartialEq, Eq, Structural)]
pub enum Dependency {
    Input(InputId),
    Query(QueryId),
}

/// Depth of a computation in the dependency graph: every direct dependency on another
/// computation points to a smaller depth.
pub open spec fn depth(q: QueryId) -> nat {
    match q {
        QueryId::ProgramIr => 0,
        QueryId::OrphanCheck => 1,
        QueryId::Environment => 1,
        QueryId::Coherence => 2,
        QueryId::CheckedProgram => 3,
    }
}

/// What each computation reads directly.
pub open spec fn direct_deps(q: QueryId) -> Seq<Dependency> {
    match q {
        QueryId::ProgramIr => seq![Dependency::Input(InputId::ProgramText)],
        QueryId::OrphanCheck => seq![
            Dependency::Query(QueryId::ProgramIr),
            Dependency::Input(InputId::SolverChoice),
        ],
        QueryId::Environment => seq![Dependency::Query(QueryId::ProgramIr)],
        QueryId::Coherence => seq![
            Dependency::Query(QueryId::ProgramIr),
            Dependency::Input(InputId::SolverChoice),
            Dependency::Query(QueryId::OrphanCheck),
        ],
        QueryId::CheckedProgram => seq![
            Dependency::Query(QueryId::ProgramIr),
            Dependency::Query(QueryId::Coherence),
            Dependency::Input(InputId::SolverChoice),
        ],
    }
}

/// Whether computation `q` reads input `i`, directly or through other computations.
pub open spec fn reads_input(q: QueryId, i: InputId) -> bool
    decreases depth(q), 1nat, 0nat,
{
    any_reads(direct_deps(q), i, depth(q))
}

/// Whether one of `ds` reads input `i`, following only computations below depth `bound`.
pub open spec fn any_reads(ds: Seq<Dependency>, i: InputId, bound: nat) -> bool
    decreases bound, 0nat, ds.len(),
{
    if ds.len() == 0 {
        false
    } else {
        let hit = match ds.last() {
            Dependency::Input(j) => j == i,
            Dependency::Query(p) => depth(p) < bound && reads_input(p, i),
        };
        hit || any_reads(ds.drop_last(), i, bound)
    }
}

/// Every derived computation, each once.
pub open spec fn all_queries() -> Seq<QueryId> {
    seq![
        QueryId::ProgramIr,
        QueryId::OrphanCheck,
        QueryId::Environment,
        QueryId::Coherence,
        QueryId::CheckedProgram,
    ]
}

pub fn all_query_ids() -> (r: Vec<QueryId>)
    ensures
        r@ == all_queries(),
{
    let r = vec![
        QueryId::ProgramIr,
        QueryId::OrphanCheck,
        QueryId::Environment,
        QueryId::Coherence,
        QueryId::CheckedProgram,
    ];
    assert(r@ =~= all_queries());
    r
}

/// The direct dependencies of `q`.
pub fn direct_dependencies(q: QueryId) -> (r: Vec<Dependency>)
    ensures
        r@ == direct_deps(q),
{
    let r = match q {
        QueryId::ProgramIr => vec![Dependency::Input(InputId::ProgramText)],
        QueryId::OrphanCheck => vec![
            Dependency::Query(QueryId::ProgramIr),
            Dependency::Input(InputId::SolverChoice),
        ],
        QueryId::Environment => vec![Dependency::Query(QueryId::ProgramIr)],
        QueryId::Coherence => vec![
            Dependency::Query(QueryId::ProgramIr),
            Dependency::Input(InputId::SolverChoice),
            Dependency::Query(QueryId::OrphanCheck),
        ],
        QueryId::CheckedProgram => vec![
            Dependency::Query(QueryId::ProgramIr),
            Dependency::Query(QueryId::Coherence),
            Dependency::Input(InputId::SolverChoice),
        ],
    };
    assert(r@ =~= direct_deps(q));
    r
}

fn query_depth(q: QueryId) -> (r: u64)
    ensures
        r == depth(q),
{
    match q {
        QueryId::ProgramIr => 0,
        QueryId::OrphanCheck => 1,
        QueryId::Environment => 1,
        QueryId::Coherence => 2,
        QueryId::CheckedProgram => 3,
    }
}

/// Whether computation `q` reads input `i`, following the registry transitively.
pub fn depends_on(q: QueryId, i: InputId) -> (r: bool)
    ensures
        r == reads_input(q, i),
    decreases depth(q),
{
    let ds = direct_dependencies(q);
    let bound = query_depth(q);
    let mut k: usize = 0;
    while k < ds.len()
        invariant
            k <= ds.len(),
            ds@ == direct_deps(q),
            bound == depth(q),
            !any_reads(ds@.subrange(0, k as int), i, depth(q)),
        decreases ds.len() - k,
    {
        let d = ds[k];
        let hit = match d {
            Dependency::Input(j) => j == i,
            Dependency::Query(p) => query_depth(p) < bound && depends_on(p, i),
        };
        let ghost next = ds@.subrange(0, k + 1 as int);
        assert(next.drop_last() =~= ds@.subrange(0, k as int));
        if hit {
            proof {
                lemma_any_reads_prefix(ds@, i, depth(q), k as int + 1);
            }
            return true;
        }
        k = k + 1;
    }
    assert(ds@.subrange(0, ds.len() as int) =~= ds@);
    false
}

proof fn lemma_any_reads_prefix(ds: Seq<Dependency>, i: InputId, bound: nat, n: int)
    requires
        0 <= n <= ds.len(),
        any_reads(ds.subrange(0, n), i, bound),
    ensures
        any_reads(ds, i, bound),
    decreases ds.len() - n,
{
    if n < ds.len() {
        let next = ds.subrange(0, n + 1);
        assert(next.drop_last() =~= ds.subrange(0, n));
        lemma_any_reads_prefix(ds, i, bound, n + 1);
    } else {
        assert(ds.subrange(0, n) =~= ds);
    }
}

/// Changing the program text reaches every derived computation; changing the solver
/// choice reaches every one but the lowered program and its environment.
pub proof fn lemma_invalidation_reach(q: QueryId)
    ensures
        reads_input(q, InputId::ProgramText),
        reads_input(q, InputId::SolverChoice) <==> !(q == QueryId::ProgramIr || q
            == QueryId::Environment),
{
    reveal_with_fuel(any_reads, 4);
    let t = InputId::ProgramText;
    let c = InputId::SolverChoice;
    assert(direct_deps(QueryId::OrphanCheck).drop_last() =~= seq![Dependency::Query(QueryId::ProgramIr)]);
    assert(direct_deps(QueryId::Coherence).drop_last() =~= seq![
        Dependency::Query(QueryId::ProgramIr),
        Dependency::Input(InputId::SolverChoice),
    ]);
    assert(direct_deps(QueryId::Coherence).drop_last().drop_last() =~= seq![
        Dependency::Query(QueryId::ProgramIr),
    ]);
    assert(direct_deps(QueryId::CheckedProgram).drop_last() =~= seq![
        Dependency::Query(QueryId::ProgramIr),
        Dependency::Query(QueryId::Coherence),
    ]);
    assert(direct_deps(QueryId::CheckedProgram).drop_last().drop_last() =~= seq![
        Dependency::Query(QueryId::ProgramIr),
    ]);
    assert(direct_deps(QueryId::ProgramIr).drop_last() =~= Seq::<Dependency>::empty());
    assert(direct_deps(QueryId::Environment).drop_last() =~= Seq::<Dependency>::empty());
    assert(seq![Dependency::Query(QueryId::ProgramIr)].drop_last() =~= Seq::<Dependency>::empty());
    assert(direct_deps(QueryId::ProgramIr).last() == Dependency::Input(InputId::ProgramText));
    assert(!any_reads(Seq::<Dependency>::empty(), c, 0));
    assert(!any_reads(direct_deps(QueryId::ProgramIr), c, 0));
    assert(reads_input(QueryId::ProgramIr, t));
    assert(!reads_input(QueryId::ProgramIr, c));
    let pir = seq![Dependency::Query(QueryId::ProgramIr)];
    assert(pir.last() == Dependency::Query(QueryId::ProgramIr));
    assert(any_reads(pir, t, 1));
    assert(any_reads(pir, t, 2));
    assert(any_reads(pir, t, 3));
    assert(!any_reads(pir, c, 1));
    assert(direct_deps(QueryId::OrphanCheck).last() == Dependency::Input(InputId::SolverChoice));
    assert(direct_deps(QueryId::Environment) =~= pir);
    assert(reads_input(QueryId::OrphanCheck, t));
    assert(reads_input(QueryId::OrphanCheck, c));
    assert(reads_input(QueryId::Environment, t));
    assert(!reads_input(QueryId::Environment, c));
    assert(reads_input(QueryId::Coherence, t));
    assert(reads_input(QueryId::Coherence, c));
    assert(direct_deps(QueryId::CheckedProgram).last() == Dependency::Input(InputId::SolverChoice));
    assert(any_reads(direct_deps(QueryId::CheckedProgram).drop_last().drop_last(), t, 3));
    assert(any_reads(direct_deps(QueryId::CheckedProgram).drop_last(), t, 3));
    assert(reads_input(QueryId::CheckedProgram, t));
    assert(reads_input(QueryId::CheckedProgram, c));
}

} // verus!
