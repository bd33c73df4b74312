//! The typed program representation and the values derived from it.
use vstd::prelude::*;

verus! {

/// Strategy used by the logic solver.
#[derive(Clone, Copy, Debug, PartialEq, Eq, Structural)]
pub enum SolverChoice {
    /// Tabled (SLG) solving with a bound on term size.
    Slg { max_size: u64 },
    /// Recursive solving with a bound on overflow depth.
    Recursive { overflow_depth: u64, caching_enabled: bool },
}

/// A failure of one pipeline phase, identifying the offending declaration.
#[derive(Clone, Copy, Debug, PartialEq, Eq, Structural)]
pub enum ChalkError {
    /// The text is not well-formed syntax; `offset` is the position of the fault.
    Parse { offset: u64 },
    /// The syntax tree violates a structural lowering rule at item `item`.
    Lowering { item: u64 },
    /// The specialization priorities of trait `trait_id` could not be computed.
    Coherence { trait_id: u64 },
    /// Implementation `impl_id` violates the orphan rule.
    Orphan { impl_id: u64 },
    /// Declaration `decl_id` (a struct or an implementation) is not well-formed.
    WellFormed { decl_id: u64 },
}

/// An implementation declaration: its identifier, the trait it implements, and whether
/// it is declared in this program (rather than pulled in from elsewhere).
#[derive(Clone, Copy, Debug, PartialEq, Eq, Structural)]
pub struct ImplDecl {
    pub id: u64,
    pub trait_id: u64,
    pub local: bool,
}

/// For one trait, its implementations and which of them specialize which: each pair
/// is `(specializing impl, specialized impl)`.
#[derive(Debug, PartialEq, Eq)]
pub struct SpecializationPriorities {
    pub trait_id: u64,
    pub impl_ids: Vec<u64>,
    pub specializes: Vec<(u64, u64)>,
}

/// The logic-ready projection of a program: its clauses.
#[derive(Debug, PartialEq, Eq)]
pub struct ProgramEnvironment {
    pub clauses: Vec<String>,
}

/// Whether a sequence of identifiers is strictly increasing (hence free of duplicates).
pub open spec fn strictly_increasing(s: Seq<u64>) -> bool {
    forall|i: int, j: int| 0 <= i < j < s.len() ==> s[i] < s[j]
}

/// Identifiers of a sequence of implementation declarations.
pub open spec fn impl_ids(s: Seq<ImplDecl>) -> Seq<u64> {
    s.map_values(|d: ImplDecl| d.id)
}

/// Identifiers of the local implementation declarations of `s`, in order.
pub open spec fn local_ids(s: Seq<ImplDecl>) -> Seq<u64>
    decreases s.len(),
{
    if s.len() == 0 {
        Seq::empty()
    } else {
        let rest = local_ids(s.drop_last());
        if s.last().local {
            rest.push(s.last().id)
        } else {
            rest
        }
    }
}

/// The typed program: trait, struct and implementation declarations, each keyed by a
/// unique identifier and kept in increasing order of it.
#[derive(Debug)]
pub struct ProgramIr {
    trait_ids: Vec<u64>,
    struct_ids: Vec<u64>,
    impls: Vec<ImplDecl>,
}

fn is_strictly_increasing(v: &Vec<u64>) -> (r: bool)
    ensures
        r == strictly_increasing(v@),
{
    let mut i: usize = 1;
    while i < v.len()
        invariant
            1 <= i || v.len() == 0,
            forall|a: int, b: int| 0 <= a < b < i && b < v.len() ==> v[a] < v[b],
        decreases v.len() - i,
    {
        if v[i - 1] >= v[i] {
            return false;
        }
        assert forall|a: int, b: int| 0 <= a < b < i + 1 && b < v.len() implies v[a] < v[b] by {
            if b == i && a < i - 1 {
                assert(v[a] < v[i - 1]);
            }
        }
        i = i + 1;
    }
    true
}

/// The identifiers of `impls`, in order.
fn ids_of(impls: &Vec<ImplDecl>) -> (r: Vec<u64>)
    ensures
        r@ == impl_ids(impls@),
{
    let mut ids: Vec<u64> = Vec::new();
    let mut i: usize = 0;
    while i < impls.len()
        invariant
            i <= impls.len(),
            ids@ == impl_ids(impls@.subrange(0, i as int)),
        decreases impls.len() - i,
    {
        ids.push(impls[i].id);
        i = i + 1;
        assert(impl_ids(impls@.subrange(0, i as int)) =~= impl_ids(
            impls@.subrange(0, i - 1 as int),
        ).push(impls@[i - 1].id));
    }
    assert(impls@.subrange(0, impls.len() as int) =~= impls@);
    ids
}

impl ProgramIr {
    #[verifier::type_invariant]
    spec fn keys_unique(self) -> bool {
        &&& strictly_increasing(self.trait_ids@)
        &&& strictly_increasing(self.struct_ids@)
        &&& strictly_increasing(impl_ids(self.impls@))
    }

    /// Identifiers of the declared traits, in increasing order.
    pub closed spec fn traits(self) -> Seq<u64> {
        self.trait_ids@
    }

    /// Identifiers of the declared structs, in increasing order.
    pub closed spec fn structs(self) -> Seq<u64> {
        self.struct_ids@
    }

    /// The implementation declarations, in increasing order of identifier.
    pub closed spec fn impls(self) -> Seq<ImplDecl> {
        self.impls@
    }

    /// Builds a program from its declarations; `None` where some collection is not in
    /// strictly increasing order of identifier.
    pub fn new(trait_ids: Vec<u64>, struct_ids: Vec<u64>, impls: Vec<ImplDecl>) -> (r: Option<
        ProgramIr,
    >)
        ensures
            r is Some <==> (strictly_increasing(trait_ids@) && strictly_increasing(struct_ids@)
                && strictly_increasing(impl_ids(impls@))),
            r matches Some(p) ==> p.traits() == trait_ids@ && p.structs() == struct_ids@
                && p.impls() == impls@,
    {
        let ids = ids_of(&impls);
        if is_strictly_increasing(&trait_ids) && is_strictly_increasing(&struct_ids)
            && is_strictly_increasing(&ids) {
            Some(ProgramIr { trait_ids, struct_ids, impls })
        } else {
            None
        }
    }

    /// Identifiers of the declared traits, in increasing order.
    pub fn trait_ids(&self) -> (r: &Vec<u64>)
        ensures
            r@ == self.traits(),
            strictly_increasing(r@),
    {
        proof {
            use_type_invariant(self);
        }
        &self.trait_ids
    }

    /// Identifiers of the declared structs, in increasing order.
    pub fn struct_ids(&self) -> (r: &Vec<u64>)
        ensures
            r@ == self.structs(),
            strictly_increasing(r@),
    {
        proof {
            use_type_invariant(self);
        }
        &self.struct_ids
    }

    /// The implementation declarations, in increasing order of identifier.
    pub fn impl_decls(&self) -> (r: &Vec<ImplDecl>)
        ensures
            r@ == self.impls(),
            strictly_increasing(impl_ids(r@)),
    {
        proof {
            use_type_invariant(self);
        }
        &self.impls
    }

    /// Identifiers of all implementations, in increasing order.
    pub fn impl_ids(&self) -> (r: Vec<u64>)
        ensures
            r@ == impl_ids(self.impls()),
            strictly_increasing(r@),
    {
        proof {
            use_type_invariant(self);
        }
        ids_of(&self.impls)
    }

    /// Identifiers of the implementations declared in this program, in increasing order.
    pub fn local_impl_ids(&self) -> (r: Vec<u64>)
        ensures
            r@ == local_ids(self.impls()),
    {
        let mut ids: Vec<u64> = Vec::new();
        let mut i: usize = 0;
        while i < self.impls.len()
            invariant
                i <= self.impls.len(),
                ids@ == local_ids(self.impls@.subrange(0, i as int)),
            decreases self.impls.len() - i,
        {
            let d = self.impls[i];
            assert(self.impls@.subrange(0, i + 1 as int).drop_last() =~= self.impls@.subrange(
                0,
                i as int,
            ));
            if d.local {
                ids.push(d.id);
            }
            i = i + 1;
        }
        assert(self.impls@.subrange(0, self.impls.len() as int) =~= self.impls@);
        ids
    }
}

} // verus!
