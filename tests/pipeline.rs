use std::sync::Arc;

use chalk_query::{
    ChalkError, ImplDecl, LoweringDatabase, ProgramContext, ProgramEnvironment, ProgramIr,
    ProgramServices, ScopedBody, SolverChoice, SpecializationPriorities,
};

/// One item of the mock syntax: a trait or struct with its upstream flag, or an impl.
#[derive(Debug)]
enum Item {
    Trait(String, bool),
    Struct(String, bool),
    Impl(String, String),
}

/// A stand-in for the parser, lowering and solvers. It understands items of the form
/// `trait T {}`, `struct S {}` and `impl T for S {}`, each optionally preceded by
/// `#[upstream]`, and records every call it receives.
#[derive(Default)]
struct Mock {
    failing_traits: Vec<u64>,
    failing_decls: Vec<u64>,
    upstream_traits: Vec<u64>,
    upstream_structs: Vec<u64>,
    impl_self: Vec<(u64, u64)>,
    lowerings: usize,
    lower_calls: usize,
    priority_calls: Vec<u64>,
    orphan_calls: Vec<u64>,
    wf_calls: Vec<u64>,
    environment_calls: usize,
    bound_during_checks: Vec<bool>,
}

const TRAIT_BASE: u64 = 1;
const STRUCT_BASE: u64 = 1001;
const IMPL_BASE: u64 = 2001;

impl ProgramServices for Mock {
    type SyntaxTree = Vec<Item>;

    fn parse(&mut self, text: &str) -> Result<Vec<Item>, ChalkError> {
        self.lowerings += 1;
        let spaced = text.replace("{}", " ");
        let tokens: Vec<&str> = spaced.split_whitespace().collect();
        let mut items = Vec::new();
        let mut upstream = false;
        let mut i = 0;
        while i < tokens.len() {
            match tokens[i] {
                "#[upstream]" => {
                    upstream = true;
                    i += 1;
                    continue;
                }
                "trait" if i + 1 < tokens.len() => {
                    items.push(Item::Trait(tokens[i + 1].to_string(), upstream));
                    i += 2;
                }
                "struct" if i + 1 < tokens.len() => {
                    items.push(Item::Struct(tokens[i + 1].to_string(), upstream));
                    i += 2;
                }
                "impl" if i + 3 < tokens.len() && tokens[i + 2] == "for" => {
                    items.push(Item::Impl(tokens[i + 1].to_string(), tokens[i + 3].to_string()));
                    i += 4;
                }
                _ => return Err(ChalkError::Parse { offset: i as u64 }),
            }
            upstream = false;
        }
        Ok(items)
    }

    fn lower(&mut self, tree: &Vec<Item>) -> Result<ProgramIr, ChalkError> {
        self.lower_calls += 1;
        self.upstream_traits.clear();
        self.upstream_structs.clear();
        self.impl_self.clear();
        let mut traits: Vec<(String, u64)> = Vec::new();
        let mut structs: Vec<(String, u64)> = Vec::new();
        let mut pending_impls: Vec<(String, String)> = Vec::new();
        for item in tree {
            match item {
                Item::Trait(name, upstream) => {
                    let id = TRAIT_BASE + traits.len() as u64;
                    traits.push((name.clone(), id));
                    if *upstream {
                        self.upstream_traits.push(id);
                    }
                }
                Item::Struct(name, upstream) => {
                    let id = STRUCT_BASE + structs.len() as u64;
                    structs.push((name.clone(), id));
                    if *upstream {
                        self.upstream_structs.push(id);
                    }
                }
                Item::Impl(t, s) => pending_impls.push((t.clone(), s.clone())),
            }
        }
        let mut impls = Vec::new();
        for (k, (t, s)) in pending_impls.iter().enumerate() {
            let id = IMPL_BASE + k as u64;
            let trait_id = match traits.iter().find(|(n, _)| n == t) {
                Some((_, tid)) => *tid,
                None => return Err(ChalkError::Lowering { item: id }),
            };
            let self_id = match structs.iter().find(|(n, _)| n == s) {
                Some((_, sid)) => *sid,
                None => return Err(ChalkError::Lowering { item: id }),
            };
            self.impl_self.push((id, self_id));
            impls.push(ImplDecl { id, trait_id, local: true });
        }
        let trait_ids = traits.iter().map(|(_, id)| *id).collect();
        let struct_ids = structs.iter().map(|(_, id)| *id).collect();
        ProgramIr::new(trait_ids, struct_ids, impls).ok_or(ChalkError::Lowering { item: 0 })
    }

    fn specialization_priorities(
        &mut self,
        _context: &ProgramContext,
        program: &ProgramIr,
        _solver_choice: SolverChoice,
        trait_id: u64,
    ) -> Result<SpecializationPriorities, ChalkError> {
        self.priority_calls.push(trait_id);
        if self.failing_traits.contains(&trait_id) {
            return Err(ChalkError::Coherence { trait_id });
        }
        let impl_ids = program
            .impl_decls()
            .iter()
            .filter(|d| d.trait_id == trait_id)
            .map(|d| d.id)
            .collect();
        Ok(SpecializationPriorities { trait_id, impl_ids, specializes: Vec::new() })
    }

    fn orphan_check_impl(
        &mut self,
        context: &ProgramContext,
        program: &ProgramIr,
        _solver_choice: SolverChoice,
        impl_id: u64,
    ) -> Result<(), ChalkError> {
        self.orphan_calls.push(impl_id);
        self.bound_during_checks.push(context.current_program().is_some());
        let decl = program.impl_decls().iter().find(|d| d.id == impl_id).copied();
        let self_ty = self.impl_self.iter().find(|(i, _)| *i == impl_id).map(|(_, s)| *s);
        match (decl, self_ty) {
            (Some(d), Some(s))
                if self.upstream_traits.contains(&d.trait_id)
                    && self.upstream_structs.contains(&s) =>
            {
                Err(ChalkError::Orphan { impl_id })
            }
            _ => Ok(()),
        }
    }

    fn verify_struct_decl(
        &mut self,
        context: &ProgramContext,
        _program: &ProgramIr,
        _solver_choice: SolverChoice,
        struct_id: u64,
    ) -> Result<(), ChalkError> {
        self.wf_calls.push(struct_id);
        self.bound_during_checks.push(context.current_program().is_some());
        if self.failing_decls.contains(&struct_id) {
            return Err(ChalkError::WellFormed { decl_id: struct_id });
        }
        Ok(())
    }

    fn verify_trait_impl(
        &mut self,
        context: &ProgramContext,
        _program: &ProgramIr,
        _solver_choice: SolverChoice,
        impl_id: u64,
    ) -> Result<(), ChalkError> {
        self.wf_calls.push(impl_id);
        self.bound_during_checks.push(context.current_program().is_some());
        if self.failing_decls.contains(&impl_id) {
            return Err(ChalkError::WellFormed { decl_id: impl_id });
        }
        Ok(())
    }

    fn environment(&mut self, program: &ProgramIr) -> ProgramEnvironment {
        self.environment_calls += 1;
        let clauses = program
            .impl_decls()
            .iter()
            .map(|d| format!("Implemented(impl {} of trait {})", d.id, d.trait_id))
            .collect();
        ProgramEnvironment { clauses }
    }
}

const LOCAL_PROGRAM: &str = "trait T {} struct S {} impl T for S {}";
const ORPHAN_PROGRAM: &str = "#[upstream] trait Ext {} #[upstream] struct Foo {} impl Ext for Foo {}";
const THREE_TRAITS: &str =
    "trait A {} trait B {} trait C {} struct S {} impl A for S {} impl B for S {} impl C for S {}";

fn slg() -> SolverChoice {
    SolverChoice::Slg { max_size: 10 }
}

fn db(text: &str) -> LoweringDatabase<Mock> {
    LoweringDatabase::new(Mock::default(), text.to_string(), slg())
}

fn db_with(mock: Mock, text: &str) -> LoweringDatabase<Mock> {
    LoweringDatabase::new(mock, text.to_string(), slg())
}

#[test]
fn end_to_end_local_program() {
    let mut d = db(LOCAL_PROGRAM);
    let program = d.program_ir().expect("lowers");
    assert_eq!(program.trait_ids(), &vec![TRAIT_BASE]);
    assert_eq!(program.struct_ids(), &vec![STRUCT_BASE]);
    assert_eq!(program.impl_ids(), vec![IMPL_BASE]);

    let map = d.coherence().expect("coherent");
    assert_eq!(map.len(), 1);
    let prio = map.get(&TRAIT_BASE).expect("entry for T");
    assert_eq!(prio.trait_id, TRAIT_BASE);
    assert_eq!(prio.impl_ids, vec![IMPL_BASE]);

    assert_eq!(d.orphan_check(), Ok(()));

    let checked = d.checked_program().expect("well-formed");
    assert!(Arc::ptr_eq(&checked, &program));
    assert_eq!(d.services().wf_calls, vec![STRUCT_BASE, IMPL_BASE]);
    assert_eq!(d.services().lowerings, 1);
}

#[test]
fn end_to_end_orphan_violation() {
    let mut d = db(ORPHAN_PROGRAM);
    let expected = ChalkError::Orphan { impl_id: IMPL_BASE };
    assert_eq!(d.orphan_check(), Err(expected));
    assert_eq!(d.coherence(), Err(expected));
    assert_eq!(d.checked_program().err(), Some(expected));
    assert!(d.services().wf_calls.is_empty());
    // the orphan check ran once and was then replayed from the memo
    assert_eq!(d.services().orphan_calls, vec![IMPL_BASE]);
}

#[test]
fn program_ir_is_memoized() {
    let mut d = db(LOCAL_PROGRAM);
    let a = d.program_ir().unwrap();
    let b = d.program_ir().unwrap();
    assert!(Arc::ptr_eq(&a, &b));
    assert_eq!(d.services().lowerings, 1);
}

#[test]
fn errors_are_memoized_too() {
    let mut d = db("trait T {} bogus");
    assert_eq!(d.program_ir().unwrap_err(), ChalkError::Parse { offset: 2 });
    assert_eq!(d.program_ir().unwrap_err(), ChalkError::Parse { offset: 2 });
    assert_eq!(d.coherence(), Err(ChalkError::Parse { offset: 2 }));
    assert_eq!(d.checked_program().unwrap_err(), ChalkError::Parse { offset: 2 });
    assert_eq!(d.environment().unwrap_err(), ChalkError::Parse { offset: 2 });
    assert_eq!(d.services().lowerings, 1);
    assert_eq!(d.services().lower_calls, 0);
    assert!(d.services().priority_calls.is_empty());
}

#[test]
fn every_derived_result_is_memoized() {
    let mut d = db(THREE_TRAITS);
    let c1 = d.coherence().unwrap();
    let c2 = d.coherence().unwrap();
    assert_eq!(c1, c2);
    let p1 = d.checked_program().unwrap();
    let p2 = d.checked_program().unwrap();
    assert!(Arc::ptr_eq(&p1, &p2));
    let e1 = d.environment().unwrap();
    let e2 = d.environment().unwrap();
    assert!(Arc::ptr_eq(&e1, &e2));
    assert_eq!(d.orphan_check(), Ok(()));
    let s = d.services();
    assert_eq!(s.lowerings, 1);
    assert_eq!(s.priority_calls.len(), 3);
    assert_eq!(s.orphan_calls.len(), 3);
    assert_eq!(s.wf_calls.len(), 4);
    assert_eq!(s.environment_calls, 1);
}

#[test]
fn changing_text_invalidates_everything() {
    let mut d = db(LOCAL_PROGRAM);
    d.checked_program().unwrap();
    d.environment().unwrap();
    d.set_program_text(THREE_TRAITS.to_string());
    assert_eq!(d.program_text(), THREE_TRAITS);
    let map = d.coherence().unwrap();
    assert_eq!(map.len(), 3);
    d.checked_program().unwrap();
    d.environment().unwrap();
    let s = d.services();
    assert_eq!(s.lowerings, 2);
    assert_eq!(s.priority_calls, vec![1, 1, 2, 3]);
    assert_eq!(s.environment_calls, 2);
    assert_eq!(s.wf_calls.len(), 2 + 4);
}

#[test]
fn changing_solver_choice_keeps_lowering_and_environment() {
    let mut d = db(LOCAL_PROGRAM);
    d.checked_program().unwrap();
    d.environment().unwrap();
    let choice = SolverChoice::Recursive { overflow_depth: 100, caching_enabled: true };
    d.set_solver_choice(choice);
    assert_eq!(d.solver_choice(), choice);
    d.program_ir().unwrap();
    d.environment().unwrap();
    assert_eq!(d.services().lowerings, 1);
    assert_eq!(d.services().environment_calls, 1);
    d.checked_program().unwrap();
    let s = d.services();
    assert_eq!(s.priority_calls.len(), 2);
    assert_eq!(s.orphan_calls.len(), 2);
    assert_eq!(s.wf_calls.len(), 4);
}

#[test]
fn no_wf_check_after_coherence_failure() {
    let mock = Mock { failing_traits: vec![TRAIT_BASE], ..Mock::default() };
    let mut d = db_with(mock, LOCAL_PROGRAM);
    let expected = ChalkError::Coherence { trait_id: TRAIT_BASE };
    assert_eq!(d.checked_program().err(), Some(expected));
    assert_eq!(d.coherence(), Err(expected));
    assert!(d.services().wf_calls.is_empty());
}

#[test]
fn coherence_map_has_one_key_per_trait() {
    let mut d = db(THREE_TRAITS);
    let map = d.coherence().unwrap();
    let keys: Vec<u64> = map.keys().copied().collect();
    assert_eq!(keys, vec![1, 2, 3]);
    for (k, prio) in map.iter() {
        assert_eq!(prio.trait_id, *k);
        assert_eq!(prio.impl_ids.len(), 1);
    }
}

#[test]
fn coherence_fails_fast() {
    let mock = Mock { failing_traits: vec![TRAIT_BASE], ..Mock::default() };
    let mut d = db_with(mock, "trait A {} trait B {} struct S {} impl A for S {} impl B for S {}");
    assert_eq!(d.coherence(), Err(ChalkError::Coherence { trait_id: TRAIT_BASE }));
    assert_eq!(d.services().priority_calls, vec![TRAIT_BASE]);
    assert!(d.services().orphan_calls.is_empty());
}

#[test]
fn priorities_run_before_orphan_check() {
    let mock = Mock { failing_traits: vec![TRAIT_BASE], ..Mock::default() };
    let mut d = db_with(mock, ORPHAN_PROGRAM);
    assert_eq!(d.coherence(), Err(ChalkError::Coherence { trait_id: TRAIT_BASE }));
    assert!(d.services().orphan_calls.is_empty());
    assert_eq!(d.orphan_check(), Err(ChalkError::Orphan { impl_id: IMPL_BASE }));
}

#[test]
fn wf_checks_structs_before_impls_and_stop_at_first_failure() {
    let mock = Mock { failing_decls: vec![STRUCT_BASE + 1], ..Mock::default() };
    let mut d = db_with(mock, "trait T {} struct S {} struct U {} struct V {} impl T for S {}");
    assert_eq!(d.checked_program().err(), Some(ChalkError::WellFormed { decl_id: STRUCT_BASE + 1 }));
    assert_eq!(d.services().wf_calls, vec![STRUCT_BASE, STRUCT_BASE + 1]);
}

#[test]
fn impl_wf_failure_is_reported() {
    let mock = Mock { failing_decls: vec![IMPL_BASE], ..Mock::default() };
    let mut d = db_with(mock, LOCAL_PROGRAM);
    assert_eq!(d.checked_program().err(), Some(ChalkError::WellFormed { decl_id: IMPL_BASE }));
    assert_eq!(d.services().wf_calls, vec![STRUCT_BASE, IMPL_BASE]);
}

#[test]
fn checks_see_the_program_bound() {
    let mut d = db(LOCAL_PROGRAM);
    d.checked_program().unwrap();
    let seen = &d.services().bound_during_checks;
    assert_eq!(seen.len(), 3);
    assert!(seen.iter().all(|b| *b));
}

#[test]
fn lowering_error_is_reported() {
    let mut d = db("trait T {} impl T for Missing {}");
    assert_eq!(d.program_ir().unwrap_err(), ChalkError::Lowering { item: IMPL_BASE });
}

#[test]
fn environment_projects_the_program() {
    let mut d = db(LOCAL_PROGRAM);
    let env = d.environment().unwrap();
    assert_eq!(env.clauses, vec!["Implemented(impl 2001 of trait 1)".to_string()]);
    assert!(d.services().priority_calls.is_empty());
}

struct Nested {
    inner: Arc<ProgramIr>,
    seen: Vec<Option<Arc<ProgramIr>>>,
    depth: u32,
}

impl ScopedBody<Result<(), ChalkError>> for Nested {
    fn run(&mut self, context: &mut ProgramContext, program: &Arc<ProgramIr>) -> Result<(), ChalkError> {
        self.seen.push(context.current_program());
        assert!(Arc::ptr_eq(context.current_program().as_ref().unwrap(), program));
        if self.depth == 0 {
            return Err(ChalkError::WellFormed { decl_id: 7 });
        }
        self.depth -= 1;
        let inner = self.inner.clone();
        let r = context.with_current_program(inner, self);
        self.seen.push(context.current_program());
        r
    }
}

fn small_program() -> Arc<ProgramIr> {
    Arc::new(ProgramIr::new(vec![1], vec![2], vec![ImplDecl { id: 3, trait_id: 1, local: true }]).unwrap())
}

#[test]
fn context_restored_after_nested_failure() {
    let program = small_program();
    let mut context = ProgramContext::new();
    assert!(context.current_program().is_none());
    let mut body = Nested { inner: program.clone(), seen: Vec::new(), depth: 1 };
    let r = context.with_current_program(program.clone(), &mut body);
    assert_eq!(r, Err(ChalkError::WellFormed { decl_id: 7 }));
    assert!(context.current_program().is_none());
    assert_eq!(body.seen.len(), 3);
    assert!(body.seen.iter().all(|p| p.as_ref().map_or(false, |p| Arc::ptr_eq(p, &program))));
}

#[test]
fn program_rejects_unordered_or_duplicate_keys() {
    assert!(ProgramIr::new(vec![2, 1], vec![], vec![]).is_none());
    assert!(ProgramIr::new(vec![1], vec![5, 5], vec![]).is_none());
    let dup = vec![
        ImplDecl { id: 4, trait_id: 1, local: true },
        ImplDecl { id: 4, trait_id: 1, local: false },
    ];
    assert!(ProgramIr::new(vec![1], vec![], dup).is_none());
    assert!(ProgramIr::new(vec![], vec![], vec![]).is_some());
}

#[test]
fn local_impls_are_filtered_in_order() {
    let impls = vec![
        ImplDecl { id: 1, trait_id: 9, local: true },
        ImplDecl { id: 2, trait_id: 9, local: false },
        ImplDecl { id: 3, trait_id: 9, local: true },
    ];
    let p = ProgramIr::new(vec![9], vec![], impls).unwrap();
    assert_eq!(p.local_impl_ids(), vec![1, 3]);
    assert_eq!(p.impl_ids(), vec![1, 2, 3]);
}

#[test]
fn orphan_check_skips_non_local_impls() {
    // the orphan rule only concerns implementations declared in the program
    struct Fixed;
    impl ProgramServices for Fixed {
        type SyntaxTree = ();
        fn parse(&mut self, _text: &str) -> Result<(), ChalkError> {
            Ok(())
        }
        fn lower(&mut self, _tree: &()) -> Result<ProgramIr, ChalkError> {
            let impls = vec![ImplDecl { id: 5, trait_id: 1, local: false }];
            Ok(ProgramIr::new(vec![1], vec![], impls).unwrap())
        }
        fn specialization_priorities(
            &mut self,
            _c: &ProgramContext,
            _p: &ProgramIr,
            _s: SolverChoice,
            trait_id: u64,
        ) -> Result<SpecializationPriorities, ChalkError> {
            Ok(SpecializationPriorities { trait_id, impl_ids: vec![5], specializes: vec![] })
        }
        fn orphan_check_impl(
            &mut self,
            _c: &ProgramContext,
            _p: &ProgramIr,
            _s: SolverChoice,
            impl_id: u64,
        ) -> Result<(), ChalkError> {
            Err(ChalkError::Orphan { impl_id })
        }
        fn verify_struct_decl(
            &mut self,
            _c: &ProgramContext,
            _p: &ProgramIr,
            _s: SolverChoice,
            _id: u64,
        ) -> Result<(), ChalkError> {
            Ok(())
        }
        fn verify_trait_impl(
            &mut self,
            _c: &ProgramContext,
            _p: &ProgramIr,
            _s: SolverChoice,
            _id: u64,
        ) -> Result<(), ChalkError> {
            Ok(())
        }
        fn environment(&mut self, _p: &ProgramIr) -> ProgramEnvironment {
            ProgramEnvironment { clauses: vec![] }
        }
    }
    let mut d = LoweringDatabase::new(Fixed, String::new(), slg());
    assert_eq!(d.orphan_check(), Ok(()));
    assert!(d.coherence().is_ok());
}

#[test]
fn environment_ignores_coherence_failure() {
    let mock = Mock { failing_traits: vec![TRAIT_BASE], ..Mock::default() };
    let mut d = db_with(mock, LOCAL_PROGRAM);
    assert!(d.coherence().is_err());
    let env = d.environment().unwrap();
    assert_eq!(env.clauses, vec!["Implemented(impl 2001 of trait 1)".to_string()]);
}

#[test]
fn environment_follows_text_change() {
    let mut d = db(LOCAL_PROGRAM);
    assert_eq!(d.environment().unwrap().clauses.len(), 1);
    d.set_program_text(THREE_TRAITS.to_string());
    let env = d.environment().unwrap();
    assert_eq!(
        env.clauses,
        vec![
            "Implemented(impl 2001 of trait 1)".to_string(),
            "Implemented(impl 2002 of trait 2)".to_string(),
            "Implemented(impl 2003 of trait 3)".to_string(),
        ]
    );
    assert_eq!(d.services().environment_calls, 2);
}

#[test]
fn program_ir_follows_text_change() {
    let mut d = db(LOCAL_PROGRAM);
    let first = d.program_ir().unwrap();
    d.set_program_text("trait T {} oops".to_string());
    assert_eq!(d.program_ir().unwrap_err(), ChalkError::Parse { offset: 2 });
    d.set_program_text(LOCAL_PROGRAM.to_string());
    let again = d.program_ir().unwrap();
    assert!(!Arc::ptr_eq(&first, &again));
    assert_eq!(again.trait_ids(), first.trait_ids());
    assert_eq!(d.services().lowerings, 3);
}
