use chalk_query::deps::{depends_on, direct_dependencies};
use chalk_query::{Dependency, InputId, QueryId};

const ALL: [QueryId; 5] = [
    QueryId::ProgramIr,
    QueryId::OrphanCheck,
    QueryId::Environment,
    QueryId::Coherence,
    QueryId::CheckedProgram,
];

#[test]
fn text_reaches_every_query() {
    for q in ALL {
        assert!(depends_on(q, InputId::ProgramText), "{:?}", q);
    }
}

#[test]
fn solver_choice_reaches_only_the_checks() {
    assert!(!depends_on(QueryId::ProgramIr, InputId::SolverChoice));
    assert!(!depends_on(QueryId::Environment, InputId::SolverChoice));
    assert!(depends_on(QueryId::OrphanCheck, InputId::SolverChoice));
    assert!(depends_on(QueryId::Coherence, InputId::SolverChoice));
    assert!(depends_on(QueryId::CheckedProgram, InputId::SolverChoice));
}

#[test]
fn checked_program_reads_coherence() {
    let deps = direct_dependencies(QueryId::CheckedProgram);
    assert!(deps.contains(&Dependency::Query(QueryId::Coherence)));
    assert_eq!(direct_dependencies(QueryId::ProgramIr), vec![Dependency::Input(InputId::ProgramText)]);
}
