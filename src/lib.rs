//! An incremental, memoizing verification pipeline for trait-resolution programs.
//!
//! Program text is lowered to a typed program, checked for coherence (specialization
//! priorities per trait and the orphan rule), then checked for well-formedness. Every
//! derived result is memoized and invalidated exactly when an input it depends on changes.
use vstd::prelude::*;

pub mod context;
pub mod database;
pub mod deps;
pub mod ir;
pub mod services;

pub use context::{ProgramContext, ScopedBody};
pub use database::{LoweringDatabase, PriorityMap, Request, WfTarget};
pub use deps::{Dependency, InputId, QueryId};
pub use ir::{ChalkError, ImplDecl, ProgramEnvironment, ProgramIr, SolverChoice, SpecializationPriorities};
pub use services::ProgramServices;
