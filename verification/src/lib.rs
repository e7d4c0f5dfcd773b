pub mod ast;
pub mod capture;
pub mod closing;
pub mod environment;
pub mod evaluation;
pub mod freshness;
pub mod inference;
pub mod instances;
pub mod interpret;
pub mod names;
pub mod relation;
pub mod scopes;
pub mod solution;
pub mod soundness;
pub mod substitution;
pub mod typecheck;
pub mod types;
pub mod unify;
