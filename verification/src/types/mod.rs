//! Types: representation, substitution, unification and environments.

pub mod model;
pub mod repr;
pub mod subst;
pub mod order;
pub mod error;
pub mod unify;
pub mod table;
pub mod env;
pub mod builtins;
pub mod infer;
