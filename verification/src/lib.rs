//! Canonicalization machinery for a type-inference engine.
//!
//! An inference pass works with types that contain unresolved inference
//! variables, backed by a union-find unification table. Before a type or
//! trait obligation can be handed to an external constraint solver, every
//! live inference variable in it must be replaced by a positional `Bound`
//! placeholder; the solver's answer is later translated back, materializing
//! any variables the solver introduced. This crate provides:
//!
//! * the recursive type value and its substitution operations ([`ty`]),
//! * the union-find unification table ([`table`]),
//! * the inference context with its unify primitive ([`infer`]),
//! * the canonicalizer and the solution applier ([`canonical`]),
//! * proofs of the properties that hold of them ([`laws`]).

pub mod canonical;
pub mod infer;
pub mod laws;
pub mod table;
pub mod ty;

pub use canonical::{Canonical, Canonicalized, Canonicalizer, Environment, InEnvironment, ProjectionPredicate, ProjectionTy, TraitRef};
pub use infer::InferenceContext;
pub use table::UnificationTable;
pub use ty::{InferTy, Ty, TypeCtor, TypeVarId};
