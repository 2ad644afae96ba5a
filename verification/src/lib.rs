//! A model of the type lattice of a TypeScript analyzer: unions of types,
//! type matching, callable and interface types, call scopes and builtin
//! prototypes, with their contracts proved by Verus.

pub mod analyzer;
pub mod builtins;
pub mod collections;
pub mod nodes;
pub mod scope;
pub mod ty;
