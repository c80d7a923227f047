//! A graph database: a quad store, a family of composable iterators over it,
//! and a path query language (in the style of Gremlin/Gizmo) that compiles
//! queries to iterator trees.
pub mod strutil;
pub mod arith;
pub mod graph;
pub mod query;

