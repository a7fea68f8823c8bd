//! Runtime core of an interpreter for a small dynamically-typed scripting
//! language: statements and expressions over a value model with null,
//! boolean, integer, byte-string, list, object and function values, where
//! lists, objects and functions are shared, mutable, aliasable entities and
//! functions are closures over lexical scope.
//!
//! Shared containers live in an arena ([`eval::value::Heap`]); a runtime
//! value holds a handle (an index) into that arena, so two values with the
//! same handle observe each other's mutations.  The arena keeps every
//! container alive until the heap itself is dropped, which trades reclamation
//! of unreachable containers (including reference cycles, which plain
//! reference counting could not collect either) for a representation in
//! which aliasing is explicit and structurally safe.

pub mod ast;
pub mod diag;
pub mod eval;
pub mod laws;
