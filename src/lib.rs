//! Combinatorial core of a polyhedral solid-modelling kernel.
//!
//! Geometry proper (coordinates, planes, angles) is computed elsewhere in
//! floating point; this library holds the decisions that are made from the
//! results of those computations: ternary containment, the keep rules of the
//! boolean operations, distillation of edge bags into closed loops, winding
//! normalisation, slice pairing and triangle assembly. Alongside sit the
//! pieces of the scripting front end that need no geometry: syntax-tree
//! metadata, the scoped symbol table, and source-position lookup for
//! diagnostics.

pub mod ast;
pub mod boolean;
pub mod loops;
pub mod position;
pub mod scopes;
pub mod slice;
pub mod table;
pub mod tern;
pub mod triangles;
pub mod winding;
