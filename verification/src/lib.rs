//! Half-edge mesh representation and topological editing.
//!
//! A mesh is stored as keyed records: vertices, directed half-edges ("arcs"),
//! and faces. Connectivity is routed through opaque keys into per-kind
//! storages, never through direct references. External code only ever holds a
//! [`mesh::Mesh`], an aggregate that has passed a full consistency
//! validation; edits go through the [`mutation::Mutation`] engine, which owns
//! a raw aggregate and re-validates on commit.
//!
//! The undirected edge is deliberately collapsed into its two directed arcs:
//! an arc carries one side of the pairing through its optional `opposite`
//! key, and no payload is attached to the undirected pairing itself.

pub mod edge;
pub mod geometry;
pub mod mesh;
pub mod mutation;
pub mod storage;

use vstd::prelude::*;

verus! {

/// The error taxonomy of the mesh core. Every failure is a caller or input
/// error reported synchronously; none is transient.
#[derive(Clone, Copy, Debug, PartialEq, Eq, Structural)]
pub enum GraphError {
    /// A referenced key does not resolve in the current aggregate.
    TopologyNotFound,
    /// An operation would create connectivity that already exists or is
    /// disallowed, such as a duplicate arc.
    TopologyConflict,
    /// A structural precondition is violated, such as a non-closing face
    /// cycle or a degenerate index group.
    TopologyMalformed,
    /// A face operation received a boundary sequence of unexpected length.
    ArityConflict { expected: usize, actual: usize },
    /// Mixed face arities were detected where a uniform arity was required.
    ArityNonConstant,
}

} // verus!
