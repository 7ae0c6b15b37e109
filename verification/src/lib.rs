//! A real-time hierarchical call-tree profiler.
//!
//! Callers mark named regions of work with `enter`/`leave`; the profiler
//! accumulates, per region and per call-stack position, how many times the
//! region executed and how much wall-clock time it consumed across a
//! measurement window (a frame bounded by `start_frame`/`end_frame`).
//!
//! The call tree is stored as an arena of nodes addressed by stable indices:
//! a parent owns the indices of its children and every node but the root
//! holds the index of its parent, so the tree is acyclic by construction
//! (a child's index is always greater than its parent's).
//!
//! The `model` module gives the mathematical value of a profiler and of each
//! operation on it; the `laws` module proves the protocol's guarantees over
//! that model, among them that every balanced sequence of enter/leave calls
//! returns the cursor to where it began.

pub mod laws;
pub mod model;
pub mod node;
pub mod profiler;
pub mod report;
