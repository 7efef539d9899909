//! Server-side core of a collaborative text editor.
//!
//! The `crdt` module holds the replicated sequence (an RGA: a tombstoned,
//! ordered sequence of character nodes) together with its integration rule.
//! The `actor` module holds the per-document decision core that serialises
//! edits, deduplicates them, and decides what is broadcast locally and what
//! is republished to the cross-instance channel.  The `laws` module states
//! and proves the algebraic properties of the integration rule.

pub mod actor;
pub mod crdt;
pub mod laws;
