//! Patch lifecycle engine for a peer-to-peer code collaboration network.
//!
//! A *patch* is a change proposal against a project replicated across peers:
//! a sequence of revisions, each naming a proposed head commit, together with
//! the merges and reviews peers have attached to it. This crate verifies the
//! algorithms that drive the patch workflow: resolving merge targets among
//! tracked peers, computing the commit set a patch carries, matching a working
//! copy to an updatable patch, and appending revisions with monotonic
//! versioning. Reading the git repositories and the object store from disk,
//! terminal interaction and transport are left to the surrounding binary,
//! which hands this library plain values.

pub mod bytes;
pub mod graph;
pub mod ids;
pub mod lifecycle;
pub mod list;
pub mod matcher;
pub mod message;
pub mod person;
pub mod store;
pub mod targets;
