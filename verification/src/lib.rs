//! Core engine of an issue tracker: an issue graph with hierarchy, blocking
//! dependencies, labels, comments, milestones, sessions and a single global
//! timer, together with the readiness computation and the next-issue
//! recommendation scorer. All state lives in a [`store::Store`] value whose
//! operations are specified and verified; durable storage and presentation
//! are left to callers.

pub mod audit;
pub mod errors;
pub mod export;
pub mod hierarchy;
pub mod issues;
pub mod model;
pub mod laws;
pub mod milestone;
pub mod next;
pub mod queries;
pub mod relations;
pub mod session;
pub mod store;
pub mod timer;
pub mod text;
