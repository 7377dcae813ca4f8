//! A priority queue interface with minimum-first semantics, a binary heap
//! that implements it, and verified workloads that exercise any implementation.

pub mod conformance;
pub mod heap;
pub mod laws;
pub mod order;
pub mod queue;
pub mod workload;
