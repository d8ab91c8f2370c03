//! Reconstruction of the call hierarchy of instructions executed inside a
//! single blockchain transaction.
//!
//! A transaction yields a flat, time-ordered log of instructions annotated
//! only with a call-stack depth counter. This library normalizes the two wire
//! formats of that log into one ordered list of `(metadata, instruction)`
//! pairs, rebuilds the explicit instruction tree from the depth annotations in
//! a single linear pass, and walks the tree with a pluggable
//! decode-and-process pipeline in pre-order, fail-fast fashion.

pub mod hierarchy;
pub mod instruction;
pub mod model;
pub mod pipeline;
pub mod tracking;
pub mod transformers;
