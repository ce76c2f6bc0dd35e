//! Parallel training orchestration for a single-layer array of linear feature
//! detectors ("neurons") trained with a Hebbian-style update rule.
//!
//! The crate owns the orchestration core: how the neuron population is
//! partitioned into disjoint equal-size sections, how each section's work is
//! described for a worker, and how partial results are collected and
//! reassembled. The numeric update rule, the sample source and the worker
//! pool are external collaborators; weight cells are carried as opaque raw
//! 32-bit patterns whose numeric interpretation belongs to the update rule.
pub mod cells;
pub mod network;
pub mod reorder;
pub mod strategy_a;
pub mod strategy_b;
