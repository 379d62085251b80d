//! Maximum flow on directed networks with integer arc capacities.
//!
//! A [`SimpleMaxFlow`] is built node by node and arc by arc; a solve computes
//! a maximum flow between two of its nodes and certifies it with a cut.
pub mod flow;
pub mod network;
pub mod solver;

pub use network::{FlowError, MaxFlowResult, SimpleMaxFlow, MAX_ARCS, MAX_NODES};
