//! A TCP port scan engine: the plan of ports to probe, the rule that decides
//! whether a probe found its port open, and the merge of the probes' results
//! into the list of open ports.
//!
//! The connection attempts themselves are made by the caller, one per planned
//! port; the engine is handed how each of them ended.

pub mod laws;
pub mod plan;
pub mod probe;
pub mod scanner;
