//! Core execution engine for a streaming data platform.
//!
//! The engine takes a declarative directed acyclic graph of sources,
//! processors and sinks, instantiates bounded channels and record writers
//! for every edge, and runs the nodes under consistent, restartable
//! epoch semantics.  Persistence goes through a transactional ordered
//! key/value store shared by all nodes via byte prefixes.

use vstd::prelude::*;

pub mod admin;
pub mod aggregation;
pub mod barrier;
pub mod broadcast;
pub mod builder_dag;
pub mod channel;
pub mod codec;
pub mod dag;
pub mod connectors;
pub mod epoch;
pub mod eth;
pub mod execution_dag;
pub mod node;
pub mod record_store;
pub mod types;

verus! {

/// A port is a small integer naming an input or output slot of a node.
pub type PortHandle = u16;

/// The default port used by nodes with a single input or output.
pub const DEFAULT_PORT_HANDLE: PortHandle = 0xffff;

/// The output port of the built-in generator source.
pub const GENERATOR_SOURCE_OUTPUT_PORT: PortHandle = 100;

/// The input port of the built-in counting sink.
pub const COUNTING_SINK_INPUT_PORT: PortHandle = 90;

} // verus!
