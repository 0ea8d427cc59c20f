//! Node identity and node behaviour: handles that name nodes globally
//! after sub-graph merging, endpoints naming one port of one node, and
//! the built-in source, processor and sink behaviours the engine runs.

use vstd::prelude::*;

use crate::PortHandle;

verus! {

/// Identifies a node globally: an optional namespace (assigned when a
/// sub-graph is merged under a parent) plus a name.
#[derive(Clone, PartialEq, Eq, Debug)]
pub struct NodeHandle {
    pub ns: Option<u16>,
    pub id: String,
}

impl NodeHandle {
    pub fn new(ns: Option<u16>, id: String) -> (r: Self)
        ensures
            r.ns == ns,
            r.id == id,
    {
        NodeHandle { ns, id }
    }

    /// Handle equality: same namespace and same name.
    pub open spec fn same(self, other: NodeHandle) -> bool {
        self.ns == other.ns && self.id@ == other.id@
    }

    /// Decides whether two handles name the same node.
    pub fn matches(&self, other: &NodeHandle) -> (r: bool)
        ensures
            r == self.same(*other),
    {
        let ns_eq = match (&self.ns, &other.ns) {
            (Option::None, Option::None) => true,
            (Option::Some(a), Option::Some(b)) => *a == *b,
            _ => false,
        };
        ns_eq && self.id == other.id
    }
}

/// One port of one node.
#[derive(Clone, PartialEq, Eq, Debug)]
pub struct Endpoint {
    pub node: NodeHandle,
    pub port: PortHandle,
}

impl Endpoint {
    pub fn new(node: NodeHandle, port: PortHandle) -> (r: Self)
        ensures
            r.node == node,
            r.port == port,
    {
        Endpoint { node, port }
    }
}

/// Persistence directive for an output port: no record writer, a
/// writer keyed by an autogenerated counter, or a writer keyed by the
/// schema's primary-key fields.
#[derive(Clone, Copy, PartialEq, Eq, Structural, Debug)]
pub enum PortPersistence {
    NotPersisted,
    AutogenPk,
    PrimaryKey,
}

/// Built-in source behaviours.
#[derive(Clone, PartialEq, Eq, Debug)]
pub enum SourceKind {
    /// Emits `count` generated records `(id, "v{id}")`, then idles.
    /// When `persisted` is set its output port carries a primary-key
    /// record writer.
    Generator { count: u64, persisted: bool },
}

/// Built-in processor behaviours.
#[derive(Clone, PartialEq, Eq, Debug)]
pub enum ProcessorKind {
    /// Forwards every operation from its two inputs to its single
    /// output, joining the streams without transformation.
    NoopJoin,
    /// Forwards every operation from its single input unchanged.
    Passthrough,
}

/// Built-in sink behaviours.
#[derive(Clone, PartialEq, Eq, Debug)]
pub enum SinkKind {
    /// Counts the data operations it receives; the expectation is
    /// checked by tests through `received`.
    Counting { expected: u64 },
}

/// What a node is: source, processor or sink, with its behaviour.
#[derive(Clone, PartialEq, Eq, Debug)]
pub enum NodeKind {
    Source(SourceKind),
    Processor(ProcessorKind),
    Sink(SinkKind),
}

/// A node of the builder graph: its global handle plus its behaviour.
#[derive(Clone, PartialEq, Eq, Debug)]
pub struct NodeType {
    pub handle: NodeHandle,
    pub kind: NodeKind,
}

impl NodeKind {
    /// The input ports this node declares.
    pub fn input_ports(&self) -> (r: Vec<PortHandle>)
        ensures
            r@ == self.spec_input_ports(),
    {
        match self {
            NodeKind::Source(_) => Vec::new(),
            NodeKind::Processor(ProcessorKind::NoopJoin) => {
                let mut v: Vec<PortHandle> = Vec::new();
                v.push(1);
                v.push(2);
                proof {
                    assert(v@ =~= seq![1u16, 2u16]);
                }
                v
            }
            NodeKind::Processor(ProcessorKind::Passthrough) => {
                let mut v: Vec<PortHandle> = Vec::new();
                v.push(crate::DEFAULT_PORT_HANDLE);
                proof {
                    assert(v@ =~= seq![crate::DEFAULT_PORT_HANDLE]);
                }
                v
            }
            NodeKind::Sink(SinkKind::Counting { .. }) => {
                let mut v: Vec<PortHandle> = Vec::new();
                v.push(crate::COUNTING_SINK_INPUT_PORT);
                proof {
                    assert(v@ =~= seq![crate::COUNTING_SINK_INPUT_PORT]);
                }
                v
            }
        }
    }

    pub open spec fn spec_input_ports(self) -> Seq<PortHandle> {
        match self {
            NodeKind::Source(_) => Seq::empty(),
            NodeKind::Processor(ProcessorKind::NoopJoin) => seq![1u16, 2u16],
            NodeKind::Processor(ProcessorKind::Passthrough) => seq![crate::DEFAULT_PORT_HANDLE],
            NodeKind::Sink(SinkKind::Counting { .. }) => seq![crate::COUNTING_SINK_INPUT_PORT],
        }
    }

    /// The output ports this node declares.
    pub fn output_ports(&self) -> (r: Vec<PortHandle>)
        ensures
            r@ == self.spec_output_ports(),
    {
        match self {
            NodeKind::Source(SourceKind::Generator { .. }) => {
                let mut v: Vec<PortHandle> = Vec::new();
                v.push(crate::GENERATOR_SOURCE_OUTPUT_PORT);
                proof {
                    assert(v@ =~= seq![crate::GENERATOR_SOURCE_OUTPUT_PORT]);
                }
                v
            }
            NodeKind::Processor(_) => {
                let mut v: Vec<PortHandle> = Vec::new();
                v.push(crate::DEFAULT_PORT_HANDLE);
                proof {
                    assert(v@ =~= seq![crate::DEFAULT_PORT_HANDLE]);
                }
                v
            }
            NodeKind::Sink(_) => Vec::new(),
        }
    }

    pub open spec fn spec_output_ports(self) -> Seq<PortHandle> {
        match self {
            NodeKind::Source(SourceKind::Generator { .. }) => seq![
                crate::GENERATOR_SOURCE_OUTPUT_PORT,
            ],
            NodeKind::Processor(_) => seq![crate::DEFAULT_PORT_HANDLE],
            NodeKind::Sink(_) => Seq::empty(),
        }
    }

    /// The persistence directive of one output port.
    pub fn output_port_type(&self, port: PortHandle) -> (r: PortPersistence)
        ensures
            r == self.spec_output_port_type(port),
    {
        match self {
            NodeKind::Source(SourceKind::Generator { persisted, .. }) => {
                if *persisted && port == crate::GENERATOR_SOURCE_OUTPUT_PORT {
                    PortPersistence::PrimaryKey
                } else {
                    PortPersistence::NotPersisted
                }
            }
            _ => PortPersistence::NotPersisted,
        }
    }

    pub open spec fn spec_output_port_type(self, port: PortHandle) -> PortPersistence {
        match self {
            NodeKind::Source(SourceKind::Generator { persisted, .. }) => {
                if persisted && port == crate::GENERATOR_SOURCE_OUTPUT_PORT {
                    PortPersistence::PrimaryKey
                } else {
                    PortPersistence::NotPersisted
                }
            }
            _ => PortPersistence::NotPersisted,
        }
    }
}

} // verus!
