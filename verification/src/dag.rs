//! The builder graph: a typed directed acyclic graph of source,
//! processor and sink specifications.  Construction validates handles
//! and ports; `build` checks that every declared input port is
//! connected exactly once and that the graph has no cycle, and resolves
//! handles to dense node indices for the execution layer.

use vstd::prelude::*;

use crate::node::{Endpoint, NodeHandle, NodeKind, NodeType, ProcessorKind, SinkKind, SourceKind};
use crate::PortHandle;

verus! {

/// Structural problems found while assembling or building the graph.
#[derive(Clone, Copy, PartialEq, Eq, Structural, Debug)]
pub enum BuildError {
    DuplicateNodeHandle,
    InvalidNodeHandle,
    UnknownPort,
    InputPortAlreadyConnected,
    UnconnectedInputPort,
    SchemaMismatch,
    CycleDetected,
}

/// An edge between one output port and one input port, by handle.
#[derive(Clone, PartialEq, Eq, Debug)]
pub struct Edge {
    pub from: Endpoint,
    pub to: Endpoint,
}

/// Whether a handle occurs among the nodes.
pub open spec fn spec_contains_handle(nodes: Seq<NodeType>, h: NodeHandle) -> bool {
    exists|i: int| 0 <= i < nodes.len() && (#[trigger] nodes[i]).handle.same(h)
}

/// Whether some edge already feeds the given input endpoint.
pub open spec fn spec_input_connected(edges: Seq<Edge>, to: Endpoint) -> bool {
    exists|i: int|
        0 <= i < edges.len() && (#[trigger] edges[i]).to.node.same(to.node) && edges[i].to.port
            == to.port
}

/// The builder graph under construction.
#[derive(Clone, Debug)]
pub struct Dag {
    pub nodes: Vec<NodeType>,
    pub edges: Vec<Edge>,
}

/// No two of these nodes carry the same handle.
pub open spec fn spec_handles_unique(nodes: Seq<NodeType>) -> bool {
    forall|i: int, j: int|
        0 <= i < j < nodes.len() ==> !(#[trigger] nodes[i]).handle.same(
            (#[trigger] nodes[j]).handle,
        )
}

/// The node list of a merged graph: the first graph's nodes followed
/// by the second's, rewritten under the namespace.
pub open spec fn spec_merged_nodes(
    a: Seq<NodeType>,
    b: Seq<NodeType>,
    namespace: Option<u16>,
) -> Seq<NodeType> {
    a + b.map_values(|n: NodeType| spec_rewrite_node(n, namespace))
}

/// All node handles are pairwise distinct, and every edge joins
/// existing nodes, no input endpoint twice.
pub open spec fn spec_graph_wf(nodes: Seq<NodeType>, edges: Seq<Edge>) -> bool {
    &&& forall|i: int, j: int|
        0 <= i < j < nodes.len() ==> !(#[trigger] nodes[i]).handle.same(
            (#[trigger] nodes[j]).handle,
        )
    &&& forall|k: int|
        0 <= k < edges.len() ==> {
            &&& spec_contains_handle(nodes, (#[trigger] edges[k]).from.node)
            &&& spec_contains_handle(nodes, edges[k].to.node)
        }
    &&& forall|k: int, l: int|
        0 <= k < l < edges.len() ==> !((#[trigger] edges[k]).to.node.same(
            (#[trigger] edges[l]).to.node,
        ) && edges[k].to.port == edges[l].to.port)
}

impl Dag {
    /// All node handles are pairwise distinct, and every edge joins a
    /// declared output port to a declared input port of existing
    /// nodes, no input port twice.
    pub open spec fn wf(self) -> bool {
        spec_graph_wf(self.nodes@, self.edges@)
    }

    pub fn new() -> (r: Self)
        ensures
            r.nodes@.len() == 0,
            r.edges@.len() == 0,
            r.wf(),
    {
        Dag { nodes: Vec::new(), edges: Vec::new() }
    }

    /// Index of the node with the given handle, if any.
    pub(crate) fn find_node(&self, h: &NodeHandle) -> (r: Option<usize>)
        ensures
            match r {
                Option::Some(i) => i < self.nodes@.len() && self.nodes@[i as int].handle.same(*h),
                Option::None => !spec_contains_handle(self.nodes@, *h),
            },
    {
        let mut i: usize = 0;
        while i < self.nodes.len()
            invariant
                i <= self.nodes@.len(),
                forall|j: int| 0 <= j < i ==> !(#[trigger] self.nodes@[j]).handle.same(*h),
            decreases self.nodes@.len() - i,
        {
            if self.nodes[i].handle.matches(h) {
                return Option::Some(i);
            }
            i += 1;
        }
        Option::None
    }

    fn add_node(&mut self, handle: NodeHandle, kind: NodeKind) -> (r: Result<(), BuildError>)
        requires
            old(self).wf(),
        ensures
            final(self).wf(),
            spec_contains_handle(old(self).nodes@, handle) ==> r == Result::<(), BuildError>::Err(
                BuildError::DuplicateNodeHandle,
            ) && *final(self) == *old(self),
            !spec_contains_handle(old(self).nodes@, handle) ==> r == Result::<(), BuildError>::Ok(
                (),
            ) && final(self).nodes@ == old(self).nodes@.push(NodeType { handle, kind })
                && final(self).edges@ == old(self).edges@,
    {
        if self.find_node(&handle).is_some() {
            return Result::Err(BuildError::DuplicateNodeHandle);
        }
        let ghost pre = self.nodes@;
        self.nodes.push(NodeType { handle, kind });
        proof {
            assert forall|k: int| 0 <= k < self.edges@.len() implies {
                &&& spec_contains_handle(self.nodes@, (#[trigger] self.edges@[k]).from.node)
                &&& spec_contains_handle(self.nodes@, self.edges@[k].to.node)
            } by {
                assert(spec_contains_handle(pre, self.edges@[k].from.node));
                assert(spec_contains_handle(pre, self.edges@[k].to.node));
                let i = choose|i: int| 0 <= i < pre.len() && (#[trigger] pre[i]).handle.same(
                    self.edges@[k].from.node,
                );
                assert(self.nodes@[i].handle.same(self.edges@[k].from.node));
                let j = choose|j: int| 0 <= j < pre.len() && (#[trigger] pre[j]).handle.same(
                    self.edges@[k].to.node,
                );
                assert(self.nodes@[j].handle.same(self.edges@[k].to.node));
            }
        }
        Result::Ok(())
    }

    /// Adds a source node under a fresh handle.
    pub fn add_source(&mut self, handle: NodeHandle, factory: SourceKind) -> (r: Result<
        (),
        BuildError,
    >)
        requires
            old(self).wf(),
        ensures
            final(self).wf(),
            spec_contains_handle(old(self).nodes@, handle) ==> r == Result::<(), BuildError>::Err(
                BuildError::DuplicateNodeHandle,
            ) && *final(self) == *old(self),
            !spec_contains_handle(old(self).nodes@, handle) ==> r == Result::<(), BuildError>::Ok(
                (),
            ) && final(self).nodes@ == old(self).nodes@.push(
                NodeType { handle, kind: NodeKind::Source(factory) },
            ) && final(self).edges@ == old(self).edges@,
    {
        self.add_node(handle, NodeKind::Source(factory))
    }

    /// Adds a processor node under a fresh handle.
    pub fn add_processor(&mut self, handle: NodeHandle, factory: ProcessorKind) -> (r: Result<
        (),
        BuildError,
    >)
        requires
            old(self).wf(),
        ensures
            final(self).wf(),
            spec_contains_handle(old(self).nodes@, handle) ==> r == Result::<(), BuildError>::Err(
                BuildError::DuplicateNodeHandle,
            ) && *final(self) == *old(self),
            !spec_contains_handle(old(self).nodes@, handle) ==> r == Result::<(), BuildError>::Ok(
                (),
            ) && final(self).nodes@ == old(self).nodes@.push(
                NodeType { handle, kind: NodeKind::Processor(factory) },
            ) && final(self).edges@ == old(self).edges@,
    {
        self.add_node(handle, NodeKind::Processor(factory))
    }

    /// Adds a sink node under a fresh handle.
    pub fn add_sink(&mut self, handle: NodeHandle, factory: SinkKind) -> (r: Result<
        (),
        BuildError,
    >)
        requires
            old(self).wf(),
        ensures
            final(self).wf(),
            spec_contains_handle(old(self).nodes@, handle) ==> r == Result::<(), BuildError>::Err(
                BuildError::DuplicateNodeHandle,
            ) && *final(self) == *old(self),
            !spec_contains_handle(old(self).nodes@, handle) ==> r == Result::<(), BuildError>::Ok(
                (),
            ) && final(self).nodes@ == old(self).nodes@.push(
                NodeType { handle, kind: NodeKind::Sink(factory) },
            ) && final(self).edges@ == old(self).edges@,
    {
        self.add_node(handle, NodeKind::Sink(factory))
    }

    /// Connects an output endpoint to an input endpoint.  Both nodes
    /// must exist, both ports must be declared, and the input port
    /// must not be connected yet: every input port is connected
    /// exactly once.
    pub fn connect(&mut self, from: Endpoint, to: Endpoint) -> (r: Result<(), BuildError>)
        requires
            old(self).wf(),
        ensures
            final(self).wf(),
            r is Err ==> *final(self) == *old(self),
            r == Result::<(), BuildError>::Ok(()) ==> final(self).edges@ == old(self).edges@.push(
                Edge { from, to },
            ) && final(self).nodes@ == old(self).nodes@,
            (!spec_contains_handle(old(self).nodes@, from.node) || !spec_contains_handle(
                old(self).nodes@,
                to.node,
            )) ==> r == Result::<(), BuildError>::Err(BuildError::InvalidNodeHandle),
            r == Result::<(), BuildError>::Ok(()) <==> {
                &&& spec_contains_handle(old(self).nodes@, from.node)
                &&& spec_contains_handle(old(self).nodes@, to.node)
                &&& spec_node_of(old(self).nodes@, from.node).spec_output_ports().contains(
                    from.port,
                )
                &&& spec_node_of(old(self).nodes@, to.node).spec_input_ports().contains(to.port)
                &&& !spec_input_connected(old(self).edges@, to)
            },
    {
        let from_idx = match self.find_node(&from.node) {
            Option::Some(i) => i,
            Option::None => {
                return Result::Err(BuildError::InvalidNodeHandle);
            }
        };
        let to_idx = match self.find_node(&to.node) {
            Option::Some(i) => i,
            Option::None => {
                return Result::Err(BuildError::InvalidNodeHandle);
            }
        };
        proof {
            lemma_node_of_unique(self.nodes@, from.node, from_idx as int);
            lemma_node_of_unique(self.nodes@, to.node, to_idx as int);
        }
        let outs = self.nodes[from_idx].kind.output_ports();
        if !contains_port(&outs, from.port) {
            return Result::Err(BuildError::UnknownPort);
        }
        let ins = self.nodes[to_idx].kind.input_ports();
        if !contains_port(&ins, to.port) {
            return Result::Err(BuildError::UnknownPort);
        }
        let mut k: usize = 0;
        while k < self.edges.len()
            invariant
                *self == *old(self),
                old(self).wf(),
                spec_contains_handle(self.nodes@, from.node),
                spec_contains_handle(self.nodes@, to.node),
                k <= self.edges@.len(),
                forall|l: int|
                    0 <= l < k ==> !((#[trigger] self.edges@[l]).to.node.same(to.node)
                        && self.edges@[l].to.port == to.port),
            decreases self.edges@.len() - k,
        {
            if self.edges[k].to.node.matches(&to.node) && self.edges[k].to.port == to.port {
                return Result::Err(BuildError::InputPortAlreadyConnected);
            }
            k += 1;
        }
        self.edges.push(Edge { from, to });
        Result::Ok(())
    }
}

/// A handle as it appears after merging under a namespace: when a
/// namespace is given it replaces the handle's own.
pub open spec fn spec_rewrite_handle(h: NodeHandle, namespace: Option<u16>) -> NodeHandle {
    match namespace {
        Option::Some(_) => NodeHandle { ns: namespace, id: h.id },
        Option::None => h,
    }
}

pub open spec fn spec_rewrite_node(n: NodeType, namespace: Option<u16>) -> NodeType {
    NodeType { handle: spec_rewrite_handle(n.handle, namespace), kind: n.kind }
}

pub open spec fn spec_rewrite_edge(e: Edge, namespace: Option<u16>) -> Edge {
    Edge {
        from: Endpoint {
            node: spec_rewrite_handle(e.from.node, namespace),
            port: e.from.port,
        },
        to: Endpoint { node: spec_rewrite_handle(e.to.node, namespace), port: e.to.port },
    }
}

/// Rewriting preserves and reflects handle identity.
proof fn lemma_rewrite_same(a: NodeHandle, b: NodeHandle, namespace: Option<u16>)
    ensures
        a.same(b) ==> spec_rewrite_handle(a, namespace).same(spec_rewrite_handle(b, namespace)),
        spec_rewrite_handle(a, namespace).same(spec_rewrite_handle(b, namespace)) && namespace
            is Some ==> a.id@ == b.id@,
{
}

fn rewrite_handle(h: &NodeHandle, namespace: &Option<u16>) -> (r: NodeHandle)
    ensures
        r.same(spec_rewrite_handle(*h, *namespace)),
{
    match namespace {
        Option::Some(n) => NodeHandle { ns: Option::Some(*n), id: h.id.clone() },
        Option::None => NodeHandle { ns: h.ns, id: h.id.clone() },
    }
}

impl Dag {
    /// Composes another builder graph into this one.  When a
    /// namespace is given, every handle of the other graph is
    /// rewritten to carry it, disambiguating names across sub-graphs.
    /// Fails without changing anything when the combined handles
    /// would collide.
    pub fn merge(&mut self, namespace: Option<u16>, other: Dag) -> (r: Result<(), BuildError>)
        requires
            old(self).wf(),
            other.wf(),
        ensures
            final(self).wf(),
            r is Err ==> *final(self) == *old(self) && r == Result::<(), BuildError>::Err(
                BuildError::DuplicateNodeHandle,
            ),
            r is Ok ==> final(self).nodes@ == old(self).nodes@ + other.nodes@.map_values(
                |n: NodeType| spec_rewrite_node(n, namespace),
            ) && final(self).edges@ == old(self).edges@ + other.edges@.map_values(
                |e: Edge| spec_rewrite_edge(e, namespace),
            ),
            // Merging succeeds exactly when the combined handles stay
            // pairwise distinct.
            r is Ok <==> spec_handles_unique(
                spec_merged_nodes(old(self).nodes@, other.nodes@, namespace),
            ),
    {
        let ghost bnodes = other.nodes@;
        let ghost bedges = other.edges@;
        proof {
            assert(spec_graph_wf(bnodes, bedges));
        }
        let ghost merged = old(self).nodes@ + other.nodes@.map_values(
            |n: NodeType| spec_rewrite_node(n, namespace),
        );
        // Reject any collision between existing handles and the
        // rewritten ones, or among the rewritten ones themselves.
        let mut i: usize = 0;
        while i < other.nodes.len()
            invariant
                *self == *old(self),
                old(self).wf(),
                other.wf(),
                i <= other.nodes@.len(),
                merged == old(self).nodes@ + other.nodes@.map_values(
                    |n: NodeType| spec_rewrite_node(n, namespace),
                ),
                forall|a: int, b: int|
                    0 <= a < b < merged.len() && b < old(self).nodes@.len() + i ==> !(
                    #[trigger] merged[a]).handle.same((#[trigger] merged[b]).handle),
            decreases other.nodes@.len() - i,
        {
            let h = rewrite_handle(&other.nodes[i].handle, &namespace);
            match self.find_node(&h) {
                Option::Some(j) => {
                    proof {
                        let na = old(self).nodes@.len() as int;
                        assert(merged.len() == na + other.nodes@.len());
                        assert(merged[j as int] == old(self).nodes@[j as int]);
                        assert(merged[na + i] == spec_rewrite_node(
                            other.nodes@[i as int],
                            namespace,
                        ));
                        assert(old(self).nodes@[j as int].handle.same(h));
                        assert(h.same(spec_rewrite_handle(
                            other.nodes@[i as int].handle,
                            namespace,
                        )));
                        assert(merged[j as int].handle.same(merged[na + i].handle));
                        assert(!spec_handles_unique(merged));
                    }
                    return Result::Err(BuildError::DuplicateNodeHandle);
                }
                Option::None => {}
            }
            let mut j: usize = 0;
            while j < i
                invariant
                    *self == *old(self),
                    old(self).wf(),
                    other.wf(),
                    i < other.nodes@.len(),
                    j <= i,
                    h.same(spec_rewrite_handle(other.nodes@[i as int].handle, namespace)),
                    !spec_contains_handle(self.nodes@, h),
                    merged == old(self).nodes@ + other.nodes@.map_values(
                        |n: NodeType| spec_rewrite_node(n, namespace),
                    ),
                    forall|b: int|
                        0 <= b < j ==> !spec_rewrite_handle(
                            (#[trigger] other.nodes@[b]).handle,
                            namespace,
                        ).same(h),
                decreases i - j,
            {
                let hj = rewrite_handle(&other.nodes[j].handle, &namespace);
                if hj.matches(&h) {
                    proof {
                        let na = old(self).nodes@.len() as int;
                        assert(merged.len() == na + other.nodes@.len());
                        assert(merged[na + j] == spec_rewrite_node(
                            other.nodes@[j as int],
                            namespace,
                        ));
                        assert(merged[na + i] == spec_rewrite_node(
                            other.nodes@[i as int],
                            namespace,
                        ));
                        assert(hj.same(spec_rewrite_handle(
                            other.nodes@[j as int].handle,
                            namespace,
                        )));
                        assert(hj.same(h));
                        assert(merged[na + j].handle.same(merged[na + i].handle));
                        assert(!spec_handles_unique(merged));
                    }
                    return Result::Err(BuildError::DuplicateNodeHandle);
                }
                proof {
                    assert(hj.same(spec_rewrite_handle(other.nodes@[j as int].handle, namespace)));
                    assert(!hj.same(h));
                }
                j += 1;
            }
            proof {
                let na = old(self).nodes@.len() as int;
                assert forall|a: int|
                    0 <= a < na + i implies !(#[trigger] merged[a]).handle.same(
                    merged[na + i].handle,
                ) by {
                    assert(merged[na + i] == spec_rewrite_node(other.nodes@[i as int], namespace));
                    assert(merged[na + i].handle.same(h) && h.same(merged[na + i].handle));
                    if a < na {
                        assert(merged[a] == old(self).nodes@[a]);
                        assert(!spec_contains_handle(old(self).nodes@, h));
                        if merged[a].handle.same(merged[na + i].handle) {
                            assert(merged[a].handle.same(h));
                            assert(false);
                        }
                    } else {
                        assert(merged[a] == spec_rewrite_node(other.nodes@[a - na], namespace));
                        if merged[a].handle.same(merged[na + i].handle) {
                            assert(spec_rewrite_handle(other.nodes@[a - na].handle, namespace).same(h));
                            assert(false);
                        }
                    }
                }
            }
            i += 1;
        }
        // Append the rewritten nodes and edges, moving them out of the
        // merged graph.
        let ghost pre = *self;
        let Dag { nodes: mut onodes, edges: mut oedges } = other;
        let ghost onodes0 = onodes@;
        let ghost oedges0 = oedges@;
        let ghost mut k: int = 0;
        while onodes.len() > 0
            invariant
                self.edges@ == pre.edges@,
                0 <= k,
                k + onodes@.len() == onodes0.len(),
                onodes@ == onodes0.skip(k),
                self.nodes@ == pre.nodes@ + onodes0.map_values(
                    |n: NodeType| spec_rewrite_node(n, namespace),
                ).take(k),
            decreases onodes@.len(),
        {
            let n = onodes.remove(0);
            proof {
                assert(n == onodes0[k]);
                assert(onodes0.skip(k).skip(1) =~= onodes0.skip(k + 1));
            }
            let nh = match namespace {
                Option::Some(ns) => NodeHandle { ns: Option::Some(ns), id: n.handle.id },
                Option::None => n.handle,
            };
            self.nodes.push(NodeType { handle: nh, kind: n.kind });
            proof {
                assert(NodeType { handle: nh, kind: n.kind } == spec_rewrite_node(
                    onodes0[k],
                    namespace,
                ));
                assert(self.nodes@ =~= pre.nodes@ + onodes0.map_values(
                    |n: NodeType| spec_rewrite_node(n, namespace),
                ).take(k + 1));
            }
            proof {
                k = k + 1;
            }
        }
        proof {
            assert(onodes0.map_values(
                |n: NodeType| spec_rewrite_node(n, namespace),
            ).take(onodes0.len() as int) =~= onodes0.map_values(
                |n: NodeType| spec_rewrite_node(n, namespace),
            ));
            assert(self.nodes@ == merged);
        }
        let ghost mut k: int = 0;
        while oedges.len() > 0
            invariant
                self.nodes@ == merged,
                0 <= k,
                k + oedges@.len() == oedges0.len(),
                oedges@ == oedges0.skip(k),
                self.edges@ == pre.edges@ + oedges0.map_values(
                    |e: Edge| spec_rewrite_edge(e, namespace),
                ).take(k),
            decreases oedges@.len(),
        {
            let e = oedges.remove(0);
            proof {
                assert(e == oedges0[k]);
                assert(oedges0.skip(k).skip(1) =~= oedges0.skip(k + 1));
            }
            let nf = match namespace {
                Option::Some(ns) => NodeHandle { ns: Option::Some(ns), id: e.from.node.id },
                Option::None => e.from.node,
            };
            let nt = match namespace {
                Option::Some(ns) => NodeHandle { ns: Option::Some(ns), id: e.to.node.id },
                Option::None => e.to.node,
            };
            self.edges.push(
                Edge {
                    from: Endpoint { node: nf, port: e.from.port },
                    to: Endpoint { node: nt, port: e.to.port },
                },
            );
            proof {
                assert(self.edges@ =~= pre.edges@ + oedges0.map_values(
                    |e: Edge| spec_rewrite_edge(e, namespace),
                ).take(k + 1));
            }
            proof {
                k = k + 1;
            }
        }
        proof {
            assert(oedges0.map_values(
                |e: Edge| spec_rewrite_edge(e, namespace),
            ).take(oedges0.len() as int) =~= oedges0.map_values(
                |e: Edge| spec_rewrite_edge(e, namespace),
            ));
            lemma_merge_wf(pre.nodes@, pre.edges@, bnodes, bedges, namespace, *self);
        }
        Result::Ok(())
    }
}

/// The merged graph is well formed: handles stay unique, every edge
/// still resolves, and no input endpoint is fed twice.
proof fn lemma_merge_wf(
    anodes: Seq<NodeType>,
    aedges: Seq<Edge>,
    bnodes: Seq<NodeType>,
    bedges: Seq<Edge>,
    namespace: Option<u16>,
    m: Dag,
)
    requires
        spec_graph_wf(anodes, aedges),
        spec_graph_wf(bnodes, bedges),
        m.nodes@ == anodes + bnodes.map_values(
            |n: NodeType| spec_rewrite_node(n, namespace),
        ),
        m.edges@ == aedges + bedges.map_values(|e: Edge| spec_rewrite_edge(e, namespace)),
        forall|i: int, j: int|
            0 <= i < j < m.nodes@.len() ==> !(#[trigger] m.nodes@[i]).handle.same(
                (#[trigger] m.nodes@[j]).handle,
            ),
    ensures
        m.wf(),
{
    let na = anodes.len() as int;
    let ea = aedges.len() as int;
    // Every merged edge resolves to a merged node.
    assert forall|k: int| 0 <= k < m.edges@.len() implies {
        &&& spec_contains_handle(m.nodes@, (#[trigger] m.edges@[k]).from.node)
        &&& spec_contains_handle(m.nodes@, m.edges@[k].to.node)
    } by {
        if k < ea {
            assert(m.edges@[k] == aedges[k]);
            let i = choose|i: int|
                0 <= i < anodes.len() && (#[trigger] anodes[i]).handle.same(
                    aedges[k].from.node,
                );
            assert(m.nodes@[i].handle.same(m.edges@[k].from.node));
            let j = choose|j: int|
                0 <= j < anodes.len() && (#[trigger] anodes[j]).handle.same(
                    aedges[k].to.node,
                );
            assert(m.nodes@[j].handle.same(m.edges@[k].to.node));
        } else {
            let e = bedges[k - ea];
            assert(m.edges@[k] == spec_rewrite_edge(e, namespace));
            let i = choose|i: int|
                0 <= i < bnodes.len() && (#[trigger] bnodes[i]).handle.same(e.from.node);
            lemma_rewrite_same(bnodes[i].handle, e.from.node, namespace);
            assert(m.nodes@[na + i].handle.same(m.edges@[k].from.node));
            let j = choose|j: int|
                0 <= j < bnodes.len() && (#[trigger] bnodes[j]).handle.same(e.to.node);
            lemma_rewrite_same(bnodes[j].handle, e.to.node, namespace);
            assert(m.nodes@[na + j].handle.same(m.edges@[k].to.node));
        }
    }
    // No two merged edges feed the same input endpoint.
    assert forall|k: int, l: int| 0 <= k < l < m.edges@.len() implies !((
    #[trigger] m.edges@[k]).to.node.same((#[trigger] m.edges@[l]).to.node) && m.edges@[k].to.port
        == m.edges@[l].to.port) by {
        lemma_merge_targets(anodes, aedges, bnodes, bedges, namespace, m, k, l);
    }
}

/// Two distinct merged edges cannot share an input endpoint: the
/// handle uniqueness of the merged nodes rules every case out.
proof fn lemma_merge_targets(
    anodes: Seq<NodeType>,
    aedges: Seq<Edge>,
    bnodes: Seq<NodeType>,
    bedges: Seq<Edge>,
    namespace: Option<u16>,
    m: Dag,
    k: int,
    l: int,
)
    requires
        spec_graph_wf(anodes, aedges),
        spec_graph_wf(bnodes, bedges),
        m.nodes@ == anodes + bnodes.map_values(
            |n: NodeType| spec_rewrite_node(n, namespace),
        ),
        m.edges@ == aedges + bedges.map_values(|e: Edge| spec_rewrite_edge(e, namespace)),
        forall|i: int, j: int|
            0 <= i < j < m.nodes@.len() ==> !(#[trigger] m.nodes@[i]).handle.same(
                (#[trigger] m.nodes@[j]).handle,
            ),
        0 <= k < l < m.edges@.len(),
    ensures
        !(m.edges@[k].to.node.same(m.edges@[l].to.node) && m.edges@[k].to.port
            == m.edges@[l].to.port),
{
    if !(m.edges@[k].to.node.same(m.edges@[l].to.node) && m.edges@[k].to.port
        == m.edges@[l].to.port) {
        return;
    }
    let na = anodes.len() as int;
    let ea = aedges.len() as int;
    if l < ea {
        assert(m.edges@[k] == aedges[k] && m.edges@[l] == aedges[l]);
    } else if k >= ea {
        let e1 = bedges[k - ea];
        let e2 = bedges[l - ea];
        assert(m.edges@[k] == spec_rewrite_edge(e1, namespace));
        assert(m.edges@[l] == spec_rewrite_edge(e2, namespace));
        if namespace is None {
            assert(e1.to.node.same(e2.to.node));
        } else {
            // Both targets resolve among the rewritten nodes; equal
            // rewritten handles at distinct indices would break
            // uniqueness, so the witnesses coincide and the original
            // targets carry the same name.
            let i = choose|i: int|
                0 <= i < bnodes.len() && (#[trigger] bnodes[i]).handle.same(e1.to.node);
            let j = choose|j: int|
                0 <= j < bnodes.len() && (#[trigger] bnodes[j]).handle.same(e2.to.node);
            lemma_rewrite_same(bnodes[i].handle, e1.to.node, namespace);
            lemma_rewrite_same(bnodes[j].handle, e2.to.node, namespace);
            assert(m.nodes@[na + i].handle.same(spec_rewrite_handle(e1.to.node, namespace)));
            assert(m.nodes@[na + j].handle.same(spec_rewrite_handle(e2.to.node, namespace)));
            assert(spec_rewrite_handle(e1.to.node, namespace).same(
                spec_rewrite_handle(e2.to.node, namespace),
            ));
            if i != j {
                if i < j {
                    assert(m.nodes@[na + i].handle.same(m.nodes@[na + j].handle));
                    assert(false);
                } else {
                    assert(m.nodes@[na + j].handle.same(m.nodes@[na + i].handle));
                    assert(false);
                }
            }
            assert(bnodes[i].handle.same(e1.to.node) && bnodes[i].handle.same(e2.to.node));
            assert(e1.to.node.same(e2.to.node));
        }
    } else {
        // One target lives among the original nodes, the other among
        // the rewritten ones; their handles being the same would make
        // two distinct merged nodes collide.
        let e2 = bedges[l - ea];
        assert(m.edges@[k] == aedges[k]);
        assert(m.edges@[l] == spec_rewrite_edge(e2, namespace));
        let i = choose|i: int|
            0 <= i < anodes.len() && (#[trigger] anodes[i]).handle.same(aedges[k].to.node);
        let j = choose|j: int|
            0 <= j < bnodes.len() && (#[trigger] bnodes[j]).handle.same(e2.to.node);
        lemma_rewrite_same(bnodes[j].handle, e2.to.node, namespace);
        assert(m.nodes@[i].handle.same(m.edges@[k].to.node));
        assert(m.nodes@[na + j].handle.same(m.edges@[l].to.node));
        assert(m.nodes@[i].handle.same(m.nodes@[na + j].handle));
        assert(false);
    }
}

/// The node that carries the given handle (meaningful when present).
pub open spec fn spec_node_of(nodes: Seq<NodeType>, h: NodeHandle) -> NodeKind {
    let i = choose|i: int| 0 <= i < nodes.len() && (#[trigger] nodes[i]).handle.same(h);
    nodes[i].kind
}

/// With pairwise distinct handles, any index whose node carries the
/// handle is the chosen one, so its kind is `spec_node_of`.
proof fn lemma_node_of_unique(nodes: Seq<NodeType>, h: NodeHandle, i: int)
    requires
        forall|a: int, b: int|
            0 <= a < b < nodes.len() ==> !(#[trigger] nodes[a]).handle.same(
                (#[trigger] nodes[b]).handle,
            ),
        0 <= i < nodes.len(),
        nodes[i].handle.same(h),
    ensures
        spec_node_of(nodes, h) == nodes[i].kind,
{
    let j = choose|j: int| 0 <= j < nodes.len() && (#[trigger] nodes[j]).handle.same(h);
    if i != j {
        assert(nodes[i].handle.ns == h.ns && nodes[i].handle.id@ == h.id@);
        assert(nodes[j].handle.ns == h.ns && nodes[j].handle.id@ == h.id@);
        assert(nodes[i].handle.same(nodes[j].handle));
        if i < j {
        } else {
            assert(nodes[j].handle.same(nodes[i].handle));
        }
    }
}

/// Whether a port list contains the given port.
fn contains_port(v: &Vec<PortHandle>, p: PortHandle) -> (r: bool)
    ensures
        r == v@.contains(p),
{
    let mut i: usize = 0;
    while i < v.len()
        invariant
            i <= v@.len(),
            forall|j: int| 0 <= j < i ==> v@[j] != p,
        decreases v@.len() - i,
    {
        if v[i] == p {
            assert(v@[i as int] == p);
            return true;
        }
        i += 1;
    }
    false
}

} // verus!
