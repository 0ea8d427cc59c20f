//! The immutable build artifact: handles resolved to dense node
//! indices, every declared input port checked to be connected exactly
//! once, and the graph checked to be acyclic.  Acyclicity is the
//! existence of a rank function that increases along every edge.

use vstd::prelude::*;
use vstd::set_lib::{lemma_int_range, set_int_range};

use crate::dag::{BuildError, Dag, Edge};
use crate::node::{NodeType, PortPersistence};
use crate::PortHandle;

verus! {

/// An edge with both endpoints resolved to node indices.
#[derive(Clone, Copy, PartialEq, Eq, Structural, Debug)]
pub struct ResolvedEdge {
    pub from_node: usize,
    pub output_port: PortHandle,
    pub to_node: usize,
    pub input_port: PortHandle,
    pub port_type: PortPersistence,
}

/// The immutable result of a successful build.
#[derive(Clone, Debug)]
pub struct BuilderDag {
    pub nodes: Vec<NodeType>,
    pub edges: Vec<ResolvedEdge>,
}

/// The index of the node carrying the given handle.
pub open spec fn spec_index_of(nodes: Seq<NodeType>, h: crate::node::NodeHandle) -> int {
    choose|i: int| 0 <= i < nodes.len() && (#[trigger] nodes[i]).handle.same(h)
}

/// The resolved image of one edge.
pub open spec fn spec_resolve_edge(nodes: Seq<NodeType>, e: Edge) -> ResolvedEdge {
    let fi = spec_index_of(nodes, e.from.node);
    let ti = spec_index_of(nodes, e.to.node);
    ResolvedEdge {
        from_node: fi as usize,
        output_port: e.from.port,
        to_node: ti as usize,
        input_port: e.to.port,
        port_type: nodes[fi].kind.spec_output_port_type(e.from.port),
    }
}

/// The resolved image of the whole edge list.
pub open spec fn spec_resolve(nodes: Seq<NodeType>, edges: Seq<Edge>) -> Seq<ResolvedEdge> {
    edges.map_values(|e: Edge| spec_resolve_edge(nodes, e))
}

/// Every resolved endpoint indexes an existing node.
pub open spec fn spec_edges_in_range(redges: Seq<ResolvedEdge>, n: int) -> bool {
    forall|k: int|
        0 <= k < redges.len() ==> (#[trigger] redges[k]).from_node < n && redges[k].to_node < n
}

/// A rank function increasing along every edge.
pub open spec fn spec_rank_ok(rank: spec_fn(int) -> int, redges: Seq<ResolvedEdge>) -> bool {
    forall|k: int|
        0 <= k < redges.len() ==> rank((#[trigger] redges[k]).from_node as int) < rank(
            redges[k].to_node as int,
        )
}

/// A graph is acyclic exactly when some rank function increases along
/// every edge.
pub open spec fn spec_acyclic(redges: Seq<ResolvedEdge>) -> bool {
    exists|rank: spec_fn(int) -> int| spec_rank_ok(rank, redges)
}

/// Edges leaving the same output port carry the same persistence
/// mode: the port's mode is a property of the port, not of the edge.
pub open spec fn spec_port_types_consistent(redges: Seq<ResolvedEdge>) -> bool {
    forall|k1: int, k2: int|
        0 <= k1 < redges.len() && 0 <= k2 < redges.len() && (#[trigger] redges[k1]).from_node == (
        #[trigger] redges[k2]).from_node && redges[k1].output_port == redges[k2].output_port
            ==> redges[k1].port_type == redges[k2].port_type
}

/// Every declared input port of every node is fed by some edge.
pub open spec fn spec_inputs_covered(nodes: Seq<NodeType>, redges: Seq<ResolvedEdge>) -> bool {
    forall|i: int, p: PortHandle|
        0 <= i < nodes.len() && #[trigger] nodes[i].kind.spec_input_ports().contains(p)
            ==> exists|k: int|
            0 <= k < redges.len() && (#[trigger] redges[k]).to_node == i && redges[k].input_port
                == p
}

impl BuilderDag {
    /// The artifact resolves its source graph: same nodes, edges
    /// resolved in order, all indices in range, every declared input
    /// port connected, and no cycle.
    pub open spec fn wf(self) -> bool {
        &&& spec_edges_in_range(self.edges@, self.nodes@.len() as int)
        &&& spec_inputs_covered(self.nodes@, self.edges@)
        &&& spec_acyclic(self.edges@)
    }
}

/// With pairwise distinct handles, resolution is deterministic: any
/// index whose node carries the handle is the resolved one.
proof fn lemma_index_unique(nodes: Seq<NodeType>, h: crate::node::NodeHandle, i: int)
    requires
        forall|a: int, b: int|
            0 <= a < b < nodes.len() ==> !(#[trigger] nodes[a]).handle.same(
                (#[trigger] nodes[b]).handle,
            ),
        0 <= i < nodes.len(),
        nodes[i].handle.same(h),
    ensures
        spec_index_of(nodes, h) == i,
{
    let j = spec_index_of(nodes, h);
    assert(0 <= j < nodes.len() && nodes[j].handle.same(h));
    if i != j {
        if i < j {
            assert(nodes[i].handle.same(nodes[j].handle));
        } else {
            assert(nodes[j].handle.same(nodes[i].handle));
        }
        assert(false);
    }
}

/// The set of node indices not yet processed by the topological scan.
pub open spec fn spec_unproc(processed: Seq<bool>) -> Set<int> {
    set_int_range(0, processed.len() as int).filter(|v: int| !processed[v])
}

proof fn lemma_unproc_finite(processed: Seq<bool>)
    ensures
        spec_unproc(processed).finite(),
{
    lemma_int_range(0, processed.len() as int);
    set_int_range(0, processed.len() as int).lemma_len_filter(|v: int| !processed[v]);
}

/// Any nonempty finite set of indices has an element of minimal rank.
proof fn lemma_min_rank(s: Set<int>, rank: spec_fn(int) -> int)
    requires
        s.finite(),
        exists|x: int| s.contains(x),
    ensures
        exists|m: int|
            s.contains(m) && (forall|x: int| s.contains(x) ==> rank(m) <= #[trigger] rank(x)),
    decreases s.len(),
{
    let e = choose|x: int| s.contains(x);
    let rest = s.remove(e);
    if exists|x: int| rest.contains(x) {
        lemma_min_rank(rest, rank);
        let m0 = choose|m: int|
            rest.contains(m) && (forall|x: int| rest.contains(x) ==> rank(m) <= #[trigger] rank(
                x,
            ));
        if rank(e) <= rank(m0) {
            assert forall|x: int| s.contains(x) implies rank(e) <= #[trigger] rank(x) by {
                if x != e {
                    assert(rest.contains(x));
                }
            }
            assert(s.contains(e) && (forall|x: int|
                s.contains(x) ==> rank(e) <= #[trigger] rank(x)));
        } else {
            assert forall|x: int| s.contains(x) implies rank(m0) <= #[trigger] rank(x) by {
                if x != e {
                    assert(rest.contains(x));
                }
            }
            assert(s.contains(m0) && (forall|x: int|
                s.contains(x) ==> rank(m0) <= #[trigger] rank(x)));
        }
    } else {
        assert forall|x: int| s.contains(x) implies rank(e) <= #[trigger] rank(x) by {
            if x != e {
                assert(rest.contains(x));
            }
        }
        assert(s.contains(e) && (forall|x: int| s.contains(x) ==> rank(e) <= #[trigger] rank(x)));
    }
}

/// When the scan stalls with unprocessed nodes left, each of them has
/// an unprocessed predecessor, so no rank function can exist: follow
/// ever-smaller ranks inside the stuck set down to a contradiction at
/// its minimum.
proof fn lemma_stall_not_acyclic(redges: Seq<ResolvedEdge>, processed: Seq<bool>)
    requires
        spec_edges_in_range(redges, processed.len() as int),
        forall|v: int|
            0 <= v < processed.len() && !processed[v] ==> exists|k: int|
                0 <= k < redges.len() && (#[trigger] redges[k]).to_node == v
                    && !processed[redges[k].from_node as int],
        exists|v: int| 0 <= v < processed.len() && !(#[trigger] processed[v]),
    ensures
        !spec_acyclic(redges),
{
    if spec_acyclic(redges) {
        let rank = choose|rank: spec_fn(int) -> int| spec_rank_ok(rank, redges);
        let s = spec_unproc(processed);
        lemma_unproc_finite(processed);
        let w = choose|v: int| 0 <= v < processed.len() && !(#[trigger] processed[v]);
        assert(s.contains(w));
        lemma_min_rank(s, rank);
        let m = choose|m: int|
            s.contains(m) && (forall|x: int| s.contains(x) ==> rank(m) <= #[trigger] rank(x));
        assert(0 <= m < processed.len() && !processed[m]);
        let k = choose|k: int|
            0 <= k < redges.len() && (#[trigger] redges[k]).to_node == m
                && !processed[redges[k].from_node as int];
        let u = redges[k].from_node as int;
        assert(s.contains(u));
        assert(rank(u) < rank(m));
        assert(rank(m) <= rank(u));
        assert(false);
    }
}

/// Whether every predecessor of `v` has been processed.
fn preds_done(redges: &Vec<ResolvedEdge>, processed: &Vec<bool>, v: usize) -> (r: bool)
    requires
        spec_edges_in_range(redges@, processed@.len() as int),
    ensures
        r == forall|k: int|
            0 <= k < redges@.len() && (#[trigger] redges@[k]).to_node == v ==> processed@[redges@[k].from_node as int],
{
    let mut k: usize = 0;
    while k < redges.len()
        invariant
            spec_edges_in_range(redges@, processed@.len() as int),
            k <= redges@.len(),
            forall|l: int|
                0 <= l < k && (#[trigger] redges@[l]).to_node == v ==> processed@[redges@[l].from_node as int],
        decreases redges@.len() - k,
    {
        if redges[k].to_node == v && !processed[redges[k].from_node] {
            return false;
        }
        k += 1;
    }
    true
}

/// Finds an unprocessed node all of whose predecessors are processed.
fn find_ready(redges: &Vec<ResolvedEdge>, processed: &Vec<bool>) -> (r: Option<usize>)
    requires
        spec_edges_in_range(redges@, processed@.len() as int),
    ensures
        match r {
            Option::Some(v) => v < processed@.len() && !processed@[v as int] && forall|k: int|
                0 <= k < redges@.len() && (#[trigger] redges@[k]).to_node == v ==> processed@[redges@[k].from_node as int],
            Option::None => forall|v: int|
                0 <= v < processed@.len() && !(#[trigger] processed@[v]) ==> exists|k: int|
                    0 <= k < redges@.len() && (#[trigger] redges@[k]).to_node == v && !processed@[redges@[k].from_node as int],
        },
{
    let mut v: usize = 0;
    while v < processed.len()
        invariant
            spec_edges_in_range(redges@, processed@.len() as int),
            v <= processed@.len(),
            forall|w: int|
                0 <= w < v && !(#[trigger] processed@[w]) ==> exists|k: int|
                    0 <= k < redges@.len() && (#[trigger] redges@[k]).to_node == w && !processed@[redges@[k].from_node as int],
        decreases processed@.len() - v,
    {
        if !processed[v] {
            if preds_done(redges, processed, v) {
                return Option::Some(v);
            }
        }
        v += 1;
    }
    Option::None
}

impl Dag {
    /// Consumes the builder graph and produces the immutable build
    /// artifact.  Succeeds exactly when every declared input port is
    /// connected and the graph is acyclic; an unconnected port is
    /// reported before a cycle.
    #[verifier::rlimit(60)]
    pub fn build(self) -> (r: Result<BuilderDag, BuildError>)
        requires
            self.wf(),
        ensures
            match r {
                Result::Ok(b) => {
                    &&& b.nodes@ == self.nodes@
                    &&& b.edges@ == spec_resolve(self.nodes@, self.edges@)
                    &&& b.wf()
                    &&& spec_port_types_consistent(b.edges@)
                },
                Result::Err(e) => {
                    &&& (e == BuildError::UnconnectedInputPort || e == BuildError::CycleDetected)
                    &&& (e == BuildError::UnconnectedInputPort <==> !spec_inputs_covered(
                        self.nodes@,
                        spec_resolve(self.nodes@, self.edges@),
                    ))
                    &&& (e == BuildError::CycleDetected ==> !spec_acyclic(
                        spec_resolve(self.nodes@, self.edges@),
                    ))
                },
            },
            r is Ok <==> spec_inputs_covered(self.nodes@, spec_resolve(self.nodes@, self.edges@))
                && spec_acyclic(spec_resolve(self.nodes@, self.edges@)),
    {
        let ghost gnodes = self.nodes@;
        let ghost gedges = self.edges@;
        let n = self.nodes.len();
        // Resolve every edge to node indices.
        let mut redges: Vec<ResolvedEdge> = Vec::new();
        let mut k: usize = 0;
        while k < self.edges.len()
            invariant
                self.wf(),
                gnodes == self.nodes@,
                gedges == self.edges@,
                n == self.nodes@.len(),
                k <= self.edges@.len(),
                redges@ == spec_resolve(gnodes, gedges).take(k as int),
            decreases self.edges@.len() - k,
        {
            let e = &self.edges[k];
            let fi = match self.find_node(&e.from.node) {
                Option::Some(i) => i,
                Option::None => {
                    proof {
                        assert(crate::dag::spec_contains_handle(self.nodes@, e.from.node));
                    }
                    return Result::Err(BuildError::InvalidNodeHandle);
                }
            };
            let ti = match self.find_node(&e.to.node) {
                Option::Some(i) => i,
                Option::None => {
                    proof {
                        assert(crate::dag::spec_contains_handle(self.nodes@, e.to.node));
                    }
                    return Result::Err(BuildError::InvalidNodeHandle);
                }
            };
            proof {
                lemma_index_unique(gnodes, e.from.node, fi as int);
                lemma_index_unique(gnodes, e.to.node, ti as int);
            }
            let pt = self.nodes[fi].kind.output_port_type(e.from.port);
            redges.push(
                ResolvedEdge {
                    from_node: fi,
                    output_port: e.from.port,
                    to_node: ti,
                    input_port: e.to.port,
                    port_type: pt,
                },
            );
            proof {
                assert(redges@ =~= spec_resolve(gnodes, gedges).take(k + 1));
            }
            k += 1;
        }
        proof {
            assert(spec_resolve(gnodes, gedges).take(gedges.len() as int) =~= spec_resolve(
                gnodes,
                gedges,
            ));
        }
        let ghost gredges = redges@;
        // Check that every declared input port is connected.
        let mut i: usize = 0;
        while i < n
            invariant
                n == gnodes.len(),
                gredges == redges@,
                n == self.nodes@.len(),
                gnodes == self.nodes@,
                gedges == self.edges@,
                gredges == spec_resolve(gnodes, gedges),
                spec_edges_in_range(gredges, n as int),
                i <= n,
                forall|a: int, p: PortHandle|
                    0 <= a < i && #[trigger] gnodes[a].kind.spec_input_ports().contains(p)
                        ==> exists|k: int|
                        0 <= k < gredges.len() && (#[trigger] gredges[k]).to_node == a && gredges[k].input_port == p,
            decreases n - i,
        {
            let ins = self.nodes[i].kind.input_ports();
            let mut pi: usize = 0;
            while pi < ins.len()
                invariant
                    gredges == redges@,
                    i < n,
                    n == self.nodes@.len(),
                    gnodes == self.nodes@,
                    gedges == self.edges@,
                    gredges == spec_resolve(gnodes, gedges),
                    ins@ == gnodes[i as int].kind.spec_input_ports(),
                    pi <= ins@.len(),
                    forall|q: int|
                        0 <= q < pi ==> exists|k: int|
                            0 <= k < gredges.len() && (#[trigger] gredges[k]).to_node == i as int
                                && gredges[k].input_port == #[trigger] ins@[q],
                decreases ins@.len() - pi,
            {
                let p = ins[pi];
                let mut found = false;
                let mut k: usize = 0;
                while k < redges.len()
                    invariant
                        gredges == redges@,
                        gnodes == self.nodes@,
                        gedges == self.edges@,
                        gredges == spec_resolve(gnodes, gedges),
                        i < n,
                        n == gnodes.len(),
                        gnodes[i as int].kind.spec_input_ports().contains(p),
                        k <= gredges.len(),
                        found ==> exists|l: int|
                            0 <= l < gredges.len() && (#[trigger] gredges[l]).to_node == i as int
                                && gredges[l].input_port == p,
                        !found ==> forall|l: int|
                            0 <= l < k ==> !((#[trigger] gredges[l]).to_node == i as int
                                && gredges[l].input_port == p),
                    decreases gredges.len() - k,
                {
                    if redges[k].to_node == i && redges[k].input_port == p {
                        found = true;
                    }
                    k += 1;
                }
                if !found {
                    proof {
                        assert(gnodes[i as int].kind.spec_input_ports().contains(p));
                        assert(!spec_inputs_covered(gnodes, gredges));
                    }
                    return Result::Err(BuildError::UnconnectedInputPort);
                }
                pi += 1;
            }
            i += 1;
        }
        proof {
            assert(spec_inputs_covered(gnodes, gredges));
        }
        // Topological scan: process any node whose predecessors are
        // all processed; stalling early means a cycle.
        let mut processed: Vec<bool> = Vec::new();
        let mut pos: Vec<usize> = Vec::new();
        let mut count: usize = 0;
        let mut v: usize = 0;
        while v < n
            invariant
                v <= n,
                processed@.len() == v,
                pos@.len() == v,
                forall|w: int| 0 <= w < v ==> !(#[trigger] processed@[w]),
            decreases n - v,
        {
            processed.push(false);
            pos.push(0);
            v += 1;
        }
        proof {
            lemma_int_range(0, n as int);
            assert(spec_unproc(processed@) =~= set_int_range(0, n as int));
        }
        while count < n
            invariant
                gredges == redges@,
                n == gnodes.len(),
                gnodes == self.nodes@,
                gedges == self.edges@,
                gredges == spec_resolve(gnodes, gedges),
                spec_inputs_covered(gnodes, gredges),
                spec_edges_in_range(gredges, n as int),
                processed@.len() == n,
                pos@.len() == n,
                count <= n,
                spec_unproc(processed@).finite(),
                spec_unproc(processed@).len() == n - count,
                forall|w: int| 0 <= w < n && #[trigger] processed@[w] ==> pos@[w] < count,
                forall|k: int|
                    0 <= k < gredges.len() && processed@[(#[trigger] gredges[k]).to_node as int]
                        ==> processed@[gredges[k].from_node as int] && pos@[gredges[k].from_node as int] < pos@[gredges[k].to_node as int],
            decreases spec_unproc(processed@).len(),
        {
            let ghost pre = processed@;
            match find_ready(&redges, &processed) {
                Option::Some(w) => {
                    processed.set(w, true);
                    pos.set(w, count);
                    count += 1;
                    proof {
                        lemma_unproc_finite(pre);
                        assert(spec_unproc(pre).contains(w as int));
                        assert(spec_unproc(processed@) =~= spec_unproc(pre).remove(w as int));
                        assert(spec_unproc(processed@).len() == spec_unproc(pre).len() - 1);
                        // Every edge keeps the rank relation: edges
                        // into `w` come from nodes processed earlier,
                        // edges out of `w` lead to unprocessed nodes.
                        assert forall|k: int|
                            0 <= k < gredges.len() && processed@[(
                            #[trigger] gredges[k]).to_node as int] implies processed@[gredges[k].from_node as int] && pos@[gredges[k].from_node as int] < pos@[gredges[k].to_node as int] by {
                            let f = gredges[k].from_node as int;
                            let t = gredges[k].to_node as int;
                            if t == w as int {
                                assert(pre[f]);
                                assert(pos@[f] < count - 1 + 1);
                            } else {
                                assert(pre[t]);
                                assert(pre[f]);
                                assert(f != w as int);
                            }
                        }
                    }
                }
                Option::None => {
                    proof {
                        // The unprocessed set is nonempty, since its
                        // cardinality is the number of nodes left.
                        let s = spec_unproc(processed@);
                        if !(exists|x: int| s.contains(x)) {
                            assert(s =~= Set::<int>::empty());
                            assert(s.len() == 0);
                            assert(false);
                        }
                        let x = choose|x: int| s.contains(x);
                        assert(0 <= x < n && !processed@[x]);
                        lemma_stall_not_acyclic(gredges, processed@);
                    }
                    return Result::Err(BuildError::CycleDetected);
                }
            }
        }
        // All nodes processed: the positions form a rank function.
        proof {
            let s = spec_unproc(processed@);
            assert(s.len() == 0);
            s.lemma_len0_is_empty();
            assert forall|w: int| 0 <= w < n implies #[trigger] processed@[w] by {
                if !processed@[w] {
                    assert(s.contains(w));
                }
            }
            let ghost pv = pos@;
            let rank = |i: int| pv[i] as int;
            assert forall|k: int|
                0 <= k < gredges.len() implies rank((#[trigger] gredges[k]).from_node as int)
                < rank(gredges[k].to_node as int) by {
                assert(processed@[gredges[k].to_node as int]);
            }
            assert(spec_rank_ok(rank, gredges));
            assert(spec_acyclic(gredges));
        }
        proof {
            assert forall|k1: int, k2: int|
                0 <= k1 < gredges.len() && 0 <= k2 < gredges.len() && (
                #[trigger] gredges[k1]).from_node == (#[trigger] gredges[k2]).from_node
                    && gredges[k1].output_port == gredges[k2].output_port implies gredges[k1].port_type == gredges[k2].port_type by {
                let e1 = gedges[k1];
                let e2 = gedges[k2];
                let f1 = spec_index_of(gnodes, e1.from.node);
                let f2 = spec_index_of(gnodes, e2.from.node);
                assert(gredges[k1] == spec_resolve_edge(gnodes, e1));
                assert(gredges[k2] == spec_resolve_edge(gnodes, e2));
                assert(crate::dag::spec_contains_handle(gnodes, e1.from.node));
                assert(crate::dag::spec_contains_handle(gnodes, e2.from.node));
                assert(0 <= f1 < gnodes.len() && 0 <= f2 < gnodes.len());
                assert(f1 as usize == f2 as usize);
                assert(f1 == f2);
            }
        }
        Result::Ok(BuilderDag { nodes: self.nodes, edges: redges })
    }
}

} // verus!
