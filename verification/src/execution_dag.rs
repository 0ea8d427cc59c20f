//! The runtime topology built from the build artifact: one bounded
//! channel per edge, and at most one record writer per persisted
//! output port, shared by every edge leaving that port and paired
//! with reader handles for downstream consumers.

use vstd::prelude::*;

use crate::builder_dag::{spec_port_types_consistent, BuilderDag};
use crate::channel::Channel;
use crate::epoch::EpochManager;
use crate::node::{NodeKind, NodeType, PortPersistence};
use crate::record_store::{AutogenWriter, PrimaryKeyWriter, RecordReader};
use crate::PortHandle;

verus! {

/// A record writer of either flavour.
pub enum RecordWriterKind {
    Pk(PrimaryKeyWriter),
    Autogen(AutogenWriter),
}

/// One runtime edge: its endpoints, its channel, and its handles on
/// the persisted side.  Edges leaving the same output port share one
/// writer through `writer_slot`.
pub struct EdgeType {
    /// Index of the emitting node.
    pub from_node: usize,
    /// Output port handle.
    pub output_port: PortHandle,
    /// Index of the consuming node.
    pub to_node: usize,
    /// Input port handle.
    pub input_port: PortHandle,
    /// The bounded channel data flows through.
    pub channel: Channel,
    /// Shared slot of the record writer for this output port, if the
    /// port is persisted.
    pub writer_slot: Option<usize>,
    /// The record reader for the persisted output port, moved out
    /// exactly once by the consuming worker.
    pub record_reader: Option<RecordReader>,
}

/// The runtime topology.  Nodes are taken by workers exactly once.
pub struct ExecutionDag {
    pub nodes: Vec<Option<NodeType>>,
    pub edges: Vec<EdgeType>,
    pub writers: Vec<Option<RecordWriterKind>>,
    pub epoch_manager: EpochManager,
}

/// The byte prefix a record writer owns: the node tag and index, then
/// the writer tag and port.
pub open spec fn spec_port_prefix(node: u16, port: u16) -> Seq<u8> {
    seq![78u8, (node >> 8) as u8, node as u8, 87u8, (port >> 8) as u8, port as u8]
}

/// Builds the prefix for one persisted output port.
pub fn port_prefix(node: u16, port: u16) -> (r: Vec<u8>)
    ensures
        r@ == spec_port_prefix(node, port),
{
    let mut r: Vec<u8> = Vec::new();
    r.push(78u8);
    r.push((node >> 8) as u8);
    r.push(node as u8);
    r.push(87u8);
    r.push((port >> 8) as u8);
    r.push(port as u8);
    proof {
        assert(r@ =~= spec_port_prefix(node, port));
    }
    r
}

/// The number of source nodes among the first `i` nodes.
pub open spec fn spec_num_sources_prefix(nodes: Seq<NodeType>, i: int) -> int
    decreases i,
{
    if i <= 0 {
        0
    } else {
        spec_num_sources_prefix(nodes, i - 1) + (if nodes[i - 1].kind is Source {
            1int
        } else {
            0int
        })
    }
}

/// The number of source nodes: the width of the epoch barrier.
pub open spec fn spec_num_sources(nodes: Seq<NodeType>) -> int {
    spec_num_sources_prefix(nodes, nodes.len() as int)
}

/// What `ExecutionDag::new` guarantees of one writer slot: it indexes
/// the writers vector, and the writer there matches the port's
/// persistence mode and owns the port's byte prefix.
pub open spec fn spec_writer_slot_ok(
    writers: Seq<Option<RecordWriterKind>>,
    s: int,
    from_node: usize,
    port: PortHandle,
    port_type: PortPersistence,
) -> bool {
    &&& 0 <= s < writers.len()
    &&& match writers[s] {
        Option::Some(RecordWriterKind::Pk(w)) => port_type == PortPersistence::PrimaryKey
            && w.spec_prefix() == spec_port_prefix(from_node as u16, port) && w.spec_pk() == seq![
            0usize,
        ],
        Option::Some(RecordWriterKind::Autogen(w)) => port_type == PortPersistence::AutogenPk
            && w.spec_prefix() == spec_port_prefix(from_node as u16, port),
        Option::None => false,
    }
}

/// The sender list of a node over the first `k` edges: one entry per
/// outgoing edge, carrying its output port and its edge index.
pub open spec fn spec_sender_list(edges: Seq<EdgeType>, node: usize, k: int) -> Seq<
    (PortHandle, usize),
>
    decreases k,
{
    if k <= 0 {
        Seq::empty()
    } else if edges[k - 1].from_node == node {
        spec_sender_list(edges, node, k - 1).push((edges[k - 1].output_port, (k - 1) as usize))
    } else {
        spec_sender_list(edges, node, k - 1)
    }
}

/// The receiver list of a node over the first `k` edges: one entry
/// per incoming edge, carrying its input port and its edge index.
pub open spec fn spec_receiver_list(edges: Seq<EdgeType>, node: usize, k: int) -> Seq<
    (PortHandle, usize),
>
    decreases k,
{
    if k <= 0 {
        Seq::empty()
    } else if edges[k - 1].to_node == node {
        spec_receiver_list(edges, node, k - 1).push((edges[k - 1].input_port, (k - 1) as usize))
    } else {
        spec_receiver_list(edges, node, k - 1)
    }
}

/// The readers handed to a node over the first `k` edges: each
/// incoming edge's reader, if it still holds one, with its port.
pub open spec fn spec_reader_list(edges: Seq<EdgeType>, node: usize, k: int) -> Seq<
    (PortHandle, RecordReader),
>
    decreases k,
{
    if k <= 0 {
        Seq::empty()
    } else {
        let rest = spec_reader_list(edges, node, k - 1);
        if edges[k - 1].to_node == node && edges[k - 1].record_reader is Some {
            rest.push((edges[k - 1].input_port, edges[k - 1].record_reader->0))
        } else {
            rest
        }
    }
}

/// The writers taken for a node over the first `k` edges, with the
/// slots as they stand afterwards: the first outgoing edge of each
/// persisted port takes its slot's writer; later edges sharing the
/// slot find it empty.
pub open spec fn spec_take_fold(
    edges: Seq<EdgeType>,
    node: usize,
    k: int,
    writers: Seq<Option<RecordWriterKind>>,
) -> (Seq<(PortHandle, RecordWriterKind)>, Seq<Option<RecordWriterKind>>)
    decreases k,
{
    if k <= 0 {
        (Seq::empty(), writers)
    } else {
        let (t, w) = spec_take_fold(edges, node, k - 1, writers);
        let e = edges[k - 1];
        if e.from_node == node && e.writer_slot is Some && (e.writer_slot->0 as int) < w.len()
            && w[e.writer_slot->0 as int] is Some {
            (
                t.push((e.output_port, w[e.writer_slot->0 as int]->0)),
                w.update(e.writer_slot->0 as int, Option::None),
            )
        } else {
            (t, w)
        }
    }
}

impl ExecutionDag {
    /// Instantiates the runtime topology from the build artifact:
    /// exactly one channel of the given capacity per edge; for each
    /// persisted output port one writer, shared by all the edges
    /// leaving that port, each such edge also carrying a reader
    /// handle over the same prefix; and an epoch barrier as wide as
    /// the number of sources.
    pub fn new(builder_dag: BuilderDag, channel_buffer_sz: usize) -> (r: Self)
        requires
            builder_dag.nodes@.len() <= u16::MAX,
            builder_dag.edges@.len() <= u16::MAX,
            spec_port_types_consistent(builder_dag.edges@),
        ensures
            // Exactly one channel per edge of the build artifact.
            r.edges@.len() == builder_dag.edges@.len(),
            forall|k: int|
                0 <= k < r.edges@.len() ==> {
                    &&& (#[trigger] r.edges@[k]).from_node == builder_dag.edges@[k].from_node
                    &&& r.edges@[k].output_port == builder_dag.edges@[k].output_port
                    &&& r.edges@[k].to_node == builder_dag.edges@[k].to_node
                    &&& r.edges@[k].input_port == builder_dag.edges@[k].input_port
                    &&& r.edges@[k].channel.sent() == Seq::<crate::types::Operation>::empty()
                    &&& r.edges@[k].channel.received() == Seq::<crate::types::Operation>::empty()
                    &&& r.edges@[k].channel.capacity() == channel_buffer_sz
                    &&& (r.edges@[k].writer_slot is Some <==> builder_dag.edges@[k].port_type
                        != PortPersistence::NotPersisted)
                    &&& (r.edges@[k].record_reader is Some <==> builder_dag.edges@[k].port_type
                        != PortPersistence::NotPersisted)
                    &&& (r.edges@[k].record_reader is Some
                        ==> r.edges@[k].record_reader->0.spec_prefix() == spec_port_prefix(
                        builder_dag.edges@[k].from_node as u16,
                        builder_dag.edges@[k].output_port,
                    ))
                    &&& (r.edges@[k].writer_slot is Some ==> spec_writer_slot_ok(
                        r.writers@,
                        r.edges@[k].writer_slot->0 as int,
                        builder_dag.edges@[k].from_node,
                        builder_dag.edges@[k].output_port,
                        builder_dag.edges@[k].port_type,
                    ))
                },
            // One writer per output port: edges leaving the same port
            // share the same slot.
            forall|k1: int, k2: int|
                0 <= k1 < r.edges@.len() && 0 <= k2 < r.edges@.len() && (
                #[trigger] r.edges@[k1]).from_node == (#[trigger] r.edges@[k2]).from_node
                    && r.edges@[k1].output_port == r.edges@[k2].output_port
                    ==> r.edges@[k1].writer_slot == r.edges@[k2].writer_slot,
            r.nodes@.len() == builder_dag.nodes@.len(),
            forall|i: int|
                0 <= i < r.nodes@.len() ==> (#[trigger] r.nodes@[i]) == Option::Some(
                    builder_dag.nodes@[i],
                ),
            // The epoch barrier is as wide as the number of sources.
            r.epoch_manager.wf(),
            r.epoch_manager.sealed_epochs().len() == 0,
            r.epoch_manager.num() == spec_num_sources(builder_dag.nodes@),
    {
        let BuilderDag { nodes: bnodes, edges: bedges } = builder_dag;
        // Count the sources for the epoch barrier.
        let mut num_sources: usize = 0;
        let mut i: usize = 0;
        while i < bnodes.len()
            invariant
                i <= bnodes@.len(),
                num_sources == spec_num_sources_prefix(bnodes@, i as int),
                num_sources <= i,
            decreases bnodes@.len() - i,
        {
            match &bnodes[i].kind {
                NodeKind::Source(_) => {
                    num_sources += 1;
                }
                _ => {}
            }
            i += 1;
        }
        // Move the nodes into their worker slots.
        let ghost bnodes0 = bnodes@;
        let mut nodes: Vec<Option<NodeType>> = Vec::new();
        let mut rest = bnodes;
        let ghost mut moved: int = 0;
        while rest.len() > 0
            invariant
                0 <= moved,
                moved + rest@.len() == bnodes0.len(),
                rest@ == bnodes0.skip(moved),
                nodes@.len() == moved,
                forall|j: int| 0 <= j < moved ==> (#[trigger] nodes@[j]) == Option::Some(
                    bnodes0[j],
                ),
            decreases rest@.len(),
        {
            let n = rest.remove(0);
            proof {
                assert(n == bnodes0[moved]);
                assert(bnodes0.skip(moved).skip(1) =~= bnodes0.skip(moved + 1));
            }
            nodes.push(Option::Some(n));
            proof {
                moved = moved + 1;
            }
        }
        // Create one channel per edge and one writer per persisted
        // output port; edges from the same port share the writer slot.
        let mut edges: Vec<EdgeType> = Vec::new();
        let mut writers: Vec<Option<RecordWriterKind>> = Vec::new();
        let mut k: usize = 0;
        while k < bedges.len()
            invariant
                bedges@.len() <= u16::MAX,
                spec_port_types_consistent(bedges@),
                k <= bedges@.len(),
                edges@.len() == k,
                forall|l: int|
                    0 <= l < k ==> {
                        &&& (#[trigger] edges@[l]).from_node == bedges@[l].from_node
                        &&& edges@[l].output_port == bedges@[l].output_port
                        &&& edges@[l].to_node == bedges@[l].to_node
                        &&& edges@[l].input_port == bedges@[l].input_port
                        &&& edges@[l].channel.sent() == Seq::<crate::types::Operation>::empty()
                        &&& edges@[l].channel.received() == Seq::<
                            crate::types::Operation,
                        >::empty()
                        &&& edges@[l].channel.capacity() == channel_buffer_sz
                        &&& (edges@[l].writer_slot is Some <==> bedges@[l].port_type
                            != PortPersistence::NotPersisted)
                        &&& (edges@[l].record_reader is Some <==> bedges@[l].port_type
                            != PortPersistence::NotPersisted)
                        &&& (edges@[l].record_reader is Some
                            ==> edges@[l].record_reader->0.spec_prefix() == spec_port_prefix(
                            bedges@[l].from_node as u16,
                            bedges@[l].output_port,
                        ))
                        &&& (edges@[l].writer_slot is Some ==> spec_writer_slot_ok(
                            writers@,
                            edges@[l].writer_slot->0 as int,
                            bedges@[l].from_node,
                            bedges@[l].output_port,
                            bedges@[l].port_type,
                        ))
                    },
                forall|l1: int, l2: int|
                    0 <= l1 < k && 0 <= l2 < k && (#[trigger] edges@[l1]).from_node == (
                    #[trigger] edges@[l2]).from_node && edges@[l1].output_port
                        == edges@[l2].output_port ==> edges@[l1].writer_slot == edges@[l2].writer_slot,
            decreases bedges@.len() - k,
        {
            let e = &bedges[k];
            let ept = e.port_type;
            let efrom = e.from_node;
            let eport = e.output_port;
            // Reuse the slot of an earlier edge leaving this port.
            let mut slot: Option<usize> = Option::None;
            let mut l: usize = 0;
            while l < k
                invariant
                    k < bedges@.len(),
                    k <= edges@.len(),
                    ept == bedges@[k as int].port_type,
                    efrom == bedges@[k as int].from_node,
                    eport == bedges@[k as int].output_port,
                    l <= k,
                    forall|m: int|
                        0 <= m < k ==> ((#[trigger] edges@[m]).writer_slot is Some
                            <==> bedges@[m].port_type != PortPersistence::NotPersisted),
                    match slot {
                        Option::Some(s) => exists|m: int|
                            0 <= m < k && (#[trigger] edges@[m]).from_node
                                == bedges@[k as int].from_node && edges@[m].output_port
                                == bedges@[k as int].output_port && edges@[m].writer_slot
                                == Option::Some(s),
                        Option::None => forall|m: int|
                            0 <= m < l ==> !((#[trigger] edges@[m]).from_node
                                == bedges@[k as int].from_node && edges@[m].output_port
                                == bedges@[k as int].output_port && edges@[m].writer_slot
                                is Some),
                    },
                decreases k - l,
            {
                if edges[l].from_node == efrom && edges[l].output_port == eport
                    && edges[l].writer_slot.is_some() {
                    slot = match &edges[l].writer_slot {
                        Option::Some(s) => Option::Some(*s),
                        Option::None => Option::None,
                    };
                    proof {
                        assert(edges@[l as int].from_node == bedges@[k as int].from_node
                            && edges@[l as int].output_port == bedges@[k as int].output_port
                            && edges@[l as int].writer_slot == slot);
                    }
                }
                l += 1;
            }
            proof {
                // A shared slot is sound for the new edge too: the
                // earlier edge it came from leaves the same port with
                // the same persistence mode.
                match slot {
                    Option::Some(sv) => {
                        let m = choose|m: int|
                            0 <= m < k && (#[trigger] edges@[m]).from_node
                                == bedges@[k as int].from_node && edges@[m].output_port
                                == bedges@[k as int].output_port && edges@[m].writer_slot
                                == Option::Some(sv);
                        assert(bedges@[m].from_node == bedges@[k as int].from_node);
                        assert(bedges@[m].output_port == bedges@[k as int].output_port);
                        assert(bedges@[m].port_type == bedges@[k as int].port_type);
                        assert(spec_writer_slot_ok(
                            writers@,
                            sv as int,
                            bedges@[m].from_node,
                            bedges@[m].output_port,
                            bedges@[m].port_type,
                        ));
                    }
                    Option::None => {}
                }
            }
            let ghost pre_writers = writers@;
            let (writer_slot, record_reader): (Option<usize>, Option<RecordReader>) = match ept {
                PortPersistence::NotPersisted => (Option::None, Option::None),
                PortPersistence::PrimaryKey => {
                    let prefix = port_prefix(e.from_node as u16, e.output_port);
                    let reader = RecordReader::new(port_prefix(e.from_node as u16, e.output_port));
                    match slot {
                        Option::Some(s) => (Option::Some(s), Option::Some(reader)),
                        Option::None => {
                            let mut pk: Vec<usize> = Vec::new();
                            pk.push(0);
                            proof {
                                assert(pk@ =~= seq![0usize]);
                            }
                            writers.push(
                                Option::Some(
                                    RecordWriterKind::Pk(PrimaryKeyWriter::new(prefix, pk)),
                                ),
                            );
                            (Option::Some(writers.len() - 1), Option::Some(reader))
                        }
                    }
                }
                PortPersistence::AutogenPk => {
                    let prefix = port_prefix(e.from_node as u16, e.output_port);
                    let reader = RecordReader::new(port_prefix(e.from_node as u16, e.output_port));
                    match slot {
                        Option::Some(s) => (Option::Some(s), Option::Some(reader)),
                        Option::None => {
                            writers.push(
                                Option::Some(RecordWriterKind::Autogen(AutogenWriter::new(prefix))),
                            );
                            (Option::Some(writers.len() - 1), Option::Some(reader))
                        }
                    }
                }
            };
            edges.push(
                EdgeType {
                    from_node: e.from_node,
                    output_port: e.output_port,
                    to_node: e.to_node,
                    input_port: e.input_port,
                    channel: Channel::new(channel_buffer_sz),
                    writer_slot,
                    record_reader,
                },
            );
            proof {
                // Earlier slots keep their writers: the vector only
                // grows.
                assert forall|l0: int|
                    0 <= l0 < k && (#[trigger] edges@[l0]).writer_slot
                        is Some implies spec_writer_slot_ok(
                    writers@,
                    edges@[l0].writer_slot->0 as int,
                    bedges@[l0].from_node,
                    bedges@[l0].output_port,
                    bedges@[l0].port_type,
                ) by {
                    let s = edges@[l0].writer_slot->0;
                    assert(spec_writer_slot_ok(
                        pre_writers,
                        s as int,
                        bedges@[l0].from_node,
                        bedges@[l0].output_port,
                        bedges@[l0].port_type,
                    ));
                    assert(writers@[s as int] == pre_writers[s as int]);
                }
                // The new edge shares the slot of every earlier edge
                // leaving the same port.
                assert forall|l1: int, l2: int|
                    0 <= l1 < k + 1 && 0 <= l2 < k + 1 && (#[trigger] edges@[l1]).from_node == (
                    #[trigger] edges@[l2]).from_node && edges@[l1].output_port
                        == edges@[l2].output_port implies edges@[l1].writer_slot
                        == edges@[l2].writer_slot by {
                    if l1 == k as int && l2 < k as int {
                        lemma_new_edge_shares(edges@, bedges@, k as int, l2, slot);
                    } else if l2 == k as int && l1 < k as int {
                        lemma_new_edge_shares(edges@, bedges@, k as int, l1, slot);
                    }
                }
            }
            k += 1;
        }
        ExecutionDag { nodes, edges, writers, epoch_manager: EpochManager::new(num_sources) }
    }

    /// Takes the node out of its slot; each worker consumes its node
    /// exactly once.
    pub fn take_node(&mut self, node_index: usize) -> (r: Option<NodeType>)
        requires
            node_index < old(self).nodes@.len(),
        ensures
            r == old(self).nodes@[node_index as int],
            final(self).nodes@ == old(self).nodes@.update(node_index as int, Option::None),
            final(self).edges == old(self).edges,
            final(self).writers == old(self).writers,
            final(self).epoch_manager == old(self).epoch_manager,
    {
        let mut out: Option<NodeType> = Option::None;
        let slot = &mut self.nodes[node_index];
        core::mem::swap(slot, &mut out);
        proof {
            assert(self.nodes@ =~= old(self).nodes@.update(node_index as int, Option::None));
        }
        out
    }

    /// The node's senders: exactly its outgoing edges, one entry per
    /// edge with that edge's output port, in edge order.  The writer
    /// of each of the node's persisted ports is moved out of its
    /// shared slot — at most one call per port obtains it — and
    /// nothing else changes.
    #[verifier::rlimit(100)]
    pub fn collect_senders_and_record_writers(&mut self, node_index: usize) -> (r: (
        Vec<(PortHandle, usize)>,
        Vec<(PortHandle, RecordWriterKind)>,
    ))
        ensures
            // Frame: the graph, the channels and the epoch manager
            // are untouched; only writer slots of this node empty.
            final(self).edges@ == old(self).edges@,
            final(self).nodes == old(self).nodes,
            final(self).epoch_manager == old(self).epoch_manager,
            final(self).writers@.len() == old(self).writers@.len(),
            forall|s: int|
                0 <= s < old(self).writers@.len() ==> (#[trigger] final(self).writers@[s]) == old(self).writers@[s] || final(self).writers@[s] is None,
            forall|s: int|
                0 <= s < old(self).writers@.len() && !(exists|l: int|
                    0 <= l < old(self).edges@.len() && (#[trigger] old(self).edges@[l]).from_node
                        == node_index && old(self).edges@[l].writer_slot == Option::Some(
                        s as usize,
                    )) ==> (#[trigger] final(self).writers@[s]) == old(self).writers@[s],
            // Every sender names an outgoing edge of the node...
            forall|i: int|
                0 <= i < r.0@.len() ==> {
                    let (port, edge) = #[trigger] r.0@[i];
                    edge < old(self).edges@.len() && old(self).edges@[edge as int].from_node
                        == node_index && old(self).edges@[edge as int].output_port == port
                },
            // ... in strictly ascending edge order ...
            forall|i: int, j: int|
                0 <= i < j < r.0@.len() ==> (#[trigger] r.0@[i]).1 < (#[trigger] r.0@[j]).1,
            // ... and every outgoing edge has its sender.
            forall|l: int|
                0 <= l < old(self).edges@.len() && (#[trigger] old(self).edges@[l]).from_node
                    == node_index ==> exists|i: int|
                    0 <= i < r.0@.len() && #[trigger] r.0@[i] == (
                        old(self).edges@[l].output_port,
                        l as usize,
                    ),
            // The slot of each outgoing persisted port is emptied,
            // and the writer it held lands in the result.
            forall|l: int|
                0 <= l < old(self).edges@.len() && (#[trigger] old(self).edges@[l]).from_node
                    == node_index && old(self).edges@[l].writer_slot is Some && (old(self).edges@[l].writer_slot->0 as int) < old(self).writers@.len() ==> final(self).writers@[old(self).edges@[l].writer_slot->0 as int] is None,
            // Exactly: the sender list is the outgoing-edge list, and
            // the writers handed out with the slots left behind are
            // the take fold over the node's edges.
            r.0@ == spec_sender_list(
                old(self).edges@,
                node_index,
                old(self).edges@.len() as int,
            ),
            r.1@ == spec_take_fold(
                old(self).edges@,
                node_index,
                old(self).edges@.len() as int,
                old(self).writers@,
            ).0,
            final(self).writers@ == spec_take_fold(
                old(self).edges@,
                node_index,
                old(self).edges@.len() as int,
                old(self).writers@,
            ).1,
    {
        let mut senders: Vec<(PortHandle, usize)> = Vec::new();
        let mut taken: Vec<(PortHandle, RecordWriterKind)> = Vec::new();
        let mut k: usize = 0;
        while k < self.edges.len()
            invariant
                self.edges@ == old(self).edges@,
                self.nodes == old(self).nodes,
                self.epoch_manager == old(self).epoch_manager,
                self.writers@.len() == old(self).writers@.len(),
                k <= self.edges@.len(),
                forall|s: int|
                    0 <= s < old(self).writers@.len() ==> (#[trigger] self.writers@[s]) == old(self).writers@[s] || self.writers@[s] is None,
                forall|s: int|
                    0 <= s < old(self).writers@.len() && !(exists|l: int|
                        0 <= l < k && (#[trigger] old(self).edges@[l]).from_node == node_index
                            && old(self).edges@[l].writer_slot == Option::Some(s as usize)) ==> (
                    #[trigger] self.writers@[s]) == old(self).writers@[s],
                forall|i: int|
                    0 <= i < senders@.len() ==> {
                        let (port, edge) = #[trigger] senders@[i];
                        edge < old(self).edges@.len() && old(self).edges@[edge as int].from_node
                            == node_index && old(self).edges@[edge as int].output_port == port
                    },
                forall|i: int| 0 <= i < senders@.len() ==> (#[trigger] senders@[i]).1 < k,
                forall|i: int, j: int|
                    0 <= i < j < senders@.len() ==> (#[trigger] senders@[i]).1 < (
                    #[trigger] senders@[j]).1,
                forall|l: int|
                    0 <= l < k && (#[trigger] old(self).edges@[l]).from_node == node_index
                        ==> exists|i: int|
                        0 <= i < senders@.len() && #[trigger] senders@[i] == (
                            old(self).edges@[l].output_port,
                            l as usize,
                        ),
                forall|l: int|
                    0 <= l < k && (#[trigger] old(self).edges@[l]).from_node == node_index && old(self).edges@[l].writer_slot is Some && (old(self).edges@[l].writer_slot->0 as int) < old(self).writers@.len()
                        ==> self.writers@[old(self).edges@[l].writer_slot->0 as int] is None,
                senders@ == spec_sender_list(old(self).edges@, node_index, k as int),
                taken@ == spec_take_fold(
                    old(self).edges@,
                    node_index,
                    k as int,
                    old(self).writers@,
                ).0,
                self.writers@ == spec_take_fold(
                    old(self).edges@,
                    node_index,
                    k as int,
                    old(self).writers@,
                ).1,
            decreases self.edges@.len() - k,
        {
            let ghost pre_senders = senders@;
            let ghost pre_taken = taken@;
            if self.edges[k].from_node == node_index {
                let port = self.edges[k].output_port;
                senders.push((port, k));
                proof {
                    assert(senders@[senders@.len() - 1] == (
                        old(self).edges@[k as int].output_port,
                        k as usize,
                    ));
                }
                match &self.edges[k].writer_slot {
                    Option::Some(s) => {
                        let slot = *s;
                        if slot < self.writers.len() {
                            let mut w: Option<RecordWriterKind> = Option::None;
                            let cell = &mut self.writers[slot];
                            core::mem::swap(cell, &mut w);
                            match w {
                                Option::Some(writer) => {
                                    proof {
                                        assert(writer == old(self).writers@[slot as int]->0);
                                    }
                                    taken.push((port, writer));
                                    proof {
                                        assert(taken@[taken@.len() - 1] == (
                                            old(self).edges@[k as int].output_port,
                                            old(self).writers@[slot as int]->0,
                                        ));
                                    }
                                }
                                Option::None => {}
                            }
                        }
                    }
                    Option::None => {}
                }
            }
            proof {
                // Witnesses survive the pushes: old entries keep
                // their positions, the new edge has its fresh entry.
                assert forall|l: int|
                    0 <= l < k + 1 && (#[trigger] old(self).edges@[l]).from_node
                        == node_index implies exists|i: int|
                    0 <= i < senders@.len() && #[trigger] senders@[i] == (
                        old(self).edges@[l].output_port,
                        l as usize,
                    ) by {
                    if l < k as int {
                        let i0 = choose|i: int|
                            0 <= i < pre_senders.len() && #[trigger] pre_senders[i] == (
                                old(self).edges@[l].output_port,
                                l as usize,
                            );
                        assert(senders@[i0] == (old(self).edges@[l].output_port, l as usize));
                    } else {
                        assert(senders@[senders@.len() - 1] == (
                            old(self).edges@[l].output_port,
                            l as usize,
                        ));
                    }
                }
                assert(senders@ =~= spec_sender_list(
                    old(self).edges@,
                    node_index,
                    k + 1,
                ));
                assert(taken@ =~= spec_take_fold(
                    old(self).edges@,
                    node_index,
                    k + 1,
                    old(self).writers@,
                ).0);
                assert(self.writers@ =~= spec_take_fold(
                    old(self).edges@,
                    node_index,
                    k + 1,
                    old(self).writers@,
                ).1);
            }
            k += 1;
        }
        (senders, taken)
    }

    /// The node's receivers: exactly its incoming edges, one entry
    /// per edge with that edge's input port, in edge order.  Each
    /// incoming edge's record reader is moved out — a repeated call
    /// finds none — and nothing else changes.
    #[verifier::rlimit(100)]
    pub fn collect_receivers_and_record_readers(&mut self, node_index: usize) -> (r: (
        Vec<(PortHandle, usize)>,
        Vec<(PortHandle, RecordReader)>,
    ))
        ensures
            // Frame: only the incoming edges' reader slots change.
            final(self).nodes == old(self).nodes,
            final(self).writers == old(self).writers,
            final(self).epoch_manager == old(self).epoch_manager,
            final(self).edges@.len() == old(self).edges@.len(),
            forall|l: int|
                0 <= l < old(self).edges@.len() && (#[trigger] old(self).edges@[l]).to_node
                    != node_index ==> final(self).edges@[l] == old(self).edges@[l],
            forall|l: int|
                0 <= l < old(self).edges@.len() && (#[trigger] old(self).edges@[l]).to_node
                    == node_index ==> final(self).edges@[l] == (EdgeType {
                    record_reader: Option::None,
                    ..old(self).edges@[l]
                }),
            // Every receiver names an incoming edge of the node...
            forall|i: int|
                0 <= i < r.0@.len() ==> {
                    let (port, edge) = #[trigger] r.0@[i];
                    edge < old(self).edges@.len() && old(self).edges@[edge as int].to_node
                        == node_index && old(self).edges@[edge as int].input_port == port
                },
            // ... in strictly ascending edge order ...
            forall|i: int, j: int|
                0 <= i < j < r.0@.len() ==> (#[trigger] r.0@[i]).1 < (#[trigger] r.0@[j]).1,
            // ... and every incoming edge has its receiver.
            forall|l: int|
                0 <= l < old(self).edges@.len() && (#[trigger] old(self).edges@[l]).to_node
                    == node_index ==> exists|i: int|
                    0 <= i < r.0@.len() && #[trigger] r.0@[i] == (
                        old(self).edges@[l].input_port,
                        l as usize,
                    ),
            // Exactly: the receiver list is the incoming-edge list,
            // and the readers are those the incoming edges held.
            r.0@ == spec_receiver_list(
                old(self).edges@,
                node_index,
                old(self).edges@.len() as int,
            ),
            r.1@ == spec_reader_list(
                old(self).edges@,
                node_index,
                old(self).edges@.len() as int,
            ),
    {
        let mut receivers: Vec<(PortHandle, usize)> = Vec::new();
        let mut readers: Vec<(PortHandle, RecordReader)> = Vec::new();
        let mut k: usize = 0;
        while k < self.edges.len()
            invariant
                self.nodes == old(self).nodes,
                self.writers == old(self).writers,
                self.epoch_manager == old(self).epoch_manager,
                self.edges@.len() == old(self).edges@.len(),
                k <= self.edges@.len(),
                forall|l: int|
                    k <= l < old(self).edges@.len() ==> (#[trigger] self.edges@[l]) == old(self).edges@[l],
                forall|l: int|
                    0 <= l < k && (#[trigger] old(self).edges@[l]).to_node != node_index
                        ==> self.edges@[l] == old(self).edges@[l],
                forall|l: int|
                    0 <= l < k && (#[trigger] old(self).edges@[l]).to_node == node_index
                        ==> self.edges@[l] == (EdgeType {
                        record_reader: Option::None,
                        ..old(self).edges@[l]
                    }),
                forall|i: int|
                    0 <= i < receivers@.len() ==> {
                        let (port, edge) = #[trigger] receivers@[i];
                        edge < old(self).edges@.len() && old(self).edges@[edge as int].to_node
                            == node_index && old(self).edges@[edge as int].input_port == port
                    },
                forall|i: int| 0 <= i < receivers@.len() ==> (#[trigger] receivers@[i]).1 < k,
                forall|i: int, j: int|
                    0 <= i < j < receivers@.len() ==> (#[trigger] receivers@[i]).1 < (
                    #[trigger] receivers@[j]).1,
                forall|l: int|
                    0 <= l < k && (#[trigger] old(self).edges@[l]).to_node == node_index
                        ==> exists|i: int|
                        0 <= i < receivers@.len() && #[trigger] receivers@[i] == (
                            old(self).edges@[l].input_port,
                            l as usize,
                        ),
                receivers@ == spec_receiver_list(old(self).edges@, node_index, k as int),
                readers@ == spec_reader_list(old(self).edges@, node_index, k as int),
            decreases self.edges@.len() - k,
        {
            let ghost pre_receivers = receivers@;
            let ghost pre_readers = readers@;
            if self.edges[k].to_node == node_index {
                let port = self.edges[k].input_port;
                receivers.push((port, k));
                proof {
                    assert(receivers@[receivers@.len() - 1] == (
                        old(self).edges@[k as int].input_port,
                        k as usize,
                    ));
                }
                let mut rd: Option<RecordReader> = Option::None;
                let cell = &mut self.edges[k].record_reader;
                core::mem::swap(cell, &mut rd);
                proof {
                    assert(self.edges@[k as int] == (EdgeType {
                        record_reader: Option::None,
                        ..old(self).edges@[k as int]
                    }));
                }
                match rd {
                    Option::Some(reader) => {
                        proof {
                            assert(old(self).edges@[k as int].record_reader == Option::Some(
                                reader,
                            ));
                        }
                        readers.push((port, reader));
                        proof {
                            assert(readers@[readers@.len() - 1] == (
                                old(self).edges@[k as int].input_port,
                                old(self).edges@[k as int].record_reader->0,
                            ));
                        }
                    }
                    Option::None => {}
                }
            }
            proof {
                assert forall|l: int|
                    0 <= l < k + 1 && (#[trigger] old(self).edges@[l]).to_node
                        == node_index implies exists|i: int|
                    0 <= i < receivers@.len() && #[trigger] receivers@[i] == (
                        old(self).edges@[l].input_port,
                        l as usize,
                    ) by {
                    if l < k as int {
                        let i0 = choose|i: int|
                            0 <= i < pre_receivers.len() && #[trigger] pre_receivers[i] == (
                                old(self).edges@[l].input_port,
                                l as usize,
                            );
                        assert(receivers@[i0] == (old(self).edges@[l].input_port, l as usize));
                    } else {
                        assert(receivers@[receivers@.len() - 1] == (
                            old(self).edges@[l].input_port,
                            l as usize,
                        ));
                    }
                }
                assert(receivers@ =~= spec_receiver_list(
                    old(self).edges@,
                    node_index,
                    k + 1,
                ));
                assert(readers@ =~= spec_reader_list(old(self).edges@, node_index, k + 1));
            }
            k += 1;
        }
        (receivers, readers)
    }
}

/// An edge appended behind `k` earlier edges shares its writer slot
/// with any earlier edge leaving the same output port: either the
/// slot was copied from such an edge (and all of them agree), or no
/// such edge exists, or the port is not persisted and neither edge
/// holds a slot.
proof fn lemma_new_edge_shares(
    edges: Seq<EdgeType>,
    bedges: Seq<crate::builder_dag::ResolvedEdge>,
    k: int,
    l2: int,
    slot: Option<usize>,
)
    requires
        spec_port_types_consistent(bedges),
        0 <= l2 < k < edges.len(),
        k < bedges.len(),
        edges[k].from_node == bedges[k].from_node,
        edges[k].output_port == bedges[k].output_port,
        forall|m: int|
            0 <= m < k ==> {
                &&& (#[trigger] edges[m]).from_node == bedges[m].from_node
                &&& edges[m].output_port == bedges[m].output_port
                &&& (edges[m].writer_slot is Some <==> bedges[m].port_type
                    != PortPersistence::NotPersisted)
            },
        forall|m1: int, m2: int|
            0 <= m1 < k && 0 <= m2 < k && (#[trigger] edges[m1]).from_node == (
            #[trigger] edges[m2]).from_node && edges[m1].output_port == edges[m2].output_port
                ==> edges[m1].writer_slot == edges[m2].writer_slot,
        edges[l2].from_node == edges[k].from_node,
        edges[l2].output_port == edges[k].output_port,
        match slot {
            Option::Some(s) => exists|m: int|
                0 <= m < k && (#[trigger] edges[m]).from_node == bedges[k].from_node
                    && edges[m].output_port == bedges[k].output_port && edges[m].writer_slot
                    == Option::Some(s),
            Option::None => forall|m: int|
                0 <= m < k ==> !((#[trigger] edges[m]).from_node == bedges[k].from_node
                    && edges[m].output_port == bedges[k].output_port && edges[m].writer_slot
                    is Some),
        },
        bedges[k].port_type == PortPersistence::NotPersisted ==> edges[k].writer_slot is None,
        bedges[k].port_type != PortPersistence::NotPersisted ==> edges[k].writer_slot == (match slot {
            Option::Some(s) => Option::<usize>::Some(s),
            Option::None => edges[k].writer_slot
        }),
    ensures
        edges[l2].writer_slot == edges[k].writer_slot,
{
    assert(bedges[l2].port_type == bedges[k].port_type);
    match slot {
        Option::Some(s) => {
            let m = choose|m: int|
                0 <= m < k && (#[trigger] edges[m]).from_node == bedges[k].from_node
                    && edges[m].output_port == bedges[k].output_port && edges[m].writer_slot
                    == Option::Some(s);
            assert(edges[l2].writer_slot == edges[m].writer_slot);
            assert(bedges[k].port_type != PortPersistence::NotPersisted);
        }
        Option::None => {
            if bedges[k].port_type == PortPersistence::NotPersisted {
                assert(edges[l2].writer_slot is None);
            } else {
                assert(edges[l2].writer_slot is Some);
                assert(false);
            }
        }
    }
}

} // verus!
