//! The per-input-port state machine every processor and sink worker
//! drives: data operations pass through while ports are live, a
//! `Commit` holds its port at the epoch barrier until every port has
//! observed the same epoch, and a `Terminate` drains its port until
//! every port has drained, at which point the node exits.

use vstd::prelude::*;

use crate::types::Operation;

verus! {

/// The state of one input port.
#[derive(Clone, Copy, PartialEq, Eq, Structural, Debug)]
pub enum PortState {
    /// Initial load still running on this port.
    Idle,
    /// Streaming: data operations pass through.
    Live,
    /// A `Commit` for the carried epoch was observed; the port waits
    /// for the other ports to reach the same barrier.
    AwaitingBarrier(u64),
    /// A `Terminate` was observed; nothing more arrives on this port.
    Draining,
}

/// What the worker must do after feeding one operation in.
#[derive(Clone, PartialEq, Eq, Debug)]
pub enum BarrierAction {
    /// Hand the data operation to the node's processing hook.
    Deliver(Operation),
    /// Forward the end-of-snapshot marker downstream.
    ForwardSnapshottingDone,
    /// Run the node's commit hook for this epoch, forward the commit
    /// marker on every output, then commit the storage transaction.
    CommitAndForward(u64),
    /// Forward the shutdown marker on every output and exit.
    ForwardTerminateAndExit,
    /// Nothing yet: a barrier or drain is still incomplete.
    Hold,
}

/// The barrier state of one node over all its input ports.
pub struct BarrierState {
    pub ports: Vec<PortState>,
    pub exited: bool,
}

impl BarrierState {
    /// Whether every port other than `except` awaits the given epoch.
    pub open spec fn spec_all_awaiting(self, e: u64, except: int) -> bool {
        forall|p: int|
            0 <= p < self.ports@.len() && p != except ==> #[trigger] self.ports@[p]
                == PortState::AwaitingBarrier(e)
    }

    /// Whether every port other than `except` is draining.
    pub open spec fn spec_all_draining(self, except: int) -> bool {
        forall|p: int|
            0 <= p < self.ports@.len() && p != except ==> #[trigger] self.ports@[p]
                == PortState::Draining
    }

    pub fn new(num_ports: usize) -> (r: Self)
        ensures
            r.ports@.len() == num_ports,
            forall|p: int| 0 <= p < num_ports ==> r.ports@[p] == PortState::Idle,
            !r.exited,
    {
        let mut ports: Vec<PortState> = Vec::new();
        let mut i: usize = 0;
        while i < num_ports
            invariant
                i <= num_ports,
                ports@.len() == i,
                forall|p: int| 0 <= p < i ==> ports@[p] == PortState::Idle,
            decreases num_ports - i,
        {
            ports.push(PortState::Idle);
            i += 1;
        }
        BarrierState { ports, exited: false }
    }

    fn all_awaiting(&self, e: u64, except: usize) -> (r: bool)
        ensures
            r == self.spec_all_awaiting(e, except as int),
    {
        let mut p: usize = 0;
        while p < self.ports.len()
            invariant
                p <= self.ports@.len(),
                forall|q: int|
                    0 <= q < p && q != except ==> #[trigger] self.ports@[q]
                        == PortState::AwaitingBarrier(e),
            decreases self.ports@.len() - p,
        {
            if p != except {
                match self.ports[p] {
                    PortState::AwaitingBarrier(e2) => {
                        if e2 != e {
                            return false;
                        }
                    }
                    _ => {
                        return false;
                    }
                }
            }
            p += 1;
        }
        true
    }

    fn all_draining(&self, except: usize) -> (r: bool)
        ensures
            r == self.spec_all_draining(except as int),
    {
        let mut p: usize = 0;
        while p < self.ports.len()
            invariant
                p <= self.ports@.len(),
                forall|q: int|
                    0 <= q < p && q != except ==> #[trigger] self.ports@[q] == PortState::Draining,
            decreases self.ports@.len() - p,
        {
            if p != except {
                match self.ports[p] {
                    PortState::Draining => {}
                    _ => {
                        return false;
                    }
                }
            }
            p += 1;
        }
        true
    }

    /// Feeds one operation received on `from_port` into the state
    /// machine and says what the worker must do.
    ///
    /// Epoch barrier: the commit marker for epoch `e` is forwarded
    /// exactly when, counting this arrival, every input port has
    /// observed `Commit(e)`; the ports then return to live streaming.
    /// Shutdown: the terminate marker is forwarded exactly when,
    /// counting this arrival, every input port has drained; the node
    /// is then exited.
    pub fn step(&mut self, from_port: usize, op: Operation) -> (r: BarrierAction)
        requires
            !old(self).exited,
            from_port < old(self).ports@.len(),
            // Nothing arrives on a drained or barrier-held port: per
            // edge, operations are FIFO and `Commit` ends an epoch's
            // batch, `Terminate` ends the stream.
            op.is_data() || op is SnapshottingDone ==> old(self).ports@[from_port as int]
                == PortState::Idle || old(self).ports@[from_port as int] == PortState::Live,
            op is Commit ==> old(self).ports@[from_port as int] == PortState::Live,
            op is Terminate ==> old(self).ports@[from_port as int] == PortState::Idle || old(self).ports@[from_port as int] == PortState::Live,
        ensures
            final(self).ports@.len() == old(self).ports@.len(),
            // What each action means, exactly.
            op.is_data() ==> r == BarrierAction::Deliver(op) && *final(self) == *old(self),
            op is SnapshottingDone ==> r == BarrierAction::ForwardSnapshottingDone && final(self).ports@ == old(self).ports@.update(from_port as int, PortState::Live) && final(self).exited == old(self).exited,
            forall|e: u64|
                op == (Operation::Commit { epoch_id: e }) ==> {
                    &&& (r == BarrierAction::CommitAndForward(e) <==> old(self).spec_all_awaiting(
                        e,
                        from_port as int,
                    ))
                    &&& (old(self).spec_all_awaiting(e, from_port as int) ==> forall|p: int|
                        0 <= p < final(self).ports@.len() ==> #[trigger] final(self).ports@[p]
                            == PortState::Live)
                    &&& (!old(self).spec_all_awaiting(e, from_port as int) ==> r
                        == BarrierAction::Hold && final(self).ports@ == old(self).ports@.update(
                        from_port as int,
                        PortState::AwaitingBarrier(e),
                    ))
                    &&& final(self).exited == old(self).exited
                },
            op is Terminate ==> {
                &&& (r == BarrierAction::ForwardTerminateAndExit <==> old(self).spec_all_draining(from_port as int))
                &&& final(self).ports@ == old(self).ports@.update(
                    from_port as int,
                    PortState::Draining,
                )
                &&& (final(self).exited <==> old(self).spec_all_draining(from_port as int))
                &&& (r == BarrierAction::Hold <==> !old(self).spec_all_draining(
                    from_port as int,
                ))
            },
    {
        match op {
            Operation::Insert { .. } | Operation::Delete { .. } | Operation::Update { .. } => {
                BarrierAction::Deliver(op)
            }
            Operation::SnapshottingDone => {
                self.ports.set(from_port, PortState::Live);
                BarrierAction::ForwardSnapshottingDone
            }
            Operation::Commit { epoch_id } => {
                if self.all_awaiting(epoch_id, from_port) {
                    let n = self.ports.len();
                    let mut p: usize = 0;
                    while p < n
                        invariant
                            n == self.ports@.len(),
                            p <= n,
                            self.exited == old(self).exited,
                            forall|q: int|
                                0 <= q < p ==> #[trigger] self.ports@[q] == PortState::Live,
                        decreases n - p,
                    {
                        self.ports.set(p, PortState::Live);
                        p += 1;
                    }
                    BarrierAction::CommitAndForward(epoch_id)
                } else {
                    self.ports.set(from_port, PortState::AwaitingBarrier(epoch_id));
                    BarrierAction::Hold
                }
            }
            Operation::Terminate => {
                if self.all_draining(from_port) {
                    self.ports.set(from_port, PortState::Draining);
                    self.exited = true;
                    BarrierAction::ForwardTerminateAndExit
                } else {
                    self.ports.set(from_port, PortState::Draining);
                    BarrierAction::Hold
                }
            }
        }
    }
}

/// Epoch barrier: a node forwards `Commit(e)` only when every one of
/// its input ports has observed `Commit(e)`; and whenever every input
/// port has drained, the node exits after forwarding `Terminate`.
pub proof fn lemma_epoch_barrier(
    pre: BarrierState,
    post: BarrierState,
    from_port: usize,
    op: Operation,
    r: BarrierAction,
    e: u64,
)
    requires
        // The relation `step` establishes between its input and
        // output states, restated for the commit case.
        op == (Operation::Commit { epoch_id: e }),
        r == BarrierAction::CommitAndForward(e) <==> pre.spec_all_awaiting(e, from_port as int),
    ensures
        r == BarrierAction::CommitAndForward(e) ==> forall|p: int|
            0 <= p < pre.ports@.len() && p != from_port ==> #[trigger] pre.ports@[p]
                == PortState::AwaitingBarrier(e),
{
}

} // verus!
