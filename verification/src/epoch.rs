//! Epoch coordination: sources repeatedly report their replication
//! position; once every active source has reported, the open epoch is
//! sealed, carrying a consistent cut of per-source positions, and the
//! next epoch opens.  Epoch identifiers strictly increase, and the
//! positions carried across sealed epochs never move backwards.

use vstd::prelude::*;

use crate::codec::{
    spec_string_to_bytes, spec_u32_to_be_bytes, spec_u64_to_be_bytes, string_to_bytes,
    u32_to_be_bytes, u64_to_be_bytes,
};
use crate::node::NodeHandle;

verus! {

/// A source's replication position: transaction id and sequence
/// number, ordered lexicographically.
#[derive(Clone, Copy, PartialEq, Eq, Structural, Debug)]
pub struct SourceState {
    pub txid: u64,
    pub seqno: u64,
}

/// Lexicographic order on replication positions.
pub open spec fn spec_state_le(a: SourceState, b: SourceState) -> bool {
    a.txid < b.txid || (a.txid == b.txid && a.seqno <= b.seqno)
}

/// The order is transitive.
pub proof fn lemma_state_le_trans(a: SourceState, b: SourceState, c: SourceState)
    requires
        spec_state_le(a, b),
        spec_state_le(b, c),
    ensures
        spec_state_le(a, c),
{
}

/// A sealed epoch: its identifier plus the position each source had
/// reported when the epoch closed, indexed by source.
#[derive(Clone, PartialEq, Eq, Debug)]
pub struct Epoch {
    pub id: u64,
    pub states: Vec<SourceState>,
}

/// Coordinates the epoch barrier across sources.
pub struct EpochManager {
    num_sources: usize,
    next_id: u64,
    last: Vec<SourceState>,
    pending: Vec<bool>,
    active: Vec<bool>,
    sealed: Ghost<Seq<Seq<SourceState>>>,
}

impl EpochManager {
    pub closed spec fn num(self) -> nat {
        self.num_sources as nat
    }

    /// The per-source positions of each sealed epoch, oldest first.
    /// The identifier of the k-th sealed epoch is k.
    pub closed spec fn sealed_epochs(self) -> Seq<Seq<SourceState>> {
        self.sealed@
    }

    /// The last position each source has reported.
    pub closed spec fn last_state(self, s: int) -> SourceState {
        self.last@[s]
    }

    /// All last-reported positions, indexed by source.
    pub closed spec fn last_states(self) -> Seq<SourceState> {
        self.last@
    }

    pub closed spec fn is_active(self, s: int) -> bool {
        self.active@[s]
    }

    pub closed spec fn has_pending(self, s: int) -> bool {
        self.pending@[s]
    }

    pub closed spec fn wf(self) -> bool {
        &&& self.last@.len() == self.num()
        &&& self.pending@.len() == self.num()
        &&& self.active@.len() == self.num()
        &&& self.next_id == self.sealed@.len()
        &&& self.sealed@.len() <= u64::MAX
        &&& forall|e: int|
            0 <= e < self.sealed@.len() ==> (#[trigger] self.sealed@[e]).len() == self.num()
        &&& forall|e1: int, e2: int, s: int|
            0 <= e1 <= e2 < self.sealed@.len() && 0 <= s < self.num() ==> spec_state_le(
                #[trigger] self.sealed@[e1][s],
                #[trigger] self.sealed@[e2][s],
            )
        &&& forall|e: int, s: int|
            0 <= e < self.sealed@.len() && 0 <= s < self.num() ==> spec_state_le(
                #[trigger] self.sealed@[e][s],
                self.last@[s],
            )
    }

    pub fn new(num_sources: usize) -> (r: Self)
        ensures
            r.wf(),
            r.num() == num_sources,
            r.sealed_epochs().len() == 0,
            forall|s: int| 0 <= s < num_sources ==> r.is_active(s) && !r.has_pending(s),
            forall|s: int|
                0 <= s < num_sources ==> r.last_state(s) == (SourceState { txid: 0, seqno: 0 }),
    {
        let mut last: Vec<SourceState> = Vec::new();
        let mut pending: Vec<bool> = Vec::new();
        let mut active: Vec<bool> = Vec::new();
        let mut i: usize = 0;
        while i < num_sources
            invariant
                i <= num_sources,
                last@.len() == i,
                pending@.len() == i,
                active@.len() == i,
                forall|s: int|
                    0 <= s < i ==> last@[s] == (SourceState { txid: 0, seqno: 0 }) && !pending@[s]
                        && active@[s],
            decreases num_sources - i,
        {
            last.push(SourceState { txid: 0, seqno: 0 });
            pending.push(false);
            active.push(true);
            i += 1;
        }
        EpochManager {
            num_sources,
            next_id: 0,
            last,
            pending,
            active,
            sealed: Ghost(Seq::empty()),
        }
    }

    /// Whether every active source has reported for the open epoch.
    fn barrier_full(&self) -> (r: bool)
        requires
            self.wf(),
        ensures
            r == forall|s: int|
                0 <= s < self.num() && #[trigger] self.is_active(s) ==> self.has_pending(s),
    {
        let mut s: usize = 0;
        while s < self.num_sources
            invariant
                self.wf(),
                s <= self.num(),
                forall|t: int|
                    0 <= t < s && #[trigger] self.is_active(t) ==> self.has_pending(t),
            decreases self.num() - s,
        {
            if self.active[s] && !self.pending[s] {
                proof {
                    assert(self.is_active(s as int) && !self.has_pending(s as int));
                }
                return false;
            }
            s += 1;
        }
        true
    }

    /// Seals the open epoch: snapshots every source's last position,
    /// clears the barrier and opens the next epoch.
    fn seal(&mut self) -> (r: Epoch)
        requires
            old(self).wf(),
            old(self).sealed_epochs().len() < u64::MAX,
        ensures
            final(self).wf(),
            r.id == old(self).sealed_epochs().len(),
            r.states@ == old(self).last@,
            final(self).sealed_epochs() == old(self).sealed_epochs().push(old(self).last@),
            final(self).num() == old(self).num(),
            final(self).last_states() == old(self).last_states(),
            forall|s: int| 0 <= s < final(self).num() ==> !final(self).has_pending(s),
            forall|s: int|
                0 <= s < final(self).num() ==> final(self).is_active(s) == old(self).is_active(s)
                    && final(self).last_state(s) == old(self).last_state(s),
    {
        let id = self.next_id;
        let states = self.last.clone();
        proof {
            // A vector of `Copy` elements clones to the same view.
            assert(states@ =~= self.last@);
        }
        let mut s: usize = 0;
        while s < self.num_sources
            invariant
                s <= self.num_sources,
                self.num_sources == old(self).num_sources,
                self.pending@.len() == old(self).pending@.len(),
                old(self).pending@.len() == old(self).num(),
                forall|t: int| 0 <= t < s ==> !self.pending@[t],
                self.last == old(self).last,
                self.active == old(self).active,
                self.next_id == old(self).next_id,
                self.sealed == old(self).sealed,
            decreases self.num_sources - s,
        {
            self.pending.set(s, false);
            s += 1;
        }
        self.next_id = self.next_id + 1;
        proof {
            self.sealed@ = self.sealed@.push(self.last@);
        }
        Epoch { id, states }
    }

    /// A source reports its position for the open epoch.  Positions
    /// never move backwards.  When this report completes the barrier,
    /// the sealed epoch is returned.
    pub fn report(&mut self, source: usize, state: SourceState) -> (r: Option<Epoch>)
        requires
            old(self).wf(),
            source < old(self).num(),
            old(self).is_active(source as int),
            spec_state_le(old(self).last_state(source as int), state),
            old(self).sealed_epochs().len() < u64::MAX,
        ensures
            final(self).wf(),
            final(self).num() == old(self).num(),
            final(self).last_state(source as int) == state,
            // The epoch is sealed exactly when, counting this report,
            // every active source has reported for the open epoch.
            r is Some <==> (forall|s: int|
                0 <= s < old(self).num() && s != source && #[trigger] old(self).is_active(s)
                    ==> old(self).has_pending(s)),
            forall|s: int|
                0 <= s < final(self).num() && s != source ==> final(self).last_state(s) == old(
                    self,
                ).last_state(s) && final(self).is_active(s) == old(self).is_active(s),
            match r {
                Option::Some(e) => {
                    &&& e.id == old(self).sealed_epochs().len()
                    &&& e.states@ == final(self).last_states()
                    &&& e.states@[source as int] == state
                    &&& final(self).sealed_epochs() == old(self).sealed_epochs().push(e.states@)
                    &&& forall|s: int| 0 <= s < final(self).num() ==> !final(self).has_pending(s)
                },
                Option::None => {
                    &&& final(self).sealed_epochs() == old(self).sealed_epochs()
                    &&& final(self).has_pending(source as int)
                },
            },
    {
        self.last.set(source, state);
        self.pending.set(source, true);
        proof {
            assert forall|e: int, s: int|
                0 <= e < self.sealed@.len() && 0 <= s < self.num() implies spec_state_le(
                #[trigger] self.sealed@[e][s],
                self.last@[s],
            ) by {
                if s == source as int {
                    lemma_state_le_trans(
                        self.sealed@[e][s],
                        old(self).last@[s],
                        state,
                    );
                }
            }
        }
        let full = self.barrier_full();
        proof {
            if full {
                assert forall|s: int|
                    0 <= s < old(self).num() && s != source && #[trigger] old(self).is_active(
                        s,
                    ) implies old(self).has_pending(s) by {
                    assert(self.is_active(s));
                    assert(self.has_pending(s));
                    assert(self.pending@[s] == old(self).pending@[s]);
                }
            } else {
                let s0 = choose|s: int|
                    0 <= s < self.num() && #[trigger] self.is_active(s) && !self.has_pending(s);
                assert(s0 != source);
                assert(old(self).is_active(s0) && !old(self).has_pending(s0));
            }
        }
        if full {
            Option::Some(self.seal())
        } else {
            Option::None
        }
    }

    /// An idle source re-reports its last position, so that the
    /// barrier can close even when it has nothing new to say.
    pub fn report_idle(&mut self, source: usize) -> (r: Option<Epoch>)
        requires
            old(self).wf(),
            source < old(self).num(),
            old(self).is_active(source as int),
            old(self).sealed_epochs().len() < u64::MAX,
        ensures
            final(self).wf(),
            final(self).num() == old(self).num(),
            final(self).last_state(source as int) == old(self).last_state(source as int),
            r is Some <==> (forall|s: int|
                0 <= s < old(self).num() && s != source && #[trigger] old(self).is_active(s)
                    ==> old(self).has_pending(s)),
            match r {
                Option::Some(e) => final(self).sealed_epochs() == old(
                    self,
                ).sealed_epochs().push(e.states@) && e.id == old(self).sealed_epochs().len()
                    && e.states@ == final(self).last_states(),
                Option::None => final(self).sealed_epochs() == old(self).sealed_epochs(),
            },
    {
        let s = self.last[source];
        self.report(source, s)
    }

    /// A source that is shutting down leaves the barrier, reducing
    /// the number of reports needed to seal an epoch.
    pub fn deregister(&mut self, source: usize)
        requires
            old(self).wf(),
            source < old(self).num(),
        ensures
            final(self).wf(),
            final(self).num() == old(self).num(),
            !final(self).is_active(source as int),
            final(self).sealed_epochs() == old(self).sealed_epochs(),
            forall|s: int|
                0 <= s < final(self).num() ==> final(self).last_state(s) == old(self).last_state(
                    s,
                ),
    {
        self.active.set(source, false);
    }
}

/// Checkpoint monotonicity: across the sealed epochs, each source's
/// recorded position never decreases, and epoch identifiers strictly
/// increase (the k-th sealed epoch carries identifier k).
pub proof fn lemma_checkpoint_monotonicity(m: EpochManager, e1: int, e2: int, s: int)
    requires
        m.wf(),
        0 <= e1 <= e2 < m.sealed_epochs().len(),
        0 <= s < m.num(),
    ensures
        spec_state_le(m.sealed_epochs()[e1][s], m.sealed_epochs()[e2][s]),
{
}

/// Canonical bytes of a node handle: namespace presence and value,
/// then the length-prefixed name.
pub open spec fn spec_handle_to_bytes(h: NodeHandle) -> Seq<u8> {
    (match h.ns {
        Option::None => seq![0u8],
        Option::Some(ns) => seq![1u8] + spec_u32_to_be_bytes(ns as u32),
    }) + spec_string_to_bytes(h.id@)
}

/// Canonical bytes of a sealed epoch with its source handles:
/// the epoch identifier, the source count, then for every source its
/// handle, transaction id and sequence number.
pub open spec fn spec_checkpoint_to_bytes(
    id: u64,
    handles: Seq<NodeHandle>,
    states: Seq<SourceState>,
) -> Seq<u8> {
    spec_u64_to_be_bytes(id) + spec_u32_to_be_bytes(handles.len() as u32)
        + spec_checkpoint_entries(handles, states)
}

/// Canonical bytes of one checkpoint entry.
pub open spec fn spec_entry_bytes(h: NodeHandle, st: SourceState) -> Seq<u8> {
    spec_handle_to_bytes(h) + spec_u64_to_be_bytes(st.txid) + spec_u64_to_be_bytes(st.seqno)
}

pub open spec fn spec_checkpoint_entries(
    handles: Seq<NodeHandle>,
    states: Seq<SourceState>,
) -> Seq<u8>
    decreases handles.len(),
{
    if handles.len() == 0 {
        Seq::empty()
    } else {
        spec_entry_bytes(handles[0], states[0]) + spec_checkpoint_entries(
            handles.skip(1),
            states.skip(1),
        )
    }
}

fn handle_to_bytes(h: &NodeHandle) -> (r: Vec<u8>)
    requires
        h.id@.len() <= u32::MAX,
    ensures
        r@ == spec_handle_to_bytes(*h),
{
    let mut r: Vec<u8> = Vec::new();
    match &h.ns {
        Option::None => {
            r.push(0u8);
        }
        Option::Some(ns) => {
            r.push(1u8);
            let mut b = u32_to_be_bytes(*ns as u32);
            r.append(&mut b);
        }
    }
    let mut name = string_to_bytes(h.id.as_str());
    r.append(&mut name);
    proof {
        assert(r@ =~= spec_handle_to_bytes(*h));
    }
    r
}

/// Encodes an epoch checkpoint record for the persistent store.
pub fn checkpoint_to_bytes(id: u64, handles: &Vec<NodeHandle>, states: &Vec<SourceState>) -> (r:
    Vec<u8>)
    requires
        handles@.len() == states@.len(),
        handles@.len() <= u32::MAX,
        forall|i: int| 0 <= i < handles@.len() ==> (#[trigger] handles@[i]).id@.len() <= u32::MAX,
    ensures
        r@ == spec_checkpoint_to_bytes(id, handles@, states@),
{
    let mut r = u64_to_be_bytes(id);
    let mut cnt = u32_to_be_bytes(handles.len() as u32);
    r.append(&mut cnt);
    let ghost prefix = r@;
    let mut i: usize = 0;
    while i < handles.len()
        invariant
            handles@.len() == states@.len(),
            forall|j: int|
                0 <= j < handles@.len() ==> (#[trigger] handles@[j]).id@.len() <= u32::MAX,
            i <= handles@.len(),
            r@ == prefix + spec_checkpoint_entries(handles@.take(i as int), states@.take(i as int)),
        decreases handles@.len() - i,
    {
        let mut hb = handle_to_bytes(&handles[i]);
        let mut tb = u64_to_be_bytes(states[i].txid);
        let mut sb = u64_to_be_bytes(states[i].seqno);
        r.append(&mut hb);
        r.append(&mut tb);
        r.append(&mut sb);
        proof {
            lemma_checkpoint_entries_snoc(handles@, states@, i as int);
        }
        i += 1;
    }
    proof {
        assert(handles@.take(handles@.len() as int) =~= handles@);
        assert(states@.take(states@.len() as int) =~= states@);
    }
    r
}

/// Appending one entry extends the encoded entry list by that entry's
/// bytes.
proof fn lemma_checkpoint_entries_snoc(handles: Seq<NodeHandle>, states: Seq<SourceState>, i: int)
    requires
        handles.len() == states.len(),
        0 <= i < handles.len(),
    ensures
        spec_checkpoint_entries(handles.take(i + 1), states.take(i + 1))
            == spec_checkpoint_entries(handles.take(i), states.take(i)) + spec_entry_bytes(
            handles[i],
            states[i],
        ),
    decreases i,
{
    if i == 0 {
        assert(handles.take(1)[0] == handles[0]);
        assert(states.take(1)[0] == states[0]);
        assert(handles.take(1).skip(1) =~= Seq::<NodeHandle>::empty());
        assert(states.take(1).skip(1) =~= Seq::<SourceState>::empty());
        assert(spec_checkpoint_entries(handles.take(1), states.take(1))
            == spec_entry_bytes(handles[0], states[0]) + spec_checkpoint_entries(
            Seq::<NodeHandle>::empty(),
            Seq::<SourceState>::empty(),
        ));
        crate::codec::lemma_add_assoc(
            spec_entry_bytes(handles[0], states[0]),
            Seq::<u8>::empty(),
            Seq::<u8>::empty(),
        );
        assert(spec_entry_bytes(handles[0], states[0]) + Seq::<u8>::empty() =~= spec_entry_bytes(
            handles[0],
            states[0],
        ));
        assert(spec_checkpoint_entries(handles.take(0), states.take(0)) + spec_entry_bytes(
            handles[0],
            states[0],
        ) =~= spec_entry_bytes(handles[0], states[0]));
    } else {
        assert(handles.take(i + 1).skip(1) =~= handles.skip(1).take(i));
        assert(states.take(i + 1).skip(1) =~= states.skip(1).take(i));
        assert(handles.take(i).skip(1) =~= handles.skip(1).take(i - 1));
        assert(states.take(i).skip(1) =~= states.skip(1).take(i - 1));
        lemma_checkpoint_entries_snoc(handles.skip(1), states.skip(1), i - 1);
        assert(handles.skip(1)[i - 1] == handles[i]);
        assert(states.skip(1)[i - 1] == states[i]);
        assert(handles.take(i + 1)[0] == handles[0]);
        assert(handles.take(i)[0] == handles[0]);
        assert(states.take(i + 1)[0] == states[0]);
        assert(states.take(i)[0] == states[0]);
        let e0 = spec_entry_bytes(handles[0], states[0]);
        let mid = spec_checkpoint_entries(handles.skip(1).take(i - 1), states.skip(1).take(i - 1));
        let ei = spec_entry_bytes(handles[i], states[i]);
        assert(spec_checkpoint_entries(handles.take(i + 1), states.take(i + 1)) == e0 + (mid
            + ei));
        crate::codec::lemma_add_assoc(e0, mid, ei);
    }
}

} // verus!
