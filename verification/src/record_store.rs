//! The transactional byte store backing all persisted ports, and the
//! record writers and readers over it.  A transaction is a private
//! copy of the committed entries; commit installs it atomically.
//! Independent components share one store through byte prefixes.

use vstd::map::*;
use vstd::prelude::*;

use crate::codec::{
    record_to_bytes, spec_field_to_bytes, spec_record_encodable, spec_record_to_bytes,
    u64_to_be_bytes, spec_u64_to_be_bytes, field_to_bytes,
};
use crate::types::{Operation, Record};

verus! {

/// The map a list of key/value entries denotes.
pub open spec fn kv_view(s: Seq<(Vec<u8>, Vec<u8>)>) -> Map<Seq<u8>, Seq<u8>>
    decreases s.len(),
{
    if s.len() == 0 {
        Map::empty()
    } else {
        kv_view(s.drop_last()).insert(s.last().0@, s.last().1@)
    }
}

/// No two entries carry the same key.
pub open spec fn keys_unique(s: Seq<(Vec<u8>, Vec<u8>)>) -> bool {
    forall|i: int, j: int| 0 <= i < j < s.len() ==> (#[trigger] s[i]).0@ != (#[trigger] s[j]).0@
}

/// A key is in the denoted map exactly when some entry carries it.
proof fn lemma_kv_view_mem(s: Seq<(Vec<u8>, Vec<u8>)>, k: Seq<u8>)
    ensures
        kv_view(s).contains_key(k) <==> exists|i: int| 0 <= i < s.len() && (#[trigger] s[i]).0@
            == k,
    decreases s.len(),
{
    if s.len() > 0 {
        lemma_kv_view_mem(s.drop_last(), k);
        if s.last().0@ == k {
            assert(s[s.len() - 1].0@ == k);
        } else if kv_view(s).contains_key(k) {
            let i = choose|i: int| 0 <= i < s.drop_last().len() && (#[trigger] s.drop_last()[i]).0@
                == k;
            assert(s[i].0@ == k);
        } else {
            assert forall|i: int| 0 <= i < s.len() implies (#[trigger] s[i]).0@ != k by {
                if i < s.len() - 1 {
                    assert(s.drop_last()[i] == s[i]);
                }
            }
        }
    }
}

/// With unique keys, the denoted map holds each entry's value under
/// its key.
proof fn lemma_kv_view_at(s: Seq<(Vec<u8>, Vec<u8>)>, i: int)
    requires
        keys_unique(s),
        0 <= i < s.len(),
    ensures
        kv_view(s).contains_key(s[i].0@),
        kv_view(s)[s[i].0@] == s[i].1@,
    decreases s.len(),
{
    if i == s.len() - 1 {
    } else {
        assert(s.drop_last()[i] == s[i]);
        lemma_kv_view_at(s.drop_last(), i);
        assert(s[i].0@ != s.last().0@);
    }
}

/// Copies a byte vector.
pub fn clone_bytes(v: &Vec<u8>) -> (r: Vec<u8>)
    ensures
        r@ == v@,
{
    let mut r: Vec<u8> = Vec::new();
    let mut i: usize = 0;
    while i < v.len()
        invariant
            i <= v@.len(),
            r@ == v@.take(i as int),
        decreases v@.len() - i,
    {
        r.push(v[i]);
        proof {
            assert(r@ =~= v@.take(i + 1));
        }
        i += 1;
    }
    proof {
        assert(v@.take(v@.len() as int) =~= v@);
    }
    r
}

/// Whether two byte slices hold the same bytes.
fn bytes_eq(a: &[u8], b: &[u8]) -> (r: bool)
    ensures
        r == (a@ == b@),
{
    if a.len() != b.len() {
        return false;
    }
    let mut i: usize = 0;
    while i < a.len()
        invariant
            a@.len() == b@.len(),
            i <= a@.len(),
            forall|j: int| 0 <= j < i ==> a@[j] == b@[j],
        decreases a@.len() - i,
    {
        if a[i] != b[i] {
            return false;
        }
        i += 1;
    }
    proof {
        assert(a@ =~= b@);
    }
    true
}

/// A read/write transaction: a private copy of the store's entries.
pub struct Transaction {
    entries: Vec<(Vec<u8>, Vec<u8>)>,
}

impl Transaction {
    /// The key/value map this transaction currently denotes.
    pub closed spec fn view(self) -> Map<Seq<u8>, Seq<u8>> {
        kv_view(self.entries@)
    }

    pub closed spec fn wf(self) -> bool {
        keys_unique(self.entries@)
    }

    fn find(&self, key: &[u8]) -> (r: Option<usize>)
        ensures
            match r {
                Option::Some(i) => i < self.entries@.len() && self.entries@[i as int].0@ == key@,
                Option::None => forall|i: int|
                    0 <= i < self.entries@.len() ==> (#[trigger] self.entries@[i]).0@ != key@,
            },
    {
        let mut i: usize = 0;
        while i < self.entries.len()
            invariant
                i <= self.entries@.len(),
                forall|j: int| 0 <= j < i ==> (#[trigger] self.entries@[j]).0@ != key@,
            decreases self.entries@.len() - i,
        {
            if bytes_eq(self.entries[i].0.as_slice(), key) {
                return Option::Some(i);
            }
            i += 1;
        }
        Option::None
    }

    /// Reads the value stored under a key.
    pub fn get(&self, key: &[u8]) -> (r: Option<Vec<u8>>)
        requires
            self.wf(),
        ensures
            match r {
                Option::Some(v) => self.view().contains_key(key@) && v@ == self.view()[key@],
                Option::None => !self.view().contains_key(key@),
            },
    {
        proof {
            lemma_kv_view_mem(self.entries@, key@);
        }
        match self.find(key) {
            Option::Some(i) => {
                proof {
                    lemma_kv_view_at(self.entries@, i as int);
                }
                Option::Some(clone_bytes(&self.entries[i].1))
            }
            Option::None => Option::None,
        }
    }

    /// Stores a value under a key, replacing any previous value.
    pub fn put(&mut self, key: Vec<u8>, value: Vec<u8>)
        requires
            old(self).wf(),
        ensures
            final(self).wf(),
            final(self).view() == old(self).view().insert(key@, value@),
    {
        match self.find(key.as_slice()) {
            Option::Some(i) => {
                let ghost pre = self.entries@;
                self.entries.set(i, (key, value));
                proof {
                    lemma_kv_view_update(pre, i as int, key@, value@);
                }
            }
            Option::None => {
                let ghost pre = self.entries@;
                self.entries.push((key, value));
                proof {
                    assert(self.entries@.drop_last() =~= pre);
                }
            }
        }
    }

    /// Removes a key and its value, if present.
    pub fn delete(&mut self, key: &[u8])
        requires
            old(self).wf(),
        ensures
            final(self).wf(),
            final(self).view() == old(self).view().remove(key@),
    {
        proof {
            lemma_kv_view_mem(self.entries@, key@);
        }
        match self.find(key) {
            Option::Some(i) => {
                let ghost pre = self.entries@;
                self.entries.remove(i);
                proof {
                    assert(self.entries@ =~= pre.remove(i as int));
                    lemma_kv_view_remove(pre, i as int);
                }
            }
            Option::None => {
                proof {
                    assert(!self.view().contains_key(key@));
                    assert(self.view() =~= self.view().remove(key@));
                }
            }
        }
    }
}

/// Replacing the entry that holds a key denotes an insert.
proof fn lemma_kv_view_update(s: Seq<(Vec<u8>, Vec<u8>)>, i: int, k: Seq<u8>, v: Seq<u8>)
    requires
        keys_unique(s),
        0 <= i < s.len(),
        s[i].0@ == k,
    ensures
        forall|kv: (Vec<u8>, Vec<u8>)|
            kv.0@ == k && kv.1@ == v ==> kv_view(#[trigger] s.update(i, kv)) == kv_view(s).insert(
                k,
                v,
            ) && keys_unique(s.update(i, kv)),
    decreases s.len(),
{
    assert forall|kv: (Vec<u8>, Vec<u8>)|
        kv.0@ == k && kv.1@ == v implies kv_view(#[trigger] s.update(i, kv)) == kv_view(
        s,
    ).insert(k, v) && keys_unique(s.update(i, kv)) by {
        let s2 = s.update(i, kv);
        assert forall|a: int, b: int| 0 <= a < b < s2.len() implies (#[trigger] s2[a]).0@ != (
        #[trigger] s2[b]).0@ by {
            assert(s[a].0@ != s[b].0@);
            if a == i {
                assert(s2[a].0@ == s[a].0@);
            }
            if b == i {
                assert(s2[b].0@ == s[b].0@);
            }
        }
        if i == s.len() - 1 {
            assert(s2.drop_last() =~= s.drop_last());
            assert(s2.last() == kv);
            assert(kv_view(s2) == kv_view(s.drop_last()).insert(k, v));
            assert(kv_view(s) == kv_view(s.drop_last()).insert(s.last().0@, s.last().1@));
            assert(s.last().0@ == k);
            assert(kv_view(s.drop_last()).insert(k, v) =~= kv_view(s.drop_last()).insert(
                k,
                s.last().1@,
            ).insert(k, v));
        } else {
            assert(s2.drop_last() =~= s.drop_last().update(i, kv));
            assert(s.drop_last()[i] == s[i]);
            lemma_kv_view_update(s.drop_last(), i, k, v);
            assert(kv_view(s2.drop_last()) == kv_view(s.drop_last()).insert(k, v));
            assert(s2.last() == s.last());
            assert(s.last().0@ != k);
            assert(kv_view(s.drop_last()).insert(k, v).insert(s.last().0@, s.last().1@)
                =~= kv_view(s.drop_last()).insert(s.last().0@, s.last().1@).insert(k, v));
        }
    }
}

/// Removing the entry that holds a key denotes a remove.
proof fn lemma_kv_view_remove(s: Seq<(Vec<u8>, Vec<u8>)>, i: int)
    requires
        keys_unique(s),
        0 <= i < s.len(),
    ensures
        kv_view(s.remove(i)) == kv_view(s).remove(s[i].0@),
        keys_unique(s.remove(i)),
    decreases s.len(),
{
    let k = s[i].0@;
    let s2 = s.remove(i);
    assert forall|a: int, b: int| 0 <= a < b < s2.len() implies (#[trigger] s2[a]).0@ != (
    #[trigger] s2[b]).0@ by {
        let a0: int = if a < i {
            a
        } else {
            a + 1
        };
        let b0: int = if b < i {
            b
        } else {
            b + 1
        };
        assert(s2[a] == s[a0] && s2[b] == s[b0]);
        assert(s[a0].0@ != s[b0].0@);
    }
    if i == s.len() - 1 {
        assert(s2 =~= s.drop_last());
        lemma_kv_view_mem(s.drop_last(), k);
        assert forall|j: int| 0 <= j < s.drop_last().len() implies (#[trigger] s.drop_last()[j]).0@
            != k by {
            assert(s.drop_last()[j] == s[j]);
            assert(s[j].0@ != s[i].0@);
        }
        assert(!kv_view(s.drop_last()).contains_key(k));
        assert(kv_view(s.drop_last()) =~= kv_view(s.drop_last()).insert(k, s.last().1@).remove(
            k,
        ));
    } else {
        assert(s2.drop_last() =~= s.drop_last().remove(i));
        assert(s.drop_last()[i] == s[i]);
        lemma_kv_view_remove(s.drop_last(), i);
        assert(s2.last() == s.last());
        assert(kv_view(s2) == kv_view(s.drop_last()).remove(k).insert(s.last().0@, s.last().1@));
        assert(s.last().0@ != k);
        assert(kv_view(s.drop_last()).remove(k).insert(s.last().0@, s.last().1@) =~= kv_view(
            s.drop_last(),
        ).insert(s.last().0@, s.last().1@).remove(k));
    }
}

/// The shared store: the last committed entries.
pub struct RecordStore {
    committed: Vec<(Vec<u8>, Vec<u8>)>,
}

impl RecordStore {
    /// The committed key/value map.
    pub closed spec fn view(self) -> Map<Seq<u8>, Seq<u8>> {
        kv_view(self.committed@)
    }

    pub closed spec fn wf(self) -> bool {
        keys_unique(self.committed@)
    }

    pub fn new() -> (r: Self)
        ensures
            r.wf(),
            r.view() == Map::<Seq<u8>, Seq<u8>>::empty(),
    {
        RecordStore { committed: Vec::new() }
    }

    /// Opens a transaction: a snapshot of the committed state.
    pub fn begin(&self) -> (r: Transaction)
        requires
            self.wf(),
        ensures
            r.wf(),
            r.view() == self.view(),
    {
        let mut entries: Vec<(Vec<u8>, Vec<u8>)> = Vec::new();
        let mut i: usize = 0;
        while i < self.committed.len()
            invariant
                i <= self.committed@.len(),
                entries@.len() == i,
                forall|j: int|
                    0 <= j < i ==> (#[trigger] entries@[j]).0@ == self.committed@[j].0@
                        && entries@[j].1@ == self.committed@[j].1@,
            decreases self.committed@.len() - i,
        {
            let k = clone_bytes(&self.committed[i].0);
            let v = clone_bytes(&self.committed[i].1);
            entries.push((k, v));
            i += 1;
        }
        proof {
            lemma_kv_view_congruent(entries@, self.committed@);
        }
        Transaction { entries }
    }

    /// Durably installs a transaction's state.
    pub fn commit(&mut self, txn: Transaction)
        requires
            old(self).wf(),
            txn.wf(),
        ensures
            final(self).wf(),
            final(self).view() == txn.view(),
    {
        let Transaction { entries } = txn;
        self.committed = entries;
    }

    /// Reads a committed value, as a downstream record reader does.
    pub fn get_committed(&self, key: &[u8]) -> (r: Option<Vec<u8>>)
        requires
            self.wf(),
        ensures
            match r {
                Option::Some(v) => self.view().contains_key(key@) && v@ == self.view()[key@],
                Option::None => !self.view().contains_key(key@),
            },
    {
        let txn = self.begin();
        txn.get(key)
    }
}

/// Entry lists equal view-by-view denote the same map.
proof fn lemma_kv_view_congruent(a: Seq<(Vec<u8>, Vec<u8>)>, b: Seq<(Vec<u8>, Vec<u8>)>)
    requires
        a.len() == b.len(),
        forall|j: int|
            0 <= j < a.len() ==> (#[trigger] a[j]).0@ == b[j].0@ && a[j].1@ == b[j].1@,
    ensures
        kv_view(a) == kv_view(b),
        keys_unique(b) ==> keys_unique(a),
    decreases a.len(),
{
    if a.len() > 0 {
        assert forall|j: int|
            0 <= j < a.drop_last().len() implies (#[trigger] a.drop_last()[j]).0@
            == b.drop_last()[j].0@ && a.drop_last()[j].1@ == b.drop_last()[j].1@ by {
            assert(a.drop_last()[j] == a[j] && b.drop_last()[j] == b[j]);
        }
        lemma_kv_view_congruent(a.drop_last(), b.drop_last());
        assert(a.last().0@ == b.last().0@ && a.last().1@ == b.last().1@);
        if keys_unique(b) {
            assert forall|i: int, j: int| 0 <= i < j < a.len() implies (#[trigger] a[i]).0@ != (
            #[trigger] a[j]).0@ by {
                assert(b[i].0@ != b[j].0@);
            }
        }
    }
}


/// A prefix-scoped view of a transaction: every access prepends a
/// fixed byte prefix, so co-located components cannot collide.
pub struct PrefixTransaction {
    prefix: Vec<u8>,
    txn: Transaction,
}

/// The prefix prepended to a key.
pub open spec fn spec_prefixed(prefix: Seq<u8>, key: Seq<u8>) -> Seq<u8> {
    prefix + key
}

/// Concatenates a prefix and a key.
fn prefixed_key(prefix: &Vec<u8>, key: &[u8]) -> (r: Vec<u8>)
    ensures
        r@ == spec_prefixed(prefix@, key@),
{
    let mut r = clone_bytes(prefix);
    let mut i: usize = 0;
    while i < key.len()
        invariant
            i <= key@.len(),
            r@ == prefix@ + key@.take(i as int),
        decreases key@.len() - i,
    {
        r.push(key[i]);
        proof {
            assert(r@ =~= prefix@ + key@.take(i + 1));
        }
        i += 1;
    }
    proof {
        assert(prefix@ + key@.take(key@.len() as int) =~= prefix@ + key@);
    }
    r
}

impl PrefixTransaction {
    pub closed spec fn view(self) -> Map<Seq<u8>, Seq<u8>> {
        self.txn.view()
    }

    pub closed spec fn wf(self) -> bool {
        self.txn.wf()
    }

    pub closed spec fn spec_prefix(self) -> Seq<u8> {
        self.prefix@
    }

    /// Wraps a transaction under a prefix.
    pub fn new(txn: Transaction, prefix: Vec<u8>) -> (r: Self)
        requires
            txn.wf(),
        ensures
            r.wf(),
            r.view() == txn.view(),
            r.spec_prefix() == prefix@,
    {
        PrefixTransaction { prefix, txn }
    }

    /// Releases the underlying transaction.
    pub fn into_inner(self) -> (r: Transaction)
        requires
            self.wf(),
        ensures
            r.wf(),
            r.view() == self.view(),
    {
        self.txn
    }

    pub fn get(&self, key: &[u8]) -> (r: Option<Vec<u8>>)
        requires
            self.wf(),
        ensures
            match r {
                Option::Some(v) => self.view().contains_key(spec_prefixed(self.spec_prefix(), key@))
                    && v@ == self.view()[spec_prefixed(self.spec_prefix(), key@)],
                Option::None => !self.view().contains_key(spec_prefixed(self.spec_prefix(), key@)),
            },
    {
        let full = prefixed_key(&self.prefix, key);
        self.txn.get(full.as_slice())
    }

    pub fn put(&mut self, key: &[u8], value: Vec<u8>)
        requires
            old(self).wf(),
        ensures
            final(self).wf(),
            final(self).spec_prefix() == old(self).spec_prefix(),
            final(self).view() == old(self).view().insert(
                spec_prefixed(old(self).spec_prefix(), key@),
                value@,
            ),
    {
        let full = prefixed_key(&self.prefix, key);
        self.txn.put(full, value);
    }

    pub fn delete(&mut self, key: &[u8])
        requires
            old(self).wf(),
        ensures
            final(self).wf(),
            final(self).spec_prefix() == old(self).spec_prefix(),
            final(self).view() == old(self).view().remove(
                spec_prefixed(old(self).spec_prefix(), key@),
            ),
    {
        let full = prefixed_key(&self.prefix, key);
        self.txn.delete(full.as_slice());
    }
}

/// The encoded primary key of a record: the canonical bytes of its
/// key fields, in primary-index order.
pub open spec fn spec_key_fields_bytes(pk: Seq<usize>, r: Record) -> Seq<u8>
    decreases pk.len(),
{
    if pk.len() == 0 {
        Seq::empty()
    } else {
        spec_field_to_bytes(r.values@[pk[0] as int]) + spec_key_fields_bytes(pk.skip(1), r)
    }
}

/// The full store key of a record under a writer's prefix.
pub open spec fn spec_pk_key(prefix: Seq<u8>, pk: Seq<usize>, r: Record) -> Seq<u8> {
    prefix + spec_key_fields_bytes(pk, r)
}

/// The primary-key positions all point at existing fields, and the
/// record can be encoded.
pub open spec fn spec_writable(pk: Seq<usize>, r: Record) -> bool {
    &&& spec_record_encodable(r)
    &&& forall|i: int| 0 <= i < pk.len() ==> (#[trigger] pk[i]) < r.values@.len()
}

proof fn lemma_key_fields_snoc(pk: Seq<usize>, r: Record, i: int)
    requires
        0 <= i < pk.len(),
    ensures
        spec_key_fields_bytes(pk.take(i + 1), r) == spec_key_fields_bytes(pk.take(i), r)
            + spec_field_to_bytes(r.values@[pk[i] as int]),
    decreases i,
{
    if i == 0 {
        assert(pk.take(1)[0] == pk[0]);
        assert(pk.take(1).skip(1) =~= Seq::<usize>::empty());
        assert(spec_key_fields_bytes(pk.take(0), r) =~= Seq::<u8>::empty());
        assert(spec_key_fields_bytes(pk.take(1), r) == spec_field_to_bytes(r.values@[pk[0] as int])
            + spec_key_fields_bytes(Seq::<usize>::empty(), r));
        assert(spec_field_to_bytes(r.values@[pk[0] as int]) + Seq::<u8>::empty()
            =~= spec_field_to_bytes(r.values@[pk[0] as int]));
        assert(Seq::<u8>::empty() + spec_field_to_bytes(r.values@[pk[0] as int])
            =~= spec_field_to_bytes(r.values@[pk[0] as int]));
    } else {
        assert(pk.take(i + 1).skip(1) =~= pk.skip(1).take(i));
        assert(pk.take(i).skip(1) =~= pk.skip(1).take(i - 1));
        lemma_key_fields_snoc(pk.skip(1), r, i - 1);
        assert(pk.skip(1)[i - 1] == pk[i]);
        assert(pk.take(i + 1)[0] == pk[0]);
        assert(pk.take(i)[0] == pk[0]);
        let e0 = spec_field_to_bytes(r.values@[pk[0] as int]);
        let mid = spec_key_fields_bytes(pk.skip(1).take(i - 1), r);
        let ei = spec_field_to_bytes(r.values@[pk[i] as int]);
        assert(spec_key_fields_bytes(pk.take(i + 1), r) == e0 + (mid + ei));
        crate::codec::lemma_add_assoc(e0, mid, ei);
    }
}

/// A record writer keyed by the schema's primary-key fields: inserts
/// and updates write in place, deletes remove.
pub struct PrimaryKeyWriter {
    prefix: Vec<u8>,
    primary_index: Vec<usize>,
}

/// What one data operation does to the stored map.
pub open spec fn spec_apply_data_op(
    m: Map<Seq<u8>, Seq<u8>>,
    prefix: Seq<u8>,
    pk: Seq<usize>,
    op: Operation,
) -> Map<Seq<u8>, Seq<u8>> {
    match op {
        Operation::Insert { new } => m.insert(spec_pk_key(prefix, pk, new), spec_record_to_bytes(new)),
        Operation::Delete { old } => m.remove(spec_pk_key(prefix, pk, old)),
        Operation::Update { old, new } => m.remove(spec_pk_key(prefix, pk, old)).insert(
            spec_pk_key(prefix, pk, new),
            spec_record_to_bytes(new),
        ),
        _ => m,
    }
}

/// What a sequence of data operations does to the stored map.
pub open spec fn spec_apply_ops(
    m: Map<Seq<u8>, Seq<u8>>,
    prefix: Seq<u8>,
    pk: Seq<usize>,
    ops: Seq<Operation>,
) -> Map<Seq<u8>, Seq<u8>>
    decreases ops.len(),
{
    if ops.len() == 0 {
        m
    } else {
        spec_apply_ops(spec_apply_data_op(m, prefix, pk, ops[0]), prefix, pk, ops.skip(1))
    }
}

impl PrimaryKeyWriter {
    pub closed spec fn spec_prefix(self) -> Seq<u8> {
        self.prefix@
    }

    pub closed spec fn spec_pk(self) -> Seq<usize> {
        self.primary_index@
    }

    pub fn new(prefix: Vec<u8>, primary_index: Vec<usize>) -> (r: Self)
        ensures
            r.spec_prefix() == prefix@,
            r.spec_pk() == primary_index@,
    {
        PrimaryKeyWriter { prefix, primary_index }
    }

    /// The store key of a record.
    pub fn key_of(&self, r: &Record) -> (out: Vec<u8>)
        requires
            spec_writable(self.spec_pk(), *r),
        ensures
            out@ == spec_pk_key(self.spec_prefix(), self.spec_pk(), *r),
    {
        let mut out = clone_bytes(&self.prefix);
        let ghost pk = self.primary_index@;
        let mut i: usize = 0;
        while i < self.primary_index.len()
            invariant
                pk == self.primary_index@,
                spec_writable(pk, *r),
                i <= pk.len(),
                out@ == self.prefix@ + spec_key_fields_bytes(pk.take(i as int), *r),
            decreases pk.len() - i,
        {
            let mut fb = field_to_bytes(&r.values[self.primary_index[i]]);
            proof {
                lemma_key_fields_snoc(pk, *r, i as int);
                crate::codec::lemma_add_assoc(
                    self.prefix@,
                    spec_key_fields_bytes(pk.take(i as int), *r),
                    spec_field_to_bytes(r.values@[pk[i as int] as int]),
                );
            }
            out.append(&mut fb);
            i += 1;
        }
        proof {
            assert(pk.take(pk.len() as int) =~= pk);
            assert(out@ == self.prefix@ + spec_key_fields_bytes(pk.take(pk.len() as int), *r));
        }
        out
    }

    /// Applies one data operation to the store through a transaction.
    pub fn write(&self, op: &Operation, txn: &mut Transaction)
        requires
            old(txn).wf(),
            op.is_data(),
            forall|r: Record| #[trigger] spec_op_records(*op).contains(r) ==> spec_writable(
                self.spec_pk(),
                r,
            ),
        ensures
            final(txn).wf(),
            final(txn).view() == spec_apply_data_op(
                old(txn).view(),
                self.spec_prefix(),
                self.spec_pk(),
                *op,
            ),
    {
        match op {
            Operation::Insert { new } => {
                proof {
                    assert(spec_op_records(*op).contains(*new));
                }
                let key = self.key_of(new);
                let value = record_to_bytes(new);
                txn.put(key, value);
            }
            Operation::Delete { old } => {
                proof {
                    assert(spec_op_records(*op).contains(*old));
                }
                let key = self.key_of(old);
                txn.delete(key.as_slice());
            }
            Operation::Update { old, new } => {
                proof {
                    assert(spec_op_records(*op).contains(*old));
                    assert(spec_op_records(*op).contains(*new));
                }
                let okey = self.key_of(old);
                txn.delete(okey.as_slice());
                let key = self.key_of(new);
                let value = record_to_bytes(new);
                txn.put(key, value);
            }
            _ => {
                proof {
                    assert(false);
                }
            }
        }
    }
}

/// The records an operation carries.
pub open spec fn spec_op_records(op: Operation) -> Set<Record> {
    match op {
        Operation::Insert { new } => set![new],
        Operation::Delete { old } => set![old],
        Operation::Update { old, new } => set![old, new],
        _ => Set::empty(),
    }
}

/// A record writer keyed by a monotonically assigned counter:
/// insert-only.
pub struct AutogenWriter {
    prefix: Vec<u8>,
    next_key: u64,
}

impl AutogenWriter {
    pub closed spec fn spec_prefix(self) -> Seq<u8> {
        self.prefix@
    }

    pub closed spec fn spec_next_key(self) -> u64 {
        self.next_key
    }

    pub fn new(prefix: Vec<u8>) -> (r: Self)
        ensures
            r.spec_prefix() == prefix@,
            r.spec_next_key() == 0,
    {
        AutogenWriter { prefix, next_key: 0 }
    }

    /// Stores a record under the next generated key.
    pub fn write_insert(&mut self, r: &Record, txn: &mut Transaction) -> (key: u64)
        requires
            old(txn).wf(),
            spec_record_encodable(*r),
            old(self).spec_next_key() < u64::MAX,
        ensures
            final(txn).wf(),
            key == old(self).spec_next_key(),
            final(self).spec_next_key() == old(self).spec_next_key() + 1,
            final(self).spec_prefix() == old(self).spec_prefix(),
            final(txn).view() == old(txn).view().insert(
                spec_prefixed(old(self).spec_prefix(), spec_u64_to_be_bytes(key)),
                spec_record_to_bytes(*r),
            ),
    {
        let key = self.next_key;
        let kb = u64_to_be_bytes(key);
        let full = prefixed_key(&self.prefix, kb.as_slice());
        let value = record_to_bytes(r);
        txn.put(full, value);
        self.next_key = self.next_key + 1;
        key
    }
}

/// A shareable read handle over one writer's prefix: downstream
/// consumers look records up by encoded primary key against the
/// committed state.
pub struct RecordReader {
    prefix: Vec<u8>,
}

impl RecordReader {
    pub closed spec fn spec_prefix(self) -> Seq<u8> {
        self.prefix@
    }

    pub fn new(prefix: Vec<u8>) -> (r: Self)
        ensures
            r.spec_prefix() == prefix@,
    {
        RecordReader { prefix }
    }

    /// Looks up the encoded record stored under an encoded key.
    pub fn get(&self, store: &RecordStore, key: &[u8]) -> (r: Option<Vec<u8>>)
        requires
            store.wf(),
        ensures
            match r {
                Option::Some(v) => store.view().contains_key(
                    spec_prefixed(self.spec_prefix(), key@),
                ) && v@ == store.view()[spec_prefixed(self.spec_prefix(), key@)],
                Option::None => !store.view().contains_key(spec_prefixed(self.spec_prefix(), key@)),
            },
    {
        let full = prefixed_key(&self.prefix, key);
        store.get_committed(full.as_slice())
    }
}

/// The net effect of one data operation on one store key: untouched,
/// deleted, or set to a value.
pub open spec fn spec_op_effect(
    prefix: Seq<u8>,
    pk: Seq<usize>,
    op: Operation,
    key: Seq<u8>,
) -> Option<Option<Seq<u8>>> {
    match op {
        Operation::Insert { new } => if key == spec_pk_key(prefix, pk, new) {
            Option::Some(Option::Some(spec_record_to_bytes(new)))
        } else {
            Option::None
        },
        Operation::Delete { old } => if key == spec_pk_key(prefix, pk, old) {
            Option::Some(Option::None)
        } else {
            Option::None
        },
        Operation::Update { old, new } => if key == spec_pk_key(prefix, pk, new) {
            Option::Some(Option::Some(spec_record_to_bytes(new)))
        } else if key == spec_pk_key(prefix, pk, old) {
            Option::Some(Option::None)
        } else {
            Option::None
        },
        _ => Option::None,
    }
}

/// The net effect of a sequence of operations on one key: the last
/// operation that touches the key wins.
pub open spec fn spec_ops_effect(
    prefix: Seq<u8>,
    pk: Seq<usize>,
    ops: Seq<Operation>,
    key: Seq<u8>,
) -> Option<Option<Seq<u8>>>
    decreases ops.len(),
{
    if ops.len() == 0 {
        Option::None
    } else {
        let rest = spec_ops_effect(prefix, pk, ops.skip(1), key);
        if rest is Some {
            rest
        } else {
            spec_op_effect(prefix, pk, ops[0], key)
        }
    }
}

/// Persistence consistency: after a sequence of data operations is
/// applied through a primary-key writer, a reader observes under
/// every key exactly what the operations imply — the record of the
/// last operation that set the key, nothing if the last touch deleted
/// it, and the prior contents if no operation touched it.
pub proof fn lemma_persistence_consistency(
    m: Map<Seq<u8>, Seq<u8>>,
    prefix: Seq<u8>,
    pk: Seq<usize>,
    ops: Seq<Operation>,
    key: Seq<u8>,
)
    ensures
        match spec_ops_effect(prefix, pk, ops, key) {
            Option::Some(Option::Some(v)) => spec_apply_ops(m, prefix, pk, ops).contains_key(key)
                && spec_apply_ops(m, prefix, pk, ops)[key] == v,
            Option::Some(Option::None) => !spec_apply_ops(m, prefix, pk, ops).contains_key(key),
            Option::None => (spec_apply_ops(m, prefix, pk, ops).contains_key(key)
                <==> m.contains_key(key)) && (m.contains_key(key) ==> spec_apply_ops(
                m,
                prefix,
                pk,
                ops,
            )[key] == m[key]),
        },
    decreases ops.len(),
{
    if ops.len() > 0 {
        let m1 = spec_apply_data_op(m, prefix, pk, ops[0]);
        lemma_persistence_consistency(m1, prefix, pk, ops.skip(1), key);
    }
}

} // verus!
