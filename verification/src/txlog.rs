//! The per-applet transaction log: an overlay over the durable key-value
//! engine.  Writes are buffered as an ordered op list; reads go through the
//! overlay first; a tombstone set keeps deleted keys from being resurrected by
//! durable reads.  The durable engine itself is outside this crate: read
//! results and prefix scans reach the log as plain arguments, and the op list
//! leaves it for the caller to commit or report.

use vstd::prelude::*;
use crate::kv::{KvStore, KeySet};
use crate::ops::{WasmDbOp, OpModel, op_wf, ops_model};
use crate::strutil::spec_starts_with;
use vstd::string::StringExecFns;
use vstd::string::StrSliceExecFns;

verus! {

/// What the op list, replayed in order, does to each key it touches:
/// `Some(v)` when the last op on the key is a put of `v`, `None` when it is a
/// delete.  Keys without ops are not in the map.
pub open spec fn log_effect(ops: Seq<OpModel>) -> Map<Seq<char>, Option<Seq<char>>>
    decreases ops.len(),
{
    if ops.len() == 0 {
        Map::empty()
    } else {
        log_effect(ops.drop_last()).insert(
            ops.last().key,
            if ops.last().put {
                Some(ops.last().val)
            } else {
                None
            },
        )
    }
}

/// One op applied to a key-value state.
pub open spec fn apply_op(
    m: Map<Seq<char>, Seq<char>>,
    op: OpModel,
) -> Map<Seq<char>, Seq<char>> {
    if op.put {
        m.insert(op.key, op.val)
    } else {
        m.remove(op.key)
    }
}

/// An op list applied to a key-value state, in declaration order.
pub open spec fn apply_ops(m: Map<Seq<char>, Seq<char>>, ops: Seq<OpModel>) -> Map<
    Seq<char>,
    Seq<char>,
>
    decreases ops.len(),
{
    if ops.len() == 0 {
        m
    } else {
        apply_op(apply_ops(m, ops.drop_last()), ops.last())
    }
}

/// Replaying an op list over any durable state reflects every buffered op in
/// declaration order: on each key the last op wins, and keys without ops keep
/// their durable value.
pub proof fn lemma_replay_reflects_log(m: Map<Seq<char>, Seq<char>>, ops: Seq<OpModel>, k: Seq<char>)
    ensures
        log_effect(ops).contains_key(k) ==> match log_effect(ops)[k] {
            Some(v) => apply_ops(m, ops).contains_key(k) && apply_ops(m, ops)[k] == v,
            None => !apply_ops(m, ops).contains_key(k),
        },
        !log_effect(ops).contains_key(k) ==> (apply_ops(m, ops).contains_key(k) <==> m.contains_key(
            k,
        )) && (m.contains_key(k) ==> apply_ops(m, ops)[k] == m[k]),
    decreases ops.len(),
{
    if ops.len() > 0 {
        lemma_replay_reflects_log(m, ops.drop_last(), k);
    }
}

/// Outcome of a read against the overlay alone.
pub enum BufferedRead {
    /// The overlay holds the value.
    Hit(String),
    /// The key was deleted this session; the read is empty, and the durable
    /// engine must not be consulted.
    Tombstoned,
    /// Not buffered: the caller should read through the durable engine.
    Miss,
}

/// What a full read returns given the overlay and the durable read outcome.
pub open spec fn buffered_get_spec(t: Trx, k: Seq<char>, d: Option<Seq<char>>) -> Seq<char> {
    if t.store@.contains_key(k) {
        t.store@[k]
    } else if t.newly_deleted@.contains(k) {
        Seq::empty()
    } else {
        match d {
            Some(v) => v,
            None => Seq::empty(),
        }
    }
}

/// The spec-level view of an optional durable read.
pub open spec fn durable_view(d: Option<String>) -> Option<Seq<char>> {
    match d {
        Some(s) => Some(s@),
        None => None,
    }
}

/// Overlay values whose key carries the prefix, in entry order.
pub open spec fn overlay_prefix_values(entries: Seq<(String, String)>, p: Seq<char>) -> Seq<
    Seq<char>,
> {
    entries.filter(|pr: (String, String)| spec_starts_with(pr.0@, p)).map_values(
        |pr: (String, String)| pr.1@,
    )
}

/// Durable pairs admitted by a prefix read: carrying the prefix, not shadowed
/// by the overlay, and not tombstoned this session.
pub open spec fn durable_prefix_pred(
    p: Seq<char>,
    shadowed: Map<Seq<char>, Seq<char>>,
    tomb: Set<Seq<char>>,
) -> spec_fn((String, String)) -> bool {
    |pr: (String, String)|
        spec_starts_with(pr.0@, p) && !shadowed.contains_key(pr.0@) && !tomb.contains(pr.0@)
}

pub open spec fn durable_prefix_values(
    scanned: Seq<(String, String)>,
    p: Seq<char>,
    shadowed: Map<Seq<char>, Seq<char>>,
    tomb: Set<Seq<char>>,
) -> Seq<Seq<char>> {
    scanned.filter(durable_prefix_pred(p, shadowed, tomb)).map_values(
        |pr: (String, String)| pr.1@,
    )
}

/// The per-applet transaction log.
pub struct Trx {
    /// Overlay of buffered state and memoized durable reads.
    pub store: KvStore,
    /// Keys whose last buffered op this session is a put.
    pub newly_created: KeySet,
    /// Keys whose last buffered op this session is a delete.
    pub newly_deleted: KeySet,
    /// Every buffered op, in declaration order.
    pub ops: Vec<WasmDbOp>,
}

impl Trx {
    pub open spec fn effect(&self) -> Map<Seq<char>, Option<Seq<char>>> {
        log_effect(ops_model(self.ops@))
    }

    /// The log's invariant: the op list, the overlay and the two session sets
    /// agree.  Memoized reads live in the overlay only for keys without ops.
    pub open spec fn wf(&self) -> bool {
        &&& self.store.wf()
        &&& self.newly_created.wf()
        &&& self.newly_deleted.wf()
        &&& forall|i: int| 0 <= i < self.ops@.len() ==> op_wf(#[trigger] self.ops@[i])
        &&& forall|k: Seq<char>|
            #![trigger self.newly_created@.contains(k)]
            #![trigger self.effect().contains_key(k)]
            self.newly_created@.contains(k) <==> (self.effect().contains_key(k) && self.effect()[k]
                is Some)
        &&& forall|k: Seq<char>|
            #![trigger self.newly_deleted@.contains(k)]
            #![trigger self.effect().contains_key(k)]
            self.newly_deleted@.contains(k) <==> (self.effect().contains_key(k) && self.effect()[k]
                is None)
        &&& forall|k: Seq<char>|
            #![trigger self.store@.contains_key(k)]
            #![trigger self.effect().contains_key(k)]
            self.effect().contains_key(k) ==> match self.effect()[k] {
                Some(v) => self.store@.contains_key(k) && self.store@[k] == v,
                None => !self.store@.contains_key(k),
            }
    }

    pub fn new() -> (r: Self)
        ensures
            r.wf(),
            r.store@ =~= Map::<Seq<char>, Seq<char>>::empty(),
            r.newly_created@ =~= Set::<Seq<char>>::empty(),
            r.newly_deleted@ =~= Set::<Seq<char>>::empty(),
            r.ops@ =~= Seq::<WasmDbOp>::empty(),
    {
        let r = Trx {
            store: KvStore::new(),
            newly_created: KeySet::new(),
            newly_deleted: KeySet::new(),
            ops: Vec::new(),
        };
        proof {
            assert(ops_model(r.ops@) =~= Seq::<OpModel>::empty());
        }
        r
    }

    /// Buffer a put: append the op, upsert the overlay, mark the key created,
    /// clear any tombstone.
    pub fn put(&mut self, key: String, val: String)
        requires
            old(self).wf(),
        ensures
            final(self).wf(),
            final(self).store@ =~= old(self).store@.insert(key@, val@),
            final(self).newly_created@ =~= old(self).newly_created@.insert(key@),
            final(self).newly_deleted@ =~= old(self).newly_deleted@.remove(key@),
            ops_model(final(self).ops@) =~= ops_model(old(self).ops@).push(
                OpModel { put: true, key: key@, val: val@ },
            ),
    {
        let ghost m0 = ops_model(self.ops@);
        let ghost kv = key@;
        let ghost vv = val@;
        let op = WasmDbOp {
            type_: String::from_str("put"),
            key: key.clone(),
            val: val.clone(),
        };
        let ghost opm = op@;
        self.ops.push(op);
        proof {
            lemma_ops_model_push(old(self).ops@, self.ops@, opm);
            assert(opm.put);
        }
        self.store.set(key.clone(), val);
        self.newly_created.insert(key.clone());
        self.newly_deleted.remove(&key);
        proof {
            assert(ops_model(self.ops@).drop_last() =~= m0);
            assert(self.effect() =~= old(self).effect().insert(kv, Some(vv)));
        }
    }

    /// Buffer a delete: append the op, drop the key from the overlay, clear
    /// the created mark, set the tombstone.
    pub fn del(&mut self, key: String)
        requires
            old(self).wf(),
        ensures
            final(self).wf(),
            final(self).store@ =~= old(self).store@.remove(key@),
            final(self).newly_created@ =~= old(self).newly_created@.remove(key@),
            final(self).newly_deleted@ =~= old(self).newly_deleted@.insert(key@),
            ops_model(final(self).ops@) =~= ops_model(old(self).ops@).push(
                OpModel { put: false, key: key@, val: Seq::empty() },
            ),
    {
        let ghost m0 = ops_model(self.ops@);
        let op = WasmDbOp { type_: String::from_str("del"), key: key.clone(), val: String::new() };
        let ghost opm = op@;
        self.ops.push(op);
        proof {
            reveal_strlit("put");
            reveal_strlit("del");
            lemma_ops_model_push(old(self).ops@, self.ops@, opm);
            assert("put"@ != "del"@) by {
                assert("put"@[0] == 'p');
                assert("del"@[0] == 'd');
            }
            assert(!opm.put);
        }
        self.store.remove(&key);
        self.newly_created.remove(&key);
        self.newly_deleted.insert(key);
        proof {
            assert(ops_model(self.ops@).drop_last() =~= m0);
            assert(self.effect() =~= old(self).effect().insert(opm.key, None));
        }
    }

    /// Read against the overlay alone, saying whether the durable engine must
    /// be consulted.
    pub fn lookup_buffered(&self, key: &String) -> (r: BufferedRead)
        requires
            self.wf(),
        ensures
            match r {
                BufferedRead::Hit(v) => self.store@.contains_key(key@) && v@ == self.store@[key@],
                BufferedRead::Tombstoned => !self.store@.contains_key(key@)
                    && self.newly_deleted@.contains(key@),
                BufferedRead::Miss => !self.store@.contains_key(key@)
                    && !self.newly_deleted@.contains(key@),
            },
    {
        match self.store.get(key) {
            Some(v) => BufferedRead::Hit(v.clone()),
            None => {
                if self.newly_deleted.contains(key) {
                    BufferedRead::Tombstoned
                } else {
                    BufferedRead::Miss
                }
            },
        }
    }

    /// Full read: overlay hit wins; a tombstoned key reads empty without the
    /// durable value; otherwise the supplied durable read is memoized into the
    /// overlay and returned (absent and failed durable reads read empty).
    pub fn get(&mut self, key: String, durable: Option<String>) -> (r: String)
        requires
            old(self).wf(),
        ensures
            final(self).wf(),
            r@ == buffered_get_spec(*old(self), key@, durable_view(durable)),
            old(self).store@.contains_key(key@) || old(self).newly_deleted@.contains(key@)
                ==> *final(self) == *old(self),
            !(old(self).store@.contains_key(key@) || old(self).newly_deleted@.contains(key@)) ==> {
                &&& final(self).store@ =~= old(self).store@.insert(key@, r@)
                &&& final(self).newly_created@ == old(self).newly_created@
                &&& final(self).newly_deleted@ == old(self).newly_deleted@
                &&& final(self).ops@ == old(self).ops@
            },
    {
        match self.lookup_buffered(&key) {
            BufferedRead::Hit(v) => v,
            BufferedRead::Tombstoned => String::new(),
            BufferedRead::Miss => {
                let value = match durable {
                    Some(v) => v,
                    None => String::new(),
                };
                self.store.set(key, value.clone());
                value
            },
        }
    }

    /// Prefix read: every overlay value whose key carries the prefix, in entry
    /// order, then every scanned durable pair that is neither shadowed by the
    /// overlay nor tombstoned this session.
    pub fn get_by_prefix(&self, prefix: &String, scanned: &Vec<(String, String)>) -> (r: Vec<
        String,
    >)
        requires
            self.wf(),
        ensures
            r@.map_values(|v: String| v@) =~= overlay_prefix_values(self.store.entries@, prefix@)
                + durable_prefix_values(scanned@, prefix@, self.store@, self.newly_deleted@),
    {
        broadcast use vstd::seq_lib::group_seq_properties;

        let mut out: Vec<String> = Vec::new();
        let ghost p = prefix@;
        let ghost pred1 = |pr: (String, String)| spec_starts_with(pr.0@, p);
        let mut i: usize = 0;
        while i < self.store.entries.len()
            invariant
                self.wf(),
                i <= self.store.entries@.len(),
                out@.map_values(|v: String| v@) =~= self.store.entries@.take(i as int).filter(
                    pred1,
                ).map_values(|pr: (String, String)| pr.1@),
                p == prefix@,
                pred1 == (|pr: (String, String)| spec_starts_with(pr.0@, p)),
            decreases self.store.entries@.len() - i,
        {
            let ghost outpre = out@;
            if crate::strutil::str_starts_with(self.store.entries[i].0.as_str(), prefix.as_str()) {
                out.push(self.store.entries[i].1.clone());
            }
            proof {
                assert(self.store.entries@.take(i + 1 as int) =~= self.store.entries@.take(
                    i as int,
                ).push(self.store.entries@[i as int]));
                lemma_filter_map_push(
                    self.store.entries@.take(i as int),
                    pred1,
                    self.store.entries@[i as int],
                    outpre.map_values(|v: String| v@),
                );
                assert(out@.map_values(|v: String| v@) =~= outpre.map_values(|v: String| v@)
                    + (if pred1(self.store.entries@[i as int]) {
                    seq![self.store.entries@[i as int].1@]
                } else {
                    Seq::empty()
                }));
            }
            i = i + 1;
        }
        proof {
            assert(self.store.entries@.take(self.store.entries@.len() as int)
                =~= self.store.entries@);
        }
        let ghost pred2 = durable_prefix_pred(p, self.store@, self.newly_deleted@);
        let ghost mid = out@;
        let mut j: usize = 0;
        while j < scanned.len()
            invariant
                self.wf(),
                j <= scanned@.len(),
                out@.map_values(|v: String| v@) =~= mid.map_values(|v: String| v@) + scanned@.take(
                    j as int,
                ).filter(pred2).map_values(|pr: (String, String)| pr.1@),
                p == prefix@,
                pred2 == durable_prefix_pred(p, self.store@, self.newly_deleted@),
            decreases scanned@.len() - j,
        {
            let ghost outpre = out@;
            if crate::strutil::str_starts_with(scanned[j].0.as_str(), prefix.as_str())
                && !self.store.contains(&scanned[j].0) && !self.newly_deleted.contains(
                &scanned[j].0,
            ) {
                out.push(scanned[j].1.clone());
                proof {
                    assert(pred2(scanned@[j as int]));
                }
            } else {
                proof {
                    assert(!pred2(scanned@[j as int]));
                }
            }
            proof {
                assert(scanned@.take(j + 1 as int) =~= scanned@.take(j as int).push(
                    scanned@[j as int],
                ));
                lemma_filter_map_push(
                    scanned@.take(j as int),
                    pred2,
                    scanned@[j as int],
                    scanned@.take(j as int).filter(pred2).map_values(|pr: (String, String)| pr.1@),
                );
                let extra: Seq<Seq<char>> = if pred2(scanned@[j as int]) {
                    seq![scanned@[j as int].1@]
                } else {
                    Seq::empty()
                };
                assert(out@.map_values(|v: String| v@) =~= outpre.map_values(|v: String| v@)
                    + extra);
                assert(out@.map_values(|v: String| v@) =~= mid.map_values(|v: String| v@)
                    + scanned@.take(j + 1 as int).filter(pred2).map_values(
                    |pr: (String, String)| pr.1@,
                ));
            }
            j = j + 1;
        }
        proof {
            assert(scanned@.take(scanned@.len() as int) =~= scanned@);
        }
        out
    }

    /// The onchain commit policy: no durable mutation at all.
    pub fn dummy_commit(&mut self)
        ensures
            *final(self) == *old(self),
    {
    }

    /// The NUL-terminated byte form of a string, in the shape the durable
    /// engine's lower layers take keys and values: the string's UTF-8 bytes
    /// followed by one 0 byte.
    pub fn get_bytes_of_str(&self, str_val: String) -> (r: Vec<u8>)
        ensures
            r@ == vstd::utf8::encode_utf8(str_val@).push(0),
            r@.len() == vstd::utf8::encode_utf8(str_val@).len() + 1,
            r@.last() == 0,
    {
        let mut bytes: Vec<u8> = str_val.as_str().as_bytes_vec();
        bytes.push(0);
        proof {
            assert(bytes@ =~= vstd::utf8::encode_utf8(str_val@).push(0));
        }
        bytes
    }

    /// A copy of the op list, for reporting or committing.  Every returned
    /// op is well formed: its type word is one of the two the wire shape
    /// accepts, so a replay of the report loses nothing.
    pub fn ops_snapshot(&self) -> (r: Vec<WasmDbOp>)
        requires
            self.wf(),
        ensures
            ops_model(r@) =~= ops_model(self.ops@),
            r@.len() == self.ops@.len(),
            forall|i: int| 0 <= i < r@.len() ==> op_wf(#[trigger] r@[i]),
    {
        let mut out: Vec<WasmDbOp> = Vec::new();
        let mut i: usize = 0;
        while i < self.ops.len()
            invariant
                self.wf(),
                i <= self.ops@.len(),
                out@.len() == i,
                forall|j: int| 0 <= j < i as int ==> out@[j]@ == self.ops@[j]@,
                forall|j: int| 0 <= j < i as int ==> op_wf(#[trigger] out@[j]),
            decreases self.ops@.len() - i,
        {
            out.push(self.ops[i].clone());
            proof {
                assert(op_wf(self.ops@[i as int]));
            }
            i = i + 1;
        }
        proof {
            assert(ops_model(out@) =~= ops_model(self.ops@));
        }
        out
    }
}

/// Pushing an op extends the model by that op's view.
proof fn lemma_ops_model_push(s0: Seq<WasmDbOp>, s1: Seq<WasmDbOp>, opm: OpModel)
    requires
        s1.len() == s0.len() + 1,
        forall|i: int| 0 <= i < s0.len() ==> s1[i] == s0[i],
        s1.last()@ == opm,
    ensures
        ops_model(s1) =~= ops_model(s0).push(opm),
{
}

/// Filtering and projecting distribute over a push.
proof fn lemma_filter_map_push(
    s: Seq<(String, String)>,
    pred: spec_fn((String, String)) -> bool,
    x: (String, String),
    acc: Seq<Seq<char>>,
)
    requires
        acc =~= s.filter(pred).map_values(|pr: (String, String)| pr.1@),
    ensures
        s.push(x).filter(pred).map_values(|pr: (String, String)| pr.1@) =~= acc + (if pred(x) {
            seq![x.1@]
        } else {
            Seq::empty()
        }),
{
    reveal(Seq::filter);
    assert(s.push(x).drop_last() =~= s);
    if pred(x) {
        assert(s.push(x).filter(pred) =~= s.filter(pred).push(x));
    } else {
        assert(s.push(x).filter(pred) =~= s.filter(pred));
    }
}

/// Replay an op list onto a key-value state, the executable form of
/// `apply_ops`.  This is the meaning of an effects-replay instruction.
pub fn replay_ops(target: &mut KvStore, ops: &Vec<WasmDbOp>)
    requires
        old(target).wf(),
        forall|i: int| 0 <= i < ops@.len() ==> op_wf(#[trigger] ops@[i]),
    ensures
        final(target).wf(),
        final(target)@ =~= apply_ops(old(target)@, ops_model(ops@)),
    {
    let mut i: usize = 0;
    while i < ops.len()
        invariant
            target.wf(),
            i <= ops@.len(),
            forall|j: int| 0 <= j < ops@.len() ==> op_wf(#[trigger] ops@[j]),
            target@ =~= apply_ops(old(target)@, ops_model(ops@).take(i as int)),
        decreases ops@.len() - i,
    {
        let ghost pre = target@;
        let op = &ops[i];
        let is_put = op.type_ == String::from_str("put");
        if is_put {
            target.set(op.key.clone(), op.val.clone());
        } else {
            target.remove(&op.key);
        }
        proof {
            reveal_strlit("put");
            reveal_strlit("del");
            let m = ops_model(ops@);
            assert(m.take(i + 1 as int).drop_last() =~= m.take(i as int));
            assert(m.take(i + 1 as int).last() == m[i as int]);
            assert(op_wf(ops@[i as int]));
            if !is_put {
                assert(!m[i as int].put);
            }
            assert(target@ =~= apply_op(pre, m[i as int]));
        }
        i = i + 1;
    }
    proof {
        assert(ops_model(ops@).take(ops@.len() as int) =~= ops_model(ops@));
    }
}

/// A durable prefix scan made only of pairs whose keys are tombstoned this
/// session contributes nothing to a prefix read: a deleted key is never
/// resurrected by the durable engine.
pub proof fn lemma_prefix_read_excludes_tombstoned(
    t: Trx,
    p: Seq<char>,
    scanned: Seq<(String, String)>,
)
    requires
        forall|i: int| 0 <= i < scanned.len() ==> t.newly_deleted@.contains(#[trigger] scanned[i].0@),
    ensures
        durable_prefix_values(scanned, p, t.store@, t.newly_deleted@) =~= Seq::<Seq<char>>::empty(),
    decreases scanned.len(),
{
    reveal(Seq::filter);
    if scanned.len() > 0 {
        lemma_prefix_read_excludes_tombstoned(t, p, scanned.drop_last());
        let pred = durable_prefix_pred(p, t.store@, t.newly_deleted@);
        assert(t.newly_deleted@.contains(scanned.last().0@));
        assert(!pred(scanned.last()));
        assert(scanned.filter(pred) =~= scanned.drop_last().filter(pred));
        assert(scanned.drop_last().filter(pred).map_values(|pr: (String, String)| pr.1@).len()
            == 0);
        assert(scanned.drop_last().filter(pred).len() == 0);
    }
}

/// Within one session a put is read back before any durable commit: a read of
/// the freshly put key returns the put value whatever the durable engine
/// holds.
pub proof fn lemma_put_then_get(t: Trx, k: Seq<char>, v: Seq<char>, d: Option<Seq<char>>)
    requires
        t.store@.contains_key(k),
        t.store@[k] == v,
    ensures
        buffered_get_spec(t, k, d) == v,
{
}

/// A key deleted this session reads empty whatever stale value the durable
/// engine still holds.
pub proof fn lemma_deleted_reads_empty(t: Trx, k: Seq<char>, d: Option<Seq<char>>)
    requires
        t.wf(),
        t.newly_deleted@.contains(k),
    ensures
        buffered_get_spec(t, k, d) =~= Seq::<char>::empty(),
{
}

} // verus!
