//! The instrumentation core: a registry of module series that turns per-call
//! record operations into periodic snapshots with backlog and rate
//! information.
//!
//! The registry is a sequential state machine.  Module handles name a slot
//! in an arena that outlives its registration: unregistering a module only
//! unbinds its name, so outstanding handles keep mutating an orphaned
//! series, and re-registering the same name starts a fresh, independent
//! series.  Per-topic global write counters are never removed, so consumer
//! backlogs stay comparable against historical producer output.

use vstd::prelude::*;
use vstd::pervasive::VecAdditionalExecFns;
use crate::duration::Microseconds;
use crate::metrics::{sat_add, ModuleMetrics, ReadMetrics, WriteMetrics};
use crate::namemap::NameMap;
use crate::snapshot::Snapshot;
use crate::version::SchemaVersion;
use crate::SCHEMA_VERSION;

verus! {

/// The live state of one (module, topic) series.
#[derive(Debug, Clone, Copy, PartialEq)]
pub struct SeriesState {
    /// Messages observed so far; monotonic for the life of the series.
    pub count: u64,
    /// When the current blocked operation began, if one is in progress.
    pub pending_since: Option<u64>,
    /// The (count, instant) memo of the previous collection, for rates.
    pub prev: Option<(u64, u64)>,
}

/// A fresh series that has just observed `count` messages.
pub open spec fn fresh_series(count: u64) -> SeriesState {
    SeriesState { count, pending_since: None, prev: None }
}

/// A series after recording `n` more messages.
pub open spec fn bumped(st: SeriesState, n: u64) -> SeriesState {
    SeriesState { count: sat_add(st.count, n), ..st }
}

/// How one record call changes a topic map: the topic's count grows by `n`
/// (creating the series at its sorted position if needed) and nothing else
/// moves.
pub open spec fn recorded(b: NameMap<SeriesState>, a: NameMap<SeriesState>, t: Seq<char>, n: u64) -> bool {
    if b.has_key(t) {
        &&& a.key_seq() == b.key_seq()
        &&& a.val_seq() == b.val_seq().update(b.idx_of(t), bumped(b.val_seq()[b.idx_of(t)], n))
    } else {
        &&& a.key_seq() == b.key_seq().insert(a.idx_of(t), t)
        &&& a.val_seq() == b.val_seq().insert(a.idx_of(t), fresh_series(n))
    }
}

/// How one record call changes the global write counters.
pub open spec fn counter_recorded(b: NameMap<u64>, a: NameMap<u64>, t: Seq<char>, n: u64) -> bool {
    if b.has_key(t) {
        &&& a.key_seq() == b.key_seq()
        &&& a.val_seq() == b.val_seq().update(b.idx_of(t), sat_add(b.val_seq()[b.idx_of(t)], n))
    } else {
        &&& a.key_seq() == b.key_seq().insert(a.idx_of(t), t)
        &&& a.val_seq() == b.val_seq().insert(a.idx_of(t), n)
    }
}

/// How a pending override changes a topic map: the topic's pending cell is
/// set (creating an otherwise-empty series if needed) and nothing else
/// moves.
pub open spec fn pending_set(
    b: NameMap<SeriesState>,
    a: NameMap<SeriesState>,
    t: Seq<char>,
    since: Option<u64>,
) -> bool {
    if b.has_key(t) {
        &&& a.key_seq() == b.key_seq()
        &&& a.val_seq() == b.val_seq().update(
            b.idx_of(t),
            SeriesState { pending_since: since, ..b.val_seq()[b.idx_of(t)] },
        )
    } else {
        &&& a.key_seq() == b.key_seq().insert(a.idx_of(t), t)
        &&& a.val_seq() == b.val_seq().insert(
            a.idx_of(t),
            SeriesState { count: 0, pending_since: since, prev: None },
        )
    }
}

/// The pending cell of a topic's series; absent series are not pending.
pub open spec fn pending_of(m: NameMap<SeriesState>, t: Seq<char>) -> Option<u64> {
    if m.has_key(t) {
        m.spec_get(t).pending_since
    } else {
        None
    }
}

/// The read and write series of one module slot.
#[derive(Debug, Clone, PartialEq)]
pub struct ModuleSeries {
    /// Per-topic read series.
    pub reads: NameMap<SeriesState>,
    /// Per-topic write series.
    pub writes: NameMap<SeriesState>,
}

impl ModuleSeries {
    /// Both topic maps are well-formed.
    pub open spec fn wf(self) -> bool {
        self.reads.wf() && self.writes.wf()
    }

    /// A module series with no topics yet.
    pub fn new() -> (m: ModuleSeries)
        ensures
            m.wf(),
            m.reads.spec_len() == 0,
            m.writes.spec_len() == 0,
    {
        ModuleSeries { reads: NameMap::new(), writes: NameMap::new() }
    }
}

/// A handle for recording metrics for a specific module.  Handles stay
/// usable after the module is unregistered; they keep feeding the orphaned
/// series.
#[derive(Debug, Clone, PartialEq)]
pub struct ModuleHandle {
    /// The slot this handle records into.
    pub id: usize,
    /// The module name the handle was registered under.
    pub name: String,
}

impl ModuleHandle {
    /// The module name.
    pub fn name(&self) -> (r: &str)
        ensures
            r@ == self.name@,
    {
        self.name.as_str()
    }
}

/// A token for a pending (blocked) operation; releasing it clears the
/// series' pending cell.  The token carries no destructor: the embedding
/// must call `Registry::release` on every exit path, normal or abnormal,
/// for the cell to clear; releasing twice is harmless.
#[derive(Debug, Clone, PartialEq)]
pub struct PendingGuard {
    /// The slot whose series is pending.
    pub id: usize,
    /// Whether the pending operation is a read (else a write).
    pub is_read: bool,
    /// The topic of the pending operation.
    pub topic: String,
}

/// Update a topic map for one record call.
fn bump_series(m: &mut NameMap<SeriesState>, t: &str, n: u64)
    requires
        old(m).wf(),
    ensures
        final(m).wf(),
        recorded(*old(m), *final(m), t@, n),
{
    match m.index_of(t) {
        Some(i) => {
            proof {
                old(m).lemma_idx_of(t@);
            }
            let st = *m.val_at(i);
            let nc = if st.count > u64::MAX - n { u64::MAX } else { st.count + n };
            let _ = m.replace_at(i, SeriesState { count: nc, pending_since: st.pending_since, prev: st.prev });
            proof {
                assert(m.val_seq() =~= old(m).val_seq().update(
                    old(m).idx_of(t@),
                    bumped(old(m).val_seq()[old(m).idx_of(t@)], n),
                ));
            }
        },
        None => {
            let _ = m.insert(t, SeriesState { count: n, pending_since: None, prev: None });
        },
    }
}

/// Update a topic map for one pending override.
fn set_pending_series(m: &mut NameMap<SeriesState>, t: &str, since: Option<u64>)
    requires
        old(m).wf(),
    ensures
        final(m).wf(),
        pending_set(*old(m), *final(m), t@, since),
        pending_of(*final(m), t@) == since,
{
    match m.index_of(t) {
        Some(i) => {
            proof {
                old(m).lemma_idx_of(t@);
            }
            let st = *m.val_at(i);
            let _ = m.replace_at(i, SeriesState { count: st.count, pending_since: since, prev: st.prev });
            proof {
                assert(m.val_seq() =~= old(m).val_seq().update(
                    old(m).idx_of(t@),
                    SeriesState { pending_since: since, ..old(m).val_seq()[old(m).idx_of(t@)] },
                ));
                m.lemma_idx_of(t@);
            }
        },
        None => {
            let _ = m.insert(t, SeriesState { count: 0, pending_since: since, prev: None });
            proof {
                m.lemma_idx_of(t@);
            }
        },
    }
}

/// Update the global write counters for one record call.
fn bump_counter(m: &mut NameMap<u64>, t: &str, n: u64)
    requires
        old(m).wf(),
    ensures
        final(m).wf(),
        counter_recorded(*old(m), *final(m), t@, n),
{
    match m.index_of(t) {
        Some(i) => {
            proof {
                old(m).lemma_idx_of(t@);
            }
            let c = *m.val_at(i);
            let nc = if c > u64::MAX - n { u64::MAX } else { c + n };
            let _ = m.replace_at(i, nc);
            proof {
                assert(m.val_seq() =~= old(m).val_seq().update(
                    old(m).idx_of(t@),
                    sat_add(old(m).val_seq()[old(m).idx_of(t@)], n),
                ));
            }
        },
        None => {
            let _ = m.insert(t, n);
        },
    }
}

/// The process-wide registry: bound module names, the slot arena they point
/// into, and the per-topic global write counters.
#[derive(Debug)]
pub struct Registry {
    /// The slot arena; slots are never removed, only unbound.
    pub slots: Vec<ModuleSeries>,
    /// Live module names, each bound to a slot.
    pub bindings: NameMap<usize>,
    /// Per-topic global write counters, for backlog computation.
    pub topic_writes: NameMap<u64>,
}

impl Registry {
    /// Bindings point at distinct well-formed slots; the maps are sorted.
    pub open spec fn wf(self) -> bool {
        &&& self.bindings.wf()
        &&& self.topic_writes.wf()
        &&& forall|i: int|
            0 <= i < self.bindings.spec_len() ==> (#[trigger] self.bindings.val_seq()[i])
                < self.slots@.len()
        &&& forall|i: int, j: int|
            0 <= i < j < self.bindings.spec_len() ==> self.bindings.val_seq()[i]
                != self.bindings.val_seq()[j]
        &&& forall|i: int| 0 <= i < self.slots@.len() ==> (#[trigger] self.slots@[i]).wf()
    }

    /// An empty registry.
    pub fn new() -> (r: Registry)
        ensures
            r.wf(),
            r.bindings.spec_len() == 0,
            r.topic_writes.spec_len() == 0,
            r.slots@.len() == 0,
    {
        Registry { slots: Vec::new(), bindings: NameMap::new(), topic_writes: NameMap::new() }
    }

    /// Take a slot out of the arena, leaving an empty one in its place.
    fn take_slot(&mut self, i: usize) -> (s: ModuleSeries)
        requires
            i < old(self).slots@.len(),
        ensures
            s == old(self).slots@[i as int],
            final(self).slots@ == old(self).slots@.update(i as int, ModuleSeries {
                reads: final(self).slots@[i as int].reads,
                writes: final(self).slots@[i as int].writes,
            }),
            final(self).slots@[i as int].reads.spec_len() == 0,
            final(self).slots@[i as int].writes.spec_len() == 0,
            final(self).slots@[i as int].wf(),
            final(self).slots@.len() == old(self).slots@.len(),
            forall|j: int|
                0 <= j < old(self).slots@.len() && j != i ==> final(self).slots@[j] == old(
                    self,
                ).slots@[j],
            final(self).bindings == old(self).bindings,
            final(self).topic_writes == old(self).topic_writes,
    {
        let mut x = ModuleSeries::new();
        self.slots.set_and_swap(i, &mut x);
        proof {
            assert(self.slots@ =~= old(self).slots@.update(i as int, self.slots@[i as int]));
        }
        x
    }

    /// Put a slot back into the arena.
    fn put_slot(&mut self, i: usize, s: ModuleSeries)
        requires
            i < old(self).slots@.len(),
        ensures
            final(self).slots@ == old(self).slots@.update(i as int, s),
            final(self).slots@.len() == old(self).slots@.len(),
            forall|j: int|
                0 <= j < old(self).slots@.len() && j != i ==> final(self).slots@[j] == old(
                    self,
                ).slots@[j],
            final(self).bindings == old(self).bindings,
            final(self).topic_writes == old(self).topic_writes,
    {
        let mut x = s;
        self.slots.set_and_swap(i, &mut x);
        proof {
            assert(self.slots@ =~= old(self).slots@.update(i as int, self.slots@[i as int]));
        }
    }

    /// Register a module by name: idempotent, so registering a name that is
    /// already bound returns a handle to the existing live series, and the
    /// registry does not change.
    pub fn register(&mut self, name: &str) -> (h: ModuleHandle)
        requires
            old(self).wf(),
        ensures
            final(self).wf(),
            h.name@ == name@,
            h.id < final(self).slots@.len(),
            final(self).topic_writes == old(self).topic_writes,
            final(self).bindings.has_key(name@),
            final(self).bindings.spec_get(name@) == h.id,
            old(self).bindings.has_key(name@) ==> *final(self) == *old(self) && h.id == old(
                self,
            ).bindings.spec_get(name@),
            !old(self).bindings.has_key(name@) ==> {
                &&& h.id == old(self).slots@.len()
                &&& final(self).slots@ == old(self).slots@.push(final(self).slots@.last())
                &&& final(self).slots@.last().reads.spec_len() == 0
                &&& final(self).slots@.last().writes.spec_len() == 0
                &&& final(self).bindings.key_seq() == old(self).bindings.key_seq().insert(
                    final(self).bindings.idx_of(name@),
                    name@,
                )
                &&& final(self).bindings.val_seq() == old(self).bindings.val_seq().insert(
                    final(self).bindings.idx_of(name@),
                    old(self).slots@.len() as usize,
                )
            },
    {
        match self.bindings.index_of(name) {
            Some(i) => {
                proof {
                    old(self).bindings.lemma_idx_of(name@);
                }
                let id = *self.bindings.val_at(i);
                ModuleHandle { id, name: name.to_owned() }
            },
            None => {
                let id = self.slots.len();
                self.slots.push(ModuleSeries::new());
                let idx = self.bindings.insert(name, id);
                proof {
                    self.bindings.lemma_idx_of(name@);
                    old(self).bindings.val_seq().insert_ensures(idx as int, id);
                    old(self).bindings.key_seq().insert_ensures(idx as int, name@);
                    assert(self.slots@ =~= old(self).slots@.push(self.slots@.last()));
                    assert forall|i: int|
                        0 <= i < self.bindings.spec_len() implies (
                    #[trigger] self.bindings.val_seq()[i]) < self.slots@.len() by {
                        if i < idx {
                            assert(self.bindings.val_seq()[i] == old(self).bindings.val_seq()[i]);
                        } else if i > idx {
                            assert(self.bindings.val_seq()[i]
                                == old(self).bindings.val_seq()[i - 1]);
                        }
                    }
                    assert forall|i: int, j: int|
                        0 <= i < j < self.bindings.spec_len() implies self.bindings.val_seq()[i]
                        != self.bindings.val_seq()[j] by {
                        let bv = old(self).bindings.val_seq();
                        if i < idx { assert(self.bindings.val_seq()[i] == bv[i]); }
                        if i > idx { assert(self.bindings.val_seq()[i] == bv[i - 1]); }
                        if j < idx { assert(self.bindings.val_seq()[j] == bv[j]); }
                        if j > idx { assert(self.bindings.val_seq()[j] == bv[j - 1]); }
                    }
                }
                ModuleHandle { id, name: name.to_owned() }
            },
        }
    }

    /// Unregister a module: the name disappears from future snapshots, but
    /// the slot stays alive for outstanding handles, and global write
    /// counters are untouched.  True exactly when the name was bound.
    pub fn unregister(&mut self, name: &str) -> (r: bool)
        requires
            old(self).wf(),
        ensures
            final(self).wf(),
            r == old(self).bindings.has_key(name@),
            final(self).slots@ == old(self).slots@,
            final(self).topic_writes == old(self).topic_writes,
            !final(self).bindings.has_key(name@),
            r ==> {
                &&& final(self).bindings.key_seq() == old(self).bindings.key_seq().remove(
                    old(self).bindings.idx_of(name@),
                )
                &&& final(self).bindings.val_seq() == old(self).bindings.val_seq().remove(
                    old(self).bindings.idx_of(name@),
                )
            },
            !r ==> final(self).bindings == old(self).bindings,
    {
        proof {
            old(self).bindings.lemma_idx_of(name@);
        }
        let r = self.bindings.remove(name);
        proof {
            if r {
                let ix = old(self).bindings.idx_of(name@);
                old(self).bindings.key_seq().remove_ensures(ix);
                old(self).bindings.val_seq().remove_ensures(ix);
                assert forall|i: int, j: int|
                    0 <= i < j < self.bindings.spec_len() implies self.bindings.val_seq()[i]
                    != self.bindings.val_seq()[j] by {
                    let bv = old(self).bindings.val_seq();
                    if i < ix { assert(self.bindings.val_seq()[i] == bv[i]); }
                    if i >= ix { assert(self.bindings.val_seq()[i] == bv[i + 1]); }
                    if j < ix { assert(self.bindings.val_seq()[j] == bv[j]); }
                    if j >= ix { assert(self.bindings.val_seq()[j] == bv[j + 1]); }
                }
                assert forall|i: int|
                    0 <= i < self.bindings.spec_len() implies (
                #[trigger] self.bindings.val_seq()[i]) < self.slots@.len() by {
                    let bv = old(self).bindings.val_seq();
                    if i < ix { assert(self.bindings.val_seq()[i] == bv[i]); }
                    if i >= ix { assert(self.bindings.val_seq()[i] == bv[i + 1]); }
                }
                self.bindings.lemma_idx_of(name@);
                if self.bindings.has_key(name@) {
                    let ni = self.bindings.idx_of(name@);
                    assert(self.bindings.key_seq()[ni] == name@);
                    if ni < ix {
                        assert(old(self).bindings.key_seq()[ni] == name@);
                        assert(false);
                    } else {
                        assert(old(self).bindings.key_seq()[ni + 1] == name@);
                        crate::strutil::lemma_lex_trichotomy(
                            old(self).bindings.key_seq()[ix],
                            old(self).bindings.key_seq()[ni + 1],
                        );
                        assert(false);
                    }
                }
            }
        }
        r
    }

    /// Record that messages were read from a topic through a handle.
    pub fn record_read(&mut self, h: &ModuleHandle, topic: &str, count: u64)
        requires
            old(self).wf(),
            h.id < old(self).slots@.len(),
        ensures
            final(self).wf(),
            final(self).bindings == old(self).bindings,
            final(self).topic_writes == old(self).topic_writes,
            final(self).slots@.len() == old(self).slots@.len(),
            forall|j: int|
                0 <= j < old(self).slots@.len() && j != h.id ==> final(self).slots@[j] == old(
                    self,
                ).slots@[j],
            final(self).slots@[h.id as int].writes == old(self).slots@[h.id as int].writes,
            recorded(
                old(self).slots@[h.id as int].reads,
                final(self).slots@[h.id as int].reads,
                topic@,
                count,
            ),
    {
        let mut slot = self.take_slot(h.id);
        bump_series(&mut slot.reads, topic, count);
        self.put_slot(h.id, slot);
        proof {
            assert(self.slots@[h.id as int].wf());
        }
    }

    /// Record that messages were written to a topic through a handle; this
    /// also feeds the topic's global write counter.
    pub fn record_write(&mut self, h: &ModuleHandle, topic: &str, count: u64)
        requires
            old(self).wf(),
            h.id < old(self).slots@.len(),
        ensures
            final(self).wf(),
            final(self).bindings == old(self).bindings,
            final(self).slots@.len() == old(self).slots@.len(),
            forall|j: int|
                0 <= j < old(self).slots@.len() && j != h.id ==> final(self).slots@[j] == old(
                    self,
                ).slots@[j],
            final(self).slots@[h.id as int].reads == old(self).slots@[h.id as int].reads,
            recorded(
                old(self).slots@[h.id as int].writes,
                final(self).slots@[h.id as int].writes,
                topic@,
                count,
            ),
            counter_recorded(old(self).topic_writes, final(self).topic_writes, topic@, count),
    {
        let mut slot = self.take_slot(h.id);
        bump_series(&mut slot.writes, topic, count);
        self.put_slot(h.id, slot);
        bump_counter(&mut self.topic_writes, topic, count);
        proof {
            assert(self.slots@[h.id as int].wf());
        }
    }

    /// Set the pending cell of a read series directly.
    pub fn set_read_pending(&mut self, h: &ModuleHandle, topic: &str, since: Option<u64>)
        requires
            old(self).wf(),
            h.id < old(self).slots@.len(),
        ensures
            final(self).wf(),
            final(self).bindings == old(self).bindings,
            final(self).topic_writes == old(self).topic_writes,
            final(self).slots@.len() == old(self).slots@.len(),
            forall|j: int|
                0 <= j < old(self).slots@.len() && j != h.id ==> final(self).slots@[j] == old(
                    self,
                ).slots@[j],
            final(self).slots@[h.id as int].writes == old(self).slots@[h.id as int].writes,
            pending_set(
                old(self).slots@[h.id as int].reads,
                final(self).slots@[h.id as int].reads,
                topic@,
                since,
            ),
            pending_of(final(self).slots@[h.id as int].reads, topic@) == since,
    {
        let mut slot = self.take_slot(h.id);
        set_pending_series(&mut slot.reads, topic, since);
        self.put_slot(h.id, slot);
        proof {
            assert(self.slots@[h.id as int].wf());
        }
    }

    /// Set the pending cell of a write series directly.
    pub fn set_write_pending(&mut self, h: &ModuleHandle, topic: &str, since: Option<u64>)
        requires
            old(self).wf(),
            h.id < old(self).slots@.len(),
        ensures
            final(self).wf(),
            final(self).bindings == old(self).bindings,
            final(self).topic_writes == old(self).topic_writes,
            final(self).slots@.len() == old(self).slots@.len(),
            forall|j: int|
                0 <= j < old(self).slots@.len() && j != h.id ==> final(self).slots@[j] == old(
                    self,
                ).slots@[j],
            final(self).slots@[h.id as int].reads == old(self).slots@[h.id as int].reads,
            pending_set(
                old(self).slots@[h.id as int].writes,
                final(self).slots@[h.id as int].writes,
                topic@,
                since,
            ),
            pending_of(final(self).slots@[h.id as int].writes, topic@) == since,
    {
        let mut slot = self.take_slot(h.id);
        set_pending_series(&mut slot.writes, topic, since);
        self.put_slot(h.id, slot);
        proof {
            assert(self.slots@[h.id as int].wf());
        }
    }

    /// Start tracking a pending read: arm the series' pending cell with the
    /// given instant and hand back the token that releases it.
    pub fn start_read(&mut self, h: &ModuleHandle, topic: &str, now_micros: u64) -> (g:
        PendingGuard)
        requires
            old(self).wf(),
            h.id < old(self).slots@.len(),
        ensures
            final(self).wf(),
            g.id == h.id,
            g.is_read,
            g.topic@ == topic@,
            final(self).bindings == old(self).bindings,
            final(self).topic_writes == old(self).topic_writes,
            final(self).slots@.len() == old(self).slots@.len(),
            forall|j: int|
                0 <= j < old(self).slots@.len() && j != h.id ==> final(self).slots@[j] == old(
                    self,
                ).slots@[j],
            final(self).slots@[h.id as int].writes == old(self).slots@[h.id as int].writes,
            pending_of(final(self).slots@[h.id as int].reads, topic@) == Some(now_micros),
    {
        self.set_read_pending(h, topic, Some(now_micros));
        PendingGuard { id: h.id, is_read: true, topic: topic.to_owned() }
    }

    /// Start tracking a pending write, as `start_read` does for reads.
    pub fn start_write(&mut self, h: &ModuleHandle, topic: &str, now_micros: u64) -> (g:
        PendingGuard)
        requires
            old(self).wf(),
            h.id < old(self).slots@.len(),
        ensures
            final(self).wf(),
            g.id == h.id,
            !g.is_read,
            g.topic@ == topic@,
            final(self).bindings == old(self).bindings,
            final(self).topic_writes == old(self).topic_writes,
            final(self).slots@.len() == old(self).slots@.len(),
            forall|j: int|
                0 <= j < old(self).slots@.len() && j != h.id ==> final(self).slots@[j] == old(
                    self,
                ).slots@[j],
            final(self).slots@[h.id as int].reads == old(self).slots@[h.id as int].reads,
            pending_of(final(self).slots@[h.id as int].writes, topic@) == Some(now_micros),
    {
        self.set_write_pending(h, topic, Some(now_micros));
        PendingGuard { id: h.id, is_read: false, topic: topic.to_owned() }
    }

    /// Release a pending token: the series' pending cell is clear
    /// afterwards, whatever path led here.  Releasing twice is harmless.
    pub fn release(&mut self, g: PendingGuard)
        requires
            old(self).wf(),
            g.id < old(self).slots@.len(),
        ensures
            final(self).wf(),
            final(self).bindings == old(self).bindings,
            final(self).topic_writes == old(self).topic_writes,
            final(self).slots@.len() == old(self).slots@.len(),
            forall|j: int|
                0 <= j < old(self).slots@.len() && j != g.id ==> final(self).slots@[j] == old(
                    self,
                ).slots@[j],
            g.is_read ==> pending_of(final(self).slots@[g.id as int].reads, g.topic@) is None,
            !g.is_read ==> pending_of(final(self).slots@[g.id as int].writes, g.topic@) is None,
    {
        let mut slot = self.take_slot(g.id);
        if g.is_read {
            clear_pending_series(&mut slot.reads, g.topic.as_str());
        } else {
            clear_pending_series(&mut slot.writes, g.topic.as_str());
        }
        self.put_slot(g.id, slot);
        proof {
            assert(self.slots@[g.id as int].wf());
        }
    }
}

/// Clear the pending cell of a topic's series, if the series exists; an
/// absent series is already not pending.
fn clear_pending_series(m: &mut NameMap<SeriesState>, t: &str)
    requires
        old(m).wf(),
    ensures
        final(m).wf(),
        pending_of(*final(m), t@) is None,
        final(m).key_seq() == old(m).key_seq(),
        old(m).has_key(t@) ==> final(m).val_seq() == old(m).val_seq().update(
            old(m).idx_of(t@),
            SeriesState { pending_since: None, ..old(m).val_seq()[old(m).idx_of(t@)] },
        ),
        !old(m).has_key(t@) ==> *final(m) == *old(m),
{
    match m.index_of(t) {
        Some(i) => {
            proof {
                old(m).lemma_idx_of(t@);
            }
            let st = *m.val_at(i);
            let _ = m.replace_at(i, SeriesState { count: st.count, pending_since: None, prev: st.prev });
            proof {
                assert(m.val_seq() =~= old(m).val_seq().update(
                    old(m).idx_of(t@),
                    SeriesState { pending_since: None, ..old(m).val_seq()[old(m).idx_of(t@)] },
                ));
                m.lemma_idx_of(t@);
            }
        },
        None => {},
    }
}

/// The rate, in hundredths of a message per second, between a previous
/// (count, instant) memo and the current count: the difference over the
/// elapsed time, suppressed when less than ten milliseconds elapsed, absent
/// on a first observation, and saturated at the u64 range.
pub open spec fn rate_of(prev: Option<(u64, u64)>, count: u64, now: u64) -> Option<u64> {
    match prev {
        Option::None => Option::None,
        Option::Some((pc, pt)) => {
            let el = if now >= pt { now - pt } else { 0 };
            if el < 10_000 {
                Option::None
            } else {
                let delta = if count >= pc { count - pc } else { 0 };
                let centi = delta * 100_000_000 / el;
                Option::Some(if centi > u64::MAX { u64::MAX } else { centi as u64 })
            }
        },
    }
}

/// The backlog of a read series: defined only when the topic has a global
/// write counter exceeding the read count, and then their difference.
pub open spec fn backlog_of(tw: NameMap<u64>, t: Seq<char>, count: u64) -> Option<u64> {
    if tw.has_key(t) && tw.spec_get(t) > count {
        Option::Some((tw.spec_get(t) - count) as u64)
    } else {
        Option::None
    }
}

/// How long an armed pending cell has been pending at `now`.
pub open spec fn pending_metric(pending_since: Option<u64>, now: u64) -> Option<Microseconds> {
    match pending_since {
        Option::None => Option::None,
        Option::Some(since) => Option::Some(
            Microseconds(if now >= since { (now - since) as u64 } else { 0 }),
        ),
    }
}

/// The read metrics a collection reports for one series.
pub open spec fn read_metric_of(
    st: SeriesState,
    t: Seq<char>,
    tw: NameMap<u64>,
    now: u64,
) -> ReadMetrics {
    ReadMetrics {
        count: st.count,
        backlog: backlog_of(tw, t, st.count),
        pending: pending_metric(st.pending_since, now),
        rate: rate_of(st.prev, st.count, now),
    }
}

/// The write metrics a collection reports for one series.
pub open spec fn write_metric_of(st: SeriesState, now: u64) -> WriteMetrics {
    WriteMetrics {
        count: st.count,
        pending: pending_metric(st.pending_since, now),
        rate: rate_of(st.prev, st.count, now),
    }
}

/// A series after a collection memoized it for the next rate computation.
pub open spec fn memo_of(st: SeriesState, now: u64) -> SeriesState {
    SeriesState { prev: Some((st.count, now)), ..st }
}

/// What collecting one module does: the output maps mirror the series maps
/// topic for topic with the reported metrics, and the stored series keep
/// their counts but take a fresh rate memo.
pub open spec fn collected_module(
    before: ModuleSeries,
    out: ModuleMetrics,
    after: ModuleSeries,
    tw: NameMap<u64>,
    now: u64,
) -> bool {
    &&& out.reads.key_seq() == before.reads.key_seq()
    &&& forall|j: int|
        0 <= j < before.reads.spec_len() ==> out.reads.val_seq()[j] == read_metric_of(
            #[trigger] before.reads.val_seq()[j],
            before.reads.key_seq()[j],
            tw,
            now,
        )
    &&& out.writes.key_seq() == before.writes.key_seq()
    &&& forall|j: int|
        0 <= j < before.writes.spec_len() ==> out.writes.val_seq()[j] == write_metric_of(
            #[trigger] before.writes.val_seq()[j],
            now,
        )
    &&& after.reads.key_seq() == before.reads.key_seq()
    &&& forall|j: int|
        0 <= j < before.reads.spec_len() ==> after.reads.val_seq()[j] == memo_of(
            #[trigger] before.reads.val_seq()[j],
            now,
        )
    &&& after.writes.key_seq() == before.writes.key_seq()
    &&& forall|j: int|
        0 <= j < before.writes.spec_len() ==> after.writes.val_seq()[j] == memo_of(
            #[trigger] before.writes.val_seq()[j],
            now,
        )
}

/// Whether some binding points at slot `j`.
pub open spec fn slot_bound(b: NameMap<usize>, j: int) -> bool {
    exists|i: int| 0 <= i < b.spec_len() && b.val_seq()[i] == j
}

/// Collect one topic map of read series: report metrics and memoize.
fn collect_reads(
    m: &NameMap<SeriesState>,
    tw: &NameMap<u64>,
    now: u64,
) -> (r: (NameMap<ReadMetrics>, NameMap<SeriesState>))
    requires
        m.wf(),
        tw.wf(),
    ensures
        r.0.wf(),
        r.1.wf(),
        r.0.key_seq() == m.key_seq(),
        r.1.key_seq() == m.key_seq(),
        forall|j: int|
            0 <= j < m.spec_len() ==> r.0.val_seq()[j] == read_metric_of(
                #[trigger] m.val_seq()[j],
                m.key_seq()[j],
                *tw,
                now,
            ),
        forall|j: int|
            0 <= j < m.spec_len() ==> r.1.val_seq()[j] == memo_of(#[trigger] m.val_seq()[j], now),
{
    let n = m.len();
    let mut out: NameMap<ReadMetrics> = NameMap::new();
    let mut upd: NameMap<SeriesState> = NameMap::new();
    let mut i: usize = 0;
    while i < n
        invariant
            i <= n,
            n == m.spec_len(),
            m.wf(),
            tw.wf(),
            out.wf(),
            upd.wf(),
            out.key_seq() == m.key_seq().take(i as int),
            upd.key_seq() == m.key_seq().take(i as int),
            out.val_seq().len() == i,
            upd.val_seq().len() == i,
            forall|j: int|
                0 <= j < i ==> out.val_seq()[j] == read_metric_of(
                    #[trigger] m.val_seq()[j],
                    m.key_seq()[j],
                    *tw,
                    now,
                ),
            forall|j: int|
                0 <= j < i ==> upd.val_seq()[j] == memo_of(#[trigger] m.val_seq()[j], now),
        decreases n - i,
    {
        let topic = m.key_at(i);
        let st = *m.val_at(i);
        let backlog: Option<u64> = match tw.get(topic.as_str()) {
            Some(total) => {
                if *total > st.count {
                    Some(*total - st.count)
                } else {
                    None
                }
            },
            None => None,
        };
        let pending: Option<Microseconds> = match st.pending_since {
            Some(since) => Some(
                Microseconds(if now >= since { now - since } else { 0 }),
            ),
            None => None,
        };
        let rate: Option<u64> = compute_rate(st.prev, st.count, now);
        let metric = ReadMetrics { count: st.count, backlog, pending, rate };
        proof {
            assert(metric == read_metric_of(m.val_seq()[i as int], m.key_seq()[i as int], *tw, now));
        }
        let topic_copy = topic.clone();
        out.push_max(topic_copy.as_str(), metric);
        upd.push_max(topic_copy.as_str(), SeriesState { count: st.count, pending_since: st.pending_since, prev: Some((st.count, now)) });
        proof {
            assert(out.key_seq() =~= m.key_seq().take(i + 1));
            assert(upd.key_seq() =~= m.key_seq().take(i + 1));
        }
        i = i + 1;
    }
    proof {
        assert(m.key_seq().take(n as int) =~= m.key_seq());
    }
    (out, upd)
}

/// Collect one topic map of write series: report metrics and memoize.
fn collect_writes(m: &NameMap<SeriesState>, now: u64) -> (r: (
    NameMap<WriteMetrics>,
    NameMap<SeriesState>,
))
    requires
        m.wf(),
    ensures
        r.0.wf(),
        r.1.wf(),
        r.0.key_seq() == m.key_seq(),
        r.1.key_seq() == m.key_seq(),
        forall|j: int|
            0 <= j < m.spec_len() ==> r.0.val_seq()[j] == write_metric_of(
                #[trigger] m.val_seq()[j],
                now,
            ),
        forall|j: int|
            0 <= j < m.spec_len() ==> r.1.val_seq()[j] == memo_of(#[trigger] m.val_seq()[j], now),
{
    let n = m.len();
    let mut out: NameMap<WriteMetrics> = NameMap::new();
    let mut upd: NameMap<SeriesState> = NameMap::new();
    let mut i: usize = 0;
    while i < n
        invariant
            i <= n,
            n == m.spec_len(),
            m.wf(),
            out.wf(),
            upd.wf(),
            out.key_seq() == m.key_seq().take(i as int),
            upd.key_seq() == m.key_seq().take(i as int),
            out.val_seq().len() == i,
            upd.val_seq().len() == i,
            forall|j: int|
                0 <= j < i ==> out.val_seq()[j] == write_metric_of(
                    #[trigger] m.val_seq()[j],
                    now,
                ),
            forall|j: int|
                0 <= j < i ==> upd.val_seq()[j] == memo_of(#[trigger] m.val_seq()[j], now),
        decreases n - i,
    {
        let topic = m.key_at(i);
        let st = *m.val_at(i);
        let pending: Option<Microseconds> = match st.pending_since {
            Some(since) => Some(
                Microseconds(if now >= since { now - since } else { 0 }),
            ),
            None => None,
        };
        let rate: Option<u64> = compute_rate(st.prev, st.count, now);
        let metric = WriteMetrics { count: st.count, pending, rate };
        proof {
            assert(metric == write_metric_of(m.val_seq()[i as int], now));
        }
        let topic_copy = topic.clone();
        out.push_max(topic_copy.as_str(), metric);
        upd.push_max(topic_copy.as_str(), SeriesState { count: st.count, pending_since: st.pending_since, prev: Some((st.count, now)) });
        proof {
            assert(out.key_seq() =~= m.key_seq().take(i + 1));
            assert(upd.key_seq() =~= m.key_seq().take(i + 1));
        }
        i = i + 1;
    }
    proof {
        assert(m.key_seq().take(n as int) =~= m.key_seq());
    }
    (out, upd)
}

/// The two-point rate between the previous collection memo and the current
/// count.
fn compute_rate(prev: Option<(u64, u64)>, count: u64, now: u64) -> (r: Option<u64>)
    ensures
        r == rate_of(prev, count, now),
{
    match prev {
        None => None,
        Some((pc, pt)) => {
            let el = if now >= pt { now - pt } else { 0 };
            if el < 10_000 {
                None
            } else {
                let delta = if count >= pc { count - pc } else { 0 };
                proof {
                    vstd::arithmetic::mul::lemma_mul_upper_bound(
                        delta as int, u64::MAX as int, 100_000_000, 100_000_000,
                    );
                }
                let centi128 = (delta as u128) * 100_000_000u128 / (el as u128);
                Some(if centi128 > u64::MAX as u128 { u64::MAX } else { centi128 as u64 })
            }
        },
    }
}


/// Everything a collection guarantees, as one predicate over the registry
/// before (`r0`) and after (`r1`), the snapshot, and the two instants the
/// collection was given: full current version, the wall timestamp, one
/// snapshot entry per bound module in name order with counts, backlogs,
/// pending durations and rates per `collected_module`, fresh rate memos
/// stored back, and bindings, counters and orphaned slots untouched.
pub open spec fn collect_post(r0: Registry, r1: Registry, snap: Snapshot, now: u64, wall: u64) -> bool {
    &&& r1.wf()
    &&& snap.wf()
    &&& snap.version.major == SCHEMA_VERSION
    &&& snap.version.minor == 0
    &&& snap.timestamp_ms == wall
    &&& r1.bindings == r0.bindings
    &&& r1.topic_writes == r0.topic_writes
    &&& r1.slots@.len() == r0.slots@.len()
    &&& snap.modules.key_seq() == r0.bindings.key_seq()
    &&& (forall|i: int|
        0 <= i < r0.bindings.spec_len() ==> collected_module(
            r0.slots@[#[trigger] r0.bindings.val_seq()[i] as int],
            snap.modules.val_seq()[i],
            r1.slots@[r0.bindings.val_seq()[i] as int],
            r0.topic_writes,
            now,
        ))
    &&& (forall|j: int|
        0 <= j < r0.slots@.len() && !slot_bound(r0.bindings, j) ==> r1.slots@[j] == r0.slots@[j])
}

/// A collection happened at some pair of instants: all of `collect_post`
/// holds for instants the caller does not know.  This is everything a
/// caller gets through a collection that reads the clock itself.
pub open spec fn collected_at_some_instant(r0: Registry, r1: Registry, snap: Snapshot) -> bool {
    exists|now: u64, wall: u64| #[trigger] collect_post(r0, r1, snap, now, wall)
}

impl Registry {
    /// Collect a snapshot: one entry per bound module, in name order, with
    /// counts, backlogs against the global write counters, pending
    /// durations at `now_micros`, and two-point rates; each collected
    /// series takes a fresh rate memo, and orphaned slots are untouched.
    pub fn collect(&mut self, now_micros: u64, wall_ms: u64) -> (snap: Snapshot)
        requires
            old(self).wf(),
        ensures
            final(self).wf(),
            snap.wf(),
            snap.version.major == SCHEMA_VERSION,
            snap.version.minor == 0,
            snap.timestamp_ms == wall_ms,
            final(self).bindings == old(self).bindings,
            final(self).topic_writes == old(self).topic_writes,
            final(self).slots@.len() == old(self).slots@.len(),
            snap.modules.key_seq() == old(self).bindings.key_seq(),
            forall|i: int|
                0 <= i < old(self).bindings.spec_len() ==> collected_module(
                    old(self).slots@[#[trigger] old(self).bindings.val_seq()[i] as int],
                    snap.modules.val_seq()[i],
                    final(self).slots@[old(self).bindings.val_seq()[i] as int],
                    old(self).topic_writes,
                    now_micros,
                ),
            forall|j: int|
                0 <= j < old(self).slots@.len() && !slot_bound(old(self).bindings, j)
                    ==> final(self).slots@[j] == old(self).slots@[j],
            collect_post(*old(self), *final(self), snap, now_micros, wall_ms),
    {
        let nb = self.bindings.len();
        let mut out_mods: NameMap<ModuleMetrics> = NameMap::new();
        let mut i: usize = 0;
        while i < nb
            invariant
                i <= nb,
                nb == old(self).bindings.spec_len(),
                self.bindings == old(self).bindings,
                self.topic_writes == old(self).topic_writes,
                self.slots@.len() == old(self).slots@.len(),
                self.wf(),
                out_mods.wf(),
                out_mods.key_seq() == old(self).bindings.key_seq().take(i as int),
                out_mods.val_seq().len() == i,
                forall|j: int|
                    0 <= j < i ==> (#[trigger] out_mods.val_seq()[j]).wf(),
                forall|j: int|
                    0 <= j < i ==> collected_module(
                        old(self).slots@[#[trigger] old(self).bindings.val_seq()[j] as int],
                        out_mods.val_seq()[j],
                        self.slots@[old(self).bindings.val_seq()[j] as int],
                        old(self).topic_writes,
                        now_micros,
                    ),
                forall|j: int|
                    0 <= j < old(self).slots@.len() && !(exists|x: int|
                        0 <= x < i && old(self).bindings.val_seq()[x] == j) ==> self.slots@[j]
                        == old(self).slots@[j],
            decreases nb - i,
        {
            let name = self.bindings.key_at(i).clone();
            let id = *self.bindings.val_at(i);
            proof {
                assert(!(exists|x: int| 0 <= x < i && old(self).bindings.val_seq()[x] == id));
                assert(self.slots@[id as int] == old(self).slots@[id as int]);
            }
            let slot = self.take_slot(id);
            let (rm, ru) = collect_reads(&slot.reads, &self.topic_writes, now_micros);
            let (wm, wu) = collect_writes(&slot.writes, now_micros);
            self.put_slot(id, ModuleSeries { reads: ru, writes: wu });
            let metrics = ModuleMetrics { reads: rm, writes: wm };
            proof {
                assert(collected_module(
                    old(self).slots@[id as int],
                    metrics,
                    self.slots@[id as int],
                    old(self).topic_writes,
                    now_micros,
                ));
                assert forall|j: int|
                    0 <= j < out_mods.spec_len() implies crate::strutil::lex_lt(
                    #[trigger] out_mods.key_seq()[j],
                    name@,
                ) by {
                    assert(out_mods.key_seq()[j] == old(self).bindings.key_seq()[j]);
                    assert(name@ == old(self).bindings.key_seq()[i as int]);
                }
            }
            out_mods.push_max(name.as_str(), metrics);
            proof {
                assert(out_mods.key_seq() =~= old(self).bindings.key_seq().take(i + 1));
                assert forall|j: int|
                    0 <= j <= i implies collected_module(
                    old(self).slots@[#[trigger] old(self).bindings.val_seq()[j] as int],
                    out_mods.val_seq()[j],
                    self.slots@[old(self).bindings.val_seq()[j] as int],
                    old(self).topic_writes,
                    now_micros,
                ) by {
                    if j < i {
                        assert(old(self).bindings.val_seq()[j] != id);
                    }
                }
            }
            i = i + 1;
        }
        proof {
            assert(old(self).bindings.key_seq().take(nb as int) =~= old(self).bindings.key_seq());
        }
        Snapshot {
            version: SchemaVersion::current(),
            timestamp_ms: wall_ms,
            modules: out_mods,
        }
    }
}

/// The sum of a sequence of increments, without bound.
pub open spec fn sum_u64(ks: Seq<u64>) -> nat
    decreases ks.len(),
{
    if ks.len() == 0 {
        0
    } else {
        (sum_u64(ks.drop_last()) + ks.last()) as nat
    }
}

/// A counter after applying a sequence of increments with `sat_add`, as a
/// run of record calls does to one series.
pub open spec fn fold_sat_add(ks: Seq<u64>) -> u64
    decreases ks.len(),
{
    if ks.len() == 0 {
        0
    } else {
        sat_add(fold_sat_add(ks.drop_last()), ks.last())
    }
}

/// Counts accumulate: a run of record calls on a fresh series (each of
/// which adds its increment to the count with `sat_add`, by the contract of
/// `record_read` and `record_write`) leaves the count at exactly the sum of
/// the increments whenever that sum fits in a u64, and never above it.
pub proof fn lemma_counts_accumulate(ks: Seq<u64>)
    ensures
        fold_sat_add(ks) <= sum_u64(ks),
        sum_u64(ks) <= u64::MAX ==> fold_sat_add(ks) == sum_u64(ks),
    decreases ks.len(),
{
    if ks.len() > 0 {
        lemma_counts_accumulate(ks.drop_last());
    }
}

/// Backlog is what the collection contract reports: present exactly when
/// the topic's global write counter exceeds the read count, and then their
/// difference, which is positive.
pub proof fn lemma_backlog_definition(tw: NameMap<u64>, t: Seq<char>, count: u64)
    ensures
        (backlog_of(tw, t, count) is Some) <==> (tw.has_key(t) && tw.spec_get(t) > count),
        backlog_of(tw, t, count) matches Some(b) ==> b == tw.spec_get(t) - count && b > 0,
{
}

/// The two-point rate a collection reports, spelled out: a collection at
/// `t2` that finds the memo a collection at `t1` left behind (with count
/// `c1`) and the current count `c2` reports, when at least ten
/// milliseconds elapsed, the difference over the elapsed time, in
/// hundredths of a message per second; under ten milliseconds it reports
/// nothing.
pub proof fn lemma_rate_between_collections(c1: u64, t1: u64, c2: u64, t2: u64)
    requires
        t2 >= t1,
        c2 >= c1,
    ensures
        t2 - t1 >= 10_000 ==> rate_of(Some((c1, t1)), c2, t2) == Some(
            (if (c2 - c1) * 100_000_000 / (t2 - t1) > u64::MAX {
                u64::MAX
            } else {
                ((c2 - c1) * 100_000_000 / (t2 - t1)) as u64
            }),
        ),
        t2 - t1 < 10_000 ==> rate_of(Some((c1, t1)), c2, t2) is None,
        rate_of(None, c2, t2) is None,
{
}


/// The two-point rate across two successive collections, in general: when
/// a collection at `t1` is followed by another at `t2`, the later
/// snapshot's rate for every read series of every bound module is exactly
/// the two-point rate between the count the first snapshot reported and
/// the count the second reports, over the elapsed time — present iff at
/// least ten milliseconds elapsed.  The first collection's memo is what
/// carries the earlier point; record calls between the two keep memos
/// untouched (`recorded` changes only counts), so the law covers activity
/// between the collections through the second snapshot's count.
pub proof fn lemma_rate_across_two_collections(
    r0: Registry,
    r1: Registry,
    r2: Registry,
    s1: Snapshot,
    s2: Snapshot,
    t1: u64,
    w1: u64,
    t2: u64,
    w2: u64,
    i: int,
    j: int,
)
    requires
        r0.wf(),
        collect_post(r0, r1, s1, t1, w1),
        collect_post(r1, r2, s2, t2, w2),
        0 <= i < r0.bindings.spec_len(),
        0 <= j < r0.slots@[r0.bindings.val_seq()[i] as int].reads.spec_len(),
    ensures
        s2.modules.val_seq()[i].reads.val_seq()[j].rate == rate_of(
            Some((s1.modules.val_seq()[i].reads.val_seq()[j].count, t1)),
            s2.modules.val_seq()[i].reads.val_seq()[j].count,
            t2,
        ),
{
    let id = r0.bindings.val_seq()[i] as int;
    let m0 = r0.slots@[id].reads;
    let m1 = r1.slots@[id].reads;
    assert(collected_module(
        r0.slots@[id],
        s1.modules.val_seq()[i],
        r1.slots@[id],
        r0.topic_writes,
        t1,
    ));
    assert(m1.val_seq()[j] == memo_of(m0.val_seq()[j], t1));
    assert(s1.modules.val_seq()[i].reads.val_seq()[j].count == m0.val_seq()[j].count);
    assert(r1.bindings.val_seq()[i] == r0.bindings.val_seq()[i]);
    assert(m1.key_seq() == m0.key_seq());
    assert(m1.key_seq().len() == m1.keys@.len());
    assert(m0.key_seq().len() == m0.keys@.len());
    assert(m1.spec_len() == m0.spec_len());
    assert(collected_module(
        r1.slots@[id],
        s2.modules.val_seq()[i],
        r2.slots@[id],
        r1.topic_writes,
        t2,
    ));
    assert(s2.modules.val_seq()[i].reads.val_seq()[j] == read_metric_of(
        m1.val_seq()[j],
        m1.key_seq()[j],
        r1.topic_writes,
        t2,
    ));
}

/// A collection never moves a count: the stored series keep their counts
/// (only the rate memo is refreshed), so counts are monotone across any
/// run of records and collections (I1).
pub proof fn lemma_collect_preserves_counts(
    r0: Registry,
    r1: Registry,
    snap: Snapshot,
    now: u64,
    wall: u64,
    i: int,
    j: int,
)
    requires
        collect_post(r0, r1, snap, now, wall),
        0 <= i < r0.bindings.spec_len(),
        0 <= j < r0.slots@[r0.bindings.val_seq()[i] as int].reads.spec_len(),
    ensures
        r1.slots@[r0.bindings.val_seq()[i] as int].reads.val_seq()[j].count == r0.slots@[
            r0.bindings.val_seq()[i] as int
        ].reads.val_seq()[j].count,
        snap.modules.val_seq()[i].reads.val_seq()[j].count == r0.slots@[
            r0.bindings.val_seq()[i] as int
        ].reads.val_seq()[j].count,
{
    let id = r0.bindings.val_seq()[i] as int;
    assert(collected_module(
        r0.slots@[id],
        snap.modules.val_seq()[i],
        r1.slots@[id],
        r0.topic_writes,
        now,
    ));
}

/// The main entry point for instrumenting a message bus: a registry plus
/// the emission interval configuration.  Periodic emission itself is I/O
/// and lives with the caller; `collect` here assembles the snapshot.
#[derive(Debug)]
pub struct Instrumentor {
    /// The metric registry.
    pub registry: Registry,
    /// The emission interval, in milliseconds.
    pub interval_ms: u64,
}

impl Instrumentor {
    /// A new instrumentor with no modules and a one-second interval.
    pub fn new() -> (r: Instrumentor)
        ensures
            r.registry.wf(),
            r.registry.bindings.spec_len() == 0,
            r.registry.slots@.len() == 0,
            r.registry.topic_writes.spec_len() == 0,
            r.interval_ms == 1000,
    {
        Instrumentor { registry: Registry::new(), interval_ms: 1000 }
    }

    /// A builder for configuring an instrumentor.
    pub fn builder() -> (b: InstrumentorBuilder)
        ensures
            b.interval_ms is None,
    {
        InstrumentorBuilder { interval_ms: None }
    }

    /// Register a module and get a handle for recording metrics; see
    /// `Registry::register`.
    pub fn register(&mut self, name: &str) -> (h: ModuleHandle)
        requires
            old(self).registry.wf(),
        ensures
            final(self).registry.wf(),
            final(self).interval_ms == old(self).interval_ms,
            h.name@ == name@,
            h.id < final(self).registry.slots@.len(),
            final(self).registry.topic_writes == old(self).registry.topic_writes,
            final(self).registry.bindings.has_key(name@),
            final(self).registry.bindings.spec_get(name@) == h.id,
            old(self).registry.bindings.has_key(name@) ==> *final(self) == *old(self) && h.id
                == old(self).registry.bindings.spec_get(name@),
            !old(self).registry.bindings.has_key(name@) ==> {
                &&& h.id == old(self).registry.slots@.len()
                &&& final(self).registry.slots@ == old(self).registry.slots@.push(
                    final(self).registry.slots@.last(),
                )
                &&& final(self).registry.slots@.last().reads.spec_len() == 0
                &&& final(self).registry.slots@.last().writes.spec_len() == 0
                &&& final(self).registry.bindings.key_seq() == old(
                    self,
                ).registry.bindings.key_seq().insert(
                    final(self).registry.bindings.idx_of(name@),
                    name@,
                )
                &&& final(self).registry.bindings.val_seq() == old(
                    self,
                ).registry.bindings.val_seq().insert(
                    final(self).registry.bindings.idx_of(name@),
                    old(self).registry.slots@.len() as usize,
                )
            },
    {
        self.registry.register(name)
    }

    /// Collect a snapshot of all current metrics, stamped with instants
    /// from the wall clock.  Whatever the clock returned, all of
    /// `collect_post` holds for those instants: counts, backlogs, the
    /// full current version, name order, fresh rate memos, and untouched
    /// bindings, counters and orphaned slots.
    pub fn collect(&mut self) -> (snap: Snapshot)
        requires
            old(self).registry.wf(),
        ensures
            final(self).registry.wf(),
            final(self).interval_ms == old(self).interval_ms,
            snap.wf(),
            snap.version.major == SCHEMA_VERSION,
            snap.version.minor == 0,
            snap.modules.key_seq() == old(self).registry.bindings.key_seq(),
            collected_at_some_instant(old(self).registry, final(self).registry, snap),
    {
        let now = crate::clock::now_unix_micros();
        let wall = crate::clock::now_unix_millis();
        let snap = self.registry.collect(now, wall);
        proof {
            assert(collect_post(old(self).registry, self.registry, snap, now, wall));
            assert(collected_at_some_instant(old(self).registry, self.registry, snap));
        }
        snap
    }
}

/// Builder for `Instrumentor`.
#[derive(Debug)]
pub struct InstrumentorBuilder {
    /// The emission interval, if one was chosen.
    pub interval_ms: Option<u64>,
}

impl InstrumentorBuilder {
    /// Create a builder.
    pub fn new() -> (b: InstrumentorBuilder)
        ensures
            b.interval_ms is None,
    {
        InstrumentorBuilder { interval_ms: None }
    }

    /// Set the emission interval in milliseconds; one second if never set.
    pub fn interval(self, interval_ms: u64) -> (b: InstrumentorBuilder)
        ensures
            b.interval_ms == Some(interval_ms),
    {
        InstrumentorBuilder { interval_ms: Some(interval_ms) }
    }

    /// Build the instrumentor.
    pub fn build(self) -> (r: Instrumentor)
        ensures
            r.registry.wf(),
            r.registry.bindings.spec_len() == 0,
            r.registry.slots@.len() == 0,
            self.interval_ms matches Some(ms) ==> r.interval_ms == ms,
            self.interval_ms is None ==> r.interval_ms == 1000,
    {
        let interval_ms = match self.interval_ms {
            Some(ms) => ms,
            None => 1000,
        };
        Instrumentor { registry: Registry::new(), interval_ms }
    }
}

} // verus!
