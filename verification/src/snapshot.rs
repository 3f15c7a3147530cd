//! Snapshot: a point-in-time view of message-bus state.

use vstd::prelude::*;
use crate::clock::now_unix_millis;
use crate::metrics::{ModuleMetrics, sum_read_counts, sum_write_counts};
use crate::namemap::NameMap;
use crate::version::SchemaVersion;
use crate::SCHEMA_VERSION;

verus! {

/// A point-in-time snapshot of message-bus metrics: every module's read
/// and write series, with a schema version and a wall-clock timestamp.
#[derive(Debug, Clone, PartialEq)]
pub struct Snapshot {
    /// Schema version for forward compatibility.
    pub version: SchemaVersion,
    /// Unix timestamp in milliseconds when this snapshot was taken.
    pub timestamp_ms: u64,
    /// Metrics for each module, ordered by module name.
    pub modules: NameMap<ModuleMetrics>,
}

/// The read counts of all modules in a sequence, summed without bound.
pub open spec fn sum_module_reads(s: Seq<ModuleMetrics>) -> nat
    decreases s.len(),
{
    if s.len() == 0 {
        0
    } else {
        (sum_module_reads(s.drop_last()) + sum_read_counts(s.last().reads.val_seq())) as nat
    }
}

/// The write counts of all modules in a sequence, summed without bound.
pub open spec fn sum_module_writes(s: Seq<ModuleMetrics>) -> nat
    decreases s.len(),
{
    if s.len() == 0 {
        0
    } else {
        (sum_module_writes(s.drop_last()) + sum_write_counts(s.last().writes.val_seq())) as nat
    }
}

impl Snapshot {
    /// The module map and every module's topic maps are well-formed.
    pub open spec fn wf(self) -> bool {
        &&& self.modules.wf()
        &&& forall|i: int|
            0 <= i < self.modules.spec_len() ==> (#[trigger] self.modules.val_seq()[i]).wf()
    }

    /// A new, empty snapshot stamped with the current wall-clock time.
    pub fn new() -> (s: Snapshot)
        ensures
            s.wf(),
            s.version.major == SCHEMA_VERSION,
            s.modules.spec_len() == 0,
    {
        Snapshot {
            version: SchemaVersion::current(),
            timestamp_ms: now_unix_millis(),
            modules: NameMap::new(),
        }
    }

    /// A new, empty snapshot with the given timestamp.
    pub fn with_timestamp(timestamp_ms: u64) -> (s: Snapshot)
        ensures
            s.wf(),
            s.version.major == SCHEMA_VERSION,
            s.version.minor == 0,
            s.timestamp_ms == timestamp_ms,
            s.modules.spec_len() == 0,
    {
        Snapshot { version: SchemaVersion::current(), timestamp_ms, modules: NameMap::new() }
    }

    /// A builder for snapshots.
    pub fn builder() -> (b: SnapshotBuilder)
        ensures
            b.timestamp_ms is None,
            b.modules.wf(),
            b.modules.spec_len() == 0,
    {
        SnapshotBuilder { timestamp_ms: None, modules: NameMap::new() }
    }

    /// Whether the snapshot has no modules.
    pub fn is_empty(&self) -> (r: bool)
        ensures
            r == (self.modules.spec_len() == 0),
    {
        self.modules.is_empty()
    }

    /// Number of modules in the snapshot.
    pub fn len(&self) -> (r: usize)
        ensures
            r == self.modules.spec_len(),
    {
        self.modules.len()
    }

    /// Metrics for a specific module.
    pub fn get(&self, module: &str) -> (r: Option<&ModuleMetrics>)
        requires
            self.wf(),
        ensures
            r is Some <==> self.modules.has_key(module@),
            r is Some ==> *r->Some_0 == self.modules.spec_get(module@),
    {
        self.modules.get(module)
    }

    /// Total messages read across all modules, saturating at the u64 range.
    pub fn total_reads(&self) -> (r: u64)
        requires
            self.wf(),
        ensures
            sum_module_reads(self.modules.val_seq()) <= u64::MAX ==> r == sum_module_reads(
                self.modules.val_seq(),
            ),
            sum_module_reads(self.modules.val_seq()) > u64::MAX ==> r == u64::MAX,
    {
        let n = self.modules.len();
        let mut total: u64 = 0;
        let mut i: usize = 0;
        while i < n
            invariant
                i <= n,
                n == self.modules.spec_len(),
                self.wf(),
                sum_module_reads(self.modules.val_seq().take(i as int)) <= u64::MAX ==> total
                    == sum_module_reads(self.modules.val_seq().take(i as int)),
                sum_module_reads(self.modules.val_seq().take(i as int)) > u64::MAX ==> total
                    == u64::MAX,
            decreases n - i,
        {
            proof {
                assert(self.modules.val_seq().take(i + 1).drop_last()
                    =~= self.modules.val_seq().take(i as int));
            }
            let c = self.modules.val_at(i).total_reads();
            if total > u64::MAX - c {
                total = u64::MAX;
            } else {
                total = total + c;
            }
            i = i + 1;
        }
        proof {
            assert(self.modules.val_seq().take(n as int) =~= self.modules.val_seq());
        }
        total
    }

    /// Total messages written across all modules, saturating at the u64
    /// range.
    pub fn total_writes(&self) -> (r: u64)
        requires
            self.wf(),
        ensures
            sum_module_writes(self.modules.val_seq()) <= u64::MAX ==> r == sum_module_writes(
                self.modules.val_seq(),
            ),
            sum_module_writes(self.modules.val_seq()) > u64::MAX ==> r == u64::MAX,
    {
        let n = self.modules.len();
        let mut total: u64 = 0;
        let mut i: usize = 0;
        while i < n
            invariant
                i <= n,
                n == self.modules.spec_len(),
                self.wf(),
                sum_module_writes(self.modules.val_seq().take(i as int)) <= u64::MAX ==> total
                    == sum_module_writes(self.modules.val_seq().take(i as int)),
                sum_module_writes(self.modules.val_seq().take(i as int)) > u64::MAX ==> total
                    == u64::MAX,
            decreases n - i,
        {
            proof {
                assert(self.modules.val_seq().take(i + 1).drop_last()
                    =~= self.modules.val_seq().take(i as int));
            }
            let c = self.modules.val_at(i).total_writes();
            if total > u64::MAX - c {
                total = u64::MAX;
            } else {
                total = total + c;
            }
            i = i + 1;
        }
        proof {
            assert(self.modules.val_seq().take(n as int) =~= self.modules.val_seq());
        }
        total
    }
}

/// Builder for `Snapshot`.
#[derive(Debug)]
pub struct SnapshotBuilder {
    /// The timestamp to stamp the snapshot with; the current time if absent.
    pub timestamp_ms: Option<u64>,
    /// The modules gathered so far.
    pub modules: NameMap<ModuleMetrics>,
}

impl SnapshotBuilder {
    /// Create an empty builder.
    pub fn new() -> (b: SnapshotBuilder)
        ensures
            b.timestamp_ms is None,
            b.modules.wf(),
            b.modules.spec_len() == 0,
    {
        Snapshot::builder()
    }

    /// Set a specific timestamp (milliseconds since the Unix epoch).
    pub fn timestamp_ms(self, ts: u64) -> (b: SnapshotBuilder)
        ensures
            b.timestamp_ms == Some(ts),
            b.modules == self.modules,
    {
        SnapshotBuilder { timestamp_ms: Some(ts), modules: self.modules }
    }

    /// Add a module with pre-built metrics, replacing any previous entry of
    /// the same name.
    pub fn module_metrics(self, name: &str, metrics: ModuleMetrics) -> (b: SnapshotBuilder)
        requires
            self.modules.wf(),
            forall|i: int|
                0 <= i < self.modules.spec_len() ==> (#[trigger] self.modules.val_seq()[i]).wf(),
            metrics.wf(),
        ensures
            b.timestamp_ms == self.timestamp_ms,
            b.modules.wf(),
            forall|i: int|
                0 <= i < b.modules.spec_len() ==> (#[trigger] b.modules.val_seq()[i]).wf(),
            b.modules.has_key(name@),
            b.modules.spec_get(name@) == metrics,
            forall|k: Seq<char>|
                k != name@ && self.modules.has_key(k) ==> b.modules.has_key(k)
                    && b.modules.spec_get(k) == self.modules.spec_get(k),
    {
        let mut modules = self.modules;
        let idx = modules.insert(name, metrics);
        proof {
            crate::metrics::lemma_insert_preserves(self.modules, modules, name@, metrics, idx as int);
            if !self.modules.has_key(name@) {
                self.modules.val_seq().insert_ensures(idx as int, metrics);
            }
            assert forall|i: int| 0 <= i < modules.spec_len() implies
                (#[trigger] modules.val_seq()[i]).wf() by {
                if self.modules.has_key(name@) {
                    if i != idx {
                        assert(modules.val_seq()[i] == self.modules.val_seq()[i]);
                    }
                } else {
                    if i < idx {
                        assert(modules.val_seq()[i] == self.modules.val_seq()[i]);
                    } else if i > idx {
                        assert(modules.val_seq()[i] == self.modules.val_seq()[i - 1]);
                    }
                }
            }
        }
        SnapshotBuilder { timestamp_ms: self.timestamp_ms, modules }
    }

    /// Build the snapshot; without an explicit timestamp the current
    /// wall-clock time is used.
    pub fn build(self) -> (s: Snapshot)
        requires
            self.modules.wf(),
            forall|i: int|
                0 <= i < self.modules.spec_len() ==> (#[trigger] self.modules.val_seq()[i]).wf(),
        ensures
            s.wf(),
            s.version.major == SCHEMA_VERSION,
            s.version.minor == 0,
            s.modules == self.modules,
            self.timestamp_ms matches Some(ts) ==> s.timestamp_ms == ts,
    {
        let ts = match self.timestamp_ms {
            Some(ts) => ts,
            None => now_unix_millis(),
        };
        Snapshot { version: SchemaVersion::current(), timestamp_ms: ts, modules: self.modules }
    }
}

} // verus!
