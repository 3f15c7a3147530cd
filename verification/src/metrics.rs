//! Core metric types for message-bus observability.

use vstd::prelude::*;
use crate::duration::Microseconds;
use crate::namemap::NameMap;

verus! {

/// Add, sticking at the top of the u64 range instead of overflowing.
pub open spec fn sat_add(a: u64, b: u64) -> u64 {
    if a + b > u64::MAX {
        u64::MAX
    } else {
        (a + b) as u64
    }
}

/// Saturating addition never decreases: every record call moves a series
/// count up or leaves it at the top, so counts are monotone for the life
/// of a registration.
pub proof fn lemma_sat_add_monotonic(a: u64, b: u64)
    ensures
        sat_add(a, b) >= a,
        b == 0 ==> sat_add(a, b) == a,
{
}

/// Metrics for reading from a topic (subscription/consumer side).
///
/// `rate` is in hundredths of a message per second, so that two decimal
/// places survive serialization exactly.
#[derive(Debug, Clone, Copy, PartialEq)]
pub struct ReadMetrics {
    /// Number of messages successfully read.
    pub count: u64,
    /// Number of messages waiting to be read (backlog/lag).
    pub backlog: Option<u64>,
    /// How long the consumer has been waiting for a message, if blocked.
    pub pending: Option<Microseconds>,
    /// Messages read per second, in hundredths.
    pub rate: Option<u64>,
}

impl ReadMetrics {
    /// New read metrics with a count and nothing else.
    pub fn new(count: u64) -> (r: ReadMetrics)
        ensures
            r.count == count,
            r.backlog is None,
            r.pending is None,
            r.rate is None,
    {
        ReadMetrics { count, backlog: None, pending: None, rate: None }
    }

    /// A builder for read metrics.
    pub fn builder() -> (b: ReadMetricsBuilder)
        ensures
            b.m == ReadMetrics::default_spec(),
    {
        ReadMetricsBuilder { m: ReadMetrics { count: 0, backlog: None, pending: None, rate: None } }
    }

    /// The all-absent value.
    pub open spec fn default_spec() -> ReadMetrics {
        ReadMetrics { count: 0, backlog: None, pending: None, rate: None }
    }

    /// Whether this read stream looks healthy: no backlog beyond
    /// `max_backlog` and no pending wait beyond `max_pending`.
    pub fn is_healthy(&self, max_backlog: u64, max_pending: Microseconds) -> (r: bool)
        ensures
            r == ((self.backlog matches Some(b) ==> b <= max_backlog)
                && (self.pending matches Some(p) ==> p.0 <= max_pending.0)),
    {
        let backlog_ok = match self.backlog {
            Some(b) => b <= max_backlog,
            None => true,
        };
        let pending_ok = match self.pending {
            Some(p) => p.0 <= max_pending.0,
            None => true,
        };
        backlog_ok && pending_ok
    }
}

impl Default for ReadMetrics {
    /// All counters zero, all optional fields absent.
    fn default() -> (r: ReadMetrics)
        ensures
            r == ReadMetrics::default_spec(),
    {
        ReadMetrics { count: 0, backlog: None, pending: None, rate: None }
    }
}

/// Builder for `ReadMetrics`.
#[derive(Debug)]
pub struct ReadMetricsBuilder {
    /// The value built so far.
    pub m: ReadMetrics,
}

impl ReadMetricsBuilder {
    /// Create a builder with everything absent.
    pub fn new() -> (b: ReadMetricsBuilder)
        ensures
            b.m == ReadMetrics::default_spec(),
    {
        ReadMetrics::builder()
    }

    /// Set the message count.
    pub fn count(self, count: u64) -> (b: ReadMetricsBuilder)
        ensures
            b.m == (ReadMetrics { count, ..self.m }),
    {
        ReadMetricsBuilder { m: ReadMetrics { count, ..self.m } }
    }

    /// Set the backlog (unread messages).
    pub fn backlog(self, backlog: u64) -> (b: ReadMetricsBuilder)
        ensures
            b.m == (ReadMetrics { backlog: Some(backlog), ..self.m }),
    {
        ReadMetricsBuilder { m: ReadMetrics { backlog: Some(backlog), ..self.m } }
    }

    /// Set the pending duration.
    pub fn pending(self, duration: Microseconds) -> (b: ReadMetricsBuilder)
        ensures
            b.m == (ReadMetrics { pending: Some(duration), ..self.m }),
    {
        ReadMetricsBuilder { m: ReadMetrics { pending: Some(duration), ..self.m } }
    }

    /// Set the rate, in hundredths of a message per second.
    pub fn rate(self, rate: u64) -> (b: ReadMetricsBuilder)
        ensures
            b.m == (ReadMetrics { rate: Some(rate), ..self.m }),
    {
        ReadMetricsBuilder { m: ReadMetrics { rate: Some(rate), ..self.m } }
    }

    /// Finish building.
    pub fn build(self) -> (r: ReadMetrics)
        ensures
            r == self.m,
    {
        self.m
    }
}

/// Metrics for writing to a topic (publication/producer side).
#[derive(Debug, Clone, Copy, PartialEq)]
pub struct WriteMetrics {
    /// Number of messages successfully written.
    pub count: u64,
    /// How long the producer has been waiting to write, if blocked.
    pub pending: Option<Microseconds>,
    /// Messages written per second, in hundredths.
    pub rate: Option<u64>,
}

impl WriteMetrics {
    /// New write metrics with a count and nothing else.
    pub fn new(count: u64) -> (r: WriteMetrics)
        ensures
            r.count == count,
            r.pending is None,
            r.rate is None,
    {
        WriteMetrics { count, pending: None, rate: None }
    }

    /// A builder for write metrics.
    pub fn builder() -> (b: WriteMetricsBuilder)
        ensures
            b.m == WriteMetrics::default_spec(),
    {
        WriteMetricsBuilder { m: WriteMetrics { count: 0, pending: None, rate: None } }
    }

    /// The all-absent value.
    pub open spec fn default_spec() -> WriteMetrics {
        WriteMetrics { count: 0, pending: None, rate: None }
    }

    /// Whether this write stream looks healthy: no pending wait beyond
    /// `max_pending`.
    pub fn is_healthy(&self, max_pending: Microseconds) -> (r: bool)
        ensures
            r == (self.pending matches Some(p) ==> p.0 <= max_pending.0),
    {
        match self.pending {
            Some(p) => p.0 <= max_pending.0,
            None => true,
        }
    }
}

impl Default for WriteMetrics {
    /// All counters zero, all optional fields absent.
    fn default() -> (r: WriteMetrics)
        ensures
            r == WriteMetrics::default_spec(),
    {
        WriteMetrics { count: 0, pending: None, rate: None }
    }
}

/// Builder for `WriteMetrics`.
#[derive(Debug)]
pub struct WriteMetricsBuilder {
    /// The value built so far.
    pub m: WriteMetrics,
}

impl WriteMetricsBuilder {
    /// Create a builder with everything absent.
    pub fn new() -> (b: WriteMetricsBuilder)
        ensures
            b.m == WriteMetrics::default_spec(),
    {
        WriteMetrics::builder()
    }

    /// Set the message count.
    pub fn count(self, count: u64) -> (b: WriteMetricsBuilder)
        ensures
            b.m == (WriteMetrics { count, ..self.m }),
    {
        WriteMetricsBuilder { m: WriteMetrics { count, ..self.m } }
    }

    /// Set the pending duration.
    pub fn pending(self, duration: Microseconds) -> (b: WriteMetricsBuilder)
        ensures
            b.m == (WriteMetrics { pending: Some(duration), ..self.m }),
    {
        WriteMetricsBuilder { m: WriteMetrics { pending: Some(duration), ..self.m } }
    }

    /// Set the rate, in hundredths of a message per second.
    pub fn rate(self, rate: u64) -> (b: WriteMetricsBuilder)
        ensures
            b.m == (WriteMetrics { rate: Some(rate), ..self.m }),
    {
        WriteMetricsBuilder { m: WriteMetrics { rate: Some(rate), ..self.m } }
    }

    /// Finish building.
    pub fn build(self) -> (r: WriteMetrics)
        ensures
            r == self.m,
    {
        self.m
    }
}

/// Metrics for a single module: what it reads and what it writes, each
/// ordered by topic.
#[derive(Debug, Clone, PartialEq)]
pub struct ModuleMetrics {
    /// Metrics for topics this module reads from.
    pub reads: NameMap<ReadMetrics>,
    /// Metrics for topics this module writes to.
    pub writes: NameMap<WriteMetrics>,
}

/// The counts of a read-metrics sequence, summed without bound.
pub open spec fn sum_read_counts(s: Seq<ReadMetrics>) -> nat
    decreases s.len(),
{
    if s.len() == 0 {
        0
    } else {
        (sum_read_counts(s.drop_last()) + s.last().count) as nat
    }
}

/// The counts of a write-metrics sequence, summed without bound.
pub open spec fn sum_write_counts(s: Seq<WriteMetrics>) -> nat
    decreases s.len(),
{
    if s.len() == 0 {
        0
    } else {
        (sum_write_counts(s.drop_last()) + s.last().count) as nat
    }
}

impl ModuleMetrics {
    /// Both topic maps are well-formed.
    pub open spec fn wf(self) -> bool {
        self.reads.wf() && self.writes.wf()
    }

    /// Create empty module metrics.
    pub fn new() -> (m: ModuleMetrics)
        ensures
            m.wf(),
            m.reads.spec_len() == 0,
            m.writes.spec_len() == 0,
    {
        ModuleMetrics { reads: NameMap::new(), writes: NameMap::new() }
    }

    /// A builder for module metrics.
    pub fn builder() -> (b: ModuleMetricsBuilder)
        ensures
            b.m.wf(),
            b.m.reads.spec_len() == 0,
            b.m.writes.spec_len() == 0,
    {
        ModuleMetricsBuilder { m: ModuleMetrics::new() }
    }

    /// Whether the module has no recorded activity.
    pub fn is_empty(&self) -> (r: bool)
        ensures
            r == (self.reads.spec_len() == 0 && self.writes.spec_len() == 0),
    {
        self.reads.is_empty() && self.writes.is_empty()
    }

    /// Total messages read across all topics, saturating at the u64 range.
    pub fn total_reads(&self) -> (r: u64)
        requires
            self.wf(),
        ensures
            sum_read_counts(self.reads.val_seq()) <= u64::MAX ==> r == sum_read_counts(
                self.reads.val_seq(),
            ),
            sum_read_counts(self.reads.val_seq()) > u64::MAX ==> r == u64::MAX,
    {
        let n = self.reads.len();
        let mut total: u64 = 0;
        let mut i: usize = 0;
        while i < n
            invariant
                i <= n,
                n == self.reads.spec_len(),
                self.wf(),
                sum_read_counts(self.reads.val_seq().take(i as int)) <= u64::MAX ==> total
                    == sum_read_counts(self.reads.val_seq().take(i as int)),
                sum_read_counts(self.reads.val_seq().take(i as int)) > u64::MAX ==> total
                    == u64::MAX,
            decreases n - i,
        {
            proof {
                assert(self.reads.val_seq().take(i + 1).drop_last()
                    =~= self.reads.val_seq().take(i as int));
            }
            let c = self.reads.val_at(i).count;
            if total > u64::MAX - c {
                total = u64::MAX;
            } else {
                total = total + c;
            }
            i = i + 1;
        }
        proof {
            assert(self.reads.val_seq().take(n as int) =~= self.reads.val_seq());
        }
        total
    }

    /// Total messages written across all topics, saturating at the u64 range.
    pub fn total_writes(&self) -> (r: u64)
        requires
            self.wf(),
        ensures
            sum_write_counts(self.writes.val_seq()) <= u64::MAX ==> r == sum_write_counts(
                self.writes.val_seq(),
            ),
            sum_write_counts(self.writes.val_seq()) > u64::MAX ==> r == u64::MAX,
    {
        let n = self.writes.len();
        let mut total: u64 = 0;
        let mut i: usize = 0;
        while i < n
            invariant
                i <= n,
                n == self.writes.spec_len(),
                self.wf(),
                sum_write_counts(self.writes.val_seq().take(i as int)) <= u64::MAX ==> total
                    == sum_write_counts(self.writes.val_seq().take(i as int)),
                sum_write_counts(self.writes.val_seq().take(i as int)) > u64::MAX ==> total
                    == u64::MAX,
            decreases n - i,
        {
            proof {
                assert(self.writes.val_seq().take(i + 1).drop_last()
                    =~= self.writes.val_seq().take(i as int));
            }
            let c = self.writes.val_at(i).count;
            if total > u64::MAX - c {
                total = u64::MAX;
            } else {
                total = total + c;
            }
            i = i + 1;
        }
        proof {
            assert(self.writes.val_seq().take(n as int) =~= self.writes.val_seq());
        }
        total
    }
}

/// Builder for `ModuleMetrics`.
#[derive(Debug)]
pub struct ModuleMetricsBuilder {
    /// The value built so far.
    pub m: ModuleMetrics,
}

impl ModuleMetricsBuilder {
    /// Create an empty builder.
    pub fn new() -> (b: ModuleMetricsBuilder)
        ensures
            b.m.wf(),
            b.m.reads.spec_len() == 0,
            b.m.writes.spec_len() == 0,
    {
        ModuleMetrics::builder()
    }

    /// Add read metrics for a topic, replacing any previous entry.
    pub fn read(self, topic: &str, r: ReadMetrics) -> (b: ModuleMetricsBuilder)
        requires
            self.m.wf(),
        ensures
            b.m.wf(),
            b.m.writes == self.m.writes,
            b.m.reads.has_key(topic@),
            b.m.reads.spec_get(topic@) == r,
            forall|k: Seq<char>|
                k != topic@ && self.m.reads.has_key(k) ==> b.m.reads.has_key(k)
                    && b.m.reads.spec_get(k) == self.m.reads.spec_get(k),
    {
        let mut m = self.m;
        let idx = m.reads.insert(topic, r);
        proof {
            lemma_insert_preserves(self.m.reads, m.reads, topic@, r, idx as int);
        }
        ModuleMetricsBuilder { m }
    }

    /// Add write metrics for a topic, replacing any previous entry.
    pub fn write(self, topic: &str, w: WriteMetrics) -> (b: ModuleMetricsBuilder)
        requires
            self.m.wf(),
        ensures
            b.m.wf(),
            b.m.reads == self.m.reads,
            b.m.writes.has_key(topic@),
            b.m.writes.spec_get(topic@) == w,
            forall|k: Seq<char>|
                k != topic@ && self.m.writes.has_key(k) ==> b.m.writes.has_key(k)
                    && b.m.writes.spec_get(k) == self.m.writes.spec_get(k),
    {
        let mut m = self.m;
        let idx = m.writes.insert(topic, w);
        proof {
            lemma_insert_preserves(self.m.writes, m.writes, topic@, w, idx as int);
        }
        ModuleMetricsBuilder { m }
    }

    /// Finish building.
    pub fn build(self) -> (m: ModuleMetrics)
        ensures
            m == self.m,
    {
        self.m
    }
}

/// After an insert with the contract of `NameMap::insert`, the new key maps
/// to the new value and every other key keeps its binding.
pub proof fn lemma_insert_preserves<V>(
    before: NameMap<V>,
    after: NameMap<V>,
    k: Seq<char>,
    v: V,
    idx: int,
)
    requires
        before.wf(),
        after.wf(),
        0 <= idx < after.spec_len(),
        idx <= before.spec_len(),
        after.key_seq()[idx] == k,
        after.idx_of(k) == idx,
        before.has_key(k) ==> after.key_seq() == before.key_seq() && after.val_seq()
            == before.val_seq().update(idx, v) && idx == before.idx_of(k),
        !before.has_key(k) ==> after.key_seq() == before.key_seq().insert(idx, k)
            && after.val_seq() == before.val_seq().insert(idx, v),
    ensures
        after.has_key(k),
        after.spec_get(k) == v,
        forall|k2: Seq<char>|
            k2 != k && before.has_key(k2) ==> after.has_key(k2) && after.spec_get(k2)
                == before.spec_get(k2),
{
    if !before.has_key(k) {
        before.key_seq().insert_ensures(idx, k);
        before.val_seq().insert_ensures(idx, v);
    }
    assert(after.spec_get(k) == v);
    assert forall|k2: Seq<char>| k2 != k && before.has_key(k2) implies after.has_key(k2)
        && after.spec_get(k2) == before.spec_get(k2) by {
        before.lemma_idx_of(k2);
        after.lemma_idx_of(k2);
        let bi = before.idx_of(k2);
        if before.has_key(k) {
            assert(after.key_seq()[bi] == k2);
            if after.idx_of(k2) < bi {
                assert(before.key_seq()[after.idx_of(k2)] != k2);
            } else if after.idx_of(k2) > bi {
                assert(after.key_seq()[bi] != k2);
            }
        } else {
            before.key_seq().insert_ensures(idx, k);
            before.val_seq().insert_ensures(idx, v);
            let ai = if bi < idx { bi } else { bi + 1 };
            assert(after.key_seq()[ai] == k2);
            assert(after.has_key(k2));
            let aj = after.idx_of(k2);
            assert(after.key_seq()[aj] == k2);
            if aj != ai {
                assert(false) by {
                    crate::strutil::lemma_lex_trichotomy(after.key_seq()[aj], after.key_seq()[ai]);
                }
            }
            assert(after.val_seq()[ai] == before.val_seq()[bi]);
        }
    }
}

} // verus!
