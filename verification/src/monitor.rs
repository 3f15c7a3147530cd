//! Monitor data derivation: health classification and the per-module rows
//! that the terminal views display, derived from raw snapshots.

use vstd::prelude::*;
use crate::duration::Microseconds;
use crate::metrics::{ReadMetrics, WriteMetrics};
use crate::snapshot::Snapshot;
use crate::strutil::{lex_le, str_lt, lemma_lex_trichotomy};

verus! {

broadcast use vstd::seq_lib::group_to_multiset_ensures;

/// Health status for a module or topic.
#[derive(Debug, Clone, Copy, PartialEq, Eq, PartialOrd, Ord, Structural)]
pub enum HealthStatus {
    /// Everything within thresholds.
    Healthy,
    /// At or past the warning threshold.
    Warning,
    /// At or past the critical threshold.
    Critical,
}

/// The severity rank of a status: healthy below warning below critical.
pub open spec fn rank(h: HealthStatus) -> int {
    match h {
        HealthStatus::Healthy => 0,
        HealthStatus::Warning => 1,
        HealthStatus::Critical => 2,
    }
}

impl HealthStatus {
    /// A short symbol for display.
    pub fn symbol(&self) -> (r: &'static str)
        ensures
            *self is Healthy ==> r@ == "OK"@,
            *self is Warning ==> r@ == "WARN"@,
            *self is Critical ==> r@ == "CRIT"@,
    {
        match self {
            HealthStatus::Healthy => "OK",
            HealthStatus::Warning => "WARN",
            HealthStatus::Critical => "CRIT",
        }
    }

    /// The severity rank, for comparisons.
    pub fn severity(&self) -> (r: u8)
        ensures
            r as int == rank(*self),
    {
        match self {
            HealthStatus::Healthy => 0,
            HealthStatus::Warning => 1,
            HealthStatus::Critical => 2,
        }
    }
}

/// The worse of two statuses.
pub open spec fn worse(a: HealthStatus, b: HealthStatus) -> HealthStatus {
    if rank(a) >= rank(b) {
        a
    } else {
        b
    }
}

fn worse_exec(a: HealthStatus, b: HealthStatus) -> (r: HealthStatus)
    ensures
        r == worse(a, b),
{
    if a.severity() >= b.severity() {
        a
    } else {
        b
    }
}

/// Thresholds for health classification.
#[derive(Debug, Clone, Copy, PartialEq)]
pub struct Thresholds {
    /// A pending wait at least this long is a warning.
    pub pending_warning: Microseconds,
    /// A pending wait at least this long is critical.
    pub pending_critical: Microseconds,
    /// An unread count at least this high is a warning.
    pub unread_warning: u64,
    /// An unread count at least this high is critical.
    pub unread_critical: u64,
}

impl Default for Thresholds {
    /// One second / ten seconds of pending, one thousand / five thousand
    /// unread messages.
    fn default() -> (t: Thresholds)
        ensures
            t.pending_warning.0 == 1_000_000,
            t.pending_critical.0 == 10_000_000,
            t.unread_warning == 1000,
            t.unread_critical == 5000,
    {
        Thresholds {
            pending_warning: Microseconds(1_000_000),
            pending_critical: Microseconds(10_000_000),
            unread_warning: 1000,
            unread_critical: 5000,
        }
    }
}

/// Where a value falls against a warning and a critical bound.
pub open spec fn classify(value: nat, warning: nat, critical: nat) -> HealthStatus {
    if value >= critical {
        HealthStatus::Critical
    } else if value >= warning {
        HealthStatus::Warning
    } else {
        HealthStatus::Healthy
    }
}

/// The status of a read series: the worse of its pending wait and its
/// unread backlog, each held against the thresholds; absent values are
/// healthy.
pub open spec fn read_status_spec(
    pending: Option<Microseconds>,
    unread: Option<u64>,
    th: Thresholds,
) -> HealthStatus {
    let ps = match pending {
        Option::Some(p) => classify(p.0 as nat, th.pending_warning.0 as nat, th.pending_critical.0 as nat),
        Option::None => HealthStatus::Healthy,
    };
    let us = match unread {
        Option::Some(u) => classify(u as nat, th.unread_warning as nat, th.unread_critical as nat),
        Option::None => HealthStatus::Healthy,
    };
    worse(ps, us)
}

/// The status of a write series: its pending wait against the thresholds.
pub open spec fn write_status_spec(pending: Option<Microseconds>, th: Thresholds) -> HealthStatus {
    match pending {
        Option::Some(p) => classify(p.0 as nat, th.pending_warning.0 as nat, th.pending_critical.0 as nat),
        Option::None => HealthStatus::Healthy,
    }
}

fn classify_exec(value: u64, warning: u64, critical: u64) -> (r: HealthStatus)
    ensures
        r == classify(value as nat, warning as nat, critical as nat),
{
    if value >= critical {
        HealthStatus::Critical
    } else if value >= warning {
        HealthStatus::Warning
    } else {
        HealthStatus::Healthy
    }
}

/// Compute the status of a read series.
pub fn compute_read_status(
    pending: Option<Microseconds>,
    unread: Option<u64>,
    th: &Thresholds,
) -> (r: HealthStatus)
    ensures
        r == read_status_spec(pending, unread, *th),
{
    let ps = match pending {
        Some(p) => classify_exec(p.0, th.pending_warning.0, th.pending_critical.0),
        None => HealthStatus::Healthy,
    };
    let us = match unread {
        Some(u) => classify_exec(u, th.unread_warning, th.unread_critical),
        None => HealthStatus::Healthy,
    };
    worse_exec(ps, us)
}

/// Compute the status of a write series.
pub fn compute_write_status(pending: Option<Microseconds>, th: &Thresholds) -> (r: HealthStatus)
    ensures
        r == write_status_spec(pending, *th),
{
    match pending {
        Some(p) => classify_exec(p.0, th.pending_warning.0, th.pending_critical.0),
        None => HealthStatus::Healthy,
    }
}

/// A read row: one topic a module reads, with its derived status.
#[derive(Debug, Clone, PartialEq)]
pub struct TopicRead {
    /// The topic name.
    pub topic: String,
    /// Messages read.
    pub read: u64,
    /// How long the read has been blocked, if it is.
    pub pending_for: Option<Microseconds>,
    /// Unread estimate, when one is known.
    pub unread: Option<u64>,
    /// Health of this series.
    pub status: HealthStatus,
}

/// A write row: one topic a module writes, with its derived status.
#[derive(Debug, Clone, PartialEq)]
pub struct TopicWrite {
    /// The topic name.
    pub topic: String,
    /// Messages written.
    pub written: u64,
    /// How long the write has been blocked, if it is.
    pub pending_for: Option<Microseconds>,
    /// Health of this series.
    pub status: HealthStatus,
}

/// A derived module row: its topic rows, totals and overall health.
#[derive(Debug, Clone, PartialEq)]
pub struct ModuleData {
    /// The module name.
    pub name: String,
    /// Read rows, worst status first, then by topic.
    pub reads: Vec<TopicRead>,
    /// Write rows, worst status first, then by topic.
    pub writes: Vec<TopicWrite>,
    /// Total messages read, saturating.
    pub total_read: u64,
    /// Total messages written, saturating.
    pub total_written: u64,
    /// The worst status of any of its topics.
    pub health: HealthStatus,
}

/// The derived view of a whole snapshot.
#[derive(Debug, Clone, PartialEq)]
pub struct MonitorData {
    /// Module rows, worst health first, then by name.
    pub modules: Vec<ModuleData>,
    /// When this data was derived, in microseconds.
    pub last_updated_micros: u64,
}

/// The display order of read rows: worse status first, ties by topic name.
pub open spec fn topic_read_le(a: TopicRead, b: TopicRead) -> bool {
    rank(a.status) > rank(b.status) || (rank(a.status) == rank(b.status) && lex_le(
        a.topic@,
        b.topic@,
    ))
}

/// The display order of write rows: worse status first, ties by topic name.
pub open spec fn topic_write_le(a: TopicWrite, b: TopicWrite) -> bool {
    rank(a.status) > rank(b.status) || (rank(a.status) == rank(b.status) && lex_le(
        a.topic@,
        b.topic@,
    ))
}

/// The display order of module rows: worse health first, ties by name.
pub open spec fn module_le(a: ModuleData, b: ModuleData) -> bool {
    rank(a.health) > rank(b.health) || (rank(a.health) == rank(b.health) && lex_le(
        a.name@,
        b.name@,
    ))
}

/// Any two read rows are ordered one way or the other.
proof fn lemma_topic_read_total(a: TopicRead, b: TopicRead)
    ensures
        topic_read_le(a, b) || topic_read_le(b, a),
{
    lemma_lex_trichotomy(a.topic@, b.topic@);
}

/// Any two write rows are ordered one way or the other.
proof fn lemma_topic_write_total(a: TopicWrite, b: TopicWrite)
    ensures
        topic_write_le(a, b) || topic_write_le(b, a),
{
    lemma_lex_trichotomy(a.topic@, b.topic@);
}

/// Any two module rows are ordered one way or the other.
proof fn lemma_module_le_total(a: ModuleData, b: ModuleData)
    ensures
        module_le(a, b) || module_le(b, a),
{
    lemma_lex_trichotomy(a.name@, b.name@);
}

fn topic_read_le_exec(a: &TopicRead, b: &TopicRead) -> (r: bool)
    ensures
        r == topic_read_le(*a, *b),
{
    let ra = a.status.severity();
    let rb = b.status.severity();
    if ra > rb {
        true
    } else if ra == rb {
        proof {
            lemma_lex_trichotomy(a.topic@, b.topic@);
        }
        !str_lt(b.topic.as_str(), a.topic.as_str())
    } else {
        false
    }
}

fn topic_write_le_exec(a: &TopicWrite, b: &TopicWrite) -> (r: bool)
    ensures
        r == topic_write_le(*a, *b),
{
    let ra = a.status.severity();
    let rb = b.status.severity();
    if ra > rb {
        true
    } else if ra == rb {
        proof {
            lemma_lex_trichotomy(a.topic@, b.topic@);
        }
        !str_lt(b.topic.as_str(), a.topic.as_str())
    } else {
        false
    }
}

fn module_le_exec(a: &ModuleData, b: &ModuleData) -> (r: bool)
    ensures
        r == module_le(*a, *b),
{
    let ra = a.health.severity();
    let rb = b.health.severity();
    if ra > rb {
        true
    } else if ra == rb {
        proof {
            lemma_lex_trichotomy(a.name@, b.name@);
        }
        !str_lt(b.name.as_str(), a.name.as_str())
    } else {
        false
    }
}

/// Read rows are transitively ordered.
proof fn lemma_topic_read_trans(a: TopicRead, b: TopicRead, c: TopicRead)
    requires
        topic_read_le(a, b),
        topic_read_le(b, c),
    ensures
        topic_read_le(a, c),
{
    if rank(a.status) == rank(b.status) && rank(b.status) == rank(c.status) {
        crate::strutil::lemma_lex_le_trans(a.topic@, b.topic@, c.topic@);
    }
}

/// Sort read rows into display order.
fn sort_topic_reads(v: Vec<TopicRead>) -> (r: Vec<TopicRead>)
    ensures
        r@.to_multiset() == v@.to_multiset(),
        r@.len() == v@.len(),
        forall|i: int, j: int| 0 <= i < j < r@.len() ==> topic_read_le(r@[i], r@[j]),
{
    let ghost orig = v@;
    let mut rest = v;
    let mut out: Vec<TopicRead> = Vec::new();
    while rest.len() > 0
        invariant
            out@.to_multiset().add(rest@.to_multiset()) == orig.to_multiset(),
            out@.len() + rest@.len() == orig.len(),
            forall|i: int, j: int| 0 <= i < j < out@.len() ==> topic_read_le(out@[i], out@[j]),
        decreases rest@.len(),
    {
        let ghost out0 = out@;
        let ghost rest0 = rest@;
        let x = rest.remove(0);
        let n = out.len();
        let mut pos: usize = 0;
        while pos < n && topic_read_le_exec(&out[pos], &x)
            invariant
                pos <= n,
                n == out@.len(),
                out@ == out0,
                forall|j: int| 0 <= j < pos ==> topic_read_le(out@[j], x),
            decreases n - pos,
        {
            pos = pos + 1;
        }
        proof {
            assert forall|j: int| pos <= j < n implies topic_read_le(x, out@[j]) by {
                lemma_topic_read_total(out@[pos as int], x);
                if pos < j {
                    lemma_topic_read_trans(x, out@[pos as int], out@[j]);
                }
            }
        }
        out.insert(pos, x);
        proof {
            out0.insert_ensures(pos as int, x);
            assert forall|i: int, j: int|
                0 <= i < j < out@.len() implies topic_read_le(out@[i], out@[j]) by {
                if j < pos {
                    assert(out@[i] == out0[i] && out@[j] == out0[j]);
                } else if i < pos && j == pos {
                    assert(out@[i] == out0[i] && out@[j] == x);
                } else if i < pos && j > pos {
                    assert(out@[i] == out0[i] && out@[j] == out0[j - 1]);
                } else if i == pos {
                    assert(out@[i] == x && out@[j] == out0[j - 1]);
                } else {
                    assert(out@[i] == out0[i - 1] && out@[j] == out0[j - 1]);
                }
            }
            assert(rest0.to_multiset().count(x) > 0) by {
                assert(rest0[0] == x);
            }
            assert(out@.to_multiset().add(rest@.to_multiset()) =~= orig.to_multiset());
        }
    }
    proof {
        assert(out@.to_multiset() =~= orig.to_multiset()) by {
            assert(rest@.len() == 0);
            assert(rest@.to_multiset().len() == 0);
        }
    }
    out
}

/// Write rows are transitively ordered.
proof fn lemma_topic_write_trans(a: TopicWrite, b: TopicWrite, c: TopicWrite)
    requires
        topic_write_le(a, b),
        topic_write_le(b, c),
    ensures
        topic_write_le(a, c),
{
    if rank(a.status) == rank(b.status) && rank(b.status) == rank(c.status) {
        crate::strutil::lemma_lex_le_trans(a.topic@, b.topic@, c.topic@);
    }
}

/// Module rows are transitively ordered.
proof fn lemma_module_le_trans(a: ModuleData, b: ModuleData, c: ModuleData)
    requires
        module_le(a, b),
        module_le(b, c),
    ensures
        module_le(a, c),
{
    if rank(a.health) == rank(b.health) && rank(b.health) == rank(c.health) {
        crate::strutil::lemma_lex_le_trans(a.name@, b.name@, c.name@);
    }
}

/// Sort write rows into display order.
fn sort_topic_writes(v: Vec<TopicWrite>) -> (r: Vec<TopicWrite>)
    ensures
        r@.to_multiset() == v@.to_multiset(),
        r@.len() == v@.len(),
        forall|i: int, j: int| 0 <= i < j < r@.len() ==> topic_write_le(r@[i], r@[j]),
{
    let ghost orig = v@;
    let mut rest = v;
    let mut out: Vec<TopicWrite> = Vec::new();
    while rest.len() > 0
        invariant
            out@.to_multiset().add(rest@.to_multiset()) == orig.to_multiset(),
            out@.len() + rest@.len() == orig.len(),
            forall|i: int, j: int| 0 <= i < j < out@.len() ==> topic_write_le(out@[i], out@[j]),
        decreases rest@.len(),
    {
        let ghost out0 = out@;
        let ghost rest0 = rest@;
        let x = rest.remove(0);
        let n = out.len();
        let mut pos: usize = 0;
        while pos < n && topic_write_le_exec(&out[pos], &x)
            invariant
                pos <= n,
                n == out@.len(),
                out@ == out0,
                forall|j: int| 0 <= j < pos ==> topic_write_le(out@[j], x),
            decreases n - pos,
        {
            pos = pos + 1;
        }
        proof {
            assert forall|j: int| pos <= j < n implies topic_write_le(x, out@[j]) by {
                lemma_topic_write_total(out@[pos as int], x);
                if pos < j {
                    lemma_topic_write_trans(x, out@[pos as int], out@[j]);
                }
            }
        }
        out.insert(pos, x);
        proof {
            out0.insert_ensures(pos as int, x);
            assert forall|i: int, j: int|
                0 <= i < j < out@.len() implies topic_write_le(out@[i], out@[j]) by {
                if j < pos {
                    assert(out@[i] == out0[i] && out@[j] == out0[j]);
                } else if i < pos && j == pos {
                    assert(out@[i] == out0[i] && out@[j] == x);
                } else if i < pos && j > pos {
                    assert(out@[i] == out0[i] && out@[j] == out0[j - 1]);
                } else if i == pos {
                    assert(out@[i] == x && out@[j] == out0[j - 1]);
                } else {
                    assert(out@[i] == out0[i - 1] && out@[j] == out0[j - 1]);
                }
            }
            assert(rest0.to_multiset().count(x) > 0) by {
                assert(rest0[0] == x);
            }
            assert(out@.to_multiset().add(rest@.to_multiset()) =~= orig.to_multiset());
        }
    }
    proof {
        assert(out@.to_multiset() =~= orig.to_multiset()) by {
            assert(rest@.len() == 0);
            assert(rest@.to_multiset().len() == 0);
        }
    }
    out
}

/// Sort module rows into display order.
fn sort_module_rows(v: Vec<ModuleData>) -> (r: Vec<ModuleData>)
    ensures
        r@.to_multiset() == v@.to_multiset(),
        r@.len() == v@.len(),
        forall|i: int, j: int| 0 <= i < j < r@.len() ==> module_le(r@[i], r@[j]),
{
    let ghost orig = v@;
    let mut rest = v;
    let mut out: Vec<ModuleData> = Vec::new();
    while rest.len() > 0
        invariant
            out@.to_multiset().add(rest@.to_multiset()) == orig.to_multiset(),
            out@.len() + rest@.len() == orig.len(),
            forall|i: int, j: int| 0 <= i < j < out@.len() ==> module_le(out@[i], out@[j]),
        decreases rest@.len(),
    {
        let ghost out0 = out@;
        let ghost rest0 = rest@;
        let x = rest.remove(0);
        let n = out.len();
        let mut pos: usize = 0;
        while pos < n && module_le_exec(&out[pos], &x)
            invariant
                pos <= n,
                n == out@.len(),
                out@ == out0,
                forall|j: int| 0 <= j < pos ==> module_le(out@[j], x),
            decreases n - pos,
        {
            pos = pos + 1;
        }
        proof {
            assert forall|j: int| pos <= j < n implies module_le(x, out@[j]) by {
                lemma_module_le_total(out@[pos as int], x);
                if pos < j {
                    lemma_module_le_trans(x, out@[pos as int], out@[j]);
                }
            }
        }
        out.insert(pos, x);
        proof {
            out0.insert_ensures(pos as int, x);
            assert forall|i: int, j: int|
                0 <= i < j < out@.len() implies module_le(out@[i], out@[j]) by {
                if j < pos {
                    assert(out@[i] == out0[i] && out@[j] == out0[j]);
                } else if i < pos && j == pos {
                    assert(out@[i] == out0[i] && out@[j] == x);
                } else if i < pos && j > pos {
                    assert(out@[i] == out0[i] && out@[j] == out0[j - 1]);
                } else if i == pos {
                    assert(out@[i] == x && out@[j] == out0[j - 1]);
                } else {
                    assert(out@[i] == out0[i - 1] && out@[j] == out0[j - 1]);
                }
            }
            assert(rest0.to_multiset().count(x) > 0) by {
                assert(rest0[0] == x);
            }
            assert(out@.to_multiset().add(rest@.to_multiset()) =~= orig.to_multiset());
        }
    }
    proof {
        assert(out@.to_multiset() =~= orig.to_multiset()) by {
            assert(rest@.len() == 0);
            assert(rest@.to_multiset().len() == 0);
        }
    }
    out
}

/// A read row reports exactly one topic's metrics and its derived status.
pub open spec fn topic_read_matches(
    tr: TopicRead,
    k: Seq<char>,
    rm: ReadMetrics,
    th: Thresholds,
) -> bool {
    &&& tr.topic@ == k
    &&& tr.read == rm.count
    &&& tr.pending_for == rm.pending
    &&& tr.unread == rm.backlog
    &&& tr.status == read_status_spec(rm.pending, rm.backlog, th)
}

/// A write row reports exactly one topic's metrics and its derived status.
pub open spec fn topic_write_matches(
    tw: TopicWrite,
    k: Seq<char>,
    wm: WriteMetrics,
    th: Thresholds,
) -> bool {
    &&& tw.topic@ == k
    &&& tw.written == wm.count
    &&& tw.pending_for == wm.pending
    &&& tw.status == write_status_spec(wm.pending, th)
}

/// The worst status among a sequence of read series.
pub open spec fn worst_read_status(s: Seq<ReadMetrics>, th: Thresholds) -> HealthStatus
    decreases s.len(),
{
    if s.len() == 0 {
        HealthStatus::Healthy
    } else {
        worse(
            worst_read_status(s.drop_last(), th),
            read_status_spec(s.last().pending, s.last().backlog, th),
        )
    }
}

/// The worst status among a sequence of write series.
pub open spec fn worst_write_status(s: Seq<WriteMetrics>, th: Thresholds) -> HealthStatus
    decreases s.len(),
{
    if s.len() == 0 {
        HealthStatus::Healthy
    } else {
        worse(worst_write_status(s.drop_last(), th), write_status_spec(s.last().pending, th))
    }
}

/// A module row faithfully derives one module's metrics: name, saturated
/// totals, worst-of-topics health, and one sorted row per topic on each
/// side.
pub open spec fn module_row_matches(
    md: ModuleData,
    name: Seq<char>,
    mm: crate::metrics::ModuleMetrics,
    th: Thresholds,
) -> bool {
    &&& md.name@ == name
    &&& (crate::metrics::sum_read_counts(mm.reads.val_seq()) <= u64::MAX ==> md.total_read
        == crate::metrics::sum_read_counts(mm.reads.val_seq()))
    &&& (crate::metrics::sum_read_counts(mm.reads.val_seq()) > u64::MAX ==> md.total_read
        == u64::MAX)
    &&& (crate::metrics::sum_write_counts(mm.writes.val_seq()) <= u64::MAX ==> md.total_written
        == crate::metrics::sum_write_counts(mm.writes.val_seq()))
    &&& (crate::metrics::sum_write_counts(mm.writes.val_seq()) > u64::MAX ==> md.total_written
        == u64::MAX)
    &&& md.health == worse(
        worst_read_status(mm.reads.val_seq(), th),
        worst_write_status(mm.writes.val_seq(), th),
    )
    &&& md.reads@.len() == mm.reads.spec_len()
    &&& md.writes@.len() == mm.writes.spec_len()
    &&& (forall|i: int, j: int| 0 <= i < j < md.reads@.len() ==> topic_read_le(md.reads@[i], md.reads@[j]))
    &&& (forall|i: int, j: int|
        0 <= i < j < md.writes@.len() ==> topic_write_le(md.writes@[i], md.writes@[j]))
    &&& (forall|b: int|
        0 <= b < mm.reads.spec_len() ==> exists|a: int|
            0 <= a < md.reads@.len() && topic_read_matches(
                #[trigger] md.reads@[a],
                mm.reads.key_seq()[b],
                #[trigger] mm.reads.val_seq()[b],
                th,
            ))
    &&& (forall|b: int|
        0 <= b < mm.writes.spec_len() ==> exists|a: int|
            0 <= a < md.writes@.len() && topic_write_matches(
                #[trigger] md.writes@[a],
                mm.writes.key_seq()[b],
                #[trigger] mm.writes.val_seq()[b],
                th,
            ))
}

/// Derive one module's row from its metrics.
fn derive_module(name: &String, mm: &crate::metrics::ModuleMetrics, th: &Thresholds) -> (md:
    ModuleData)
    requires
        mm.wf(),
    ensures
        module_row_matches(md, name@, *mm, *th),
{
    let nr = mm.reads.len();
    let mut reads: Vec<TopicRead> = Vec::new();
    let mut total_read: u64 = 0;
    let mut health = HealthStatus::Healthy;
    let mut i: usize = 0;
    while i < nr
        invariant
            i <= nr,
            nr == mm.reads.spec_len(),
            mm.wf(),
            reads@.len() == i,
            forall|j: int|
                0 <= j < i ==> topic_read_matches(
                    #[trigger] reads@[j],
                    mm.reads.key_seq()[j],
                    mm.reads.val_seq()[j],
                    *th,
                ),
            crate::metrics::sum_read_counts(mm.reads.val_seq().take(i as int)) <= u64::MAX
                ==> total_read == crate::metrics::sum_read_counts(
                mm.reads.val_seq().take(i as int),
            ),
            crate::metrics::sum_read_counts(mm.reads.val_seq().take(i as int)) > u64::MAX
                ==> total_read == u64::MAX,
            health == worst_read_status(mm.reads.val_seq().take(i as int), *th),
        decreases nr - i,
    {
        proof {
            assert(mm.reads.val_seq().take(i + 1).drop_last() =~= mm.reads.val_seq().take(i as int));
        }
        let topic = mm.reads.key_at(i).clone();
        let rm = *mm.reads.val_at(i);
        let status = compute_read_status(rm.pending, rm.backlog, th);
        reads.push(TopicRead {
            topic,
            read: rm.count,
            pending_for: rm.pending,
            unread: rm.backlog,
            status,
        });
        if total_read > u64::MAX - rm.count {
            total_read = u64::MAX;
        } else {
            total_read = total_read + rm.count;
        }
        health = worse_exec(health, status);
        i = i + 1;
    }
    proof {
        assert(mm.reads.val_seq().take(nr as int) =~= mm.reads.val_seq());
    }

    let nw = mm.writes.len();
    let mut writes: Vec<TopicWrite> = Vec::new();
    let mut total_written: u64 = 0;
    let mut whealth = HealthStatus::Healthy;
    let mut w: usize = 0;
    while w < nw
        invariant
            w <= nw,
            nw == mm.writes.spec_len(),
            mm.wf(),
            writes@.len() == w,
            forall|j: int|
                0 <= j < w ==> topic_write_matches(
                    #[trigger] writes@[j],
                    mm.writes.key_seq()[j],
                    mm.writes.val_seq()[j],
                    *th,
                ),
            crate::metrics::sum_write_counts(mm.writes.val_seq().take(w as int)) <= u64::MAX
                ==> total_written == crate::metrics::sum_write_counts(
                mm.writes.val_seq().take(w as int),
            ),
            crate::metrics::sum_write_counts(mm.writes.val_seq().take(w as int)) > u64::MAX
                ==> total_written == u64::MAX,
            whealth == worst_write_status(mm.writes.val_seq().take(w as int), *th),
        decreases nw - w,
    {
        proof {
            assert(mm.writes.val_seq().take(w + 1).drop_last() =~= mm.writes.val_seq().take(
                w as int,
            ));
        }
        let topic = mm.writes.key_at(w).clone();
        let wm = *mm.writes.val_at(w);
        let status = compute_write_status(wm.pending, th);
        writes.push(TopicWrite { topic, written: wm.count, pending_for: wm.pending, status });
        if total_written > u64::MAX - wm.count {
            total_written = u64::MAX;
        } else {
            total_written = total_written + wm.count;
        }
        whealth = worse_exec(whealth, status);
        w = w + 1;
    }
    proof {
        assert(mm.writes.val_seq().take(nw as int) =~= mm.writes.val_seq());
    }

    let ghost reads0 = reads@;
    let ghost writes0 = writes@;
    let reads = sort_topic_reads(reads);
    let writes = sort_topic_writes(writes);
    let md = ModuleData {
        name: name.clone(),
        reads,
        writes,
        total_read,
        total_written,
        health: worse_exec(health, whealth),
    };
    proof {
        assert forall|b: int| 0 <= b < mm.reads.spec_len() implies exists|a: int|
            0 <= a < md.reads@.len() && topic_read_matches(
                #[trigger] md.reads@[a],
                mm.reads.key_seq()[b],
                #[trigger] mm.reads.val_seq()[b],
                *th,
            ) by {
            assert(md.reads@.to_multiset() == reads0.to_multiset());
            assert(reads0.contains(reads0[b]));
            assert(reads0.to_multiset().count(reads0[b]) > 0);
            assert(md.reads@.to_multiset().count(reads0[b]) > 0);
            assert(md.reads@.contains(reads0[b]));
            let a = choose|a: int| 0 <= a < md.reads@.len() && md.reads@[a] == reads0[b];
            assert(topic_read_matches(md.reads@[a], mm.reads.key_seq()[b], mm.reads.val_seq()[b], *th));
        }
        assert forall|b: int| 0 <= b < mm.writes.spec_len() implies exists|a: int|
            0 <= a < md.writes@.len() && topic_write_matches(
                #[trigger] md.writes@[a],
                mm.writes.key_seq()[b],
                #[trigger] mm.writes.val_seq()[b],
                *th,
            ) by {
            assert(md.writes@.to_multiset() == writes0.to_multiset());
            assert(writes0.contains(writes0[b]));
            assert(writes0.to_multiset().count(writes0[b]) > 0);
            assert(md.writes@.to_multiset().count(writes0[b]) > 0);
            assert(md.writes@.contains(writes0[b]));
            let a = choose|a: int| 0 <= a < md.writes@.len() && md.writes@[a] == writes0[b];
            assert(topic_write_matches(md.writes@[a], mm.writes.key_seq()[b], mm.writes.val_seq()[b], *th));
        }
        assert(module_row_matches(md, name@, *mm, *th));
    }
    md
}

/// Some row of the derived data derives the given module.
pub open spec fn has_row_for(
    r: MonitorData,
    name: Seq<char>,
    mm: crate::metrics::ModuleMetrics,
    th: Thresholds,
) -> bool {
    exists|a: int|
        0 <= a < r.modules@.len() && module_row_matches(#[trigger] r.modules@[a], name, mm, th)
}

impl MonitorData {
    /// Derive the full monitor view from a snapshot at the given instant:
    /// one row per module, each derived per `module_row_matches`, sorted
    /// worst health first and then by name.
    pub fn from_snapshot(snapshot: &Snapshot, thresholds: &Thresholds, now_micros: u64) -> (r:
        MonitorData)
        requires
            snapshot.wf(),
        ensures
            r.last_updated_micros == now_micros,
            r.modules@.len() == snapshot.modules.spec_len(),
            forall|i: int, j: int|
                0 <= i < j < r.modules@.len() ==> module_le(r.modules@[i], r.modules@[j]),
            forall|b: int|
                0 <= b < snapshot.modules.spec_len() ==> has_row_for(
                    r,
                    snapshot.modules.key_seq()[b],
                    #[trigger] snapshot.modules.val_seq()[b],
                    *thresholds,
                ),
    {
        let n = snapshot.modules.len();
        let mut rows: Vec<ModuleData> = Vec::new();
        let mut i: usize = 0;
        while i < n
            invariant
                i <= n,
                n == snapshot.modules.spec_len(),
                snapshot.wf(),
                rows@.len() == i,
                forall|j: int|
                    0 <= j < i ==> module_row_matches(
                        #[trigger] rows@[j],
                        snapshot.modules.key_seq()[j],
                        snapshot.modules.val_seq()[j],
                        *thresholds,
                    ),
            decreases n - i,
        {
            let name = snapshot.modules.key_at(i);
            let mm = snapshot.modules.val_at(i);
            let md = derive_module(name, mm, thresholds);
            rows.push(md);
            i = i + 1;
        }
        let ghost rows0 = rows@;
        let rows = sort_module_rows(rows);
        let result = MonitorData { modules: rows, last_updated_micros: now_micros };
        proof {
            assert forall|b: int| 0 <= b < snapshot.modules.spec_len() implies has_row_for(
                result,
                snapshot.modules.key_seq()[b],
                #[trigger] snapshot.modules.val_seq()[b],
                *thresholds,
            ) by {
                assert(result.modules@.to_multiset() == rows0.to_multiset());
                assert(rows0.contains(rows0[b]));
                assert(rows0.to_multiset().count(rows0[b]) > 0);
                assert(result.modules@.to_multiset().count(rows0[b]) > 0);
                assert(result.modules@.contains(rows0[b]));
                let a = choose|a: int| 0 <= a < result.modules@.len() && result.modules@[a] == rows0[b];
                assert(module_row_matches(
                    result.modules@[a],
                    snapshot.modules.key_seq()[b],
                    snapshot.modules.val_seq()[b],
                    *thresholds,
                ));
            }
        }
        result
    }
}

/// An unhealthy topic row: a read or a write side.
#[derive(Debug, Clone, PartialEq)]
pub enum UnhealthyTopic {
    /// An unhealthy read series.
    Read(TopicRead),
    /// An unhealthy write series.
    Write(TopicWrite),
}

impl UnhealthyTopic {
    /// The status of the row.
    pub open spec fn spec_status(self) -> HealthStatus {
        match self {
            UnhealthyTopic::Read(r) => r.status,
            UnhealthyTopic::Write(w) => w.status,
        }
    }

    /// The status of the row.
    pub fn status(&self) -> (r: HealthStatus)
        ensures
            r == self.spec_status(),
    {
        match self {
            UnhealthyTopic::Read(r) => r.status,
            UnhealthyTopic::Write(w) => w.status,
        }
    }

    /// The topic of the row.
    pub fn topic(&self) -> (r: &str)
        ensures
            self matches UnhealthyTopic::Read(t) ==> r@ == t.topic@,
            self matches UnhealthyTopic::Write(t) ==> r@ == t.topic@,
    {
        match self {
            UnhealthyTopic::Read(r) => r.topic.as_str(),
            UnhealthyTopic::Write(w) => w.topic.as_str(),
        }
    }

    /// How long the row has been pending, if it is.
    pub fn pending_for(&self) -> (r: Option<Microseconds>)
        ensures
            self matches UnhealthyTopic::Read(t) ==> r == t.pending_for,
            self matches UnhealthyTopic::Write(t) ==> r == t.pending_for,
    {
        match self {
            UnhealthyTopic::Read(r) => r.pending_for,
            UnhealthyTopic::Write(w) => w.pending_for,
        }
    }
}

/// Bottleneck entries are ordered worst status first.
pub open spec fn unhealthy_le(a: (usize, UnhealthyTopic), b: (usize, UnhealthyTopic)) -> bool {
    rank(a.1.spec_status()) >= rank(b.1.spec_status())
}

fn unhealthy_le_exec(a: &(usize, UnhealthyTopic), b: &(usize, UnhealthyTopic)) -> (r: bool)
    ensures
        r == unhealthy_le(*a, *b),
{
    a.1.status().severity() >= b.1.status().severity()
}

/// Sort bottleneck entries worst first.
fn sort_unhealthy(v: Vec<(usize, UnhealthyTopic)>) -> (r: Vec<(usize, UnhealthyTopic)>)
    ensures
        r@.to_multiset() == v@.to_multiset(),
        r@.len() == v@.len(),
        forall|i: int, j: int| 0 <= i < j < r@.len() ==> unhealthy_le(r@[i], r@[j]),
{
    let ghost orig = v@;
    let mut rest = v;
    let mut out: Vec<(usize, UnhealthyTopic)> = Vec::new();
    while rest.len() > 0
        invariant
            out@.to_multiset().add(rest@.to_multiset()) == orig.to_multiset(),
            out@.len() + rest@.len() == orig.len(),
            forall|i: int, j: int| 0 <= i < j < out@.len() ==> unhealthy_le(out@[i], out@[j]),
        decreases rest@.len(),
    {
        let ghost out0 = out@;
        let ghost rest0 = rest@;
        let x = rest.remove(0);
        let n = out.len();
        let mut pos: usize = 0;
        while pos < n && unhealthy_le_exec(&out[pos], &x)
            invariant
                pos <= n,
                n == out@.len(),
                out@ == out0,
                forall|j: int| 0 <= j < pos ==> unhealthy_le(out@[j], x),
            decreases n - pos,
        {
            pos = pos + 1;
        }
        proof {
            assert forall|j: int| pos <= j < n implies unhealthy_le(x, out@[j]) by {
                assert(!unhealthy_le(out@[pos as int], x));
                if pos < j {
                    assert(unhealthy_le(out@[pos as int], out@[j]));
                }
            }
        }
        out.insert(pos, x);
        proof {
            out0.insert_ensures(pos as int, x);
            assert forall|i: int, j: int|
                0 <= i < j < out@.len() implies unhealthy_le(out@[i], out@[j]) by {
                if j < pos {
                    assert(out@[i] == out0[i] && out@[j] == out0[j]);
                } else if i < pos && j == pos {
                    assert(out@[i] == out0[i] && out@[j] == x);
                } else if i < pos && j > pos {
                    assert(out@[i] == out0[i] && out@[j] == out0[j - 1]);
                } else if i == pos {
                    assert(out@[i] == x && out@[j] == out0[j - 1]);
                } else {
                    assert(out@[i] == out0[i - 1] && out@[j] == out0[j - 1]);
                }
            }
            assert(rest0.to_multiset().count(x) > 0) by {
                assert(rest0[0] == x);
            }
            assert(out@.to_multiset().add(rest@.to_multiset()) =~= orig.to_multiset());
        }
    }
    proof {
        assert(out@.to_multiset() =~= orig.to_multiset()) by {
            assert(rest@.len() == 0);
            assert(rest@.to_multiset().len() == 0);
        }
    }
    out
}

/// Copy a read row field by field.
fn clone_topic_read(t: &TopicRead) -> (r: TopicRead)
    ensures
        r == *t,
{
    TopicRead {
        topic: t.topic.clone(),
        read: t.read,
        pending_for: t.pending_for,
        unread: t.unread,
        status: t.status,
    }
}

/// Copy a write row field by field.
fn clone_topic_write(t: &TopicWrite) -> (r: TopicWrite)
    ensures
        r == *t,
{
    TopicWrite {
        topic: t.topic.clone(),
        written: t.written,
        pending_for: t.pending_for,
        status: t.status,
    }
}

/// An entry is an unhealthy row of its module in this data.
pub open spec fn unhealthy_entry_ok(data: MonitorData, e: (usize, UnhealthyTopic)) -> bool {
    &&& (e.0 as int) < data.modules@.len()
    &&& !(e.1.spec_status() is Healthy)
    &&& (e.1 matches UnhealthyTopic::Read(row) ==> data.modules@[e.0 as int].reads@.contains(row))
    &&& (e.1 matches UnhealthyTopic::Write(row) ==> data.modules@[e.0 as int].writes@.contains(
        row,
    ))
}

impl MonitorData {
    /// Every unhealthy (module, topic) pair, as (module index, row) pairs,
    /// worst status first.  Sound: every entry is an unhealthy row of its
    /// module.  Complete: every unhealthy row of every module appears.
    pub fn unhealthy_topics(&self) -> (r: Vec<(usize, UnhealthyTopic)>)
        ensures
            forall|k: int, l: int| 0 <= k < l < r@.len() ==> unhealthy_le(r@[k], r@[l]),
            forall|k: int| 0 <= k < r@.len() ==> unhealthy_entry_ok(*self, #[trigger] r@[k]),
            forall|mi: int, j: int|
                0 <= mi < self.modules@.len() && 0 <= j < self.modules@[mi].reads@.len() && !((
                #[trigger] self.modules@[mi].reads@[j]).status is Healthy) ==> r@.contains(
                    (mi as usize, UnhealthyTopic::Read(self.modules@[mi].reads@[j])),
                ),
            forall|mi: int, j: int|
                0 <= mi < self.modules@.len() && 0 <= j < self.modules@[mi].writes@.len() && !((
                #[trigger] self.modules@[mi].writes@[j]).status is Healthy) ==> r@.contains(
                    (mi as usize, UnhealthyTopic::Write(self.modules@[mi].writes@[j])),
                ),
    {
        let nm = self.modules.len();
        let mut acc: Vec<(usize, UnhealthyTopic)> = Vec::new();
        let mut mi: usize = 0;
        while mi < nm
            invariant
                mi <= nm,
                nm == self.modules@.len(),
                forall|k: int| 0 <= k < acc@.len() ==> unhealthy_entry_ok(*self, #[trigger] acc@[k]),
                forall|m: int, j: int|
                    0 <= m < mi && 0 <= j < self.modules@[m].reads@.len() && !((
                    #[trigger] self.modules@[m].reads@[j]).status is Healthy) ==> acc@.contains(
                        (m as usize, UnhealthyTopic::Read(self.modules@[m].reads@[j])),
                    ),
                forall|m: int, j: int|
                    0 <= m < mi && 0 <= j < self.modules@[m].writes@.len() && !((
                    #[trigger] self.modules@[m].writes@[j]).status is Healthy) ==> acc@.contains(
                        (m as usize, UnhealthyTopic::Write(self.modules@[m].writes@[j])),
                    ),
            decreases nm - mi,
        {
            let nr = self.modules[mi].reads.len();
            let mut j: usize = 0;
            while j < nr
                invariant
                    j <= nr,
                    mi < nm,
                    nm == self.modules@.len(),
                    nr == self.modules@[mi as int].reads@.len(),
                    forall|k: int|
                        0 <= k < acc@.len() ==> unhealthy_entry_ok(*self, #[trigger] acc@[k]),
                    forall|m: int, jj: int|
                        0 <= m < mi && 0 <= jj < self.modules@[m].reads@.len() && !((
                        #[trigger] self.modules@[m].reads@[jj]).status is Healthy)
                            ==> acc@.contains(
                            (m as usize, UnhealthyTopic::Read(self.modules@[m].reads@[jj])),
                        ),
                    forall|m: int, jj: int|
                        0 <= m < mi && 0 <= jj < self.modules@[m].writes@.len() && !((
                        #[trigger] self.modules@[m].writes@[jj]).status is Healthy)
                            ==> acc@.contains(
                            (m as usize, UnhealthyTopic::Write(self.modules@[m].writes@[jj])),
                        ),
                    forall|jj: int|
                        0 <= jj < j && !((#[trigger] self.modules@[mi as int].reads@[jj]).status
                            is Healthy) ==> acc@.contains(
                            (mi, UnhealthyTopic::Read(self.modules@[mi as int].reads@[jj])),
                        ),
                decreases nr - j,
            {
                let ghost acc0 = acc@;
                let is_unhealthy = match self.modules[mi].reads[j].status {
                    HealthStatus::Healthy => false,
                    _ => true,
                };
                if is_unhealthy {
                    let row = clone_topic_read(&self.modules[mi].reads[j]);
                    acc.push((mi, UnhealthyTopic::Read(row)));
                    proof {
                        let e = (mi, UnhealthyTopic::Read(self.modules@[mi as int].reads@[j as int]));
                        assert(acc@ == acc0.push(e));
                        assert(acc@[acc0.len() as int] == e);
                        assert(acc@.contains(e));
                        assert(self.modules@[mi as int].reads@.contains(
                            self.modules@[mi as int].reads@[j as int],
                        ));
                        assert forall|k: int|
                            0 <= k < acc@.len() implies unhealthy_entry_ok(
                            *self,
                            #[trigger] acc@[k],
                        ) by {
                            if k < acc0.len() {
                                assert(acc@[k] == acc0[k]);
                            }
                        }
                        assert forall|q: (usize, UnhealthyTopic)|
                            acc0.contains(q) implies acc@.contains(q) by {
                            let w = choose|w: int| 0 <= w < acc0.len() && acc0[w] == q;
                            assert(acc@[w] == q);
                        }
                    }
                }
                j = j + 1;
            }
            let nw = self.modules[mi].writes.len();
            let mut v: usize = 0;
            while v < nw
                invariant
                    v <= nw,
                    mi < nm,
                    nm == self.modules@.len(),
                    nw == self.modules@[mi as int].writes@.len(),
                    forall|k: int|
                        0 <= k < acc@.len() ==> unhealthy_entry_ok(*self, #[trigger] acc@[k]),
                    forall|m: int, jj: int|
                        0 <= m < mi && 0 <= jj < self.modules@[m].reads@.len() && !((
                        #[trigger] self.modules@[m].reads@[jj]).status is Healthy)
                            ==> acc@.contains(
                            (m as usize, UnhealthyTopic::Read(self.modules@[m].reads@[jj])),
                        ),
                    forall|m: int, jj: int|
                        0 <= m < mi && 0 <= jj < self.modules@[m].writes@.len() && !((
                        #[trigger] self.modules@[m].writes@[jj]).status is Healthy)
                            ==> acc@.contains(
                            (m as usize, UnhealthyTopic::Write(self.modules@[m].writes@[jj])),
                        ),
                    forall|jj: int|
                        0 <= jj < self.modules@[mi as int].reads@.len() && !((
                        #[trigger] self.modules@[mi as int].reads@[jj]).status is Healthy)
                            ==> acc@.contains(
                            (mi, UnhealthyTopic::Read(self.modules@[mi as int].reads@[jj])),
                        ),
                    forall|jj: int|
                        0 <= jj < v && !((#[trigger] self.modules@[mi as int].writes@[jj]).status
                            is Healthy) ==> acc@.contains(
                            (mi, UnhealthyTopic::Write(self.modules@[mi as int].writes@[jj])),
                        ),
                decreases nw - v,
            {
                let ghost acc0 = acc@;
                let is_unhealthy = match self.modules[mi].writes[v].status {
                    HealthStatus::Healthy => false,
                    _ => true,
                };
                if is_unhealthy {
                    let row = clone_topic_write(&self.modules[mi].writes[v]);
                    acc.push((mi, UnhealthyTopic::Write(row)));
                    proof {
                        let e = (mi, UnhealthyTopic::Write(self.modules@[mi as int].writes@[v as int]));
                        assert(acc@ == acc0.push(e));
                        assert(acc@[acc0.len() as int] == e);
                        assert(acc@.contains(e));
                        assert(self.modules@[mi as int].writes@.contains(
                            self.modules@[mi as int].writes@[v as int],
                        ));
                        assert forall|k: int|
                            0 <= k < acc@.len() implies unhealthy_entry_ok(
                            *self,
                            #[trigger] acc@[k],
                        ) by {
                            if k < acc0.len() {
                                assert(acc@[k] == acc0[k]);
                            }
                        }
                        assert forall|q: (usize, UnhealthyTopic)|
                            acc0.contains(q) implies acc@.contains(q) by {
                            let w = choose|w: int| 0 <= w < acc0.len() && acc0[w] == q;
                            assert(acc@[w] == q);
                        }
                    }
                }
                v = v + 1;
            }
            mi = mi + 1;
        }
        let ghost accg = acc@;
        let r = sort_unhealthy(acc);
        proof {
            assert forall|k: int| 0 <= k < r@.len() implies unhealthy_entry_ok(
                *self,
                #[trigger] r@[k],
            ) by {
                assert(r@.to_multiset().count(r@[k]) > 0);
                assert(accg.to_multiset().count(r@[k]) > 0);
                assert(accg.contains(r@[k]));
                let w = choose|w: int| 0 <= w < accg.len() && accg[w] == r@[k];
                assert(unhealthy_entry_ok(*self, accg[w]));
            }
            assert forall|q: (usize, UnhealthyTopic)| accg.contains(q) implies r@.contains(q) by {
                assert(accg.to_multiset().count(q) > 0);
                assert(r@.to_multiset().count(q) > 0);
            }
        }
        r
    }
}

} // verus!
