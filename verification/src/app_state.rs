//! Application state and navigation for the terminal monitor: views,
//! selection, sorting, filtering and the keyboard/mouse state machine.

use vstd::prelude::*;
use crate::history::History;
use crate::monitor::{rank, HealthStatus, ModuleData, MonitorData, Thresholds, TopicRead, TopicWrite, UnhealthyTopic};
use crate::snapshot::Snapshot;
use crate::strutil::{lex_le, lex_lt, lower_of, lowercase, str_contains, str_lt, contains_seq,
    lemma_lex_trichotomy, lemma_lex_le_trans};

verus! {

broadcast use vstd::seq_lib::group_to_multiset_ensures;

/// The current view of the monitor.
#[derive(Debug, Clone, Copy, PartialEq, Eq, Structural)]
pub enum ViewKind {
    /// Overview of all modules with health status.
    Summary,
    /// Topics with pending reads/writes that need attention.
    Bottleneck,
    /// Adjacency matrix of producer/consumer relationships.
    DataFlow,
}

impl ViewKind {
    /// The view after this one in the cycle.
    pub open spec fn spec_next(self) -> ViewKind {
        match self {
            ViewKind::Summary => ViewKind::Bottleneck,
            ViewKind::Bottleneck => ViewKind::DataFlow,
            ViewKind::DataFlow => ViewKind::Summary,
        }
    }

    /// The view before this one in the cycle.
    pub open spec fn spec_prev(self) -> ViewKind {
        match self {
            ViewKind::Summary => ViewKind::DataFlow,
            ViewKind::Bottleneck => ViewKind::Summary,
            ViewKind::DataFlow => ViewKind::Bottleneck,
        }
    }

    /// Cycle to the next view.
    pub fn next(self) -> (r: ViewKind)
        ensures
            r == self.spec_next(),
    {
        match self {
            ViewKind::Summary => ViewKind::Bottleneck,
            ViewKind::Bottleneck => ViewKind::DataFlow,
            ViewKind::DataFlow => ViewKind::Summary,
        }
    }

    /// Cycle to the previous view.
    pub fn prev(self) -> (r: ViewKind)
        ensures
            r == self.spec_prev(),
    {
        match self {
            ViewKind::Summary => ViewKind::DataFlow,
            ViewKind::Bottleneck => ViewKind::Summary,
            ViewKind::DataFlow => ViewKind::Bottleneck,
        }
    }

    /// The display label of this view.
    pub fn label(&self) -> (r: &'static str)
        ensures
            *self is Summary ==> r@ == "Summary"@,
            *self is Bottleneck ==> r@ == "Bottlenecks"@,
            *self is DataFlow ==> r@ == "Flow"@,
    {
        match self {
            ViewKind::Summary => "Summary",
            ViewKind::Bottleneck => "Bottlenecks",
            ViewKind::DataFlow => "Flow",
        }
    }
}

/// Saved navigation state, for returning to a previous view.
#[derive(Debug, Clone, Copy, PartialEq)]
pub struct ViewState {
    /// The view that was active.
    pub view: ViewKind,
    /// The selected module index in that view.
    pub selected_module_index: usize,
    /// The selected topic index (for the bottleneck view).
    pub selected_topic_index: usize,
}

/// The column the summary view is sorted by.
#[derive(Debug, Clone, Copy, PartialEq, Eq, Structural)]
pub enum SortColumn {
    /// By module name.
    Name,
    /// By total read count.
    Reads,
    /// By total write count.
    Writes,
    /// By the longest pending wait of any topic.
    Pending,
    /// By health status.
    Status,
}

impl SortColumn {
    /// The column after this one in the cycle.
    pub open spec fn spec_next(self) -> SortColumn {
        match self {
            SortColumn::Name => SortColumn::Reads,
            SortColumn::Reads => SortColumn::Writes,
            SortColumn::Writes => SortColumn::Pending,
            SortColumn::Pending => SortColumn::Status,
            SortColumn::Status => SortColumn::Name,
        }
    }

    /// Cycle to the next column.
    pub fn next(self) -> (r: SortColumn)
        ensures
            r == self.spec_next(),
    {
        match self {
            SortColumn::Name => SortColumn::Reads,
            SortColumn::Reads => SortColumn::Writes,
            SortColumn::Writes => SortColumn::Pending,
            SortColumn::Pending => SortColumn::Status,
            SortColumn::Status => SortColumn::Name,
        }
    }
}

impl Default for SortColumn {
    /// Sort by name at first.
    fn default() -> (r: SortColumn)
        ensures
            r is Name,
    {
        SortColumn::Name
    }
}

/// The column the bottleneck view is sorted by.
#[derive(Debug, Clone, Copy, PartialEq, Eq, Structural)]
pub enum BottleneckSortColumn {
    /// By health status.
    Status,
    /// By module name.
    Module,
    /// By topic name.
    Topic,
    /// Reads before writes.
    Kind,
    /// By pending wait.
    Pending,
    /// By unread count.
    Unread,
}

impl BottleneckSortColumn {
    /// The column after this one in the cycle.
    pub open spec fn spec_next(self) -> BottleneckSortColumn {
        match self {
            BottleneckSortColumn::Status => BottleneckSortColumn::Module,
            BottleneckSortColumn::Module => BottleneckSortColumn::Topic,
            BottleneckSortColumn::Topic => BottleneckSortColumn::Kind,
            BottleneckSortColumn::Kind => BottleneckSortColumn::Pending,
            BottleneckSortColumn::Pending => BottleneckSortColumn::Unread,
            BottleneckSortColumn::Unread => BottleneckSortColumn::Status,
        }
    }

    /// Cycle to the next column.
    pub fn next(self) -> (r: BottleneckSortColumn)
        ensures
            r == self.spec_next(),
    {
        match self {
            BottleneckSortColumn::Status => BottleneckSortColumn::Module,
            BottleneckSortColumn::Module => BottleneckSortColumn::Topic,
            BottleneckSortColumn::Topic => BottleneckSortColumn::Kind,
            BottleneckSortColumn::Kind => BottleneckSortColumn::Pending,
            BottleneckSortColumn::Pending => BottleneckSortColumn::Unread,
            BottleneckSortColumn::Unread => BottleneckSortColumn::Status,
        }
    }
}

impl Default for BottleneckSortColumn {
    /// Sort by status at first.
    fn default() -> (r: BottleneckSortColumn)
        ensures
            r is Status,
    {
        BottleneckSortColumn::Status
    }
}

/// The longest pending wait among a module's read rows, in microseconds.
pub open spec fn max_pending_reads(s: Seq<TopicRead>) -> nat
    decreases s.len(),
{
    if s.len() == 0 {
        0
    } else {
        let rest = max_pending_reads(s.drop_last());
        let cur = match s.last().pending_for {
            Option::Some(p) => p.0 as nat,
            Option::None => 0,
        };
        if cur > rest {
            cur
        } else {
            rest
        }
    }
}

/// The longest pending wait among a module's write rows, in microseconds.
pub open spec fn max_pending_writes(s: Seq<TopicWrite>) -> nat
    decreases s.len(),
{
    if s.len() == 0 {
        0
    } else {
        let rest = max_pending_writes(s.drop_last());
        let cur = match s.last().pending_for {
            Option::Some(p) => p.0 as nat,
            Option::None => 0,
        };
        if cur > rest {
            cur
        } else {
            rest
        }
    }
}

/// The longest pending wait of any of a module's topics.
pub open spec fn max_pending_spec(md: ModuleData) -> nat {
    let r = max_pending_reads(md.reads@);
    let w = max_pending_writes(md.writes@);
    if r > w {
        r
    } else {
        w
    }
}

/// The longest pending wait of any of a module's topics, in microseconds.
pub fn module_max_pending(md: &ModuleData) -> (r: u64)
    ensures
        r == max_pending_spec(*md),
{
    let mut best: u64 = 0;
    let nr = md.reads.len();
    let mut i: usize = 0;
    while i < nr
        invariant
            i <= nr,
            nr == md.reads@.len(),
            best == max_pending_reads(md.reads@.take(i as int)),
        decreases nr - i,
    {
        proof {
            assert(md.reads@.take(i + 1).drop_last() =~= md.reads@.take(i as int));
        }
        match md.reads[i].pending_for {
            Some(p) => {
                if p.0 > best {
                    best = p.0;
                }
            },
            None => {},
        }
        i = i + 1;
    }
    proof {
        assert(md.reads@.take(nr as int) =~= md.reads@);
    }
    let ghost rbest = best;
    let nw = md.writes.len();
    let mut j: usize = 0;
    while j < nw
        invariant
            j <= nw,
            nw == md.writes@.len(),
            rbest == max_pending_reads(md.reads@),
            best == (if max_pending_writes(md.writes@.take(j as int)) > rbest {
                max_pending_writes(md.writes@.take(j as int))
            } else {
                rbest as nat
            }),
        decreases nw - j,
    {
        proof {
            assert(md.writes@.take(j + 1).drop_last() =~= md.writes@.take(j as int));
        }
        match md.writes[j].pending_for {
            Some(p) => {
                if p.0 > best {
                    best = p.0;
                }
            },
            None => {},
        }
        j = j + 1;
    }
    proof {
        assert(md.writes@.take(nw as int) =~= md.writes@);
    }
    best
}

/// Whether `a` sorts strictly below `b` in the chosen column's raw order.
pub open spec fn col_lt(a: ModuleData, b: ModuleData, c: SortColumn) -> bool {
    match c {
        SortColumn::Name => lex_lt(a.name@, b.name@),
        SortColumn::Reads => a.total_read < b.total_read,
        SortColumn::Writes => a.total_written < b.total_written,
        SortColumn::Pending => max_pending_spec(a) < max_pending_spec(b),
        SortColumn::Status => rank(a.health) < rank(b.health),
    }
}

/// Whether `a` and `b` share the chosen column's key.
pub open spec fn col_eq(a: ModuleData, b: ModuleData, c: SortColumn) -> bool {
    match c {
        SortColumn::Name => a.name@ == b.name@,
        SortColumn::Reads => a.total_read == b.total_read,
        SortColumn::Writes => a.total_written == b.total_written,
        SortColumn::Pending => max_pending_spec(a) == max_pending_spec(b),
        SortColumn::Status => rank(a.health) == rank(b.health),
    }
}

/// The summary view's sort order: the chosen column in the chosen
/// direction, ties by name ascending.
pub open spec fn mod_col_le(a: ModuleData, b: ModuleData, c: SortColumn, asc: bool) -> bool {
    (if asc {
        col_lt(a, b, c)
    } else {
        col_lt(b, a, c)
    }) || (col_eq(a, b, c) && lex_le(a.name@, b.name@))
}

/// The column order is total.
proof fn lemma_mod_col_total(a: ModuleData, b: ModuleData, c: SortColumn, asc: bool)
    ensures
        mod_col_le(a, b, c, asc) || mod_col_le(b, a, c, asc),
{
    lemma_lex_trichotomy(a.name@, b.name@);
}

/// The column order is transitive.
proof fn lemma_mod_col_trans(a: ModuleData, b: ModuleData, x: ModuleData, c: SortColumn, asc: bool)
    requires
        mod_col_le(a, b, c, asc),
        mod_col_le(b, x, c, asc),
    ensures
        mod_col_le(a, x, c, asc),
{
    if lex_le(a.name@, b.name@) && lex_le(b.name@, x.name@) {
        lemma_lex_le_trans(a.name@, b.name@, x.name@);
    }
    if lex_lt(a.name@, b.name@) && lex_lt(b.name@, x.name@) {
        crate::strutil::lemma_lex_lt_trans(a.name@, b.name@, x.name@);
    }
    if lex_lt(x.name@, b.name@) && lex_lt(b.name@, a.name@) {
        crate::strutil::lemma_lex_lt_trans(x.name@, b.name@, a.name@);
    }
}

fn col_le_exec(a: &ModuleData, b: &ModuleData, c: SortColumn, asc: bool) -> (r: bool)
    ensures
        r == mod_col_le(*a, *b, c, asc),
{
    let lt = match c {
        SortColumn::Name => {
            if asc {
                str_lt(a.name.as_str(), b.name.as_str())
            } else {
                str_lt(b.name.as_str(), a.name.as_str())
            }
        },
        SortColumn::Reads => {
            if asc {
                a.total_read < b.total_read
            } else {
                b.total_read < a.total_read
            }
        },
        SortColumn::Writes => {
            if asc {
                a.total_written < b.total_written
            } else {
                b.total_written < a.total_written
            }
        },
        SortColumn::Pending => {
            let pa = module_max_pending(a);
            let pb = module_max_pending(b);
            if asc {
                pa < pb
            } else {
                pb < pa
            }
        },
        SortColumn::Status => {
            if asc {
                a.health.severity() < b.health.severity()
            } else {
                b.health.severity() < a.health.severity()
            }
        },
    };
    if lt {
        true
    } else {
        let eq = match c {
            SortColumn::Name => crate::strutil::str_eq(a.name.as_str(), b.name.as_str()),
            SortColumn::Reads => a.total_read == b.total_read,
            SortColumn::Writes => a.total_written == b.total_written,
            SortColumn::Pending => module_max_pending(a) == module_max_pending(b),
            SortColumn::Status => a.health.severity() == b.health.severity(),
        };
        if eq {
            proof {
                lemma_lex_trichotomy(a.name@, b.name@);
            }
            !str_lt(b.name.as_str(), a.name.as_str())
        } else {
            false
        }
    }
}

/// Sort module indices by the chosen column and direction, ties by name.
/// The result is a permutation of the input.
pub fn sort_modules_by(data: &Vec<ModuleData>, idxs: Vec<usize>, column: SortColumn, ascending:
    bool) -> (r: Vec<usize>)
    requires
        forall|k: int| 0 <= k < idxs@.len() ==> (#[trigger] idxs@[k]) < data@.len(),
    ensures
        r@.to_multiset() == idxs@.to_multiset(),
        r@.len() == idxs@.len(),
        forall|k: int| 0 <= k < r@.len() ==> (#[trigger] r@[k]) < data@.len(),
        forall|i: int, j: int|
            0 <= i < j < r@.len() ==> mod_col_le(
                data@[r@[i] as int],
                data@[r@[j] as int],
                column,
                ascending,
            ),
{
    let ghost orig = idxs@;
    let mut rest = idxs;
    let mut out: Vec<usize> = Vec::new();
    while rest.len() > 0
        invariant
            out@.to_multiset().add(rest@.to_multiset()) == orig.to_multiset(),
            out@.len() + rest@.len() == orig.len(),
            forall|k: int| 0 <= k < orig.len() ==> (#[trigger] orig[k]) < data@.len(),
            forall|k: int| 0 <= k < out@.len() ==> (#[trigger] out@[k]) < data@.len(),
            forall|k: int| 0 <= k < rest@.len() ==> (#[trigger] rest@[k]) < data@.len(),
            forall|i: int, j: int|
                0 <= i < j < out@.len() ==> mod_col_le(
                    data@[out@[i] as int],
                    data@[out@[j] as int],
                    column,
                    ascending,
                ),
        decreases rest@.len(),
    {
        let ghost out0 = out@;
        let ghost rest0 = rest@;
        let x = rest.remove(0);
        let n = out.len();
        let mut pos: usize = 0;
        while pos < n && col_le_exec(&data[out[pos]], &data[x], column, ascending)
            invariant
                pos <= n,
                n == out@.len(),
                out@ == out0,
                x < data@.len(),
                forall|k: int| 0 <= k < out@.len() ==> (#[trigger] out@[k]) < data@.len(),
                forall|j: int|
                    0 <= j < pos ==> mod_col_le(
                        data@[out@[j] as int],
                        data@[x as int],
                        column,
                        ascending,
                    ),
            decreases n - pos,
        {
            pos = pos + 1;
        }
        proof {
            assert forall|j: int|
                pos <= j < n implies mod_col_le(
                data@[x as int],
                data@[out@[j] as int],
                column,
                ascending,
            ) by {
                lemma_mod_col_total(data@[out@[pos as int] as int], data@[x as int], column,
                    ascending);
                if pos < j {
                    lemma_mod_col_trans(
                        data@[x as int],
                        data@[out@[pos as int] as int],
                        data@[out@[j] as int],
                        column,
                        ascending,
                    );
                }
            }
        }
        out.insert(pos, x);
        proof {
            out0.insert_ensures(pos as int, x);
            assert forall|i: int, j: int|
                0 <= i < j < out@.len() implies mod_col_le(
                data@[out@[i] as int],
                data@[out@[j] as int],
                column,
                ascending,
            ) by {
                if j < pos {
                    assert(out@[i] == out0[i] && out@[j] == out0[j]);
                } else if i < pos && j == pos {
                    assert(out@[i] == out0[i] && out@[j] == x);
                } else if i < pos && j > pos {
                    assert(out@[i] == out0[i] && out@[j] == out0[j - 1]);
                } else if i == pos {
                    assert(out@[i] == x && out@[j] == out0[j - 1]);
                } else {
                    assert(out@[i] == out0[i - 1] && out@[j] == out0[j - 1]);
                }
            }
            assert(rest0.to_multiset().count(x) > 0) by {
                assert(rest0[0] == x);
            }
            assert(out@.to_multiset().add(rest@.to_multiset()) =~= orig.to_multiset());
        }
    }
    proof {
        assert(out@.to_multiset() =~= orig.to_multiset()) by {
            assert(rest@.len() == 0);
            assert(rest@.to_multiset().len() == 0);
        }
    }
    out
}

/// The unread count a bottleneck row sorts by: absent counts as zero, and
/// write rows have none.
pub open spec fn entry_unread(t: UnhealthyTopic) -> nat {
    match t {
        UnhealthyTopic::Read(r) => match r.unread {
            Option::Some(u) => u as nat,
            Option::None => 0,
        },
        UnhealthyTopic::Write(_) => 0,
    }
}

/// The pending wait a bottleneck row sorts by: absent counts as zero.
pub open spec fn entry_pending(t: UnhealthyTopic) -> nat {
    match t {
        UnhealthyTopic::Read(r) => match r.pending_for {
            Option::Some(p) => p.0 as nat,
            Option::None => 0,
        },
        UnhealthyTopic::Write(w) => match w.pending_for {
            Option::Some(p) => p.0 as nat,
            Option::None => 0,
        },
    }
}

/// The topic of a bottleneck row.
pub open spec fn entry_topic(t: UnhealthyTopic) -> Seq<char> {
    match t {
        UnhealthyTopic::Read(r) => r.topic@,
        UnhealthyTopic::Write(w) => w.topic@,
    }
}

/// Write rows sort after read rows in the kind column.
pub open spec fn entry_kind(t: UnhealthyTopic) -> int {
    match t {
        UnhealthyTopic::Read(_) => 0,
        UnhealthyTopic::Write(_) => 1,
    }
}

/// The lowercased module name a bottleneck row sorts by.
pub open spec fn entry_module_lower(data: Seq<ModuleData>, e: (usize, UnhealthyTopic)) -> Seq<
    char,
> {
    lower_of(data[e.0 as int].name@)
}

/// Whether `a` sorts strictly below `b` in the chosen bottleneck column.
pub open spec fn bott_lt(
    data: Seq<ModuleData>,
    a: (usize, UnhealthyTopic),
    b: (usize, UnhealthyTopic),
    c: BottleneckSortColumn,
) -> bool {
    match c {
        BottleneckSortColumn::Status => rank(a.1.spec_status()) < rank(b.1.spec_status()),
        BottleneckSortColumn::Module => lex_lt(
            entry_module_lower(data, a),
            entry_module_lower(data, b),
        ),
        BottleneckSortColumn::Topic => lex_lt(lower_of(entry_topic(a.1)), lower_of(entry_topic(b.1))),
        BottleneckSortColumn::Kind => entry_kind(a.1) < entry_kind(b.1),
        BottleneckSortColumn::Pending => entry_pending(a.1) < entry_pending(b.1),
        BottleneckSortColumn::Unread => entry_unread(a.1) < entry_unread(b.1),
    }
}

/// Whether `a` and `b` share the chosen bottleneck column's key.
pub open spec fn bott_eq(
    data: Seq<ModuleData>,
    a: (usize, UnhealthyTopic),
    b: (usize, UnhealthyTopic),
    c: BottleneckSortColumn,
) -> bool {
    match c {
        BottleneckSortColumn::Status => rank(a.1.spec_status()) == rank(b.1.spec_status()),
        BottleneckSortColumn::Module => entry_module_lower(data, a) == entry_module_lower(data, b),
        BottleneckSortColumn::Topic => lower_of(entry_topic(a.1)) == lower_of(entry_topic(b.1)),
        BottleneckSortColumn::Kind => entry_kind(a.1) == entry_kind(b.1),
        BottleneckSortColumn::Pending => entry_pending(a.1) == entry_pending(b.1),
        BottleneckSortColumn::Unread => entry_unread(a.1) == entry_unread(b.1),
    }
}

/// The bottleneck view's sort order: the chosen column in the chosen
/// direction, ties by lowercased module name then lowercased topic.
pub open spec fn bott_le(
    data: Seq<ModuleData>,
    a: (usize, UnhealthyTopic),
    b: (usize, UnhealthyTopic),
    c: BottleneckSortColumn,
    asc: bool,
) -> bool {
    (if asc {
        bott_lt(data, a, b, c)
    } else {
        bott_lt(data, b, a, c)
    }) || (bott_eq(data, a, b, c) && (lex_lt(entry_module_lower(data, a), entry_module_lower(data, b))
        || (entry_module_lower(data, a) == entry_module_lower(data, b) && lex_le(
        lower_of(entry_topic(a.1)),
        lower_of(entry_topic(b.1)),
    ))))
}

/// The bottleneck order is total.
proof fn lemma_bott_total(
    data: Seq<ModuleData>,
    a: (usize, UnhealthyTopic),
    b: (usize, UnhealthyTopic),
    c: BottleneckSortColumn,
    asc: bool,
)
    ensures
        bott_le(data, a, b, c, asc) || bott_le(data, b, a, c, asc),
{
    lemma_lex_trichotomy(entry_module_lower(data, a), entry_module_lower(data, b));
    lemma_lex_trichotomy(lower_of(entry_topic(a.1)), lower_of(entry_topic(b.1)));
}

/// The bottleneck order is transitive.
proof fn lemma_bott_trans(
    data: Seq<ModuleData>,
    a: (usize, UnhealthyTopic),
    b: (usize, UnhealthyTopic),
    x: (usize, UnhealthyTopic),
    c: BottleneckSortColumn,
    asc: bool,
)
    requires
        bott_le(data, a, b, c, asc),
        bott_le(data, b, x, c, asc),
    ensures
        bott_le(data, a, x, c, asc),
{
    let ma = entry_module_lower(data, a);
    let mb = entry_module_lower(data, b);
    let mx = entry_module_lower(data, x);
    let ta = lower_of(entry_topic(a.1));
    let tb = lower_of(entry_topic(b.1));
    let tx = lower_of(entry_topic(x.1));
    if lex_lt(ma, mb) && lex_lt(mb, mx) {
        crate::strutil::lemma_lex_lt_trans(ma, mb, mx);
    }
    if lex_lt(mx, mb) && lex_lt(mb, ma) {
        crate::strutil::lemma_lex_lt_trans(mx, mb, ma);
    }
    if lex_lt(ta, tb) && lex_lt(tb, tx) {
        crate::strutil::lemma_lex_lt_trans(ta, tb, tx);
    }
    if lex_lt(tx, tb) && lex_lt(tb, ta) {
        crate::strutil::lemma_lex_lt_trans(tx, tb, ta);
    }
    if lex_le(ta, tb) && lex_le(tb, tx) {
        lemma_lex_le_trans(ta, tb, tx);
    }
}

fn entry_status_rank(t: &UnhealthyTopic) -> (r: u8)
    ensures
        r as int == rank(t.spec_status()),
{
    t.status().severity()
}

fn entry_pending_exec(t: &UnhealthyTopic) -> (r: u64)
    ensures
        r as nat == entry_pending(*t),
{
    match t.pending_for() {
        Some(p) => p.0,
        None => 0,
    }
}

fn entry_unread_exec(t: &UnhealthyTopic) -> (r: u64)
    ensures
        r as nat == entry_unread(*t),
{
    match t {
        UnhealthyTopic::Read(rr) => match rr.unread {
            Some(u) => u,
            None => 0,
        },
        UnhealthyTopic::Write(_) => 0,
    }
}

fn entry_kind_exec(t: &UnhealthyTopic) -> (r: u8)
    ensures
        r as int == entry_kind(*t),
{
    match t {
        UnhealthyTopic::Read(_) => 0,
        UnhealthyTopic::Write(_) => 1,
    }
}

fn bott_le_exec(
    data: &Vec<ModuleData>,
    a: &(usize, UnhealthyTopic),
    b: &(usize, UnhealthyTopic),
    c: BottleneckSortColumn,
    asc: bool,
) -> (r: bool)
    requires
        (a.0 as int) < data@.len(),
        (b.0 as int) < data@.len(),
    ensures
        r == bott_le(data@, *a, *b, c, asc),
{
    let la = lowercase(data[a.0].name.as_str());
    let lb = lowercase(data[b.0].name.as_str());
    let ta = lowercase(a.1.topic());
    let tb = lowercase(b.1.topic());
    let lt = match c {
        BottleneckSortColumn::Status => {
            if asc {
                entry_status_rank(&a.1) < entry_status_rank(&b.1)
            } else {
                entry_status_rank(&b.1) < entry_status_rank(&a.1)
            }
        },
        BottleneckSortColumn::Module => {
            if asc {
                str_lt(la.as_str(), lb.as_str())
            } else {
                str_lt(lb.as_str(), la.as_str())
            }
        },
        BottleneckSortColumn::Topic => {
            if asc {
                str_lt(ta.as_str(), tb.as_str())
            } else {
                str_lt(tb.as_str(), ta.as_str())
            }
        },
        BottleneckSortColumn::Kind => {
            if asc {
                entry_kind_exec(&a.1) < entry_kind_exec(&b.1)
            } else {
                entry_kind_exec(&b.1) < entry_kind_exec(&a.1)
            }
        },
        BottleneckSortColumn::Pending => {
            if asc {
                entry_pending_exec(&a.1) < entry_pending_exec(&b.1)
            } else {
                entry_pending_exec(&b.1) < entry_pending_exec(&a.1)
            }
        },
        BottleneckSortColumn::Unread => {
            if asc {
                entry_unread_exec(&a.1) < entry_unread_exec(&b.1)
            } else {
                entry_unread_exec(&b.1) < entry_unread_exec(&a.1)
            }
        },
    };
    if lt {
        return true;
    }
    let eq = match c {
        BottleneckSortColumn::Status => entry_status_rank(&a.1) == entry_status_rank(&b.1),
        BottleneckSortColumn::Module => crate::strutil::str_eq(la.as_str(), lb.as_str()),
        BottleneckSortColumn::Topic => crate::strutil::str_eq(ta.as_str(), tb.as_str()),
        BottleneckSortColumn::Kind => entry_kind_exec(&a.1) == entry_kind_exec(&b.1),
        BottleneckSortColumn::Pending => entry_pending_exec(&a.1) == entry_pending_exec(&b.1),
        BottleneckSortColumn::Unread => entry_unread_exec(&a.1) == entry_unread_exec(&b.1),
    };
    if !eq {
        return false;
    }
    if str_lt(la.as_str(), lb.as_str()) {
        return true;
    }
    if !crate::strutil::str_eq(la.as_str(), lb.as_str()) {
        return false;
    }
    proof {
        lemma_lex_trichotomy(lower_of(entry_topic(a.1)), lower_of(entry_topic(b.1)));
    }
    !str_lt(tb.as_str(), ta.as_str())
}

/// Sort bottleneck entries by the chosen column and direction, ties by
/// lowercased module name then topic.  The result is a permutation of the
/// input.
pub fn sort_bottlenecks(
    data: &Vec<ModuleData>,
    items: Vec<(usize, UnhealthyTopic)>,
    column: BottleneckSortColumn,
    ascending: bool,
) -> (r: Vec<(usize, UnhealthyTopic)>)
    requires
        forall|k: int| 0 <= k < items@.len() ==> ((#[trigger] items@[k]).0 as int) < data@.len(),
    ensures
        r@.to_multiset() == items@.to_multiset(),
        r@.len() == items@.len(),
        forall|k: int| 0 <= k < r@.len() ==> ((#[trigger] r@[k]).0 as int) < data@.len(),
        forall|i: int, j: int|
            0 <= i < j < r@.len() ==> bott_le(data@, r@[i], r@[j], column, ascending),
{
    let ghost orig = items@;
    let mut rest = items;
    let mut out: Vec<(usize, UnhealthyTopic)> = Vec::new();
    while rest.len() > 0
        invariant
            out@.to_multiset().add(rest@.to_multiset()) == orig.to_multiset(),
            out@.len() + rest@.len() == orig.len(),
            forall|k: int| 0 <= k < out@.len() ==> ((#[trigger] out@[k]).0 as int) < data@.len(),
            forall|k: int| 0 <= k < rest@.len() ==> ((#[trigger] rest@[k]).0 as int) < data@.len(),
            forall|i: int, j: int|
                0 <= i < j < out@.len() ==> bott_le(data@, out@[i], out@[j], column, ascending),
        decreases rest@.len(),
    {
        let ghost out0 = out@;
        let ghost rest0 = rest@;
        let x = rest.remove(0);
        let n = out.len();
        let mut pos: usize = 0;
        while pos < n && bott_le_exec(data, &out[pos], &x, column, ascending)
            invariant
                pos <= n,
                n == out@.len(),
                out@ == out0,
                (x.0 as int) < data@.len(),
                forall|k: int|
                    0 <= k < out@.len() ==> ((#[trigger] out@[k]).0 as int) < data@.len(),
                forall|j: int| 0 <= j < pos ==> bott_le(data@, out@[j], x, column, ascending),
            decreases n - pos,
        {
            pos = pos + 1;
        }
        proof {
            assert forall|j: int|
                pos <= j < n implies bott_le(data@, x, out@[j], column, ascending) by {
                lemma_bott_total(data@, out@[pos as int], x, column, ascending);
                if pos < j {
                    lemma_bott_trans(data@, x, out@[pos as int], out@[j], column, ascending);
                }
            }
        }
        out.insert(pos, x);
        proof {
            out0.insert_ensures(pos as int, x);
            assert forall|i: int, j: int|
                0 <= i < j < out@.len() implies bott_le(data@, out@[i], out@[j], column, ascending)
            by {
                if j < pos {
                    assert(out@[i] == out0[i] && out@[j] == out0[j]);
                } else if i < pos && j == pos {
                    assert(out@[i] == out0[i] && out@[j] == x);
                } else if i < pos && j > pos {
                    assert(out@[i] == out0[i] && out@[j] == out0[j - 1]);
                } else if i == pos {
                    assert(out@[i] == x && out@[j] == out0[j - 1]);
                } else {
                    assert(out@[i] == out0[i - 1] && out@[j] == out0[j - 1]);
                }
            }
            assert(rest0.to_multiset().count(x) > 0) by {
                assert(rest0[0] == x);
            }
            assert(out@.to_multiset().add(rest@.to_multiset()) =~= orig.to_multiset());
        }
    }
    proof {
        assert(out@.to_multiset() =~= orig.to_multiset()) by {
            assert(rest@.len() == 0);
            assert(rest@.to_multiset().len() == 0);
        }
    }
    out
}

/// A name matches a filter when the filter is empty or its lowercase form
/// occurs in the name's lowercase form.
pub open spec fn filter_matches(filter: Seq<char>, name: Seq<char>) -> bool {
    filter.len() == 0 || contains_seq(lower_of(name), lower_of(filter))
}

/// Decide whether a name matches a filter.
pub fn filter_match(filter: &str, name: &str) -> (r: bool)
    ensures
        r == filter_matches(filter@, name@),
{
    if filter.unicode_len() == 0 {
        return true;
    }
    let ln = lowercase(name);
    let lf = lowercase(filter);
    str_contains(ln.as_str(), lf.as_str())
}

/// How many of the module rows match the filter.
pub open spec fn count_matching(modules: Seq<ModuleData>, filter: Seq<char>) -> nat
    decreases modules.len(),
{
    if modules.len() == 0 {
        0
    } else {
        count_matching(modules.drop_last(), filter) + (if filter_matches(
            filter,
            modules.last().name@,
        ) {
            1nat
        } else {
            0nat
        })
    }
}


/// How many unhealthy read rows among the first `i` of a module match the
/// filter by module name or topic.
pub open spec fn count_unhealthy_reads(md: ModuleData, i: int, filter: Seq<char>) -> nat
    decreases i,
{
    if i <= 0 {
        0
    } else {
        count_unhealthy_reads(md, i - 1, filter) + (if !(md.reads@[i - 1].status is Healthy)
            && (filter_matches(filter, md.name@) || filter_matches(filter, md.reads@[i - 1].topic@)) {
            1nat
        } else {
            0nat
        })
    }
}

/// How many unhealthy write rows among the first `i` of a module match the
/// filter by module name or topic.
pub open spec fn count_unhealthy_writes(md: ModuleData, i: int, filter: Seq<char>) -> nat
    decreases i,
{
    if i <= 0 {
        0
    } else {
        count_unhealthy_writes(md, i - 1, filter) + (if !(md.writes@[i - 1].status is Healthy)
            && (filter_matches(filter, md.name@) || filter_matches(filter, md.writes@[i - 1].topic@)) {
            1nat
        } else {
            0nat
        })
    }
}

/// How many unhealthy rows of the whole data match the filter.
pub open spec fn count_unhealthy_matching(modules: Seq<ModuleData>, filter: Seq<char>) -> nat
    decreases modules.len(),
{
    if modules.len() == 0 {
        0
    } else {
        count_unhealthy_matching(modules.drop_last(), filter) + count_unhealthy_reads(
            modules.last(),
            modules.last().reads@.len() as int,
            filter,
        ) + count_unhealthy_writes(modules.last(), modules.last().writes@.len() as int, filter)
    }
}

/// No more module rows match the filter than there are.
proof fn lemma_count_matching_bound(modules: Seq<ModuleData>, filter: Seq<char>)
    ensures
        count_matching(modules, filter) <= modules.len(),
    decreases modules.len(),
{
    if modules.len() > 0 {
        lemma_count_matching_bound(modules.drop_last(), filter);
    }
}

/// The number of rows the current view navigates over: the filtered module
/// count in the summary, the module count in the flow view, and the
/// filtered unhealthy rows in the bottleneck view; zero before any data
/// arrived.  Saturated at the machine range, which the row vectors cannot
/// exceed anyway.
pub open spec fn visible_rows_spec(a: App) -> nat {
    match a.data {
        Option::None => 0,
        Option::Some(d) => {
            let raw = match a.current_view {
                ViewKind::Summary => count_matching(d.modules@, a.filter_text@),
                ViewKind::DataFlow => d.modules@.len(),
                ViewKind::Bottleneck => count_unhealthy_matching(d.modules@, a.filter_text@),
            };
            if raw > usize::MAX {
                usize::MAX as nat
            } else {
                raw
            }
        },
    }
}

/// The last selectable row: one below the visible rows, or zero when there
/// are none.
pub open spec fn last_row(a: App) -> nat {
    let rows = visible_rows_spec(a);
    if rows == 0 {
        0
    } else {
        (rows - 1) as nat
    }
}

/// What moving the selection down by `n` rows does: the current view's
/// selection becomes the old one plus `n`, stopped at the last visible
/// row, and nothing else changes.
pub open spec fn moved_next(a0: App, a1: App, n: nat) -> bool {
    let target = if a0.current_view is Bottleneck {
        a0.selected_topic_index + n
    } else {
        a0.selected_module_index + n
    };
    let sel: nat = if target > last_row(a0) {
        last_row(a0)
    } else {
        target as nat
    };
    if a0.current_view is Bottleneck {
        a1 == (App { selected_topic_index: sel as usize, ..a0 })
    } else {
        a1 == (App { selected_module_index: sel as usize, ..a0 })
    }
}

/// What moving the selection up by `n` rows does: the current view's
/// selection loses `n`, stopping at the top, and nothing else changes.
pub open spec fn moved_prev(a0: App, a1: App, n: nat) -> bool {
    if a0.current_view is Bottleneck {
        a1 == (App {
            selected_topic_index: (if a0.selected_topic_index >= n {
                (a0.selected_topic_index - n) as usize
            } else {
                0
            }),
            ..a0
        })
    } else {
        a1 == (App {
            selected_module_index: (if a0.selected_module_index >= n {
                (a0.selected_module_index - n) as usize
            } else {
                0
            }),
            ..a0
        })
    }
}

/// What jumping to the last row does: the current view's selection becomes
/// the last visible row, and nothing else changes.
pub open spec fn moved_last(a0: App, a1: App) -> bool {
    if a0.current_view is Bottleneck {
        a1 == (App { selected_topic_index: last_row(a0) as usize, ..a0 })
    } else {
        a1 == (App { selected_module_index: last_row(a0) as usize, ..a0 })
    }
}

/// What jumping to the first row does.
pub open spec fn moved_first(a0: App, a1: App) -> bool {
    if a0.current_view is Bottleneck {
        a1 == (App { selected_topic_index: 0, ..a0 })
    } else {
        a1 == (App { selected_module_index: 0, ..a0 })
    }
}


/// The raw indices of the module rows that pass the filter, in row order,
/// among the first `i`.
pub open spec fn filtered_idx(modules: Seq<ModuleData>, filter: Seq<char>, i: int) -> Seq<usize>
    decreases i,
{
    if i <= 0 {
        Seq::empty()
    } else if filter_matches(filter, modules[i - 1].name@) {
        filtered_idx(modules, filter, i - 1).push((i - 1) as usize)
    } else {
        filtered_idx(modules, filter, i - 1)
    }
}

/// A sequence of raw indices is a valid visual ordering: exactly the
/// filtered rows, arranged by the chosen column and direction with ties by
/// name.
pub open spec fn visual_order_ok(
    vis: Seq<usize>,
    modules: Seq<ModuleData>,
    filter: Seq<char>,
    col: SortColumn,
    asc: bool,
) -> bool {
    &&& vis.to_multiset() == filtered_idx(modules, filter, modules.len() as int).to_multiset()
    &&& forall|k: int| 0 <= k < vis.len() ==> (#[trigger] vis[k]) < modules.len()
    &&& forall|a: int, b: int|
        0 <= a < b < vis.len() ==> mod_col_le(
            modules[vis[a] as int],
            modules[vis[b] as int],
            col,
            asc,
        )
}

/// The returned raw index is the selected visual row of some valid visual
/// ordering under the current filter, sort column and direction.  With
/// distinct module names the ordering, and so the index, is unique.
pub open spec fn is_visual_selection(ix: usize, a: App) -> bool {
    &&& a.data is Some
    &&& exists|vis: Seq<usize>|
        {
            &&& #[trigger] visual_order_ok(
                vis,
                a.data->Some_0.modules@,
                a.filter_text@,
                a.sort_column,
                a.sort_ascending,
            )
            &&& (a.selected_module_index as int) < vis.len()
            &&& ix == vis[a.selected_module_index as int]
        }
}

/// What navigating back does: an open detail overlay closes and nothing
/// else changes; else a nonempty stack is popped and the saved view and
/// both selection indices are restored, everything else (data, history,
/// filter, sort settings) untouched; else the view falls back to the
/// summary, again with nothing else changed.
pub open spec fn went_back(a0: App, a1: App) -> bool {
    if a0.show_detail_overlay {
        a1 == (App { show_detail_overlay: false, ..a0 })
    } else if a0.view_stack@.len() > 0 {
        let st = a0.view_stack@.last();
        &&& a1.view_stack@ == a0.view_stack@.drop_last()
        &&& a1 == (App {
            current_view: st.view,
            selected_module_index: st.selected_module_index,
            selected_topic_index: st.selected_topic_index,
            view_stack: a1.view_stack,
            ..a0
        })
    } else {
        a1 == (App { current_view: ViewKind::Summary, ..a0 })
    }
}


/// What a left click does: a click below the content start that lands on a
/// visible row selects that row (the module row in the summary, the topic
/// row elsewhere); independently, a click on the tab row switches to the
/// view of its column band, resetting the topic selection.
pub open spec fn after_left_click(a: App, row: u16, col: u16, csr: u16) -> App {
    let a1 = if row > csr && row - csr - 1 < visible_rows_spec(a) {
        match a.current_view {
            ViewKind::Summary => App { selected_module_index: (row - csr - 1) as usize, ..a },
            ViewKind::Bottleneck => App { selected_topic_index: (row - csr - 1) as usize, ..a },
            ViewKind::DataFlow => App { selected_topic_index: (row - csr - 1) as usize, ..a },
        }
    } else {
        a
    };
    if row == 1 {
        if col < 13 {
            App { current_view: ViewKind::Summary, selected_topic_index: 0, ..a1 }
        } else if col < 29 {
            App { current_view: ViewKind::Bottleneck, selected_topic_index: 0, ..a1 }
        } else if col < 39 {
            App { current_view: ViewKind::DataFlow, selected_topic_index: 0, ..a1 }
        } else {
            a1
        }
    } else {
        a1
    }
}

/// A keyboard input, as the view engine understands it.
#[derive(Debug, Clone, Copy, PartialEq)]
pub enum KeyInput {
    /// A printable character.
    Char(char),
    /// A character with the control modifier held.
    CtrlChar(char),
    /// Arrow up.
    Up,
    /// Arrow down.
    Down,
    /// Arrow left.
    Left,
    /// Arrow right.
    Right,
    /// Page up.
    PageUp,
    /// Page down.
    PageDown,
    /// Home.
    Home,
    /// End.
    End,
    /// Enter.
    Enter,
    /// Escape.
    Esc,
    /// Backspace.
    Backspace,
    /// Tab.
    Tab,
    /// Shift-tab.
    BackTab,
}

/// A mouse input, as the view engine understands it.
#[derive(Debug, Clone, Copy, PartialEq)]
pub enum MouseInput {
    /// Scroll up one step.
    ScrollUp,
    /// Scroll down one step.
    ScrollDown,
    /// Left click at a cell.
    LeftClick(u16, u16),
    /// Right click anywhere.
    RightClick,
}

/// What the caller must do after a key was handled.
#[derive(Debug, Clone, Copy, PartialEq, Eq, Structural)]
pub enum KeyOutcome {
    /// Nothing further.
    Handled,
    /// Poll the data source and apply a fresh snapshot.
    RequestReload,
    /// Export the current state to a file.
    RequestExport,
}

/// The whole view-engine state: current view, overlays, selection, view
/// stack, sorting, filtering, the derived data and its history, and a
/// transient status message.
#[derive(Debug)]
pub struct App {
    /// Whether the main loop should keep running.
    pub running: bool,
    /// The current view.
    pub current_view: ViewKind,
    /// Whether the help overlay is shown.
    pub show_help: bool,
    /// Whether the module detail overlay is shown.
    pub show_detail_overlay: bool,
    /// The derived data of the latest snapshot, if any arrived yet.
    pub data: Option<MonitorData>,
    /// Per-module history of totals.
    pub history: History,
    /// The last load error, if the source reported one.
    pub load_error: Option<String>,
    /// Health thresholds.
    pub thresholds: Thresholds,
    /// Selected module index (summary and flow views).
    pub selected_module_index: usize,
    /// Selected topic index (bottleneck view).
    pub selected_topic_index: usize,
    /// Saved navigation states for going back.
    pub view_stack: Vec<ViewState>,
    /// Summary sort column.
    pub sort_column: SortColumn,
    /// Whether the summary sort is ascending.
    pub sort_ascending: bool,
    /// Bottleneck sort column.
    pub bottleneck_sort_column: BottleneckSortColumn,
    /// Whether the bottleneck sort is ascending.
    pub bottleneck_sort_ascending: bool,
    /// The filter text.
    pub filter_text: String,
    /// Whether filter input mode is active.
    pub filter_active: bool,
    /// A transient status message and when it was set, in milliseconds.
    pub status_message: Option<(String, u64)>,
}

impl App {
    /// A fresh view engine on the summary view with nothing loaded.
    pub fn new(thresholds: Thresholds) -> (a: App)
        ensures
            a.running,
            a.current_view is Summary,
            !a.show_help,
            !a.show_detail_overlay,
            a.data is None,
            a.load_error is None,
            a.thresholds == thresholds,
            a.selected_module_index == 0,
            a.selected_topic_index == 0,
            a.view_stack@.len() == 0,
            a.sort_column is Name,
            a.sort_ascending,
            a.bottleneck_sort_column is Status,
            !a.bottleneck_sort_ascending,
            a.filter_text@.len() == 0,
            !a.filter_active,
            a.status_message is None,
            a.history.wf(),
    {
        App {
            running: true,
            current_view: ViewKind::Summary,
            show_help: false,
            show_detail_overlay: false,
            data: None,
            history: History::new(),
            load_error: None,
            thresholds,
            selected_module_index: 0,
            selected_topic_index: 0,
            view_stack: Vec::new(),
            sort_column: SortColumn::Name,
            sort_ascending: true,
            bottleneck_sort_column: BottleneckSortColumn::Status,
            bottleneck_sort_ascending: false,
            filter_text: String::new(),
            filter_active: false,
            status_message: None,
        }
    }

    /// The invariant the engine keeps: history maps stay well-formed.
    pub open spec fn wf(self) -> bool {
        self.history.wf()
    }

    /// Set a transient status message at the given instant.
    pub fn set_status_message(&mut self, message: String, now_ms: u64)
        ensures
            *final(self) == (App { status_message: Some((message, now_ms)), ..*old(self) }),
    {
        self.status_message = Some((message, now_ms));
    }

    /// The status message, if less than three seconds old at `now_ms`.
    pub fn get_status_message(&self, now_ms: u64) -> (r: Option<&String>)
        ensures
            (r is Some <==> (self.status_message matches Some(p) && now_ms < p.1 + 3000)),
            r matches Some(msg) ==> (self.status_message matches Some(p) && msg@ == p.0@),
    {
        match &self.status_message {
            Some((m, t)) => {
                if (now_ms as u128) < (*t as u128) + 3000 {
                    Some(m)
                } else {
                    None
                }
            },
            None => None,
        }
    }

    /// Push the current navigation state and switch to a view.
    pub fn push_view(&mut self, view: ViewKind)
        ensures
            final(self).view_stack@ == old(self).view_stack@.push(ViewState {
                view: old(self).current_view,
                selected_module_index: old(self).selected_module_index,
                selected_topic_index: old(self).selected_topic_index,
            }),
            final(self).current_view == view,
            final(self).selected_topic_index == 0,
            *final(self) == (App {
                view_stack: final(self).view_stack,
                current_view: view,
                selected_topic_index: 0,
                ..*old(self)
            }),
    {
        self.view_stack.push(ViewState {
            view: self.current_view,
            selected_module_index: self.selected_module_index,
            selected_topic_index: self.selected_topic_index,
        });
        self.current_view = view;
        self.selected_topic_index = 0;
    }

    /// Pop the navigation stack and restore that state; false if empty.
    pub fn pop_view(&mut self) -> (r: bool)
        ensures
            r == (old(self).view_stack@.len() > 0),
            r ==> {
                let st = old(self).view_stack@.last();
                &&& final(self).current_view == st.view
                &&& final(self).selected_module_index == st.selected_module_index
                &&& final(self).selected_topic_index == st.selected_topic_index
                &&& final(self).view_stack@ == old(self).view_stack@.drop_last()
                &&& *final(self) == (App {
                    current_view: st.view,
                    selected_module_index: st.selected_module_index,
                    selected_topic_index: st.selected_topic_index,
                    view_stack: final(self).view_stack,
                    ..*old(self)
                })
            },
            !r ==> final(self).view_stack@ == old(self).view_stack@ && *final(self) == (App {
                view_stack: final(self).view_stack,
                ..*old(self)
            }),
    {
        match self.view_stack.pop() {
            Some(st) => {
                self.current_view = st.view;
                self.selected_module_index = st.selected_module_index;
                self.selected_topic_index = st.selected_topic_index;
                true
            },
            None => false,
        }
    }

    /// Switch to the next view and reset the topic selection.
    pub fn next_view(&mut self)
        ensures
            *final(self) == (App {
                current_view: old(self).current_view.spec_next(),
                selected_topic_index: 0,
                ..*old(self)
            }),
    {
        self.current_view = self.current_view.next();
        self.selected_topic_index = 0;
    }

    /// Switch to the previous view and reset the topic selection.
    pub fn prev_view(&mut self)
        ensures
            *final(self) == (App {
                current_view: old(self).current_view.spec_prev(),
                selected_topic_index: 0,
                ..*old(self)
            }),
    {
        self.current_view = self.current_view.prev();
        self.selected_topic_index = 0;
    }

    /// Switch to a specific view and reset the topic selection.
    pub fn set_view(&mut self, view: ViewKind)
        ensures
            *final(self) == (App {
                current_view: view,
                selected_topic_index: 0,
                ..*old(self)
            }),
    {
        self.current_view = view;
        self.selected_topic_index = 0;
    }

    /// Whether a module name matches the current filter.
    pub fn matches_filter(&self, name: &str) -> (r: bool)
        ensures
            r == filter_matches(self.filter_text@, name@),
    {
        filter_match(self.filter_text.as_str(), name)
    }

    /// How many modules pass the current filter.
    pub fn filtered_module_count(&self, data: &MonitorData) -> (r: usize)
        ensures
            r == count_matching(data.modules@, self.filter_text@),
    {
        let n = data.modules.len();
        let mut count: usize = 0;
        let mut i: usize = 0;
        while i < n
            invariant
                i <= n,
                n == data.modules@.len(),
                count == count_matching(data.modules@.take(i as int), self.filter_text@),
                count <= i,
            decreases n - i,
        {
            proof {
                assert(data.modules@.take(i + 1).drop_last() =~= data.modules@.take(i as int));
            }
            if self.matches_filter(data.modules[i].name.as_str()) {
                count = count + 1;
            }
            i = i + 1;
        }
        proof {
            assert(data.modules@.take(n as int) =~= data.modules@);
        }
        count
    }

    /// The number of rows the current view navigates over.
    fn visible_rows(&self) -> (r: usize)
        ensures
            r == visible_rows_spec(*self),
    {
        match &self.data {
            Some(data) => {
                match self.current_view {
                    ViewKind::Summary => {
                        proof {
                            lemma_count_matching_bound(data.modules@, self.filter_text@);
                        }
                        self.filtered_module_count(data)
                    },
                    ViewKind::DataFlow => data.modules.len(),
                    ViewKind::Bottleneck => {
                        let nm = data.modules.len();
                        let mut count: usize = 0;
                        let mut mi: usize = 0;
                        while mi < nm
                            invariant
                                mi <= nm,
                                nm == data.modules@.len(),
                                self.data matches Some(dd) && dd == data,
                                count_unhealthy_matching(data.modules@.take(mi as int), self.filter_text@)
                                    <= usize::MAX ==> count == count_unhealthy_matching(
                                    data.modules@.take(mi as int),
                                    self.filter_text@,
                                ),
                                count_unhealthy_matching(data.modules@.take(mi as int), self.filter_text@)
                                    > usize::MAX ==> count == usize::MAX,
                            decreases nm - mi,
                        {
                            proof {
                                assert(data.modules@.take(mi + 1).drop_last()
                                    =~= data.modules@.take(mi as int));
                            }
                            let md = &data.modules[mi];
                            let name_match = self.matches_filter(md.name.as_str());
                            let nr = md.reads.len();
                            let mut j: usize = 0;
                            while j < nr
                                invariant
                                    j <= nr,
                                    mi < nm,
                                    nm == data.modules@.len(),
                                    self.data matches Some(dd) && dd == data,
                                    md == &data.modules@[mi as int],
                                    nr == md.reads@.len(),
                                    name_match == filter_matches(self.filter_text@, md.name@),
                                    ({
                                        let base = count_unhealthy_matching(
                                            data.modules@.take(mi as int),
                                            self.filter_text@,
                                        ) + count_unhealthy_reads(*md, j as int, self.filter_text@);
                                        &&& (base <= usize::MAX ==> count == base)
                                        &&& (base > usize::MAX ==> count == usize::MAX)
                                    }),
                                decreases nr - j,
                            {
                                let row_unhealthy = match md.reads[j].status {
                                    HealthStatus::Healthy => false,
                                    _ => true,
                                };
                                if row_unhealthy && (name_match || self.matches_filter(
                                    md.reads[j].topic.as_str(),
                                )) {
                                    if count < usize::MAX {
                                        count = count + 1;
                                    }
                                }
                                j = j + 1;
                            }
                            let nw = md.writes.len();
                            let mut w: usize = 0;
                            while w < nw
                                invariant
                                    w <= nw,
                                    mi < nm,
                                    nm == data.modules@.len(),
                                    self.data matches Some(dd) && dd == data,
                                    md == &data.modules@[mi as int],
                                    nw == md.writes@.len(),
                                    name_match == filter_matches(self.filter_text@, md.name@),
                                    ({
                                        let base = count_unhealthy_matching(
                                            data.modules@.take(mi as int),
                                            self.filter_text@,
                                        ) + count_unhealthy_reads(
                                            *md,
                                            md.reads@.len() as int,
                                            self.filter_text@,
                                        ) + count_unhealthy_writes(*md, w as int, self.filter_text@);
                                        &&& (base <= usize::MAX ==> count == base)
                                        &&& (base > usize::MAX ==> count == usize::MAX)
                                    }),
                                decreases nw - w,
                            {
                                let row_unhealthy = match md.writes[w].status {
                                    HealthStatus::Healthy => false,
                                    _ => true,
                                };
                                if row_unhealthy && (name_match || self.matches_filter(
                                    md.writes[w].topic.as_str(),
                                )) {
                                    if count < usize::MAX {
                                        count = count + 1;
                                    }
                                }
                                w = w + 1;
                            }
                            mi = mi + 1;
                        }
                        proof {
                            assert(data.modules@.take(nm as int) =~= data.modules@);
                        }
                        count
                    },
                }
            },
            None => 0,
        }
    }

    /// Move the selection of the current view down by `n` rows, stopped at
    /// the last visible row.
    pub fn select_next_n(&mut self, n: usize)
        ensures
            moved_next(*old(self), *final(self), n as nat),
    {
        let rows = self.visible_rows();
        let max = if rows == 0 {
            0
        } else {
            rows - 1
        };
        match self.current_view {
            ViewKind::Summary | ViewKind::DataFlow => {
                let next = if self.selected_module_index > max {
                    max
                } else if max - self.selected_module_index < n {
                    max
                } else {
                    self.selected_module_index + n
                };
                self.selected_module_index = next;
            },
            ViewKind::Bottleneck => {
                let next = if self.selected_topic_index > max {
                    max
                } else if max - self.selected_topic_index < n {
                    max
                } else {
                    self.selected_topic_index + n
                };
                self.selected_topic_index = next;
            },
        }
    }

    /// Move the selection down one row, stopped at the last visible row.
    pub fn select_next(&mut self)
        ensures
            moved_next(*old(self), *final(self), 1),
    {
        self.select_next_n(1);
    }

    /// Move the selection of the current view up by `n` rows, stopping at
    /// the top.
    pub fn select_prev_n(&mut self, n: usize)
        ensures
            moved_prev(*old(self), *final(self), n as nat),
    {
        match self.current_view {
            ViewKind::Summary | ViewKind::DataFlow => {
                if self.selected_module_index >= n {
                    self.selected_module_index = self.selected_module_index - n;
                } else {
                    self.selected_module_index = 0;
                }
            },
            ViewKind::Bottleneck => {
                if self.selected_topic_index >= n {
                    self.selected_topic_index = self.selected_topic_index - n;
                } else {
                    self.selected_topic_index = 0;
                }
            },
        }
    }

    /// Move the selection up one row.
    pub fn select_prev(&mut self)
        ensures
            moved_prev(*old(self), *final(self), 1),
    {
        self.select_prev_n(1);
    }

    /// Jump to the first row.
    pub fn select_first(&mut self)
        ensures
            moved_first(*old(self), *final(self)),
    {
        match self.current_view {
            ViewKind::Summary | ViewKind::DataFlow => {
                self.selected_module_index = 0;
            },
            ViewKind::Bottleneck => {
                self.selected_topic_index = 0;
            },
        }
    }

    /// Jump to the last visible row.
    pub fn select_last(&mut self)
        ensures
            moved_last(*old(self), *final(self)),
    {
        let rows = self.visible_rows();
        let max = if rows == 0 {
            0
        } else {
            rows - 1
        };
        match self.current_view {
            ViewKind::Summary | ViewKind::DataFlow => {
                self.selected_module_index = max;
            },
            ViewKind::Bottleneck => {
                self.selected_topic_index = max;
            },
        }
    }

    /// The raw index into the data of the currently selected module.  The
    /// selection addresses the visible list, so in the summary the result
    /// is the selected row of the filtered list sorted by the current
    /// column and direction; in the flow view the selection is the raw
    /// index itself; the bottleneck view selects topics, not modules.
    pub fn get_selected_module_raw_index(&self) -> (r: Option<usize>)
        ensures
            self.data is None ==> r is None,
            self.current_view is Bottleneck ==> r is None,
            (self.current_view is Summary && self.data is Some) ==> {
                &&& (r is Some <==> (self.selected_module_index as int) < filtered_idx(
                    self.data->Some_0.modules@,
                    self.filter_text@,
                    self.data->Some_0.modules@.len() as int,
                ).len())
                &&& (r matches Some(ix) ==> ix < self.data->Some_0.modules@.len()
                    && is_visual_selection(ix, *self))
            },
            (self.current_view is DataFlow && self.data is Some) ==> r == (
            if (self.selected_module_index as int) < self.data->Some_0.modules@.len() {
                Some(self.selected_module_index)
            } else {
                None::<usize>
            }),
    {
        let data = match &self.data {
            Some(d) => d,
            None => {
                return None;
            },
        };
        match self.current_view {
            ViewKind::Summary => {
                let n = data.modules.len();
                let mut idxs: Vec<usize> = Vec::new();
                let mut i: usize = 0;
                while i < n
                    invariant
                        i <= n,
                        n == data.modules@.len(),
                        self.data matches Some(dd) && dd == data,
                        idxs@ == filtered_idx(data.modules@, self.filter_text@, i as int),
                        forall|k: int| 0 <= k < idxs@.len() ==> (#[trigger] idxs@[k]) < n,
                    decreases n - i,
                {
                    if self.matches_filter(data.modules[i].name.as_str()) {
                        idxs.push(i);
                    }
                    i = i + 1;
                }
                let ghost fidx = filtered_idx(data.modules@, self.filter_text@, n as int);
                let sorted = sort_modules_by(&data.modules, idxs, self.sort_column,
                    self.sort_ascending);
                proof {
                    assert(sorted@.to_multiset() == fidx.to_multiset());
                    assert(sorted@.len() == fidx.len()) by {
                        vstd::seq_lib::to_multiset_len(sorted@);
                        vstd::seq_lib::to_multiset_len(fidx);
                    }
                    assert(visual_order_ok(
                        sorted@,
                        data.modules@,
                        self.filter_text@,
                        self.sort_column,
                        self.sort_ascending,
                    ));
                }
                if self.selected_module_index < sorted.len() {
                    let ix = sorted[self.selected_module_index];
                    proof {
                        assert(is_visual_selection(ix, *self));
                    }
                    Some(ix)
                } else {
                    None
                }
            },
            ViewKind::DataFlow => {
                if self.selected_module_index < data.modules.len() {
                    Some(self.selected_module_index)
                } else {
                    None
                }
            },
            ViewKind::Bottleneck => None,
        }
    }

    /// Open the detail overlay for the selected module, in the views that
    /// have one.
    pub fn enter_detail(&mut self)
        ensures
            *final(self) == (App {
                show_detail_overlay: final(self).show_detail_overlay,
                ..*old(self)
            }),
            final(self).show_detail_overlay == (old(self).show_detail_overlay
                || !(old(self).current_view is DataFlow)),
    {
        if match self.current_view {
            ViewKind::Summary => true,
            ViewKind::Bottleneck => true,
            ViewKind::DataFlow => false,
        } {
            self.show_detail_overlay = true;
        }
    }

    /// Navigate back: close the overlay first; else pop the stack and
    /// restore the saved view and both selections; else fall back to the
    /// summary view.  Nothing else ever changes.
    pub fn go_back(&mut self)
        ensures
            went_back(*old(self), *final(self)),
    {
        if self.show_detail_overlay {
            self.show_detail_overlay = false;
            return;
        }
        if self.view_stack.len() > 0 {
            let _ = self.pop_view();
            return;
        }
        if match self.current_view {
            ViewKind::Summary => false,
            _ => true,
        } {
            self.current_view = ViewKind::Summary;
        }
    }

    /// Close the detail overlay if open.
    pub fn close_overlay(&mut self)
        ensures
            *final(self) == (App { show_detail_overlay: false, ..*old(self) }),
    {
        self.show_detail_overlay = false;
    }

    /// Toggle the help overlay.
    pub fn toggle_help(&mut self)
        ensures
            *final(self) == (App { show_help: !old(self).show_help, ..*old(self) }),
    {
        self.show_help = !self.show_help;
    }

    /// Cycle the sort column of the current view.
    pub fn cycle_sort(&mut self)
        ensures
            old(self).current_view is Summary ==> *final(self) == (App {
                sort_column: old(self).sort_column.spec_next(),
                ..*old(self)
            }),
            old(self).current_view is Bottleneck ==> *final(self) == (App {
                bottleneck_sort_column: old(self).bottleneck_sort_column.spec_next(),
                ..*old(self)
            }),
            old(self).current_view is DataFlow ==> *final(self) == *old(self),
    {
        match self.current_view {
            ViewKind::Summary => {
                self.sort_column = self.sort_column.next();
            },
            ViewKind::Bottleneck => {
                self.bottleneck_sort_column = self.bottleneck_sort_column.next();
            },
            ViewKind::DataFlow => {},
        }
    }

    /// Toggle the sort direction of the current view.
    pub fn toggle_sort_direction(&mut self)
        ensures
            old(self).current_view is Summary ==> *final(self) == (App {
                sort_ascending: !old(self).sort_ascending,
                ..*old(self)
            }),
            old(self).current_view is Bottleneck ==> *final(self) == (App {
                bottleneck_sort_ascending: !old(self).bottleneck_sort_ascending,
                ..*old(self)
            }),
            old(self).current_view is DataFlow ==> *final(self) == *old(self),
    {
        match self.current_view {
            ViewKind::Summary => {
                self.sort_ascending = !self.sort_ascending;
            },
            ViewKind::Bottleneck => {
                self.bottleneck_sort_ascending = !self.bottleneck_sort_ascending;
            },
            ViewKind::DataFlow => {},
        }
    }

    /// Enter filter input mode.
    pub fn start_filter(&mut self)
        ensures
            *final(self) == (App { filter_active: true, ..*old(self) }),
    {
        self.filter_active = true;
    }

    /// Leave filter input mode, keeping the text.
    pub fn cancel_filter(&mut self)
        ensures
            *final(self) == (App { filter_active: false, ..*old(self) }),
    {
        self.filter_active = false;
    }

    /// Clear the filter text and leave filter input mode.
    pub fn clear_filter(&mut self)
        ensures
            final(self).filter_text@.len() == 0,
            *final(self) == (App {
                filter_text: final(self).filter_text,
                filter_active: false,
                ..*old(self)
            }),
    {
        self.filter_text = String::new();
        self.filter_active = false;
    }

    /// Append a character to the filter text.
    pub fn filter_push(&mut self, c: char)
        ensures
            final(self).filter_text@ == old(self).filter_text@.push(c),
            *final(self) == (App { filter_text: final(self).filter_text, ..*old(self) }),
    {
        crate::strutil::push_char(&mut self.filter_text, c);
    }

    /// Drop the last character of the filter text, if any.
    pub fn filter_pop(&mut self)
        ensures
            old(self).filter_text@.len() > 0 ==> final(self).filter_text@ == old(self).filter_text@.drop_last(),
            old(self).filter_text@.len() == 0 ==> final(self).filter_text@ == old(self).filter_text@,
            *final(self) == (App { filter_text: final(self).filter_text, ..*old(self) }),
    {
        pop_last_char(&mut self.filter_text);
    }

    /// Signal the main loop to stop.
    pub fn quit(&mut self)
        ensures
            *final(self) == (App { running: false, ..*old(self) }),
    {
        self.running = false;
    }

    /// Record a load error from the data source.
    pub fn set_load_error(&mut self, message: String)
        ensures
            *final(self) == (App { load_error: Some(message), ..*old(self) }),
    {
        self.load_error = Some(message);
    }

    /// Apply a fresh snapshot: derive the monitor data (one row per
    /// module, per `module_row_matches`, sorted worst health first), record
    /// the totals into the history, clamp the module selection to the new
    /// bounds, and clear any load error.  Nothing else changes.
    pub fn apply_snapshot(&mut self, snapshot: &Snapshot, now_micros: u64)
        requires
            old(self).wf(),
            snapshot.wf(),
        ensures
            final(self).wf(),
            final(self).data matches Some(d) && d.last_updated_micros == now_micros
                && d.modules@.len() == snapshot.modules.spec_len(),
            ({
                let d = final(self).data->Some_0;
                &&& (forall|i: int, j: int|
                    0 <= i < j < d.modules@.len() ==> crate::monitor::module_le(
                        d.modules@[i],
                        d.modules@[j],
                    ))
                &&& (forall|b: int|
                    0 <= b < snapshot.modules.spec_len() ==> crate::monitor::has_row_for(
                        d,
                        snapshot.modules.key_seq()[b],
                        #[trigger] snapshot.modules.val_seq()[b],
                        old(self).thresholds,
                    ))
            }),
            crate::history::recorded_from(
                old(self).history,
                final(self).history,
                final(self).data->Some_0,
            ),
            final(self).selected_module_index as int == (
            if (old(self).selected_module_index as int) < snapshot.modules.spec_len() {
                old(self).selected_module_index as int
            } else if snapshot.modules.spec_len() == 0 {
                0
            } else {
                snapshot.modules.spec_len() - 1
            }),
            final(self).load_error is None,
            *final(self) == (App {
                data: final(self).data,
                history: final(self).history,
                load_error: None,
                selected_module_index: final(self).selected_module_index,
                ..*old(self)
            }),
    {
        let data = MonitorData::from_snapshot(snapshot, &self.thresholds, now_micros);
        self.history.record(&data);
        let len = data.modules.len();
        if self.selected_module_index >= len {
            self.selected_module_index = if len == 0 {
                0
            } else {
                len - 1
            };
        }
        self.data = Some(data);
        self.load_error = None;
    }

    /// Dispatch one keyboard input according to the keymap.  Help, the
    /// detail overlay and filter input mode capture keys first; `q` quits;
    /// digits jump to views; tab and arrows cycle; `r` and `e` ask the
    /// caller to reload or export.
    pub fn handle_key(&mut self, key: KeyInput) -> (r: KeyOutcome)
        requires
            old(self).wf(),
        ensures
            final(self).wf(),
            old(self).show_help ==> !final(self).show_help && r is Handled,
            !old(self).show_help && old(self).show_detail_overlay && (key == KeyInput::Esc || key
                == KeyInput::Enter || key == KeyInput::Backspace || key == KeyInput::Char('q'))
                ==> !final(self).show_detail_overlay && r is Handled,
            !old(self).show_help && !old(self).show_detail_overlay && !old(self).filter_active
                ==> {
                &&& (key == KeyInput::Char('q') ==> !final(self).running)
                &&& (key == KeyInput::Char('1') ==> final(self).current_view is Summary)
                &&& (key == KeyInput::Char('2') ==> final(self).current_view is Bottleneck)
                &&& (key == KeyInput::Char('3') ==> final(self).current_view is DataFlow)
                &&& (key == KeyInput::Tab ==> final(self).current_view == old(self).current_view.spec_next())
                &&& (key == KeyInput::BackTab ==> final(self).current_view == old(self).current_view.spec_prev())
                &&& (key == KeyInput::Char('?') ==> final(self).show_help == !old(self).show_help)
                &&& (key == KeyInput::Char('r') ==> r is RequestReload)
                &&& (key == KeyInput::Char('e') ==> r is RequestExport)
                &&& (key == KeyInput::Char('/') ==> *final(self) == (App {
                    filter_active: true,
                    ..*old(self)
                }))
                &&& ((key == KeyInput::Up || key == KeyInput::Char('k')) ==> moved_prev(
                    *old(self),
                    *final(self),
                    1,
                ))
                &&& ((key == KeyInput::Down || key == KeyInput::Char('j')) ==> moved_next(
                    *old(self),
                    *final(self),
                    1,
                ))
                &&& (key == KeyInput::PageUp ==> moved_prev(*old(self), *final(self), 10))
                &&& (key == KeyInput::PageDown ==> moved_next(*old(self), *final(self), 10))
                &&& (key == KeyInput::Home ==> moved_first(*old(self), *final(self)))
                &&& (key == KeyInput::End ==> moved_last(*old(self), *final(self)))
                &&& ((key == KeyInput::Esc || key == KeyInput::Backspace) ==> went_back(
                    *old(self),
                    *final(self),
                ))
                &&& ((key == KeyInput::Left || key == KeyInput::Char('h')) ==> *final(self) == (
                App {
                    current_view: old(self).current_view.spec_prev(),
                    selected_topic_index: 0,
                    ..*old(self)
                }))
                &&& ((key == KeyInput::Right || key == KeyInput::Char('l')) ==> *final(self) == (
                App {
                    current_view: old(self).current_view.spec_next(),
                    selected_topic_index: 0,
                    ..*old(self)
                }))
                &&& (key == KeyInput::Enter ==> *final(self) == (App {
                    show_detail_overlay: old(self).show_detail_overlay || !(old(
                        self,
                    ).current_view is DataFlow),
                    ..*old(self)
                }))
                &&& (key == KeyInput::Char('s') ==> {
                    if old(self).current_view is Summary {
                        *final(self) == (App {
                            sort_column: old(self).sort_column.spec_next(),
                            ..*old(self)
                        })
                    } else if old(self).current_view is Bottleneck {
                        *final(self) == (App {
                            bottleneck_sort_column: old(self).bottleneck_sort_column.spec_next(),
                            ..*old(self)
                        })
                    } else {
                        *final(self) == *old(self)
                    }
                })
                &&& (key == KeyInput::Char('S') ==> {
                    if old(self).current_view is Summary {
                        *final(self) == (App {
                            sort_ascending: !old(self).sort_ascending,
                            ..*old(self)
                        })
                    } else if old(self).current_view is Bottleneck {
                        *final(self) == (App {
                            bottleneck_sort_ascending: !old(self).bottleneck_sort_ascending,
                            ..*old(self)
                        })
                    } else {
                        *final(self) == *old(self)
                    }
                })
                &&& (key == KeyInput::Char('c') ==> {
                    if old(self).filter_text@.len() > 0 {
                        final(self).filter_text@.len() == 0 && *final(self) == (App {
                            filter_text: final(self).filter_text,
                            filter_active: false,
                            ..*old(self)
                        })
                    } else {
                        *final(self) == *old(self)
                    }
                })
            },
            !old(self).show_help && !old(self).show_detail_overlay && old(self).filter_active
                ==> {
                &&& (key == KeyInput::Enter ==> !final(self).filter_active)
                &&& (key == KeyInput::Esc ==> !final(self).filter_active && final(self).filter_text
                    == old(self).filter_text)
                &&& (key == KeyInput::CtrlChar('c') ==> final(self).filter_text@.len() == 0
                    && !final(self).filter_active)
                &&& (key matches KeyInput::Char(c) ==> final(self).filter_text@ == old(self).filter_text@.push(c))
            },
    {
        if self.show_help {
            self.show_help = false;
            return KeyOutcome::Handled;
        }
        if self.show_detail_overlay {
            match key {
                KeyInput::Esc | KeyInput::Enter | KeyInput::Backspace => {
                    self.close_overlay();
                },
                KeyInput::Char(c) => {
                    if c == 'q' {
                        self.close_overlay();
                    }
                },
                KeyInput::Up => {
                    self.select_prev();
                },
                KeyInput::Down => {
                    self.select_next();
                },
                KeyInput::PageUp => {
                    self.select_prev_n(10);
                },
                KeyInput::PageDown => {
                    self.select_next_n(10);
                },
                KeyInput::Home => {
                    self.select_first();
                },
                KeyInput::End => {
                    self.select_last();
                },
                _ => {},
            }
            return KeyOutcome::Handled;
        }
        if self.filter_active {
            match key {
                KeyInput::Enter => {
                    self.filter_active = false;
                },
                KeyInput::Esc => {
                    self.cancel_filter();
                },
                KeyInput::CtrlChar(c) => {
                    if c == 'c' {
                        self.clear_filter();
                    }
                },
                KeyInput::Backspace => {
                    self.filter_pop();
                    if self.filter_text.as_str().unicode_len() == 0 {
                        self.filter_active = false;
                    }
                },
                KeyInput::Char(c) => {
                    self.filter_push(c);
                },
                _ => {},
            }
            return KeyOutcome::Handled;
        }
        match key {
            KeyInput::Char(c) => {
                if c == 'q' {
                    self.quit();
                } else if c == '1' {
                    self.set_view(ViewKind::Summary);
                } else if c == '2' {
                    self.set_view(ViewKind::Bottleneck);
                } else if c == '3' {
                    self.set_view(ViewKind::DataFlow);
                } else if c == 'k' {
                    self.select_prev();
                } else if c == 'j' {
                    self.select_next();
                } else if c == 'h' {
                    self.prev_view();
                } else if c == 'l' {
                    self.next_view();
                } else if c == 'r' {
                    return KeyOutcome::RequestReload;
                } else if c == '?' {
                    self.toggle_help();
                } else if c == 's' {
                    if match self.current_view {
                        ViewKind::DataFlow => false,
                        _ => true,
                    } {
                        self.cycle_sort();
                    }
                } else if c == 'S' {
                    if match self.current_view {
                        ViewKind::DataFlow => false,
                        _ => true,
                    } {
                        self.toggle_sort_direction();
                    }
                } else if c == '/' {
                    self.start_filter();
                } else if c == 'c' {
                    if self.filter_text.as_str().unicode_len() > 0 {
                        self.clear_filter();
                    }
                } else if c == 'e' {
                    return KeyOutcome::RequestExport;
                }
            },
            KeyInput::Tab => {
                self.next_view();
            },
            KeyInput::BackTab => {
                self.prev_view();
            },
            KeyInput::Up => {
                self.select_prev();
            },
            KeyInput::Down => {
                self.select_next();
            },
            KeyInput::Left => {
                self.prev_view();
            },
            KeyInput::Right => {
                self.next_view();
            },
            KeyInput::PageUp => {
                self.select_prev_n(10);
            },
            KeyInput::PageDown => {
                self.select_next_n(10);
            },
            KeyInput::Home => {
                self.select_first();
            },
            KeyInput::End => {
                self.select_last();
            },
            KeyInput::Enter => {
                self.enter_detail();
            },
            KeyInput::Esc | KeyInput::Backspace => {
                self.go_back();
            },
            KeyInput::CtrlChar(_) => {},
        }
        KeyOutcome::Handled
    }

    /// Dispatch one mouse input: the wheel moves the selection by one
    /// row, a left click acts per `after_left_click`, and a right click
    /// navigates back.
    pub fn handle_mouse(&mut self, m: MouseInput, content_start_row: u16)
        ensures
            m is ScrollUp ==> moved_prev(*old(self), *final(self), 1),
            m is ScrollDown ==> moved_next(*old(self), *final(self), 1),
            m matches MouseInput::LeftClick(row, col) ==> *final(self) == after_left_click(
                *old(self),
                row,
                col,
                content_start_row,
            ),
            m is RightClick ==> went_back(*old(self), *final(self)),
    {
        match m {
            MouseInput::ScrollUp => {
                self.select_prev();
            },
            MouseInput::ScrollDown => {
                self.select_next();
            },
            MouseInput::LeftClick(row, column) => {
                if row > content_start_row {
                    let item_row = (row - content_start_row - 1) as usize;
                    let rows = self.visible_rows();
                    if item_row < rows {
                        match self.current_view {
                            ViewKind::Summary => {
                                self.selected_module_index = item_row;
                            },
                            ViewKind::Bottleneck => {
                                self.selected_topic_index = item_row;
                            },
                            ViewKind::DataFlow => {
                                self.selected_topic_index = item_row;
                            },
                        }
                    }
                }
                if row == 1 {
                    if column < 13 {
                        self.set_view(ViewKind::Summary);
                    } else if column < 29 {
                        self.set_view(ViewKind::Bottleneck);
                    } else if column < 39 {
                        self.set_view(ViewKind::DataFlow);
                    }
                }
            },
            MouseInput::RightClick => {
                self.go_back();
            },
        }
    }
}

/// Drop the last character of a string, if any.
fn pop_last_char(s: &mut String)
    ensures
        old(s)@.len() > 0 ==> final(s)@ == old(s)@.drop_last(),
        old(s)@.len() == 0 ==> final(s)@ == old(s)@,
{
    let n = s.as_str().unicode_len();
    if n == 0 {
        return;
    }
    let t = s.as_str().substring_char(0, n - 1).to_owned();
    proof {
        assert(old(s)@.subrange(0, old(s)@.len() - 1) =~= old(s)@.drop_last());
    }
    *s = t;
}

/// A count for display: plain below a thousand, then thousands or millions
/// with one decimal, rounding half up.
pub open spec fn format_count_spec(n: nat) -> Seq<char> {
    if n >= 1_000_000 {
        let v10 = (n + 50_000) / 100_000;
        crate::strutil::dec_str(v10 / 10) + seq!['.', crate::strutil::dec_digit(v10 % 10), 'M']
    } else if n >= 1_000 {
        let v10 = (n + 50) / 100;
        crate::strutil::dec_str(v10 / 10) + seq!['.', crate::strutil::dec_digit(v10 % 10), 'K']
    } else {
        crate::strutil::dec_str(n)
    }
}

/// Format a count for display with a thousands or millions suffix.
pub fn format_count(n: u64) -> (r: String)
    ensures
        r@ == format_count_spec(n as nat),
{
    if n >= 1_000_000 {
        let v10 = if n <= u64::MAX - 50_000 {
            (n + 50_000) / 100_000
        } else {
            n / 100_000 + (n % 100_000 + 50_000) / 100_000
        };
        proof {
            if n > u64::MAX - 50_000 {
                vstd::arithmetic::div_mod::lemma_fundamental_div_mod(n as int, 100_000);
                vstd::arithmetic::div_mod::lemma_hoist_over_denominator(
                    n as int % 100_000 + 50_000,
                    n as int / 100_000,
                    100_000,
                );
            }
        }
        let mut out = crate::strutil::u64_to_string(v10 / 10);
        crate::strutil::push_char(&mut out, '.');
        crate::strutil::push_char(&mut out, crate::strutil::digit_char(v10 % 10));
        crate::strutil::push_char(&mut out, 'M');
        out
    } else if n >= 1_000 {
        let v10 = (n + 50) / 100;
        let mut out = crate::strutil::u64_to_string(v10 / 10);
        crate::strutil::push_char(&mut out, '.');
        crate::strutil::push_char(&mut out, crate::strutil::digit_char(v10 % 10));
        crate::strutil::push_char(&mut out, 'K');
        out
    } else {
        crate::strutil::u64_to_string(n)
    }
}

/// The glyph of one sparkline level.
pub open spec fn spark_char(level: u8) -> char {
    if level == 0 {
        '\u{2581}'
    } else if level == 1 {
        '\u{2582}'
    } else if level == 2 {
        '\u{2583}'
    } else if level == 3 {
        '\u{2584}'
    } else if level == 4 {
        '\u{2585}'
    } else if level == 5 {
        '\u{2586}'
    } else if level == 6 {
        '\u{2587}'
    } else {
        '\u{2588}'
    }
}

/// The sparkline text of a window of levels: eight spaces when there are
/// none, else the last eight levels as bar glyphs.
pub open spec fn sparkline_text_spec(levels: Seq<u8>) -> Seq<char> {
    if levels.len() == 0 {
        seq![' ', ' ', ' ', ' ', ' ', ' ', ' ', ' ']
    } else {
        let tail = if levels.len() > 8 {
            levels.subrange(levels.len() - 8, levels.len() as int)
        } else {
            levels
        };
        tail.map_values(|l: u8| spark_char(l))
    }
}

fn spark_char_exec(level: u8) -> (c: char)
    ensures
        c == spark_char(level),
{
    if level == 0 {
        '\u{2581}'
    } else if level == 1 {
        '\u{2582}'
    } else if level == 2 {
        '\u{2583}'
    } else if level == 3 {
        '\u{2584}'
    } else if level == 4 {
        '\u{2585}'
    } else if level == 5 {
        '\u{2586}'
    } else if level == 6 {
        '\u{2587}'
    } else {
        '\u{2588}'
    }
}

/// Render a window of sparkline levels as its display text.
pub fn render_sparkline(levels: &Vec<u8>) -> (r: String)
    ensures
        r@ == sparkline_text_spec(levels@),
{
    let n = levels.len();
    if n == 0 {
        let out = String::from_str("        ");
        proof {
            reveal_strlit("        ");
            assert(out@ =~= sparkline_text_spec(levels@));
        }
        return out;
    }
    let start = if n > 8 {
        n - 8
    } else {
        0
    };
    let ghost tail = if levels@.len() > 8 {
        levels@.subrange(levels@.len() - 8, levels@.len() as int)
    } else {
        levels@
    };
    let mut out = String::new();
    let mut i: usize = start;
    while i < n
        invariant
            start <= i <= n,
            n == levels@.len(),
            n > 0,
            start == (if n > 8 { n - 8 } else { 0 }),
            tail == (if levels@.len() > 8 {
                levels@.subrange(levels@.len() - 8, levels@.len() as int)
            } else {
                levels@
            }),
            out@ == tail.map_values(|l: u8| spark_char(l)).take(i - start),
        decreases n - i,
    {
        proof {
            assert(tail[i - start] == levels@[i as int]);
        }
        crate::strutil::push_char(&mut out, spark_char_exec(levels[i]));
        proof {
            assert(out@ =~= tail.map_values(|l: u8| spark_char(l)).take(i + 1 - start));
        }
        i = i + 1;
    }
    proof {
        assert(tail.map_values(|l: u8| spark_char(l)).take(n - start)
            =~= tail.map_values(|l: u8| spark_char(l)));
    }
    out
}

} // verus!
