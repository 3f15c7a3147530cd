//! Historical per-module counters for sparklines and display rates.

use vstd::prelude::*;
use crate::monitor::MonitorData;
use crate::namemap::NameMap;
use crate::metrics::lemma_insert_preserves;

verus! {

/// How many snapshots of history are kept per series.
pub const MAX_HISTORY_SIZE: usize = 60;

/// Append a reading, dropping the oldest when the window is full.
pub open spec fn push_cap(s: Seq<u64>, v: u64) -> Seq<u64> {
    let p = s.push(v);
    if p.len() > MAX_HISTORY_SIZE {
        p.subrange(1, p.len() as int)
    } else {
        p
    }
}

/// The module names of monitor data are pairwise distinct.
pub open spec fn distinct_names(data: MonitorData) -> bool {
    forall|i: int, j: int|
        0 <= i < j < data.modules@.len() ==> (#[trigger] data.modules@[i]).name@ != (
        #[trigger] data.modules@[j]).name@
}

/// Data has a module row of the given name.
pub open spec fn data_has_module(data: MonitorData, name: Seq<char>) -> bool {
    exists|i: int| 0 <= i < data.modules@.len() && (#[trigger] data.modules@[i]).name@ == name
}


/// What one record does to a history, in one predicate: the instant window
/// advances by the data's instant, a series exists exactly for previously
/// known names and the data's modules, series of absent names are
/// untouched, and (for distinct module names) each named series gains
/// exactly its module's totals.
pub open spec fn recorded_from(h0: History, h1: History, data: MonitorData) -> bool {
    &&& h1.wf()
    &&& h1.timestamps@ == push_cap(h0.timestamps@, data.last_updated_micros)
    &&& (forall|name: Seq<char>|
        #[trigger] h1.module_reads.has_key(name) <==> h0.module_reads.has_key(name)
            || data_has_module(data, name))
    &&& (forall|name: Seq<char>|
        #[trigger] h1.module_writes.has_key(name) <==> h0.module_writes.has_key(name)
            || data_has_module(data, name))
    &&& (distinct_names(data) ==> forall|i: int|
        0 <= i < data.modules@.len() ==> {
            let name = (#[trigger] data.modules@[i]).name@;
            let rbefore = if h0.module_reads.has_key(name) {
                h0.module_reads.spec_get(name)@
            } else {
                Seq::<u64>::empty()
            };
            let wbefore = if h0.module_writes.has_key(name) {
                h0.module_writes.spec_get(name)@
            } else {
                Seq::<u64>::empty()
            };
            &&& h1.module_reads.spec_get(name)@ == push_cap(rbefore, data.modules@[i].total_read)
            &&& h1.module_writes.spec_get(name)@ == push_cap(
                wbefore,
                data.modules@[i].total_written,
            )
        })
    &&& (forall|name: Seq<char>|
        !data_has_module(data, name) && #[trigger] h0.module_reads.has_key(name)
            ==> h1.module_reads.has_key(name) && h1.module_reads.spec_get(name)
            == h0.module_reads.spec_get(name))
    &&& (forall|name: Seq<char>|
        !data_has_module(data, name) && #[trigger] h0.module_writes.has_key(name)
            ==> h1.module_writes.has_key(name) && h1.module_writes.spec_get(name)
            == h0.module_writes.spec_get(name))
}

/// Tracks the last `MAX_HISTORY_SIZE` total counts per module, plus the
/// instants the records were taken, for sparklines and display rates.
#[derive(Debug, Clone)]
pub struct History {
    /// Windows of total-read counts per module name.
    pub module_reads: NameMap<Vec<u64>>,
    /// Windows of total-written counts per module name.
    pub module_writes: NameMap<Vec<u64>>,
    /// Instants of the records, in microseconds.
    pub timestamps: Vec<u64>,
}

impl History {
    /// Both series maps are well-formed.
    pub open spec fn wf(self) -> bool {
        self.module_reads.wf() && self.module_writes.wf()
    }

    /// An empty history.
    pub fn new() -> (h: History)
        ensures
            h.wf(),
            h.module_reads.spec_len() == 0,
            h.module_writes.spec_len() == 0,
            h.timestamps@.len() == 0,
    {
        History {
            module_reads: NameMap::new(),
            module_writes: NameMap::new(),
            timestamps: Vec::new(),
        }
    }

    /// Record the totals of every module of the data, and the data's
    /// instant.  When the data's module names are distinct, each named
    /// series gains exactly its module's total (from an empty window if the
    /// name is new), no other series moves, and the instant window advances.
    pub fn record(&mut self, data: &MonitorData)
        requires
            old(self).wf(),
        ensures
            final(self).wf(),
            recorded_from(*old(self), *final(self), *data),
            final(self).timestamps@ == push_cap(old(self).timestamps@, data.last_updated_micros),
            forall|name: Seq<char>|
                #[trigger] final(self).module_reads.has_key(name)
                    <==> old(self).module_reads.has_key(name) || data_has_module(*data, name),
            forall|name: Seq<char>|
                #[trigger] final(self).module_writes.has_key(name)
                    <==> old(self).module_writes.has_key(name) || data_has_module(*data, name),
            distinct_names(*data) ==> forall|i: int|
                0 <= i < data.modules@.len() ==> {
                    let name = (#[trigger] data.modules@[i]).name@;
                    let rbefore = if old(self).module_reads.has_key(name) {
                        old(self).module_reads.spec_get(name)@
                    } else {
                        Seq::<u64>::empty()
                    };
                    let wbefore = if old(self).module_writes.has_key(name) {
                        old(self).module_writes.spec_get(name)@
                    } else {
                        Seq::<u64>::empty()
                    };
                    &&& final(self).module_reads.spec_get(name)@ == push_cap(
                        rbefore,
                        data.modules@[i].total_read,
                    )
                    &&& final(self).module_writes.spec_get(name)@ == push_cap(
                        wbefore,
                        data.modules@[i].total_written,
                    )
                },
            forall|name: Seq<char>|
                !data_has_module(*data, name) && #[trigger] old(self).module_reads.has_key(name)
                    ==> final(self).module_reads.has_key(name)
                        && final(self).module_reads.spec_get(name)
                        == old(self).module_reads.spec_get(name),
            forall|name: Seq<char>|
                !data_has_module(*data, name) && #[trigger] old(self).module_writes.has_key(name)
                    ==> final(self).module_writes.has_key(name)
                        && final(self).module_writes.spec_get(name)
                        == old(self).module_writes.spec_get(name),
    {
        let nm = data.modules.len();
        let mut i: usize = 0;
        while i < nm
            invariant
                i <= nm,
                nm == data.modules@.len(),
                self.wf(),
                self.timestamps == old(self).timestamps,
                forall|name: Seq<char>|
                    #[trigger] self.module_reads.has_key(name)
                        <==> old(self).module_reads.has_key(name) || (exists|m: int|
                        0 <= m < i && (#[trigger] data.modules@[m]).name@ == name),
                forall|name: Seq<char>|
                    #[trigger] self.module_writes.has_key(name)
                        <==> old(self).module_writes.has_key(name) || (exists|m: int|
                        0 <= m < i && (#[trigger] data.modules@[m]).name@ == name),
                distinct_names(*data) ==> forall|m: int|
                    0 <= m < i ==> {
                        let name = (#[trigger] data.modules@[m]).name@;
                        let rbefore = if old(self).module_reads.has_key(name) {
                            old(self).module_reads.spec_get(name)@
                        } else {
                            Seq::<u64>::empty()
                        };
                        let wbefore = if old(self).module_writes.has_key(name) {
                            old(self).module_writes.spec_get(name)@
                        } else {
                            Seq::<u64>::empty()
                        };
                        &&& self.module_reads.spec_get(name)@ == push_cap(
                            rbefore,
                            data.modules@[m].total_read,
                        )
                        &&& self.module_writes.spec_get(name)@ == push_cap(
                            wbefore,
                            data.modules@[m].total_written,
                        )
                    },
                forall|name: Seq<char>|
                    !(exists|m: int| 0 <= m < i && (#[trigger] data.modules@[m]).name@ == name)
                        && #[trigger] old(self).module_reads.has_key(name) ==> self.module_reads.has_key(
                        name,
                    ) && self.module_reads.spec_get(name) == old(self).module_reads.spec_get(name),
                forall|name: Seq<char>|
                    !(exists|m: int| 0 <= m < i && (#[trigger] data.modules@[m]).name@ == name)
                        && #[trigger] old(self).module_writes.has_key(name)
                        ==> self.module_writes.has_key(name) && self.module_writes.spec_get(name)
                        == old(self).module_writes.spec_get(name),
                forall|name: Seq<char>|
                    !(exists|m: int| 0 <= m < i && (#[trigger] data.modules@[m]).name@ == name)
                        && !old(self).module_reads.has_key(name) && #[trigger] self.module_reads.has_key(name)
                        ==> false,
                forall|name: Seq<char>|
                    !(exists|m: int| 0 <= m < i && (#[trigger] data.modules@[m]).name@ == name)
                        && !old(self).module_writes.has_key(name) && #[trigger] self.module_writes.has_key(name)
                        ==> false,
            decreases nm - i,
        {
            let ghost self0 = *self;
            let md = &data.modules[i];
            record_series(&mut self.module_reads, md.name.as_str(), md.total_read);
            record_series(&mut self.module_writes, md.name.as_str(), md.total_written);
            proof {
                let nm_i = data.modules@[i as int].name@;
                assert forall|name: Seq<char>|
                    #[trigger] self.module_reads.has_key(name) <==> old(
                        self,
                    ).module_reads.has_key(name) || (exists|m: int|
                        0 <= m < i + 1 && (#[trigger] data.modules@[m]).name@ == name) by {
                    assert(self0.module_reads.has_key(name) <==> old(self).module_reads.has_key(
                        name,
                    ) || (exists|m: int|
                        0 <= m < i && (#[trigger] data.modules@[m]).name@ == name));
                    if name == nm_i {
                        assert((data.modules@[i as int]).name@ == name);
                        assert(self.module_reads.has_key(name));
                    } else {
                        assert(self.module_reads.has_key(name) <==> self0.module_reads.has_key(
                            name,
                        ));
                        if exists|m: int|
                            0 <= m < i + 1 && (#[trigger] data.modules@[m]).name@ == name {
                            let m = choose|m: int|
                                0 <= m < i + 1 && (#[trigger] data.modules@[m]).name@ == name;
                            assert(m < i);
                        }
                    }
                }
                assert forall|name: Seq<char>|
                    #[trigger] self.module_writes.has_key(name) <==> old(
                        self,
                    ).module_writes.has_key(name) || (exists|m: int|
                        0 <= m < i + 1 && (#[trigger] data.modules@[m]).name@ == name) by {
                    assert(self0.module_writes.has_key(name) <==> old(self).module_writes.has_key(
                        name,
                    ) || (exists|m: int|
                        0 <= m < i && (#[trigger] data.modules@[m]).name@ == name));
                    if name == nm_i {
                        assert((data.modules@[i as int]).name@ == name);
                        assert(self.module_writes.has_key(name));
                    } else {
                        assert(self.module_writes.has_key(name) <==> self0.module_writes.has_key(
                            name,
                        ));
                        if exists|m: int|
                            0 <= m < i + 1 && (#[trigger] data.modules@[m]).name@ == name {
                            let m = choose|m: int|
                                0 <= m < i + 1 && (#[trigger] data.modules@[m]).name@ == name;
                            assert(m < i);
                        }
                    }
                }
                if distinct_names(*data) {
                    assert forall|m: int| 0 <= m < i + 1 implies {
                        let name = (#[trigger] data.modules@[m]).name@;
                        let rbefore = if old(self).module_reads.has_key(name) {
                            old(self).module_reads.spec_get(name)@
                        } else {
                            Seq::<u64>::empty()
                        };
                        let wbefore = if old(self).module_writes.has_key(name) {
                            old(self).module_writes.spec_get(name)@
                        } else {
                            Seq::<u64>::empty()
                        };
                        self.module_reads.spec_get(name)@ == push_cap(
                            rbefore,
                            data.modules@[m].total_read,
                        ) && self.module_writes.spec_get(name)@ == push_cap(
                            wbefore,
                            data.modules@[m].total_written,
                        )
                    } by {
                        let name = data.modules@[m].name@;
                        assert(self0.module_reads.has_key(name) <==> old(
                            self,
                        ).module_reads.has_key(name) || (exists|mm: int|
                            0 <= mm < i && (#[trigger] data.modules@[mm]).name@ == name));
                        assert(self0.module_writes.has_key(name) <==> old(
                            self,
                        ).module_writes.has_key(name) || (exists|mm: int|
                            0 <= mm < i && (#[trigger] data.modules@[mm]).name@ == name));
                        if m < i {
                            assert(data.modules@[m].name@ != nm_i);
                            assert(self0.module_reads.spec_get(name)@ == push_cap(
                                if old(self).module_reads.has_key(name) {
                                    old(self).module_reads.spec_get(name)@
                                } else {
                                    Seq::<u64>::empty()
                                },
                                data.modules@[m].total_read,
                            ));
                            assert(self.module_reads.spec_get(name) == self0.module_reads.spec_get(
                                name,
                            ));
                            assert(self0.module_writes.spec_get(name)@ == push_cap(
                                if old(self).module_writes.has_key(name) {
                                    old(self).module_writes.spec_get(name)@
                                } else {
                                    Seq::<u64>::empty()
                                },
                                data.modules@[m].total_written,
                            ));
                            assert(self.module_writes.spec_get(name)
                                == self0.module_writes.spec_get(name));
                        } else {
                            assert(name == nm_i);
                            assert(!(exists|mm: int|
                                0 <= mm < i && (#[trigger] data.modules@[mm]).name@ == name)) by {
                                if exists|mm: int|
                                    0 <= mm < i && (#[trigger] data.modules@[mm]).name@ == name {
                                    let mm = choose|mm: int|
                                        0 <= mm < i && (#[trigger] data.modules@[mm]).name@
                                            == name;
                                    assert(data.modules@[mm].name@ != data.modules@[i as int].name@);
                                }
                            }
                            if old(self).module_reads.has_key(name) {
                                assert(self0.module_reads.spec_get(name) == old(
                                    self,
                                ).module_reads.spec_get(name));
                            }
                            if old(self).module_writes.has_key(name) {
                                assert(self0.module_writes.spec_get(name) == old(
                                    self,
                                ).module_writes.spec_get(name));
                            }
                        }
                    }
                }
            }
            i = i + 1;
        }
        self.timestamps.push(data.last_updated_micros);
        if self.timestamps.len() > MAX_HISTORY_SIZE {
            let _ = self.timestamps.remove(0);
            proof {
                assert(self.timestamps@ =~= push_cap(
                    old(self).timestamps@,
                    data.last_updated_micros,
                ));
            }
        }
    }
}

impl Default for History {
    /// The default history is empty.
    fn default() -> (h: History)
        ensures
            h.wf(),
            h.module_reads.spec_len() == 0,
            h.module_writes.spec_len() == 0,
            h.timestamps@.len() == 0,
    {
        History::new()
    }
}

/// Push one reading into the named series, creating it if needed.
fn record_series(m: &mut NameMap<Vec<u64>>, name: &str, total: u64)
    requires
        old(m).wf(),
    ensures
        final(m).wf(),
        final(m).has_key(name@),
        final(m).spec_get(name@)@ == push_cap(
            if old(m).has_key(name@) {
                old(m).spec_get(name@)@
            } else {
                Seq::<u64>::empty()
            },
            total,
        ),
        forall|k: Seq<char>|
            k != name@ && #[trigger] old(m).has_key(k) ==> final(m).has_key(k)
                && final(m).spec_get(k) == old(m).spec_get(k),
        forall|k: Seq<char>|
            k != name@ && !old(m).has_key(k) ==> !(#[trigger] final(m).has_key(k)),
{
    let ghost before = *m;
    match m.index_of(name) {
        Some(ix) => {
            proof {
                before.lemma_idx_of(name@);
            }
            let mut v = m.replace_at(ix, Vec::new());
            v.push(total);
            if v.len() > MAX_HISTORY_SIZE {
                let _ = v.remove(0);
            }
            let ghost vv = v@;
            let _ = m.replace_at(ix, v);
            proof {
                assert(vv =~= push_cap(before.spec_get(name@)@, total));
                m.lemma_idx_of(name@);
                assert(m.idx_of(name@) == ix);
                assert(m.spec_get(name@)@ == vv);
                assert forall|k: Seq<char>|
                    k != name@ && #[trigger] before.has_key(k) implies m.has_key(k)
                    && m.spec_get(k) == before.spec_get(k) by {
                    m.lemma_idx_of_eq(before, k, 0);
                    before.lemma_idx_of(k);
                    assert(before.idx_of(k) != ix);
                }
                assert forall|k: Seq<char>|
                    k != name@ && !before.has_key(k) implies !(#[trigger] m.has_key(k)) by {
                    m.lemma_idx_of_eq(before, k, 0);
                }
            }
        },
        None => {
            proof {
                before.lemma_idx_of(name@);
            }
            let mut v: Vec<u64> = Vec::new();
            v.push(total);
            let ghost vv = v;
            let idx = m.insert(name, v);
            proof {
                lemma_insert_preserves(before, *m, name@, vv, idx as int);
                assert(m.spec_get(name@)@ =~= push_cap(Seq::<u64>::empty(), total));
                assert forall|k: Seq<char>|
                    k != name@ && !before.has_key(k) implies !(#[trigger] m.has_key(k)) by {
                    m.lemma_idx_of(k);
                    before.lemma_idx_of(k);
                    if m.has_key(k) {
                        let mi2 = m.idx_of(k);
                        assert(m.key_seq()[mi2] == k);
                        before.key_seq().insert_ensures(idx as int, name@);
                        if mi2 < idx {
                            assert(before.key_seq()[mi2] == k);
                        } else {
                            assert(before.key_seq()[mi2 - 1] == k);
                        }
                        assert(false);
                    }
                }
            }
        },
    }
}

/// The successive differences of a window of counts.
pub open spec fn deltas_of(s: Seq<u64>) -> Seq<int> {
    Seq::new((s.len() - 1) as nat, |i: int| s[i + 1] - s[i])
}

/// The smallest of the deltas and zero.
pub open spec fn min_delta(d: Seq<int>) -> int
    decreases d.len(),
{
    if d.len() == 0 {
        0
    } else {
        let rest = min_delta(d.drop_last());
        if d.last() < rest {
            d.last()
        } else {
            rest
        }
    }
}

/// The largest of the deltas and one.
pub open spec fn max_delta(d: Seq<int>) -> int
    decreases d.len(),
{
    if d.len() == 0 {
        1
    } else {
        let rest = max_delta(d.drop_last());
        if d.last() > rest {
            d.last()
        } else {
            rest
        }
    }
}

/// Each delta normalized linearly into the eight sparkline levels.
pub open spec fn sparkline_levels(s: Seq<u64>) -> Seq<u8> {
    let d = deltas_of(s);
    let lo = min_delta(d);
    let range = max_delta(d) - lo;
    d.map_values(|v: int| ((v - lo) * 7 / (if range > 0 { range } else { 1 })) as u8)
}

impl History {
    /// The sparkline levels for a module's reads: each step of its window
    /// normalized into 0..=7 against the window's own spread; empty when
    /// fewer than two readings exist.
    pub fn get_reads_sparkline(&self, module_name: &str) -> (r: Vec<u8>)
        requires
            self.wf(),
        ensures
            self.module_reads.has_key(module_name@) && self.module_reads.spec_get(module_name@)@.len() >= 2
                ==> r@ == sparkline_levels(self.module_reads.spec_get(module_name@)@),
            !(self.module_reads.has_key(module_name@) && self.module_reads.spec_get(
                module_name@,
            )@.len() >= 2) ==> r@.len() == 0,
    {
        match self.module_reads.get(module_name) {
            Some(values) => {
                if values.len() < 2 {
                    Vec::new()
                } else {
                    normalize_sparkline(values)
                }
            },
            None => Vec::new(),
        }
    }
}

/// Normalize a window of counts into sparkline levels.
fn normalize_sparkline(values: &Vec<u64>) -> (r: Vec<u8>)
    requires
        values@.len() >= 2,
    ensures
        r@ == sparkline_levels(values@),
{
    let ghost d = deltas_of(values@);
    let n = values.len();
    // Find the spread of the deltas.
    let mut lo: i128 = 0;
    let mut hi: i128 = 1;
    let mut i: usize = 0;
    while i < n - 1
        invariant
            i <= n - 1,
            n == values@.len(),
            n >= 2,
            d == deltas_of(values@),
            lo == min_delta(d.take(i as int)),
            hi == max_delta(d.take(i as int)),
            -0x1_0000_0000_0000_0000 < lo <= 0,
            1 <= hi < 0x1_0000_0000_0000_0000,
        decreases n - i,
    {
        proof {
            assert(d.take(i + 1).drop_last() =~= d.take(i as int));
            assert(d.take(i + 1).last() == d[i as int]);
        }
        let dv: i128 = values[i + 1] as i128 - values[i] as i128;
        if dv < lo {
            lo = dv;
        }
        if dv > hi {
            hi = dv;
        }
        i = i + 1;
    }
    proof {
        assert(d.take(n - 1) =~= d);
    }
    let range: i128 = if hi - lo > 0 {
        hi - lo
    } else {
        1
    };
    let mut out: Vec<u8> = Vec::new();
    let mut j: usize = 0;
    while j < n - 1
        invariant
            j <= n - 1,
            n == values@.len(),
            n >= 2,
            d == deltas_of(values@),
            lo == min_delta(d),
            -0x1_0000_0000_0000_0000 < lo <= 0,
            range == (if max_delta(d) - lo > 0 { max_delta(d) - lo } else { 1 }),
            1 <= range < 0x2_0000_0000_0000_0000,
            out@.len() == j,
            forall|k: int|
                0 <= k < j ==> out@[k] == ((d[k] - lo) * 7 / (if max_delta(d) - min_delta(d) > 0 {
                    max_delta(d) - min_delta(d)
                } else {
                    1
                })) as u8,
        decreases n - j,
    {
        let dv: i128 = values[j + 1] as i128 - values[j] as i128;
        proof {
            lemma_delta_bounds(d, j as int);
            assert(dv == d[j as int]);
            assert(range == max_delta(d) - min_delta(d));
            assert(0 <= dv - lo <= range);
            assert((dv - lo) * 7 <= range * 7) by (nonlinear_arith)
                requires 0 <= dv - lo <= range,
            ;
            assert((dv - lo) * 7 >= 0) by (nonlinear_arith)
                requires dv - lo >= 0,
            ;
            vstd::arithmetic::div_mod::lemma_div_is_ordered(
                (dv as int - lo as int) * 7,
                range as int * 7,
                range as int,
            );
            vstd::arithmetic::div_mod::lemma_div_multiples_vanish(7, range as int);
            vstd::arithmetic::div_mod::lemma_div_pos_is_pos((dv as int - lo as int) * 7, range as int);
        }
        let scaled: i128 = (dv - lo) * 7 / range;
        out.push(scaled as u8);
        j = j + 1;
    }
    proof {
        assert(out@ =~= sparkline_levels(values@));
    }
    out
}

/// Every delta lies between the tracked bounds.
proof fn lemma_delta_bounds(d: Seq<int>, j: int)
    requires
        0 <= j < d.len(),
    ensures
        min_delta(d) <= d[j],
        d[j] <= max_delta(d),
        min_delta(d) <= 0,
        max_delta(d) >= 1,
    decreases d.len(),
{
    if j == d.len() - 1 {
        if d.len() > 1 {
            lemma_delta_bounds(d.drop_last(), 0);
        }
    } else {
        lemma_delta_bounds(d.drop_last(), j);
    }
}

/// The displayed read rate of a module, in whole messages per second: the
/// difference of the last two readings over the time between the last two
/// records, negative when the counter went backwards; absent with fewer
/// than two readings or records, or when no time elapsed.
pub open spec fn read_rate_spec(reads: Seq<u64>, ts: Seq<u64>) -> Option<(bool, u64)> {
    if reads.len() < 2 || ts.len() < 2 {
        Option::None
    } else {
        let cur = reads.last();
        let prev = reads[reads.len() - 2];
        let elapsed = ts.last() - ts[ts.len() - 2];
        if elapsed <= 0 {
            Option::None
        } else if cur >= prev {
            Option::Some((false, rate_mag((cur - prev) as nat, elapsed as nat)))
        } else {
            Option::Some((true, rate_mag((prev - cur) as nat, elapsed as nat)))
        }
    }
}

/// A delta over elapsed microseconds, in whole messages per second,
/// saturated at the u64 range.
pub open spec fn rate_mag(delta: nat, elapsed_micros: nat) -> u64 {
    let v = delta * 1_000_000 / elapsed_micros;
    if v > u64::MAX {
        u64::MAX
    } else {
        v as u64
    }
}

impl History {
    /// The displayed read rate of a module: the magnitude in messages per
    /// second, and whether the counter moved backwards.
    pub fn get_read_rate(&self, module_name: &str) -> (r: Option<(bool, u64)>)
        requires
            self.wf(),
        ensures
            self.module_reads.has_key(module_name@) ==> r == read_rate_spec(
                self.module_reads.spec_get(module_name@)@,
                self.timestamps@,
            ),
            !self.module_reads.has_key(module_name@) ==> r is None,
    {
        let reads = match self.module_reads.get(module_name) {
            Some(v) => v,
            None => {
                return None;
            },
        };
        let nr = reads.len();
        let nt = self.timestamps.len();
        if nr < 2 || nt < 2 {
            return None;
        }
        let cur = reads[nr - 1];
        let prev = reads[nr - 2];
        let t2 = self.timestamps[nt - 1];
        let t1 = self.timestamps[nt - 2];
        if t2 <= t1 {
            return None;
        }
        let elapsed = t2 - t1;
        let (neg, delta) = if cur >= prev {
            (false, cur - prev)
        } else {
            (true, prev - cur)
        };
        proof {
            vstd::arithmetic::mul::lemma_mul_upper_bound(
                delta as int, u64::MAX as int, 1_000_000, 1_000_000,
            );
        }
        let mag128 = (delta as u128) * 1_000_000u128 / (elapsed as u128);
        let mag = if mag128 > u64::MAX as u128 {
            u64::MAX
        } else {
            mag128 as u64
        };
        Some((neg, mag))
    }
}

} // verus!
