//! The producer/consumer flow graph derived from monitor data.

use vstd::prelude::*;
use crate::metrics::lemma_insert_preserves;
use crate::monitor::{ModuleData, MonitorData};
use crate::namemap::NameMap;

verus! {

/// Which modules write and read each topic, and the sorted list of topics.
#[derive(Debug, Clone)]
pub struct DataFlowGraph {
    /// Topic to the modules that write it.
    pub producers: NameMap<Vec<String>>,
    /// Topic to the modules that read it.
    pub consumers: NameMap<Vec<String>>,
    /// All topics of either side, sorted and unique.
    pub topics: Vec<String>,
}

/// A name list contains the given name.
pub open spec fn names_contain(v: Seq<String>, name: Seq<char>) -> bool {
    exists|k: int| 0 <= k < v.len() && (#[trigger] v[k])@ == name
}

/// The edge map connects the topic to the module name.
pub open spec fn edge(m: NameMap<Vec<String>>, t: Seq<char>, name: Seq<char>) -> bool {
    m.has_key(t) && names_contain(m.spec_get(t)@, name)
}

/// The topics of one side of a module row.
pub open spec fn side_topics(md: ModuleData, writes_side: bool) -> Seq<Seq<char>> {
    if writes_side {
        md.writes@.map_values(|w: crate::monitor::TopicWrite| w.topic@)
    } else {
        md.reads@.map_values(|r: crate::monitor::TopicRead| r.topic@)
    }
}

/// Among the first `i` module rows, one named `name` has `t` on the given
/// side.
pub open spec fn linked_upto(
    data: MonitorData,
    i: int,
    writes_side: bool,
    name: Seq<char>,
    t: Seq<char>,
) -> bool {
    exists|m: int, j: int|
        0 <= m < i && 0 <= j < side_topics(data.modules@[m], writes_side).len()
            && data.modules@[m].name@ == name && #[trigger] side_topics(
            data.modules@[m],
            writes_side,
        )[j] == t
}

/// Among the first `i` module rows, some row has `t` on the given side.
pub open spec fn topic_upto(data: MonitorData, i: int, writes_side: bool, t: Seq<char>) -> bool {
    exists|m: int, j: int|
        0 <= m < i && 0 <= j < side_topics(data.modules@[m], writes_side).len()
            && #[trigger] side_topics(data.modules@[m], writes_side)[j] == t
}


/// How many of the first `j` topics of a side equal `t`.
pub open spec fn count_topic(side: Seq<Seq<char>>, t: Seq<char>, j: int) -> nat
    decreases j,
{
    if j <= 0 {
        0
    } else {
        count_topic(side, t, j - 1) + (if side[j - 1] == t {
            1nat
        } else {
            0nat
        })
    }
}

/// The same name repeated once per carrying row.
pub open spec fn name_seg(name: Seq<char>, k: nat) -> Seq<Seq<char>> {
    Seq::new(k, |x: int| name)
}

/// The names of an edge list, as character sequences.
pub open spec fn names_of(v: Seq<String>) -> Seq<Seq<char>> {
    v.map_values(|s: String| s@)
}

/// The name of every row of the first `i` modules carrying `t` on the
/// given side, one entry per row, in module and row order.
pub open spec fn edge_names(data: MonitorData, i: int, ws: bool, t: Seq<char>) -> Seq<Seq<char>>
    decreases i,
{
    if i <= 0 {
        Seq::empty()
    } else {
        edge_names(data, i - 1, ws, t) + name_seg(
            data.modules@[i - 1].name@,
            count_topic(
                side_topics(data.modules@[i - 1], ws),
                t,
                side_topics(data.modules@[i - 1], ws).len() as int,
            ),
        )
    }
}

/// A topic occurs among the first `j` rows of a side exactly when its
/// count there is positive.
proof fn lemma_count_topic_pos(side: Seq<Seq<char>>, t: Seq<char>, j: int)
    requires
        0 <= j <= side.len(),
    ensures
        (count_topic(side, t, j) > 0) <==> (exists|jj: int| 0 <= jj < j && side[jj] == t),
    decreases j,
{
    if j > 0 {
        lemma_count_topic_pos(side, t, j - 1);
        if side[j - 1] == t {
            assert(exists|jj: int| 0 <= jj < j && side[jj] == t);
        } else {
            if exists|jj: int| 0 <= jj < j && side[jj] == t {
                let jj = choose|jj: int| 0 <= jj < j && side[jj] == t;
                assert(jj < j - 1);
            }
        }
    }
}

/// Without a carrying row among the first `i` modules, the edge-name list
/// is empty.
proof fn lemma_edge_names_empty(data: MonitorData, i: int, ws: bool, t: Seq<char>)
    requires
        0 <= i <= data.modules@.len(),
        !topic_upto(data, i, ws, t),
    ensures
        edge_names(data, i, ws, t) == Seq::<Seq<char>>::empty(),
    decreases i,
{
    if i > 0 {
        assert(!topic_upto(data, i - 1, ws, t)) by {
            if topic_upto(data, i - 1, ws, t) {
                let (m, jj) = choose|m: int, jj: int|
                    0 <= m < i - 1 && 0 <= jj < side_topics(data.modules@[m], ws).len()
                        && #[trigger] side_topics(data.modules@[m], ws)[jj] == t;
                assert(side_topics(data.modules@[m], ws)[jj] == t);
            }
        }
        lemma_edge_names_empty(data, i - 1, ws, t);
        let side = side_topics(data.modules@[i - 1], ws);
        assert(count_topic(side, t, side.len() as int) == 0) by {
            lemma_count_topic_pos(side, t, side.len() as int);
            if exists|jj: int| 0 <= jj < side.len() && side[jj] == t {
                let jj = choose|jj: int| 0 <= jj < side.len() && side[jj] == t;
                assert(side_topics(data.modules@[i - 1], ws)[jj] == t);
            }
        }
        assert(edge_names(data, i, ws, t) =~= Seq::<Seq<char>>::empty());
    }
}

/// Record every topic of one side of a module row into an edge map.
fn add_edges(map: &mut NameMap<Vec<String>>, md: &ModuleData, writes_side: bool)
    requires
        old(map).wf(),
    ensures
        final(map).wf(),
        forall|t: Seq<char>|
            #[trigger] final(map).has_key(t) <==> old(map).has_key(t) || (exists|j: int|
                0 <= j < side_topics(*md, writes_side).len() && #[trigger] side_topics(
                    *md,
                    writes_side,
                )[j] == t),
        forall|t: Seq<char>, name: Seq<char>|
            #[trigger] edge(*final(map), t, name) <==> edge(*old(map), t, name) || ((exists|j: int|
                0 <= j < side_topics(*md, writes_side).len() && #[trigger] side_topics(
                    *md,
                    writes_side,
                )[j] == t) && name == md.name@),
        forall|t: Seq<char>|
            #[trigger] final(map).has_key(t) ==> names_of(final(map).spec_get(t)@) == (
            if old(map).has_key(t) {
                names_of(old(map).spec_get(t)@)
            } else {
                Seq::<Seq<char>>::empty()
            }) + name_seg(
                md.name@,
                count_topic(
                    side_topics(*md, writes_side),
                    t,
                    side_topics(*md, writes_side).len() as int,
                ),
            ),
{
    let n = if writes_side {
        md.writes.len()
    } else {
        md.reads.len()
    };
    let ghost side = side_topics(*md, writes_side);
    proof {
        assert forall|t: Seq<char>|
            #[trigger] map.has_key(t) implies names_of(map.spec_get(t)@) == (
        if old(map).has_key(t) {
            names_of(old(map).spec_get(t)@)
        } else {
            Seq::<Seq<char>>::empty()
        }) + name_seg(md.name@, count_topic(side, t, 0)) by {
            assert(name_seg(md.name@, 0) =~= Seq::<Seq<char>>::empty());
            assert(names_of(map.spec_get(t)@) =~= names_of(map.spec_get(t)@) + name_seg(
                md.name@,
                0,
            ));
        }
    }
    let mut j: usize = 0;
    while j < n
        invariant
            j <= n,
            n == side.len(),
            side == side_topics(*md, writes_side),
            map.wf(),
            forall|t: Seq<char>|
                #[trigger] map.has_key(t) <==> old(map).has_key(t) || (exists|jj: int|
                    0 <= jj < j && #[trigger] side[jj] == t),
            forall|t: Seq<char>, name: Seq<char>|
                #[trigger] edge(*map, t, name) <==> edge(*old(map), t, name) || ((exists|jj: int|
                    0 <= jj < j && #[trigger] side[jj] == t) && name == md.name@),
            forall|t: Seq<char>|
                #[trigger] map.has_key(t) ==> names_of(map.spec_get(t)@) == (
                if old(map).has_key(t) {
                    names_of(old(map).spec_get(t)@)
                } else {
                    Seq::<Seq<char>>::empty()
                }) + name_seg(md.name@, count_topic(side, t, j as int)),
        decreases n - j,
    {
        let topic: &String = if writes_side {
            &md.writes[j].topic
        } else {
            &md.reads[j].topic
        };
        assert(topic@ == side[j as int]);
        let ghost before = *map;
        match map.index_of(topic.as_str()) {
            Some(ix) => {
                proof {
                    before.lemma_idx_of(topic@);
                }
                let mut v = map.replace_at(ix, Vec::new());
                v.push(md.name.clone());
                let _ = map.replace_at(ix, v);
                proof {
                    before.lemma_idx_of(topic@);
                    map.lemma_idx_of(topic@);
                    assert(map.key_seq() == before.key_seq());
                    assert(map.idx_of(topic@) == ix);
                    assert(map.spec_get(topic@)@ == before.spec_get(topic@)@.push(
                        map.spec_get(topic@)@.last(),
                    ));
                    assert(map.spec_get(topic@)@.last()@ == md.name@);
                    assert forall|t: Seq<char>|
                        #[trigger] map.has_key(t) <==> (before.has_key(t) || t == topic@) by {
                        map.lemma_idx_of_eq(before, t, 0);
                    }
                    assert forall|t: Seq<char>, name: Seq<char>|
                        #[trigger] edge(*map, t, name) <==> edge(before, t, name) || (t == topic@
                            && name == md.name@) by {
                        map.lemma_idx_of_eq(before, t, 0);
                        before.lemma_idx_of(t);
                        if t == topic@ {
                            let nv = map.spec_get(topic@)@;
                            let ov = before.spec_get(topic@)@;
                            assert(nv == ov.push(nv.last()));
                            if edge(before, t, name) {
                                let k = choose|k: int| 0 <= k < ov.len() && (#[trigger] ov[k])@
                                    == name;
                                assert(nv[k] == ov[k]);
                                assert(names_contain(nv, name));
                            }
                            if name == md.name@ {
                                assert(nv[nv.len() - 1]@ == name);
                                assert(names_contain(nv, name));
                            }
                            if names_contain(nv, name) {
                                let k = choose|k: int| 0 <= k < nv.len() && (#[trigger] nv[k])@
                                    == name;
                                if k < ov.len() {
                                    assert(ov[k] == nv[k]);
                                    assert(names_contain(ov, name));
                                } else {
                                    assert(nv[k]@ == md.name@);
                                }
                            }
                        } else {
                            if before.has_key(t) {
                                assert(map.spec_get(t) == before.spec_get(t)) by {
                                    assert(before.idx_of(t) != ix);
                                }
                            }
                        }
                    }
                    assert forall|t: Seq<char>|
                        #[trigger] map.has_key(t) implies names_of(map.spec_get(t)@) == (
                    if old(map).has_key(t) {
                        names_of(old(map).spec_get(t)@)
                    } else {
                        Seq::<Seq<char>>::empty()
                    }) + name_seg(md.name@, count_topic(side, t, j + 1)) by {
                        let base = if old(map).has_key(t) {
                            names_of(old(map).spec_get(t)@)
                        } else {
                            Seq::<Seq<char>>::empty()
                        };
                        if t == topic@ {
                            let nv = map.spec_get(topic@)@;
                            let ov = before.spec_get(topic@)@;
                            assert(nv == ov.push(nv.last()));
                            assert(names_of(nv) =~= names_of(ov).push(md.name@));
                            assert(names_of(ov) == base + name_seg(
                                md.name@,
                                count_topic(side, t, j as int),
                            ));
                            assert(count_topic(side, t, j + 1) == count_topic(side, t, j as int)
                                + 1);
                            assert((base + name_seg(md.name@, count_topic(side, t, j as int))).push(
                                md.name@,
                            ) =~= base + name_seg(md.name@, count_topic(side, t, j as int) + 1));
                        } else {
                            map.lemma_idx_of_eq(before, t, 0);
                            before.lemma_idx_of(t);
                            assert(map.spec_get(t) == before.spec_get(t)) by {
                                assert(before.idx_of(t) != ix);
                            }
                            assert(count_topic(side, t, j + 1) == count_topic(side, t, j as int));
                        }
                    }
                }
            },
            None => {
                {
                    let mut v: Vec<String> = Vec::new();
                    v.push(md.name.clone());
                    let ghost vv = v;
                    let idx = map.insert(topic.as_str(), v);
                    proof {
                        lemma_insert_preserves(before, *map, topic@, vv, idx as int);
                        assert forall|t: Seq<char>|
                            #[trigger] map.has_key(t) <==> (before.has_key(t) || t == topic@) by {
                            map.lemma_idx_of(t);
                            before.lemma_idx_of(t);
                            if map.has_key(t) && t != topic@ && !before.has_key(t) {
                                let mi2 = map.idx_of(t);
                                assert(map.key_seq()[mi2] == t);
                                before.key_seq().insert_ensures(idx as int, topic@);
                                if mi2 < idx {
                                    assert(before.key_seq()[mi2] == t);
                                } else {
                                    assert(before.key_seq()[mi2 - 1] == t);
                                }
                                assert(false);
                            }
                        }
                        assert forall|t: Seq<char>, name: Seq<char>|
                            #[trigger] edge(*map, t, name) <==> edge(before, t, name) || (t
                            == topic@ && name == md.name@) by {
                            if t == topic@ {
                                assert(map.spec_get(t) == vv);
                                assert(vv@.len() == 1 && vv@[0]@ == md.name@);
                                assert(!before.has_key(t));
                                if names_contain(vv@, name) {
                                    let k = choose|k: int| 0 <= k < vv@.len() && (
                                    #[trigger] vv@[k])@ == name;
                                    assert(k == 0);
                                }
                            } else {
                                if before.has_key(t) {
                                    assert(map.has_key(t) && map.spec_get(t) == before.spec_get(
                                        t,
                                    ));
                                }
                                if map.has_key(t) && !before.has_key(t) {
                                    let mi2 = map.idx_of(t);
                                    map.lemma_idx_of(t);
                                    assert(map.key_seq()[mi2] == t);
                                    before.key_seq().insert_ensures(idx as int, topic@);
                                    if mi2 < idx {
                                        before.lemma_idx_of(t);
                                        assert(before.key_seq()[mi2] == t);
                                    } else {
                                        before.lemma_idx_of(t);
                                        assert(before.key_seq()[mi2 - 1] == t);
                                    }
                                    assert(false);
                                }
                            }
                        }
                        assert forall|t: Seq<char>|
                            #[trigger] map.has_key(t) implies names_of(map.spec_get(t)@) == (
                        if old(map).has_key(t) {
                            names_of(old(map).spec_get(t)@)
                        } else {
                            Seq::<Seq<char>>::empty()
                        }) + name_seg(md.name@, count_topic(side, t, j + 1)) by {
                            let base = if old(map).has_key(t) {
                                names_of(old(map).spec_get(t)@)
                            } else {
                                Seq::<Seq<char>>::empty()
                            };
                            if t == topic@ {
                                assert(!before.has_key(t));
                                assert(!old(map).has_key(t));
                                assert(count_topic(side, t, j as int) == 0) by {
                                    lemma_count_topic_pos(side, t, j as int);
                                    if exists|jj: int| 0 <= jj < j && side[jj] == t {
                                        let jj = choose|jj: int|
                                            0 <= jj < j && side[jj] == t;
                                        assert(before.has_key(t));
                                    }
                                }
                                assert(count_topic(side, t, j + 1) == 1);
                                assert(map.spec_get(t) == vv);
                                assert(names_of(vv@) =~= Seq::<Seq<char>>::empty() + name_seg(
                                    md.name@,
                                    1,
                                ));
                            } else {
                                assert(map.spec_get(t) == before.spec_get(t));
                                assert(count_topic(side, t, j + 1) == count_topic(
                                    side,
                                    t,
                                    j as int,
                                ));
                            }
                        }
                    }
                }
            },
        }
        j = j + 1;
    }
}

impl DataFlowGraph {
    /// The graph's maps are well-formed and its topic list is sorted.
    pub open spec fn wf(self) -> bool {
        &&& self.producers.wf()
        &&& self.consumers.wf()
        &&& forall|i: int, j: int|
            0 <= i < j < self.topics@.len() ==> crate::strutil::lex_lt(
                (#[trigger] self.topics@[i])@,
                (#[trigger] self.topics@[j])@,
            )
    }

    /// Build the flow graph of some monitor data: a topic has a producers
    /// entry exactly when some module row writes it, and the entry names a
    /// module exactly when a row of that name writes the topic; likewise
    /// for consumers and reads; the topic list holds exactly the topics of
    /// either side, sorted.
    pub fn from_monitor_data(data: &MonitorData) -> (g: DataFlowGraph)
        ensures
            g.wf(),
            forall|t: Seq<char>|
                #[trigger] g.producers.has_key(t) <==> topic_upto(
                    *data,
                    data.modules@.len() as int,
                    true,
                    t,
                ),
            forall|t: Seq<char>|
                #[trigger] g.consumers.has_key(t) <==> topic_upto(
                    *data,
                    data.modules@.len() as int,
                    false,
                    t,
                ),
            forall|t: Seq<char>, name: Seq<char>|
                #[trigger] edge(g.producers, t, name) <==> linked_upto(
                    *data,
                    data.modules@.len() as int,
                    true,
                    name,
                    t,
                ),
            forall|t: Seq<char>, name: Seq<char>|
                #[trigger] edge(g.consumers, t, name) <==> linked_upto(
                    *data,
                    data.modules@.len() as int,
                    false,
                    name,
                    t,
                ),
            forall|t: Seq<char>|
                #[trigger] g.producers.has_key(t) ==> names_of(g.producers.spec_get(t)@)
                    == edge_names(*data, data.modules@.len() as int, true, t),
            forall|t: Seq<char>|
                #[trigger] g.consumers.has_key(t) ==> names_of(g.consumers.spec_get(t)@)
                    == edge_names(*data, data.modules@.len() as int, false, t),
            forall|k: int|
                0 <= k < g.topics@.len() ==> topic_upto(
                    *data,
                    data.modules@.len() as int,
                    true,
                    (#[trigger] g.topics@[k])@,
                ) || topic_upto(*data, data.modules@.len() as int, false, (g.topics@[k])@),
            forall|t: Seq<char>|
                #[trigger] topic_upto(*data, data.modules@.len() as int, true, t) || topic_upto(
                    *data,
                    data.modules@.len() as int,
                    false,
                    t,
                ) ==> names_contain(g.topics@, t),
    {
        let mut producers: NameMap<Vec<String>> = NameMap::new();
        let mut consumers: NameMap<Vec<String>> = NameMap::new();
        let nm = data.modules.len();
        let mut i: usize = 0;
        while i < nm
            invariant
                i <= nm,
                nm == data.modules@.len(),
                producers.wf(),
                consumers.wf(),
                forall|t: Seq<char>|
                    #[trigger] producers.has_key(t) <==> topic_upto(*data, i as int, true, t),
                forall|t: Seq<char>|
                    #[trigger] consumers.has_key(t) <==> topic_upto(*data, i as int, false, t),
                forall|t: Seq<char>, name: Seq<char>|
                    #[trigger] edge(producers, t, name) <==> linked_upto(
                        *data,
                        i as int,
                        true,
                        name,
                        t,
                    ),
                forall|t: Seq<char>, name: Seq<char>|
                    #[trigger] edge(consumers, t, name) <==> linked_upto(
                        *data,
                        i as int,
                        false,
                        name,
                        t,
                    ),
                forall|t: Seq<char>|
                    #[trigger] producers.has_key(t) ==> names_of(producers.spec_get(t)@)
                        == edge_names(*data, i as int, true, t),
                forall|t: Seq<char>|
                    #[trigger] consumers.has_key(t) ==> names_of(consumers.spec_get(t)@)
                        == edge_names(*data, i as int, false, t),
            decreases nm - i,
        {
            let md = &data.modules[i];
            let ghost p0 = producers;
            let ghost c0 = consumers;
            add_edges(&mut producers, md, true);
            add_edges(&mut consumers, md, false);
            proof {
                lemma_upto_step(*data, i as int, true);
                lemma_upto_step(*data, i as int, false);
                assert forall|t: Seq<char>|
                    #[trigger] producers.has_key(t) implies names_of(producers.spec_get(t)@)
                    == edge_names(*data, i + 1, true, t) by {
                    if !p0.has_key(t) {
                        lemma_edge_names_empty(*data, i as int, true, t);
                    }
                }
                assert forall|t: Seq<char>|
                    #[trigger] consumers.has_key(t) implies names_of(consumers.spec_get(t)@)
                    == edge_names(*data, i + 1, false, t) by {
                    if !c0.has_key(t) {
                        lemma_edge_names_empty(*data, i as int, false, t);
                    }
                }
            }
            i = i + 1;
        }

        // The sorted topic list: every key of either map.
        let mut topics: Vec<String> = Vec::new();
        let mut tset: NameMap<bool> = NameMap::new();
        let np = producers.len();
        let mut k: usize = 0;
        while k < np
            invariant
                k <= np,
                np == producers.spec_len(),
                producers.wf(),
                tset.wf(),
                forall|t: Seq<char>|
                    #[trigger] tset.has_key(t) <==> (exists|j: int|
                        0 <= j < k && #[trigger] producers.key_seq()[j] == t),
            decreases np - k,
        {
            let t = producers.key_at(k).clone();
            let ghost before = tset;
            {
                let idx = tset.insert(t.as_str(), true);
                proof {
                    lemma_insert_preserves(before, tset, t@, true, idx as int);
                    assert forall|t2: Seq<char>|
                        #[trigger] tset.has_key(t2) <==> (exists|j: int|
                            0 <= j <= k && #[trigger] producers.key_seq()[j] == t2) by {
                        tset.lemma_idx_of(t2);
                        before.lemma_idx_of(t2);
                        if tset.has_key(t2) && t2 != t@ && !before.has_key(t2) {
                            let mi2 = tset.idx_of(t2);
                            assert(tset.key_seq()[mi2] == t2);
                            before.key_seq().insert_ensures(idx as int, t@);
                            if mi2 < idx {
                                assert(before.key_seq()[mi2] == t2);
                            } else {
                                assert(before.key_seq()[mi2 - 1] == t2);
                            }
                            assert(false);
                        }
                        if t2 == t@ {
                            assert(producers.key_seq()[k as int] == t2);
                        }
                    }
                }
            }
            k = k + 1;
        }
        let nc = consumers.len();
        let mut k2: usize = 0;
        while k2 < nc
            invariant
                k2 <= nc,
                nc == consumers.spec_len(),
                producers.wf(),
                consumers.wf(),
                tset.wf(),
                forall|t: Seq<char>|
                    #[trigger] tset.has_key(t) <==> (exists|j: int|
                        0 <= j < producers.spec_len() && #[trigger] producers.key_seq()[j] == t)
                        || (exists|j: int|
                        0 <= j < k2 && #[trigger] consumers.key_seq()[j] == t),
            decreases nc - k2,
        {
            let t = consumers.key_at(k2).clone();
            let ghost before = tset;
            {
                let idx = tset.insert(t.as_str(), true);
                proof {
                    lemma_insert_preserves(before, tset, t@, true, idx as int);
                    assert forall|t2: Seq<char>|
                        #[trigger] tset.has_key(t2) <==> (exists|j: int|
                            0 <= j < producers.spec_len() && #[trigger] producers.key_seq()[j]
                                == t2) || (exists|j: int|
                            0 <= j <= k2 && #[trigger] consumers.key_seq()[j] == t2) by {
                        tset.lemma_idx_of(t2);
                        before.lemma_idx_of(t2);
                        if tset.has_key(t2) && t2 != t@ && !before.has_key(t2) {
                            let mi2 = tset.idx_of(t2);
                            assert(tset.key_seq()[mi2] == t2);
                            before.key_seq().insert_ensures(idx as int, t@);
                            if mi2 < idx {
                                assert(before.key_seq()[mi2] == t2);
                            } else {
                                assert(before.key_seq()[mi2 - 1] == t2);
                            }
                            assert(false);
                        }
                        if t2 == t@ {
                            assert(consumers.key_seq()[k2 as int] == t2);
                        }
                    }
                }
            }
            k2 = k2 + 1;
        }
        let ns = tset.len();
        let mut k3: usize = 0;
        while k3 < ns
            invariant
                k3 <= ns,
                ns == tset.spec_len(),
                tset.wf(),
                topics@.len() == k3,
                forall|j: int| 0 <= j < k3 ==> (#[trigger] topics@[j])@ == tset.key_seq()[j],
            decreases ns - k3,
        {
            let t = tset.key_at(k3).clone();
            topics.push(t);
            k3 = k3 + 1;
        }
        proof {
            assert forall|t: Seq<char>|
                topic_upto(*data, nm as int, true, t) || topic_upto(*data, nm as int, false, t)
                    implies names_contain(topics@, t) by {
                if topic_upto(*data, nm as int, true, t) {
                    assert(producers.has_key(t));
                    producers.lemma_idx_of(t);
                    assert(producers.key_seq()[producers.idx_of(t)] == t);
                } else {
                    assert(consumers.has_key(t));
                    consumers.lemma_idx_of(t);
                    assert(consumers.key_seq()[consumers.idx_of(t)] == t);
                }
                tset.lemma_idx_of(t);
                assert(tset.has_key(t));
                let ix = tset.idx_of(t);
                assert(topics@[ix]@ == t);
                assert(names_contain(topics@, t));
            }
            assert forall|kk: int|
                0 <= kk < topics@.len() implies topic_upto(
                *data,
                nm as int,
                true,
                (#[trigger] topics@[kk])@,
            ) || topic_upto(*data, nm as int, false, (topics@[kk])@) by {
                let t = topics@[kk]@;
                assert(tset.key_seq()[kk] == t);
                assert(tset.has_key(t)) by {
                    tset.lemma_idx_of(t);
                    if tset.idx_of(t) == tset.spec_len() {
                        assert(tset.key_seq()[kk] != t);
                    }
                }
                if exists|j: int| 0 <= j < producers.spec_len() && #[trigger] producers.key_seq()[j] == t {
                    let j = choose|j: int| 0 <= j < producers.spec_len() && #[trigger] producers.key_seq()[j] == t;
                    assert(producers.has_key(t)) by {
                        producers.lemma_idx_of(t);
                        if producers.idx_of(t) == producers.spec_len() {
                            assert(producers.key_seq()[j] != t);
                        }
                    }
                } else {
                    let j = choose|j: int| 0 <= j < consumers.spec_len() && #[trigger] consumers.key_seq()[j] == t;
                    assert(consumers.has_key(t)) by {
                        consumers.lemma_idx_of(t);
                        if consumers.idx_of(t) == consumers.spec_len() {
                            assert(consumers.key_seq()[j] != t);
                        }
                    }
                }
            }
        }
        DataFlowGraph { producers, consumers, topics }
    }
}

/// One more module row extends the reachable links by exactly its own.
proof fn lemma_upto_step(data: MonitorData, i: int, ws: bool)
    requires
        0 <= i < data.modules@.len(),
    ensures
        forall|t: Seq<char>|
            #[trigger] topic_upto(data, i + 1, ws, t) <==> topic_upto(data, i, ws, t) || (exists|
                j: int,
            |
                0 <= j < side_topics(data.modules@[i], ws).len() && #[trigger] side_topics(
                    data.modules@[i],
                    ws,
                )[j] == t),
        forall|t: Seq<char>, name: Seq<char>|
            #[trigger] linked_upto(data, i + 1, ws, name, t) <==> linked_upto(data, i, ws, name, t)
                || ((exists|j: int|
                0 <= j < side_topics(data.modules@[i], ws).len() && #[trigger] side_topics(
                    data.modules@[i],
                    ws,
                )[j] == t) && name == data.modules@[i].name@),
{
    assert forall|t: Seq<char>|
        #[trigger] topic_upto(data, i + 1, ws, t) implies topic_upto(data, i, ws, t) || (exists|
            j: int,
        |
            0 <= j < side_topics(data.modules@[i], ws).len() && #[trigger] side_topics(
                data.modules@[i],
                ws,
            )[j] == t) by {
        let (m, j) = choose|m: int, j: int|
            0 <= m < i + 1 && 0 <= j < side_topics(data.modules@[m], ws).len()
                && #[trigger] side_topics(data.modules@[m], ws)[j] == t;
        if m < i {
            assert(topic_upto(data, i, ws, t));
        } else {
            assert(side_topics(data.modules@[i], ws)[j] == t);
        }
    }
    assert forall|t: Seq<char>, name: Seq<char>|
        #[trigger] linked_upto(data, i + 1, ws, name, t) implies linked_upto(data, i, ws, name, t)
            || ((exists|j: int|
            0 <= j < side_topics(data.modules@[i], ws).len() && #[trigger] side_topics(
                data.modules@[i],
                ws,
            )[j] == t) && name == data.modules@[i].name@) by {
        let (m, j) = choose|m: int, j: int|
            0 <= m < i + 1 && 0 <= j < side_topics(data.modules@[m], ws).len()
                && data.modules@[m].name@ == name && #[trigger] side_topics(
                data.modules@[m],
                ws,
            )[j] == t;
        if m < i {
            assert(linked_upto(data, i, ws, name, t));
        } else {
            assert(side_topics(data.modules@[i], ws)[j] == t);
        }
    }
}

} // verus!
