//! The compact JSON wire encoding of snapshots, as the TCP emitter sends
//! them: one object with the version, the timestamp, and per-module read
//! and write maps, ordered by key; absent optional fields are omitted, so
//! absence and zero stay distinguishable.

use vstd::prelude::*;
use crate::metrics::{ModuleMetrics, ReadMetrics, WriteMetrics};
use crate::namemap::NameMap;
use crate::prometheus::{escape_spec, escape_label_value};
use crate::snapshot::Snapshot;
use crate::strutil::{dec_str, push_char, u64_to_string};

verus! {

/// A rate in hundredths rendered the way a JSON writer prints the number:
/// at least one fractional digit, and no trailing zero beyond that.
pub open spec fn rate_json(centi: nat) -> Seq<char> {
    dec_str(centi / 100) + seq!['.'] + (if centi % 100 == 0 {
        seq!['0']
    } else if centi % 10 == 0 {
        seq![crate::strutil::dec_digit(centi % 100 / 10)]
    } else {
        seq![crate::strutil::dec_digit(centi % 100 / 10), crate::strutil::dec_digit(centi % 10)]
    })
}

/// Append a rate in the JSON number form.
fn push_rate_json(out: &mut String, centi: u64)
    ensures
        final(out)@ == old(out)@ + rate_json(centi as nat),
{
    let whole = u64_to_string(centi / 100);
    out.append(whole.as_str());
    push_char(out, '.');
    let frac = centi % 100;
    if frac == 0 {
        push_char(out, '0');
    } else if frac % 10 == 0 {
        push_char(out, crate::strutil::digit_char(frac / 10));
    } else {
        push_char(out, crate::strutil::digit_char(frac / 10));
        push_char(out, crate::strutil::digit_char(frac % 10));
    }
}

/// One read series on the wire.
pub open spec fn read_json(topic: Seq<char>, rm: ReadMetrics) -> Seq<char> {
    "\""@ + escape_spec(topic) + "\":{\"count\":"@ + dec_str(rm.count as nat)
        + (match rm.backlog {
        Option::Some(b) => ",\"backlog\":"@ + dec_str(b as nat),
        Option::None => Seq::<char>::empty(),
    }) + (match rm.pending {
        Option::Some(p) => ",\"pending\":"@ + dec_str(p.0 as nat),
        Option::None => Seq::<char>::empty(),
    }) + (match rm.rate {
        Option::Some(r) => ",\"rate\":"@ + rate_json(r as nat),
        Option::None => Seq::<char>::empty(),
    }) + "}"@
}

/// One write series on the wire.
pub open spec fn write_json(topic: Seq<char>, wm: WriteMetrics) -> Seq<char> {
    "\""@ + escape_spec(topic) + "\":{\"count\":"@ + dec_str(wm.count as nat)
        + (match wm.pending {
        Option::Some(p) => ",\"pending\":"@ + dec_str(p.0 as nat),
        Option::None => Seq::<char>::empty(),
    }) + (match wm.rate {
        Option::Some(r) => ",\"rate\":"@ + rate_json(r as nat),
        Option::None => Seq::<char>::empty(),
    }) + "}"@
}

/// The first `i` read series of a module, comma separated.
pub open spec fn reads_json(m: NameMap<ReadMetrics>, i: int) -> Seq<char>
    decreases i,
{
    if i <= 0 {
        Seq::empty()
    } else if i == 1 {
        read_json(m.key_seq()[0], m.val_seq()[0])
    } else {
        reads_json(m, i - 1) + ","@ + read_json(m.key_seq()[i - 1], m.val_seq()[i - 1])
    }
}

/// The first `i` write series of a module, comma separated.
pub open spec fn writes_json(m: NameMap<WriteMetrics>, i: int) -> Seq<char>
    decreases i,
{
    if i <= 0 {
        Seq::empty()
    } else if i == 1 {
        write_json(m.key_seq()[0], m.val_seq()[0])
    } else {
        writes_json(m, i - 1) + ","@ + write_json(m.key_seq()[i - 1], m.val_seq()[i - 1])
    }
}

/// One module on the wire.
pub open spec fn module_json(name: Seq<char>, mm: ModuleMetrics) -> Seq<char> {
    "\""@ + escape_spec(name) + "\":{\"reads\":{"@ + reads_json(
        mm.reads,
        mm.reads.spec_len() as int,
    ) + "},\"writes\":{"@ + writes_json(mm.writes, mm.writes.spec_len() as int) + "}}"@
}

/// The first `i` modules on the wire, comma separated.
pub open spec fn modules_json(m: NameMap<ModuleMetrics>, i: int) -> Seq<char>
    decreases i,
{
    if i <= 0 {
        Seq::empty()
    } else if i == 1 {
        module_json(m.key_seq()[0], m.val_seq()[0])
    } else {
        modules_json(m, i - 1) + ","@ + module_json(m.key_seq()[i - 1], m.val_seq()[i - 1])
    }
}

/// A whole snapshot on the wire.
pub open spec fn snapshot_json(snap: Snapshot) -> Seq<char> {
    "{\"version\":{\"major\":"@ + dec_str(snap.version.major as nat) + ",\"minor\":"@ + dec_str(
        snap.version.minor as nat,
    ) + "},\"timestamp_ms\":"@ + dec_str(snap.timestamp_ms as nat) + ",\"modules\":{"@
        + modules_json(snap.modules, snap.modules.spec_len() as int) + "}}"@
}

/// Append one read series.
fn push_read_json(out: &mut String, topic: &str, rm: ReadMetrics)
    ensures
        final(out)@ == old(out)@ + read_json(topic@, rm),
{
    out.append("\"");
    let esc = escape_label_value(topic);
    out.append(esc.as_str());
    out.append("\":{\"count\":");
    let c = u64_to_string(rm.count);
    out.append(c.as_str());
    match rm.backlog {
        Some(b) => {
            out.append(",\"backlog\":");
            let s = u64_to_string(b);
            out.append(s.as_str());
        },
        None => {},
    }
    match rm.pending {
        Some(p) => {
            out.append(",\"pending\":");
            let s = u64_to_string(p.0);
            out.append(s.as_str());
        },
        None => {},
    }
    match rm.rate {
        Some(r) => {
            out.append(",\"rate\":");
            push_rate_json(out, r);
        },
        None => {},
    }
    out.append("}");
    proof {
        assert(final(out)@ =~= old(out)@ + read_json(topic@, rm));
    }
}

/// Append one write series.
fn push_write_json(out: &mut String, topic: &str, wm: WriteMetrics)
    ensures
        final(out)@ == old(out)@ + write_json(topic@, wm),
{
    out.append("\"");
    let esc = escape_label_value(topic);
    out.append(esc.as_str());
    out.append("\":{\"count\":");
    let c = u64_to_string(wm.count);
    out.append(c.as_str());
    match wm.pending {
        Some(p) => {
            out.append(",\"pending\":");
            let s = u64_to_string(p.0);
            out.append(s.as_str());
        },
        None => {},
    }
    match wm.rate {
        Some(r) => {
            out.append(",\"rate\":");
            push_rate_json(out, r);
        },
        None => {},
    }
    out.append("}");
    proof {
        assert(final(out)@ =~= old(out)@ + write_json(topic@, wm));
    }
}

/// Encode a snapshot in the compact JSON wire format.
#[verifier::rlimit(100)]
pub fn snapshot_to_json(snap: &Snapshot) -> (r: String)
    requires
        snap.wf(),
    ensures
        r@ == snapshot_json(*snap),
{
    let mut out = String::new();
    out.append("{\"version\":{\"major\":");
    let maj = u64_to_string(snap.version.major as u64);
    out.append(maj.as_str());
    out.append(",\"minor\":");
    let min = u64_to_string(snap.version.minor as u64);
    out.append(min.as_str());
    out.append("},\"timestamp_ms\":");
    let ts = u64_to_string(snap.timestamp_ms);
    out.append(ts.as_str());
    out.append(",\"modules\":{");
    let ghost header = out@;

    let nm = snap.modules.len();
    let mut i: usize = 0;
    while i < nm
        invariant
            i <= nm,
            nm == snap.modules.spec_len(),
            snap.wf(),
            out@ == header + modules_json(snap.modules, i as int),
        decreases nm - i,
    {
        if i > 0 {
            out.append(",");
        }
        let name = snap.modules.key_at(i);
        let mm = snap.modules.val_at(i);
        out.append("\"");
        let esc = escape_label_value(name.as_str());
        out.append(esc.as_str());
        out.append("\":{\"reads\":{");
        let ghost rbase = out@;
        let nr = mm.reads.len();
        let mut a: usize = 0;
        while a < nr
            invariant
                a <= nr,
                nr == mm.reads.spec_len(),
                mm.reads.wf(),
                out@ == rbase + reads_json(mm.reads, a as int),
            decreases nr - a,
        {
            if a > 0 {
                out.append(",");
            }
            let topic = mm.reads.key_at(a);
            let rm = *mm.reads.val_at(a);
            push_read_json(&mut out, topic.as_str(), rm);
            proof {
                assert(out@ =~= rbase + reads_json(mm.reads, a + 1));
            }
            a = a + 1;
        }
        out.append("},\"writes\":{");
        let ghost wbase = out@;
        let nw = mm.writes.len();
        let mut b: usize = 0;
        while b < nw
            invariant
                b <= nw,
                nw == mm.writes.spec_len(),
                mm.writes.wf(),
                out@ == wbase + writes_json(mm.writes, b as int),
            decreases nw - b,
        {
            if b > 0 {
                out.append(",");
            }
            let topic = mm.writes.key_at(b);
            let wm = *mm.writes.val_at(b);
            push_write_json(&mut out, topic.as_str(), wm);
            proof {
                assert(out@ =~= wbase + writes_json(mm.writes, b + 1));
            }
            b = b + 1;
        }
        out.append("}}");
        proof {
            assert(out@ =~= header + modules_json(snap.modules, i + 1));
        }
        i = i + 1;
    }
    out.append("}}");
    proof {
        assert(out@ =~= snapshot_json(*snap));
    }
    out
}

} // verus!
