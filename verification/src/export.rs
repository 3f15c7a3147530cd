//! The export document: a JSON rendering of the current monitor data with
//! a summary, the module rows, and the unhealthy topics.  Writing it to a
//! file is the caller's business.

use vstd::prelude::*;
use crate::duration::format_duration_spec;
use crate::monitor::{HealthStatus, ModuleData, MonitorData, TopicRead, TopicWrite};
use crate::prometheus::{escape_spec, escape_label_value};
use crate::strutil::{dec_str, u64_to_string};

verus! {

/// The display name of a health status.
pub open spec fn health_name(h: HealthStatus) -> Seq<char> {
    match h {
        HealthStatus::Healthy => "Healthy"@,
        HealthStatus::Warning => "Warning"@,
        HealthStatus::Critical => "Critical"@,
    }
}

/// The display name of a health status.
pub fn health_name_exec(h: HealthStatus) -> (r: &'static str)
    ensures
        r@ == health_name(h),
{
    match h {
        HealthStatus::Healthy => "Healthy",
        HealthStatus::Warning => "Warning",
        HealthStatus::Critical => "Critical",
    }
}

/// How many module rows have the given health.
pub open spec fn count_health(modules: Seq<ModuleData>, h: HealthStatus) -> nat
    decreases modules.len(),
{
    if modules.len() == 0 {
        0
    } else {
        count_health(modules.drop_last(), h) + (if modules.last().health == h {
            1nat
        } else {
            0nat
        })
    }
}

/// One module row of the export document.
pub open spec fn module_entry_spec(md: ModuleData) -> Seq<char> {
    "{\"name\":\""@ + escape_spec(md.name@) + "\",\"total_read\":"@ + dec_str(md.total_read as nat)
        + ",\"total_written\":"@ + dec_str(md.total_written as nat) + ",\"health\":\""@
        + health_name(md.health) + "\"}"@
}

/// The module rows of the export document, comma separated, first `i`
/// modules.
pub open spec fn modules_array_spec(modules: Seq<ModuleData>, i: int) -> Seq<char>
    decreases i,
{
    if i <= 0 {
        Seq::empty()
    } else if i == 1 {
        module_entry_spec(modules[0])
    } else {
        modules_array_spec(modules, i - 1) + ","@ + module_entry_spec(modules[i - 1])
    }
}

/// One bottleneck row of the export document.
pub open spec fn bottleneck_read_spec(name: Seq<char>, t: TopicRead) -> Seq<char> {
    "{\"module\":\""@ + escape_spec(name) + "\",\"topic\":\""@ + escape_spec(t.topic@)
        + "\",\"status\":\""@ + health_name(t.status) + "\""@ + (match t.pending_for {
        Option::Some(p) => ",\"pending_for\":\""@ + format_duration_spec(
            pending_nanos(p.0),
        ) + "\""@,
        Option::None => Seq::<char>::empty(),
    }) + "}"@
}

/// A pending duration in nanoseconds, saturating at the u64 range.
pub open spec fn pending_nanos(micros: u64) -> nat {
    if micros * 1000 > u64::MAX {
        u64::MAX as nat
    } else {
        (micros * 1000) as nat
    }
}

/// One bottleneck row of the export document, write side.
pub open spec fn bottleneck_write_spec(name: Seq<char>, t: TopicWrite) -> Seq<char> {
    "{\"module\":\""@ + escape_spec(name) + "\",\"topic\":\""@ + escape_spec(t.topic@)
        + "\",\"status\":\""@ + health_name(t.status) + "\""@ + (match t.pending_for {
        Option::Some(p) => ",\"pending_for\":\""@ + format_duration_spec(
            pending_nanos(p.0),
        ) + "\""@,
        Option::None => Seq::<char>::empty(),
    }) + "}"@
}

/// Append one module row of the export document.
fn push_module_entry(out: &mut String, md: &ModuleData)
    ensures
        final(out)@ == old(out)@ + module_entry_spec(*md),
{
    out.append("{\"name\":\"");
    let esc = escape_label_value(md.name.as_str());
    out.append(esc.as_str());
    out.append("\",\"total_read\":");
    let tr = u64_to_string(md.total_read);
    out.append(tr.as_str());
    out.append(",\"total_written\":");
    let tw = u64_to_string(md.total_written);
    out.append(tw.as_str());
    out.append(",\"health\":\"");
    out.append(health_name_exec(md.health));
    out.append("\"}");
    proof {
        assert(final(out)@ =~= old(out)@ + module_entry_spec(*md));
    }
}

/// The whole export document.
pub open spec fn export_spec(data: MonitorData) -> Seq<char> {
    "{\"summary\":{\"total_modules\":"@ + dec_str(data.modules@.len())
        + ",\"healthy\":"@ + dec_str(count_health(data.modules@, HealthStatus::Healthy))
        + ",\"warning\":"@ + dec_str(count_health(data.modules@, HealthStatus::Warning))
        + ",\"critical\":"@ + dec_str(count_health(data.modules@, HealthStatus::Critical))
        + "},\"modules\":["@ + modules_array_spec(data.modules@, data.modules@.len() as int)
        + "],\"bottlenecks\":["@ + bottlenecks_spec(data.modules@, data.modules@.len() as int)
        + "]}"@
}

/// The bottleneck rows of one module: unhealthy reads then unhealthy
/// writes, each prefixed with a comma when something precedes it.
pub open spec fn module_bottlenecks_spec(md: ModuleData, lead: bool) -> Seq<char> {
    bott_reads_spec(md, md.reads@.len() as int, lead).1 + bott_writes_spec(
        md,
        md.writes@.len() as int,
        bott_reads_spec(md, md.reads@.len() as int, lead).0,
    ).1
}

/// The unhealthy read rows among the first `i` of a module; the flag says
/// whether anything has been emitted yet.
pub open spec fn bott_reads_spec(md: ModuleData, i: int, lead: bool) -> (bool, Seq<char>)
    decreases i,
{
    if i <= 0 {
        (lead, Seq::empty())
    } else {
        let (l, s) = bott_reads_spec(md, i - 1, lead);
        if md.reads@[i - 1].status is Healthy {
            (l, s)
        } else {
            (true, s + (if l {
                ","@
            } else {
                Seq::<char>::empty()
            }) + bottleneck_read_spec(md.name@, md.reads@[i - 1]))
        }
    }
}

/// The unhealthy write rows among the first `i` of a module.
pub open spec fn bott_writes_spec(md: ModuleData, i: int, lead: bool) -> (bool, Seq<char>)
    decreases i,
{
    if i <= 0 {
        (lead, Seq::empty())
    } else {
        let (l, s) = bott_writes_spec(md, i - 1, lead);
        if md.writes@[i - 1].status is Healthy {
            (l, s)
        } else {
            (true, s + (if l {
                ","@
            } else {
                Seq::<char>::empty()
            }) + bottleneck_write_spec(md.name@, md.writes@[i - 1]))
        }
    }
}

/// Whether the first `i` modules contribute any bottleneck row.
pub open spec fn bott_lead_after(modules: Seq<ModuleData>, i: int) -> bool
    decreases i,
{
    if i <= 0 {
        false
    } else {
        let md = modules[i - 1];
        bott_writes_spec(
            md,
            md.writes@.len() as int,
            bott_reads_spec(md, md.reads@.len() as int, bott_lead_after(modules, i - 1)).0,
        ).0
    }
}

/// The bottleneck rows of the first `i` modules.
pub open spec fn bottlenecks_spec(modules: Seq<ModuleData>, i: int) -> Seq<char>
    decreases i,
{
    if i <= 0 {
        Seq::empty()
    } else {
        bottlenecks_spec(modules, i - 1) + module_bottlenecks_spec(
            modules[i - 1],
            bott_lead_after(modules, i - 1),
        )
    }
}

/// Render the export document for the current monitor data.
#[verifier::rlimit(100)]
pub fn export_json(data: &MonitorData) -> (r: String)
    ensures
        r@ == export_spec(*data),
{
    let nm = data.modules.len();
    // Count the health classes.
    let mut healthy: usize = 0;
    let mut warning: usize = 0;
    let mut critical: usize = 0;
    let mut i: usize = 0;
    while i < nm
        invariant
            i <= nm,
            nm == data.modules@.len(),
            healthy == count_health(data.modules@.take(i as int), HealthStatus::Healthy),
            warning == count_health(data.modules@.take(i as int), HealthStatus::Warning),
            critical == count_health(data.modules@.take(i as int), HealthStatus::Critical),
            healthy <= i && warning <= i && critical <= i,
        decreases nm - i,
    {
        proof {
            assert(data.modules@.take(i + 1).drop_last() =~= data.modules@.take(i as int));
        }
        match data.modules[i].health {
            HealthStatus::Healthy => {
                healthy = healthy + 1;
            },
            HealthStatus::Warning => {
                warning = warning + 1;
            },
            HealthStatus::Critical => {
                critical = critical + 1;
            },
        }
        i = i + 1;
    }
    proof {
        assert(data.modules@.take(nm as int) =~= data.modules@);
    }

    let mut out = String::new();
    out.append("{\"summary\":{\"total_modules\":");
    let s1 = u64_to_string(nm as u64);
    out.append(s1.as_str());
    out.append(",\"healthy\":");
    let s2 = u64_to_string(healthy as u64);
    out.append(s2.as_str());
    out.append(",\"warning\":");
    let s3 = u64_to_string(warning as u64);
    out.append(s3.as_str());
    out.append(",\"critical\":");
    let s4 = u64_to_string(critical as u64);
    out.append(s4.as_str());
    out.append("},\"modules\":[");
    let ghost header = out@;

    let mut j: usize = 0;
    while j < nm
        invariant
            j <= nm,
            nm == data.modules@.len(),
            out@ == header + modules_array_spec(data.modules@, j as int),
        decreases nm - j,
    {
        if j > 0 {
            out.append(",");
        }
        push_module_entry(&mut out, &data.modules[j]);
        proof {
            assert(out@ =~= header + modules_array_spec(data.modules@, j + 1));
        }
        j = j + 1;
    }

    out.append("],\"bottlenecks\":[");
    let ghost bhead = out@;
    let mut m: usize = 0;
    let mut lead: bool = false;
    while m < nm
        invariant
            m <= nm,
            nm == data.modules@.len(),
            out@ == bhead + bottlenecks_spec(data.modules@, m as int),
            lead == bott_lead_after(data.modules@, m as int),
        decreases nm - m,
    {
        let md = &data.modules[m];
        let ghost mbase = out@;
        let ghost lead0 = lead;
        let nr = md.reads.len();
        let mut a: usize = 0;
        while a < nr
            invariant
                a <= nr,
                m < nm,
                nm == data.modules@.len(),
                md == &data.modules@[m as int],
                nr == md.reads@.len(),
                out@ == mbase + bott_reads_spec(*md, a as int, lead0).1,
                lead == bott_reads_spec(*md, a as int, lead0).0,
            decreases nr - a,
        {
            let is_unhealthy = match md.reads[a].status {
                HealthStatus::Healthy => false,
                _ => true,
            };
            if is_unhealthy {
                if lead {
                    out.append(",");
                }
                push_bottleneck_read(&mut out, md.name.as_str(), &md.reads[a]);
                lead = true;
            }
            proof {
                assert(out@ =~= mbase + bott_reads_spec(*md, a + 1, lead0).1);
            }
            a = a + 1;
        }
        let ghost leadr = lead;
        let ghost rbase = out@;
        let nw = md.writes.len();
        let mut b: usize = 0;
        while b < nw
            invariant
                b <= nw,
                m < nm,
                nm == data.modules@.len(),
                md == &data.modules@[m as int],
                nw == md.writes@.len(),
                out@ == rbase + bott_writes_spec(*md, b as int, leadr).1,
                lead == bott_writes_spec(*md, b as int, leadr).0,
            decreases nw - b,
        {
            let is_unhealthy = match md.writes[b].status {
                HealthStatus::Healthy => false,
                _ => true,
            };
            if is_unhealthy {
                if lead {
                    out.append(",");
                }
                push_bottleneck_write(&mut out, md.name.as_str(), &md.writes[b]);
                lead = true;
            }
            proof {
                assert(out@ =~= rbase + bott_writes_spec(*md, b + 1, leadr).1);
            }
            b = b + 1;
        }
        proof {
            assert(out@ =~= bhead + bottlenecks_spec(data.modules@, m + 1));
        }
        m = m + 1;
    }
    out.append("]}");
    proof {
        assert(out@ =~= export_spec(*data));
    }
    out
}

/// Append one unhealthy read row.
fn push_bottleneck_read(out: &mut String, name: &str, t: &TopicRead)
    ensures
        final(out)@ == old(out)@ + bottleneck_read_spec(name@, *t),
{
    out.append("{\"module\":\"");
    let esc = escape_label_value(name);
    out.append(esc.as_str());
    out.append("\",\"topic\":\"");
    let tesc = escape_label_value(t.topic.as_str());
    out.append(tesc.as_str());
    out.append("\",\"status\":\"");
    out.append(health_name_exec(t.status));
    out.append("\"");
    match t.pending_for {
        Some(p) => {
            out.append(",\"pending_for\":\"");
            let nanos: u64 = if p.0 <= u64::MAX / 1000 {
                p.0 * 1000
            } else {
                u64::MAX
            };
            proof {
                if p.0 <= u64::MAX / 1000 {
                    assert(p.0 * 1000 <= u64::MAX) by (nonlinear_arith)
                        requires p.0 <= u64::MAX / 1000,
                    ;
                } else {
                    assert(p.0 * 1000 > u64::MAX) by (nonlinear_arith)
                        requires p.0 > u64::MAX / 1000,
                    ;
                }
                assert(nanos as nat == pending_nanos(p.0));
            }
            let d = crate::duration::format_duration(nanos);
            out.append(d.as_str());
            out.append("\"");
        },
        None => {},
    }
    out.append("}");
    proof {
        assert(final(out)@ =~= old(out)@ + bottleneck_read_spec(name@, *t));
    }
}

/// Append one unhealthy write row.
fn push_bottleneck_write(out: &mut String, name: &str, t: &TopicWrite)
    ensures
        final(out)@ == old(out)@ + bottleneck_write_spec(name@, *t),
{
    out.append("{\"module\":\"");
    let esc = escape_label_value(name);
    out.append(esc.as_str());
    out.append("\",\"topic\":\"");
    let tesc = escape_label_value(t.topic.as_str());
    out.append(tesc.as_str());
    out.append("\",\"status\":\"");
    out.append(health_name_exec(t.status));
    out.append("\"");
    match t.pending_for {
        Some(p) => {
            out.append(",\"pending_for\":\"");
            let nanos: u64 = if p.0 <= u64::MAX / 1000 {
                p.0 * 1000
            } else {
                u64::MAX
            };
            proof {
                if p.0 <= u64::MAX / 1000 {
                    assert(p.0 * 1000 <= u64::MAX) by (nonlinear_arith)
                        requires p.0 <= u64::MAX / 1000,
                    ;
                } else {
                    assert(p.0 * 1000 > u64::MAX) by (nonlinear_arith)
                        requires p.0 > u64::MAX / 1000,
                    ;
                }
                assert(nanos as nat == pending_nanos(p.0));
            }
            let d = crate::duration::format_duration(nanos);
            out.append(d.as_str());
            out.append("\"");
        },
        None => {},
    }
    out.append("}");
    proof {
        assert(final(out)@ =~= old(out)@ + bottleneck_write_spec(name@, *t));
    }
}

} // verus!
