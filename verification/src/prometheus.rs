//! Prometheus text exposition of snapshots, and the scrape-endpoint
//! configuration.

use vstd::prelude::*;
use crate::metrics::{ReadMetrics, WriteMetrics};
use crate::namemap::NameMap;
use crate::snapshot::Snapshot;
use crate::strutil::{dec_str, dec_digit, u64_to_string, push_char, digit_char};

verus! {

/// Configuration for the Prometheus metrics endpoint.
#[derive(Debug, Clone, PartialEq)]
pub struct PrometheusConfig {
    /// Address to listen on.
    pub listen_addr: String,
    /// Path of the metrics endpoint.
    pub metrics_path: String,
    /// Optional namespace prefix for all metric names.
    pub namespace: Option<String>,
}

impl Default for PrometheusConfig {
    /// Listen on all interfaces at port 9090, serve `/metrics`, no
    /// namespace.
    fn default() -> (c: PrometheusConfig)
        ensures
            c.listen_addr@ == "0.0.0.0:9090"@,
            c.metrics_path@ == "/metrics"@,
            c.namespace is None,
    {
        PrometheusConfig {
            listen_addr: String::from_str("0.0.0.0:9090"),
            metrics_path: String::from_str("/metrics"),
            namespace: None,
        }
    }
}

impl PrometheusConfig {
    /// A builder for the configuration.
    pub fn builder() -> (b: PrometheusConfigBuilder)
        ensures
            b.listen_addr is None,
            b.metrics_path is None,
            b.namespace is None,
    {
        PrometheusConfigBuilder { listen_addr: None, metrics_path: None, namespace: None }
    }
}

/// Builder for `PrometheusConfig`.
#[derive(Debug)]
pub struct PrometheusConfigBuilder {
    /// The listen address, if chosen.
    pub listen_addr: Option<String>,
    /// The metrics path, if chosen.
    pub metrics_path: Option<String>,
    /// The namespace prefix, if chosen.
    pub namespace: Option<String>,
}

impl PrometheusConfigBuilder {
    /// Set the listen address.
    pub fn listen_addr(self, addr: &str) -> (b: PrometheusConfigBuilder)
        ensures
            b.listen_addr matches Some(a) && a@ == addr@,
            b.metrics_path == self.metrics_path,
            b.namespace == self.namespace,
    {
        PrometheusConfigBuilder {
            listen_addr: Some(addr.to_owned()),
            metrics_path: self.metrics_path,
            namespace: self.namespace,
        }
    }

    /// Set the metrics path.
    pub fn metrics_path(self, path: &str) -> (b: PrometheusConfigBuilder)
        ensures
            b.metrics_path matches Some(p) && p@ == path@,
            b.listen_addr == self.listen_addr,
            b.namespace == self.namespace,
    {
        PrometheusConfigBuilder {
            listen_addr: self.listen_addr,
            metrics_path: Some(path.to_owned()),
            namespace: self.namespace,
        }
    }

    /// Set the namespace prefix for all metric names.
    pub fn namespace(self, ns: &str) -> (b: PrometheusConfigBuilder)
        ensures
            b.namespace matches Some(n) && n@ == ns@,
            b.listen_addr == self.listen_addr,
            b.metrics_path == self.metrics_path,
    {
        PrometheusConfigBuilder {
            listen_addr: self.listen_addr,
            metrics_path: self.metrics_path,
            namespace: Some(ns.to_owned()),
        }
    }

    /// Build the configuration, with defaults for what was not chosen.
    pub fn build(self) -> (c: PrometheusConfig)
        ensures
            self.listen_addr matches Some(a) ==> c.listen_addr == a,
            self.listen_addr is None ==> c.listen_addr@ == "0.0.0.0:9090"@,
            self.metrics_path matches Some(p) ==> c.metrics_path == p,
            self.metrics_path is None ==> c.metrics_path@ == "/metrics"@,
            c.namespace == self.namespace,
    {
        PrometheusConfig {
            listen_addr: match self.listen_addr {
                Some(a) => a,
                None => String::from_str("0.0.0.0:9090"),
            },
            metrics_path: match self.metrics_path {
                Some(p) => p,
                None => String::from_str("/metrics"),
            },
            namespace: self.namespace,
        }
    }
}

/// How one character is escaped in a label value: backslash, double quote
/// and newline get a backslash escape; everything else stands for itself.
pub open spec fn esc_char(c: char) -> Seq<char> {
    if c == '\\' {
        seq!['\\', '\\']
    } else if c == '"' {
        seq!['\\', '"']
    } else if c == '\n' {
        seq!['\\', 'n']
    } else {
        seq![c]
    }
}

/// A label value with every character escaped.
pub open spec fn escape_spec(s: Seq<char>) -> Seq<char>
    decreases s.len(),
{
    if s.len() == 0 {
        Seq::empty()
    } else {
        esc_char(s[0]) + escape_spec(s.drop_first())
    }
}

/// Undo the label escaping: a backslash followed by `\\`, `"` or `n` reads
/// back as the escaped character.
pub open spec fn unescape_spec(s: Seq<char>) -> Seq<char>
    decreases s.len(),
{
    if s.len() == 0 {
        Seq::empty()
    } else if s[0] == '\\' && s.len() >= 2 {
        let c = if s[1] == 'n' {
            '\n'
        } else {
            s[1]
        };
        seq![c] + unescape_spec(s.skip(2))
    } else {
        seq![s[0]] + unescape_spec(s.drop_first())
    }
}

/// Escaping is reversible, so a conforming reader recovers the label value
/// exactly: unescaping the escape of any string yields the string.
pub proof fn lemma_escape_round_trip(s: Seq<char>)
    ensures
        unescape_spec(escape_spec(s)) == s,
    decreases s.len(),
{
    if s.len() > 0 {
        lemma_escape_round_trip(s.drop_first());
        let e = escape_spec(s);
        let c = s[0];
        if c == '\\' || c == '"' || c == '\n' {
            assert(e == esc_char(c) + escape_spec(s.drop_first()));
            assert(e.len() >= 2 && e[0] == '\\');
            assert(e.skip(2) =~= escape_spec(s.drop_first()));
            assert(unescape_spec(e) =~= s);
        } else {
            assert(e[0] == c);
            assert(e.drop_first() =~= escape_spec(s.drop_first()));
            if e.len() >= 2 && e[0] == '\\' {
                assert(false);
            }
            assert(unescape_spec(e) =~= s);
        }
    }
}

/// Escape a label value for the exposition format.
pub fn escape_label_value(s: &str) -> (r: String)
    ensures
        r@ == escape_spec(s@),
{
    let n = s.unicode_len();
    let mut out = String::new();
    let mut i: usize = 0;
    while i < n
        invariant
            i <= n,
            n == s@.len(),
            out@ == escape_spec(s@.take(i as int)),
        decreases n - i,
    {
        proof {
            lemma_escape_take_step(s@, i as int);
        }
        let c = s.get_char(i);
        if c == '\\' {
            push_char(&mut out, '\\');
            push_char(&mut out, '\\');
        } else if c == '"' {
            push_char(&mut out, '\\');
            push_char(&mut out, '"');
        } else if c == '\n' {
            push_char(&mut out, '\\');
            push_char(&mut out, 'n');
        } else {
            push_char(&mut out, c);
        }
        proof {
            assert(out@ =~= escape_spec(s@.take(i + 1)));
        }
        i = i + 1;
    }
    proof {
        assert(s@.take(n as int) =~= s@);
    }
    out
}

/// Escaping a prefix one character longer appends that character's escape.
proof fn lemma_escape_take_step(s: Seq<char>, i: int)
    requires
        0 <= i < s.len(),
    ensures
        escape_spec(s.take(i + 1)) == escape_spec(s.take(i)) + esc_char(s[i]),
    decreases i,
{
    reveal_with_fuel(escape_spec, 3);
    if i == 0 {
        assert(s.take(1).drop_first() =~= Seq::<char>::empty());
        assert(escape_spec(Seq::<char>::empty()) =~= Seq::<char>::empty());
        assert(escape_spec(s.take(1)) =~= esc_char(s[0]));
        assert(escape_spec(s.take(0)) =~= Seq::<char>::empty());
        assert(escape_spec(s.take(0)) + esc_char(s[0]) =~= esc_char(s[0]));
    } else {
        lemma_escape_take_step(s.drop_first(), i - 1);
        assert(s.take(i + 1).drop_first() =~= s.drop_first().take(i));
        assert(s.take(i).drop_first() =~= s.drop_first().take(i - 1));
        assert(s.take(i + 1)[0] == s[0]);
        assert(s.take(i)[0] == s[0]);
        assert(s.drop_first()[i - 1] == s[i]);
        assert(escape_spec(s.take(i + 1)) == esc_char(s[0]) + escape_spec(s.drop_first().take(i)));
        assert(escape_spec(s.take(i)) == esc_char(s[0]) + escape_spec(s.drop_first().take(i - 1)));
        assert(esc_char(s[0]) + (escape_spec(s.drop_first().take(i - 1)) + esc_char(s[i]))
            =~= (esc_char(s[0]) + escape_spec(s.drop_first().take(i - 1))) + esc_char(s[i]));
    }
}

/// A number of microseconds rendered as seconds with six decimal places.
pub open spec fn seconds_6dp(us: nat) -> Seq<char> {
    dec_str(us / 1_000_000) + seq!['.'] + fixed_digits(us % 1_000_000, 6)
}

/// A value in hundredths rendered with two decimal places.
pub open spec fn per_second_2dp(centi: nat) -> Seq<char> {
    dec_str(centi / 100) + seq!['.'] + fixed_digits(centi % 100, 2)
}

/// A number of milliseconds rendered as seconds with three decimal places.
pub open spec fn seconds_3dp(ms: nat) -> Seq<char> {
    dec_str(ms / 1000) + seq!['.'] + fixed_digits(ms % 1000, 3)
}

/// The low `w` decimal digits of a number, zero-padded.
pub open spec fn fixed_digits(n: nat, w: nat) -> Seq<char>
    decreases w,
{
    if w == 0 {
        Seq::empty()
    } else {
        fixed_digits(n / 10, (w - 1) as nat) + seq![dec_digit(n % 10)]
    }
}

/// Append the low `w` decimal digits of `n`, zero-padded.
fn push_fixed_digits(out: &mut String, n: u64, w: u64)
    requires
        w <= 9,
    ensures
        final(out)@ == old(out)@ + fixed_digits(n as nat, w as nat),
    decreases w,
{
    if w == 0 {
        proof {
            assert(old(out)@ + fixed_digits(n as nat, 0) =~= old(out)@);
        }
    } else {
        push_fixed_digits(out, n / 10, w - 1);
        push_char(out, digit_char(n % 10));
    }
}

/// One HELP line and one TYPE line for a metric family.
pub open spec fn help_type_spec(
    pfx: Seq<char>,
    name: Seq<char>,
    kind: Seq<char>,
    help: Seq<char>,
) -> Seq<char> {
    "# HELP "@ + pfx + name + " "@ + help + "\n"@ + "# TYPE "@ + pfx + name + " "@ + kind
        + "\n"@
}

/// Append a HELP line and a TYPE line for a metric family.
fn push_help_type(out: &mut String, pfx: &str, name: &str, kind: &str, help: &str)
    ensures
        final(out)@ == old(out)@ + help_type_spec(pfx@, name@, kind@, help@),
{
    out.append("# HELP ");
    out.append(pfx);
    out.append(name);
    out.append(" ");
    out.append(help);
    out.append("\n");
    out.append("# TYPE ");
    out.append(pfx);
    out.append(name);
    out.append(" ");
    out.append(kind);
    out.append("\n");
    proof {
        assert(final(out)@ =~= old(out)@ + help_type_spec(pfx@, name@, kind@, help@));
    }
}

/// The `{module="...",topic="..."} ` label section of a sample line.
pub open spec fn labels_spec(mesc: Seq<char>, tesc: Seq<char>) -> Seq<char> {
    "{module=\""@ + mesc + "\",topic=\""@ + tesc + "\"} "@
}

/// The sample lines for one read series: the count, then backlog, pending
/// seconds and rate when present.
pub open spec fn read_lines_spec(
    pfx: Seq<char>,
    mesc: Seq<char>,
    topic: Seq<char>,
    rm: ReadMetrics,
) -> Seq<char> {
    let labels = labels_spec(mesc, escape_spec(topic));
    let count_line = pfx + "buswatch_read_count"@ + labels + dec_str(rm.count as nat) + "\n"@;
    let backlog_line = match rm.backlog {
        Option::Some(b) => pfx + "buswatch_read_backlog"@ + labels + dec_str(b as nat) + "\n"@,
        Option::None => Seq::<char>::empty(),
    };
    let pending_line = match rm.pending {
        Option::Some(p) => pfx + "buswatch_read_pending_seconds"@ + labels + seconds_6dp(
            p.0 as nat,
        ) + "\n"@,
        Option::None => Seq::<char>::empty(),
    };
    let rate_line = match rm.rate {
        Option::Some(r) => pfx + "buswatch_read_rate_per_second"@ + labels + per_second_2dp(
            r as nat,
        ) + "\n"@,
        Option::None => Seq::<char>::empty(),
    };
    count_line + backlog_line + pending_line + rate_line
}

/// The sample lines for one write series: the count, then pending seconds
/// and rate when present.
pub open spec fn write_lines_spec(
    pfx: Seq<char>,
    mesc: Seq<char>,
    topic: Seq<char>,
    wm: WriteMetrics,
) -> Seq<char> {
    let labels = labels_spec(mesc, escape_spec(topic));
    let count_line = pfx + "buswatch_write_count"@ + labels + dec_str(wm.count as nat) + "\n"@;
    let pending_line = match wm.pending {
        Option::Some(p) => pfx + "buswatch_write_pending_seconds"@ + labels + seconds_6dp(
            p.0 as nat,
        ) + "\n"@,
        Option::None => Seq::<char>::empty(),
    };
    let rate_line = match wm.rate {
        Option::Some(r) => pfx + "buswatch_write_rate_per_second"@ + labels + per_second_2dp(
            r as nat,
        ) + "\n"@,
        Option::None => Seq::<char>::empty(),
    };
    count_line + pending_line + rate_line
}

/// The read lines of the first `i` topics of a module.
pub open spec fn reads_block_spec(
    pfx: Seq<char>,
    mesc: Seq<char>,
    m: NameMap<ReadMetrics>,
    i: int,
) -> Seq<char>
    decreases i,
{
    if i <= 0 {
        Seq::empty()
    } else {
        reads_block_spec(pfx, mesc, m, i - 1) + read_lines_spec(
            pfx,
            mesc,
            m.key_seq()[i - 1],
            m.val_seq()[i - 1],
        )
    }
}

/// The write lines of the first `i` topics of a module.
pub open spec fn writes_block_spec(
    pfx: Seq<char>,
    mesc: Seq<char>,
    m: NameMap<WriteMetrics>,
    i: int,
) -> Seq<char>
    decreases i,
{
    if i <= 0 {
        Seq::empty()
    } else {
        writes_block_spec(pfx, mesc, m, i - 1) + write_lines_spec(
            pfx,
            mesc,
            m.key_seq()[i - 1],
            m.val_seq()[i - 1],
        )
    }
}

/// The sample lines of one module: all its read series, then all its write
/// series.
pub open spec fn module_block_spec(
    pfx: Seq<char>,
    name: Seq<char>,
    mm: crate::metrics::ModuleMetrics,
) -> Seq<char> {
    let mesc = escape_spec(name);
    reads_block_spec(pfx, mesc, mm.reads, mm.reads.spec_len() as int) + writes_block_spec(
        pfx,
        mesc,
        mm.writes,
        mm.writes.spec_len() as int,
    )
}

/// The sample lines of the first `i` modules of a snapshot.
pub open spec fn modules_block_spec(pfx: Seq<char>, snap: Snapshot, i: int) -> Seq<char>
    decreases i,
{
    if i <= 0 {
        Seq::empty()
    } else {
        modules_block_spec(pfx, snap, i - 1) + module_block_spec(
            pfx,
            snap.modules.key_seq()[i - 1],
            snap.modules.val_seq()[i - 1],
        )
    }
}

/// The HELP and TYPE preamble for every metric family.
pub open spec fn preamble_spec(pfx: Seq<char>) -> Seq<char> {
    help_type_spec(
        pfx,
        "buswatch_read_count"@,
        "counter"@,
        "Total number of messages read from a topic"@,
    ) + help_type_spec(
        pfx,
        "buswatch_write_count"@,
        "counter"@,
        "Total number of messages written to a topic"@,
    ) + help_type_spec(
        pfx,
        "buswatch_read_backlog"@,
        "gauge"@,
        "Number of unread messages in topic backlog"@,
    ) + help_type_spec(
        pfx,
        "buswatch_read_pending_seconds"@,
        "gauge"@,
        "Time spent waiting for a read operation"@,
    ) + help_type_spec(
        pfx,
        "buswatch_write_pending_seconds"@,
        "gauge"@,
        "Time spent waiting for a write operation"@,
    ) + help_type_spec(
        pfx,
        "buswatch_read_rate_per_second"@,
        "gauge"@,
        "Messages read per second"@,
    ) + help_type_spec(
        pfx,
        "buswatch_write_rate_per_second"@,
        "gauge"@,
        "Messages written per second"@,
    )
}

/// The snapshot timestamp block that closes the exposition.
pub open spec fn timestamp_block_spec(pfx: Seq<char>, ms: nat) -> Seq<char> {
    help_type_spec(
        pfx,
        "buswatch_snapshot_timestamp_seconds"@,
        "gauge"@,
        "Unix timestamp of the snapshot"@,
    ) + pfx + "buswatch_snapshot_timestamp_seconds "@ + seconds_3dp(ms) + "\n"@
}

/// The whole exposition: preamble, every module's samples, timestamp.
pub open spec fn format_prometheus_spec(snap: Snapshot, pfx: Seq<char>) -> Seq<char> {
    preamble_spec(pfx) + modules_block_spec(pfx, snap, snap.modules.spec_len() as int)
        + timestamp_block_spec(pfx, snap.timestamp_ms as nat)
}

/// The namespace prefix of the metric names: the namespace and an
/// underscore, or nothing.
pub open spec fn prefix_spec(namespace: Option<&str>) -> Seq<char> {
    match namespace {
        Option::Some(ns) => ns@ + "_"@,
        Option::None => Seq::empty(),
    }
}

/// The namespace prefix, from an owned configuration value.
pub open spec fn ns_prefix(namespace: Option<String>) -> Seq<char> {
    match namespace {
        Option::Some(ns) => ns@ + "_"@,
        Option::None => Seq::empty(),
    }
}

/// Append a decimal number.
fn push_u64(out: &mut String, n: u64)
    ensures
        final(out)@ == old(out)@ + dec_str(n as nat),
{
    let d = u64_to_string(n);
    out.append(d.as_str());
}

/// Append the label section for a module/topic pair.
fn push_labels(out: &mut String, mesc: &str, topic: &str)
    ensures
        final(out)@ == old(out)@ + labels_spec(mesc@, escape_spec(topic@)),
{
    out.append("{module=\"");
    out.append(mesc);
    out.append("\",topic=\"");
    let tesc = escape_label_value(topic);
    out.append(tesc.as_str());
    out.append("\"} ");
    proof {
        assert(final(out)@ =~= old(out)@ + labels_spec(mesc@, escape_spec(topic@)));
    }
}



/// One sample line with an integer value.
pub open spec fn sample_u64_spec(
    pfx: Seq<char>,
    name: Seq<char>,
    mesc: Seq<char>,
    topic: Seq<char>,
    v: nat,
) -> Seq<char> {
    pfx + name + labels_spec(mesc, escape_spec(topic)) + dec_str(v) + "\n"@
}

/// One sample line with a scaled decimal value.
pub open spec fn sample_scaled_spec(
    pfx: Seq<char>,
    name: Seq<char>,
    mesc: Seq<char>,
    topic: Seq<char>,
    whole: nat,
    frac: nat,
    w: nat,
) -> Seq<char> {
    pfx + name + labels_spec(mesc, escape_spec(topic)) + dec_str(whole) + seq!['.']
        + fixed_digits(frac, w) + "\n"@
}

/// Append one sample line with an integer value.
fn push_sample_u64(out: &mut String, pfx: &str, name: &str, mesc: &str, topic: &str, v: u64)
    ensures
        final(out)@ == old(out)@ + sample_u64_spec(pfx@, name@, mesc@, topic@, v as nat),
{
    out.append(pfx);
    out.append(name);
    push_labels(out, mesc, topic);
    push_u64(out, v);
    out.append("\n");
    proof {
        assert(final(out)@ =~= old(out)@ + sample_u64_spec(pfx@, name@, mesc@, topic@, v as nat));
    }
}

/// Append one sample line with a scaled decimal value.
fn push_sample_scaled(
    out: &mut String,
    pfx: &str,
    name: &str,
    mesc: &str,
    topic: &str,
    whole: u64,
    frac: u64,
    w: u64,
)
    requires
        w <= 9,
    ensures
        final(out)@ == old(out)@ + sample_scaled_spec(
            pfx@,
            name@,
            mesc@,
            topic@,
            whole as nat,
            frac as nat,
            w as nat,
        ),
{
    out.append(pfx);
    out.append(name);
    push_labels(out, mesc, topic);
    push_u64(out, whole);
    push_char(out, '.');
    push_fixed_digits(out, frac, w);
    out.append("\n");
    proof {
        assert(final(out)@ =~= old(out)@ + sample_scaled_spec(
            pfx@,
            name@,
            mesc@,
            topic@,
            whole as nat,
            frac as nat,
            w as nat,
        ));
    }
}

/// Append the sample lines for one read series.
#[verifier::rlimit(100)]
fn push_read_lines(out: &mut String, pfx: &str, mesc: &str, topic: &str, rm: ReadMetrics)
    ensures
        final(out)@ == old(out)@ + read_lines_spec(pfx@, mesc@, topic@, rm),
{
    push_sample_u64(out, pfx, "buswatch_read_count", mesc, topic, rm.count);
    match rm.backlog {
        Some(b) => {
            push_sample_u64(out, pfx, "buswatch_read_backlog", mesc, topic, b);
        },
        None => {},
    }
    match rm.pending {
        Some(p) => {
            push_sample_scaled(out, pfx, "buswatch_read_pending_seconds", mesc, topic,
                p.0 / 1_000_000, p.0 % 1_000_000, 6);
        },
        None => {},
    }
    match rm.rate {
        Some(rt) => {
            push_sample_scaled(out, pfx, "buswatch_read_rate_per_second", mesc, topic,
                rt / 100, rt % 100, 2);
        },
        None => {},
    }
    proof {
        assert(final(out)@ =~= old(out)@ + read_lines_spec(pfx@, mesc@, topic@, rm));
    }
}

/// Append the sample lines for one write series.
#[verifier::rlimit(100)]
fn push_write_lines(out: &mut String, pfx: &str, mesc: &str, topic: &str, wm: WriteMetrics)
    ensures
        final(out)@ == old(out)@ + write_lines_spec(pfx@, mesc@, topic@, wm),
{
    push_sample_u64(out, pfx, "buswatch_write_count", mesc, topic, wm.count);
    match wm.pending {
        Some(p) => {
            push_sample_scaled(out, pfx, "buswatch_write_pending_seconds", mesc, topic,
                p.0 / 1_000_000, p.0 % 1_000_000, 6);
        },
        None => {},
    }
    match wm.rate {
        Some(rt) => {
            push_sample_scaled(out, pfx, "buswatch_write_rate_per_second", mesc, topic,
                rt / 100, rt % 100, 2);
        },
        None => {},
    }
    proof {
        assert(final(out)@ =~= old(out)@ + write_lines_spec(pfx@, mesc@, topic@, wm));
    }
}

/// Format a snapshot in the Prometheus text exposition format, with an
/// optional namespace prefixed to every metric name.
#[verifier::rlimit(100)]
pub fn format_prometheus(snapshot: &Snapshot, namespace: Option<&str>) -> (r: String)
    requires
        snapshot.wf(),
    ensures
        r@ == format_prometheus_spec(*snapshot, prefix_spec(namespace)),
{
    let prefix: String = match namespace {
        Some(ns) => {
            let mut p = ns.to_owned();
            p.append("_");
            p
        },
        None => String::new(),
    };
    let pfx = prefix.as_str();
    let ghost pfxv = prefix_spec(namespace);
    proof {
        assert(pfx@ =~= pfxv);
    }

    let mut out = String::new();
    push_help_type(&mut out, pfx, "buswatch_read_count", "counter",
        "Total number of messages read from a topic");
    push_help_type(&mut out, pfx, "buswatch_write_count", "counter",
        "Total number of messages written to a topic");
    push_help_type(&mut out, pfx, "buswatch_read_backlog", "gauge",
        "Number of unread messages in topic backlog");
    push_help_type(&mut out, pfx, "buswatch_read_pending_seconds", "gauge",
        "Time spent waiting for a read operation");
    push_help_type(&mut out, pfx, "buswatch_write_pending_seconds", "gauge",
        "Time spent waiting for a write operation");
    push_help_type(&mut out, pfx, "buswatch_read_rate_per_second", "gauge",
        "Messages read per second");
    push_help_type(&mut out, pfx, "buswatch_write_rate_per_second", "gauge",
        "Messages written per second");
    proof {
        assert(out@ =~= preamble_spec(pfxv));
    }

    let nm = snapshot.modules.len();
    let mut mi: usize = 0;
    while mi < nm
        invariant
            mi <= nm,
            nm == snapshot.modules.spec_len(),
            snapshot.wf(),
            pfx@ == pfxv,
            out@ == preamble_spec(pfxv) + modules_block_spec(pfxv, *snapshot, mi as int),
        decreases nm - mi,
    {
        let name = snapshot.modules.key_at(mi);
        let mm = snapshot.modules.val_at(mi);
        let mesc_s = escape_label_value(name.as_str());
        let mesc = mesc_s.as_str();
        let ghost mescv = escape_spec(snapshot.modules.key_seq()[mi as int]);
        assert(mesc@ == mescv);
        let ghost base = out@;

        let nr = mm.reads.len();
        let mut i: usize = 0;
        while i < nr
            invariant
                i <= nr,
                nr == mm.reads.spec_len(),
                mm.reads.wf(),
                pfx@ == pfxv,
                mesc@ == mescv,
                out@ == base + reads_block_spec(pfxv, mescv, mm.reads, i as int),
            decreases nr - i,
        {
            let topic = mm.reads.key_at(i);
            let rm = *mm.reads.val_at(i);
            push_read_lines(&mut out, pfx, mesc, topic.as_str(), rm);
            proof {
                assert(out@ =~= base + reads_block_spec(pfxv, mescv, mm.reads, i + 1));
            }
            i = i + 1;
        }

        let nw = mm.writes.len();
        let ghost wbase = out@;
        let mut w: usize = 0;
        while w < nw
            invariant
                w <= nw,
                nw == mm.writes.spec_len(),
                mm.writes.wf(),
                pfx@ == pfxv,
                mesc@ == mescv,
                out@ == wbase + writes_block_spec(pfxv, mescv, mm.writes, w as int),
            decreases nw - w,
        {
            let topic = mm.writes.key_at(w);
            let wm = *mm.writes.val_at(w);
            push_write_lines(&mut out, pfx, mesc, topic.as_str(), wm);
            proof {
                assert(out@ =~= wbase + writes_block_spec(pfxv, mescv, mm.writes, w + 1));
            }
            w = w + 1;
        }
        proof {
            assert(out@ =~= preamble_spec(pfxv) + modules_block_spec(pfxv, *snapshot, mi + 1));
        }
        mi = mi + 1;
    }

    push_help_type(&mut out, pfx, "buswatch_snapshot_timestamp_seconds", "gauge",
        "Unix timestamp of the snapshot");
    out.append(pfx);
    out.append("buswatch_snapshot_timestamp_seconds ");
    push_u64(&mut out, snapshot.timestamp_ms / 1000);
    push_char(&mut out, '.');
    push_fixed_digits(&mut out, snapshot.timestamp_ms % 1000, 3);
    out.append("\n");
    proof {
        assert(out@ =~= format_prometheus_spec(*snapshot, pfxv));
    }
    out
}

/// The latest-snapshot cell behind a scrape endpoint: `record` stores a
/// snapshot, `render` serves the exposition of the last one stored, or an
/// empty body before the first.
#[derive(Debug)]
pub struct PrometheusExporter {
    /// The endpoint configuration.
    pub config: PrometheusConfig,
    /// The most recently recorded snapshot.
    pub latest: Option<Snapshot>,
}

impl PrometheusExporter {
    /// A new exporter with no snapshot yet.
    pub fn new(config: PrometheusConfig) -> (e: PrometheusExporter)
        ensures
            e.config == config,
            e.latest is None,
    {
        PrometheusExporter { config, latest: None }
    }

    /// The configuration.
    pub fn config(&self) -> (c: &PrometheusConfig)
        ensures
            *c == self.config,
    {
        &self.config
    }

    /// Store the latest snapshot.
    pub fn record(&mut self, snapshot: Snapshot)
        ensures
            final(self).config == old(self).config,
            final(self).latest == Some(snapshot),
    {
        self.latest = Some(snapshot);
    }

    /// The exposition of the latest snapshot; empty before the first.
    pub fn render(&self) -> (r: String)
        requires
            self.latest matches Some(s) ==> s.wf(),
        ensures
            self.latest is None ==> r@ == Seq::<char>::empty(),
            self.latest matches Some(s) ==> r@ == format_prometheus_spec(
                s,
                ns_prefix(self.config.namespace),
            ),
    {
        match &self.latest {
            Some(s) => {
                let ns: Option<&str> = match &self.config.namespace {
                    Some(n) => Some(n.as_str()),
                    None => None,
                };
                format_prometheus(s, ns)
            },
            None => String::new(),
        }
    }
}

} // verus!
