//! Bus adapters: the error taxonomy, the connection builders, and the pure
//! synthesis of snapshots from what a bus's admin surface reports.  The
//! network calls themselves live with the caller; the functions here turn
//! their plain results into metrics.

use vstd::prelude::*;
use crate::metrics::{ModuleMetrics, ReadMetrics, WriteMetrics};
use crate::namemap::NameMap;
use crate::strutil::push_char;

verus! {

/// Why collecting from an adapter failed.
#[derive(Debug, Clone, PartialEq)]
pub enum AdapterError {
    /// An HTTP request failed.
    Http(String),
    /// A response could not be parsed.
    Parse(String),
    /// Authentication failed.
    Auth(String),
    /// A connection could not be made.
    Connection(String),
    /// The request timed out.
    Timeout,
    /// The bus does not support what was asked of it.
    Unsupported(String),
}

impl AdapterError {
    /// The error rendered for display.
    pub fn message(&self) -> (r: String)
        ensures
            self matches AdapterError::Http(m) ==> r@ == "HTTP request failed: "@ + m@,
            self matches AdapterError::Parse(m) ==> r@ == "Failed to parse response: "@ + m@,
            self matches AdapterError::Auth(m) ==> r@ == "Authentication failed: "@ + m@,
            self matches AdapterError::Connection(m) ==> r@ == "Connection failed: "@ + m@,
            *self is Timeout ==> r@ == "Request timed out"@,
            self matches AdapterError::Unsupported(m) ==> r@ == "Feature not supported: "@ + m@,
    {
        match self {
            AdapterError::Http(m) => {
                let mut s = String::from_str("HTTP request failed: ");
                s.append(m.as_str());
                s
            },
            AdapterError::Parse(m) => {
                let mut s = String::from_str("Failed to parse response: ");
                s.append(m.as_str());
                s
            },
            AdapterError::Auth(m) => {
                let mut s = String::from_str("Authentication failed: ");
                s.append(m.as_str());
                s
            },
            AdapterError::Connection(m) => {
                let mut s = String::from_str("Connection failed: ");
                s.append(m.as_str());
                s
            },
            AdapterError::Timeout => String::from_str("Request timed out"),
            AdapterError::Unsupported(m) => {
                let mut s = String::from_str("Feature not supported: ");
                s.append(m.as_str());
                s
            },
        }
    }
}

/// A path segment with every `/` written `%2F`, as the management API's
/// vhost segment wants it.
pub open spec fn urlencoded_spec(s: Seq<char>) -> Seq<char>
    decreases s.len(),
{
    if s.len() == 0 {
        Seq::empty()
    } else if s[0] == '/' {
        seq!['%', '2', 'F'] + urlencoded_spec(s.drop_first())
    } else {
        seq![s[0]] + urlencoded_spec(s.drop_first())
    }
}

/// Encode a path segment for a management-API URL.
pub fn urlencoded(s: &str) -> (r: String)
    ensures
        r@ == urlencoded_spec(s@),
{
    let n = s.unicode_len();
    let mut out = String::new();
    let mut i: usize = 0;
    while i < n
        invariant
            i <= n,
            n == s@.len(),
            out@ == urlencoded_spec(s@.take(i as int)),
        decreases n - i,
    {
        proof {
            lemma_urlencoded_step(s@, i as int);
        }
        let c = s.get_char(i);
        if c == '/' {
            push_char(&mut out, '%');
            push_char(&mut out, '2');
            push_char(&mut out, 'F');
        } else {
            push_char(&mut out, c);
        }
        proof {
            assert(out@ =~= urlencoded_spec(s@.take(i + 1)));
        }
        i = i + 1;
    }
    proof {
        assert(s@.take(n as int) =~= s@);
    }
    out
}

/// Encoding a prefix one character longer appends that character's
/// encoding.
proof fn lemma_urlencoded_step(s: Seq<char>, i: int)
    requires
        0 <= i < s.len(),
    ensures
        urlencoded_spec(s.take(i + 1)) == urlencoded_spec(s.take(i)) + (if s[i] == '/' {
            seq!['%', '2', 'F']
        } else {
            seq![s[i]]
        }),
    decreases i,
{
    reveal_with_fuel(urlencoded_spec, 3);
    let enc = if s[i] == '/' {
        seq!['%', '2', 'F']
    } else {
        seq![s[i]]
    };
    if i == 0 {
        assert(s.take(1).drop_first() =~= Seq::<char>::empty());
        assert(urlencoded_spec(s.take(0)) =~= Seq::<char>::empty());
        assert(urlencoded_spec(s.take(1)) =~= enc);
        assert(urlencoded_spec(s.take(0)) + enc =~= enc);
    } else {
        lemma_urlencoded_step(s.drop_first(), i - 1);
        assert(s.take(i + 1).drop_first() =~= s.drop_first().take(i));
        assert(s.take(i).drop_first() =~= s.drop_first().take(i - 1));
        assert(s.take(i + 1)[0] == s[0]);
        assert(s.take(i)[0] == s[0]);
        assert(s.drop_first()[i - 1] == s[i]);
        let e0 = if s[0] == '/' {
            seq!['%', '2', 'F']
        } else {
            seq![s[0]]
        };
        assert(urlencoded_spec(s.take(i + 1)) == e0 + urlencoded_spec(s.drop_first().take(i)));
        assert(urlencoded_spec(s.take(i)) == e0 + urlencoded_spec(s.drop_first().take(i - 1)));
        assert(e0 + (urlencoded_spec(s.drop_first().take(i - 1)) + enc) =~= (e0 + urlencoded_spec(
            s.drop_first().take(i - 1),
        )) + enc);
    }
}

/// What the management API reports about one queue, as plain values.
#[derive(Debug, Clone, PartialEq)]
pub struct QueueFacts {
    /// The queue name.
    pub name: String,
    /// Messages ready for delivery.
    pub messages_ready: u64,
    /// Consumers attached to the queue.
    pub consumers: u32,
    /// Messages delivered so far, when the API reports it.
    pub messages_delivered: Option<u64>,
    /// Messages published so far, when the API reports it.
    pub messages_published: Option<u64>,
    /// The delivery rate in hundredths per second, when reported.
    pub deliver_rate: Option<u64>,
    /// The publish rate in hundredths per second, when reported.
    pub publish_rate: Option<u64>,
}

/// Synthesize one queue's module metrics: a read series under `messages`
/// with the ready count as backlog (with the delivery rate only when the
/// queue has consumers), and a write series under `messages` with the
/// publish counters.
pub fn queue_to_metrics(queue: &QueueFacts) -> (m: ModuleMetrics)
    ensures
        m.wf(),
        m.reads.spec_len() == 1,
        m.writes.spec_len() == 1,
        m.reads.key_seq()[0] == "messages"@,
        m.writes.key_seq()[0] == "messages"@,
        ({
            let r = m.reads.val_seq()[0];
            &&& (queue.consumers > 0 ==> r.count == (if queue.messages_delivered is Some {
                queue.messages_delivered->Some_0
            } else {
                0
            }) && r.rate == queue.deliver_rate)
            &&& (queue.consumers == 0 ==> r.count == 0 && r.rate is None)
            &&& r.backlog == Some(queue.messages_ready)
            &&& r.pending is None
        }),
        ({
            let w = m.writes.val_seq()[0];
            &&& w.count == (if queue.messages_published is Some {
                queue.messages_published->Some_0
            } else {
                0
            })
            &&& w.rate == queue.publish_rate
            &&& w.pending is None
        }),
{
    let mut reads: NameMap<ReadMetrics> = NameMap::new();
    let mut writes: NameMap<WriteMetrics> = NameMap::new();
    let read = if queue.consumers > 0 {
        let count = match queue.messages_delivered {
            Some(d) => d,
            None => 0,
        };
        ReadMetrics {
            count,
            backlog: Some(queue.messages_ready),
            pending: None,
            rate: queue.deliver_rate,
        }
    } else {
        ReadMetrics { count: 0, backlog: Some(queue.messages_ready), pending: None, rate: None }
    };
    let written = match queue.messages_published {
        Some(p) => p,
        None => 0,
    };
    let write = WriteMetrics { count: written, pending: None, rate: queue.publish_rate };
    let _ = reads.insert("messages", read);
    let _ = writes.insert("messages", write);
    ModuleMetrics { reads, writes }
}

/// Synthesize one stream's module metrics: a write series under `stream`
/// with the stream's message count, and one read series per consumer with
/// its delivered sequence and the difference to the stream as backlog.
pub fn stream_to_metrics(total_messages: u64, consumers: &NameMap<u64>) -> (m: ModuleMetrics)
    requires
        consumers.wf(),
    ensures
        m.wf(),
        m.writes.spec_len() == 1,
        m.writes.key_seq()[0] == "stream"@,
        m.writes.val_seq()[0].count == total_messages,
        m.writes.val_seq()[0].rate is None,
        m.writes.val_seq()[0].pending is None,
        m.reads.key_seq() == consumers.key_seq(),
        forall|j: int|
            0 <= j < consumers.spec_len() ==> {
                let delivered = #[trigger] consumers.val_seq()[j];
                let r = m.reads.val_seq()[j];
                &&& r.count == delivered
                &&& r.backlog == Some(
                    (if total_messages >= delivered {
                        total_messages - delivered
                    } else {
                        0
                    }) as u64,
                )
                &&& r.pending is None
                &&& r.rate is None
            },
{
    let mut reads: NameMap<ReadMetrics> = NameMap::new();
    let n = consumers.len();
    let mut i: usize = 0;
    while i < n
        invariant
            i <= n,
            n == consumers.spec_len(),
            consumers.wf(),
            reads.wf(),
            reads.key_seq() == consumers.key_seq().take(i as int),
            reads.val_seq().len() == i,
            forall|j: int|
                0 <= j < i ==> {
                    let delivered = #[trigger] consumers.val_seq()[j];
                    let r = reads.val_seq()[j];
                    &&& r.count == delivered
                    &&& r.backlog == Some(
                        (if total_messages >= delivered {
                            total_messages - delivered
                        } else {
                            0
                        }) as u64,
                    )
                    &&& r.pending is None
                    &&& r.rate is None
                },
        decreases n - i,
    {
        let name = consumers.key_at(i).clone();
        let delivered = *consumers.val_at(i);
        let backlog = if total_messages >= delivered {
            total_messages - delivered
        } else {
            0
        };
        reads.push_max(name.as_str(), ReadMetrics {
            count: delivered,
            backlog: Some(backlog),
            pending: None,
            rate: None,
        });
        proof {
            assert(reads.key_seq() =~= consumers.key_seq().take(i + 1));
        }
        i = i + 1;
    }
    proof {
        assert(consumers.key_seq().take(n as int) =~= consumers.key_seq());
    }
    let mut writes: NameMap<WriteMetrics> = NameMap::new();
    let _ = writes.insert("stream", WriteMetrics { count: total_messages, pending: None, rate: None });
    ModuleMetrics { reads, writes }
}

/// The summed committed offsets and lag of one topic's partitions: offsets
/// add up saturating; lag adds each partition's watermark difference where
/// a watermark is known, counting backward partitions as zero.
pub fn sum_partition_offsets(parts: &Vec<(i64, Option<i64>)>) -> (r: (u64, u64))
    ensures
        r.0 == committed_sum(parts@),
        r.1 == lag_sum(parts@),
{
    let n = parts.len();
    let mut committed: u64 = 0;
    let mut lag: u64 = 0;
    let mut i: usize = 0;
    while i < n
        invariant
            i <= n,
            n == parts@.len(),
            committed == committed_sum(parts@.take(i as int)),
            lag == lag_sum(parts@.take(i as int)),
        decreases n - i,
    {
        proof {
            assert(parts@.take(i + 1).drop_last() =~= parts@.take(i as int));
        }
        let (off, high) = parts[i];
        let offn: u64 = if off > 0 {
            off as u64
        } else {
            0
        };
        if committed > u64::MAX - offn {
            committed = u64::MAX;
        } else {
            committed = committed + offn;
        }
        match high {
            Some(h) => {
                let d: u64 = if h > off && off >= 0 {
                    (h - off) as u64
                } else {
                    0
                };
                if lag > u64::MAX - d {
                    lag = u64::MAX;
                } else {
                    lag = lag + d;
                }
            },
            None => {},
        }
        i = i + 1;
    }
    proof {
        assert(parts@.take(n as int) =~= parts@);
    }
    (committed, lag)
}

/// The committed offsets of the partitions, summed and saturated;
/// negative offsets count as zero.
pub open spec fn committed_sum(parts: Seq<(i64, Option<i64>)>) -> u64
    decreases parts.len(),
{
    if parts.len() == 0 {
        0
    } else {
        let prev = committed_sum(parts.drop_last());
        let off = parts.last().0;
        let offn: u64 = if off > 0 {
            off as u64
        } else {
            0
        };
        crate::metrics::sat_add(prev, offn)
    }
}

/// The lag of the partitions against their high watermarks, summed and
/// saturated; partitions without a watermark or at or past it count zero.
pub open spec fn lag_sum(parts: Seq<(i64, Option<i64>)>) -> u64
    decreases parts.len(),
{
    if parts.len() == 0 {
        0
    } else {
        let prev = lag_sum(parts.drop_last());
        let (off, high) = parts.last();
        let d: u64 = match high {
            Option::Some(h) => if h > off && off >= 0 {
                (h - off) as u64
            } else {
                0
            },
            Option::None => 0,
        };
        crate::metrics::sat_add(prev, d)
    }
}

/// Builder for a management-API connection.
#[derive(Debug, PartialEq)]
pub struct RabbitMqAdapterBuilder {
    /// The management endpoint, if chosen.
    pub endpoint: Option<String>,
    /// The user name, if chosen.
    pub username: Option<String>,
    /// The password, if chosen.
    pub password: Option<String>,
    /// The vhost to query, if chosen.
    pub vhost: Option<String>,
    /// The request timeout in milliseconds, if chosen.
    pub timeout_ms: Option<u64>,
}

impl RabbitMqAdapterBuilder {
    /// An empty builder.
    pub fn new() -> (b: RabbitMqAdapterBuilder)
        ensures
            b.endpoint is None,
            b.username is None,
            b.password is None,
            b.vhost is None,
            b.timeout_ms is None,
    {
        RabbitMqAdapterBuilder {
            endpoint: None,
            username: None,
            password: None,
            vhost: None,
            timeout_ms: None,
        }
    }

    /// Set the management endpoint.
    pub fn endpoint(self, endpoint: &str) -> (b: RabbitMqAdapterBuilder)
        ensures
            b.endpoint matches Some(e) && e@ == endpoint@,
            b.username == self.username,
            b.password == self.password,
            b.vhost == self.vhost,
            b.timeout_ms == self.timeout_ms,
    {
        RabbitMqAdapterBuilder { endpoint: Some(endpoint.to_owned()), ..self }
    }

    /// Set the credentials.
    pub fn credentials(self, username: &str, password: &str) -> (b: RabbitMqAdapterBuilder)
        ensures
            b.username matches Some(u) && u@ == username@,
            b.password matches Some(p) && p@ == password@,
            b.endpoint == self.endpoint,
            b.vhost == self.vhost,
            b.timeout_ms == self.timeout_ms,
    {
        RabbitMqAdapterBuilder {
            username: Some(username.to_owned()),
            password: Some(password.to_owned()),
            ..self
        }
    }

    /// Set the vhost to query.
    pub fn vhost(self, vhost: &str) -> (b: RabbitMqAdapterBuilder)
        ensures
            b.vhost matches Some(v) && v@ == vhost@,
            b.endpoint == self.endpoint,
            b.username == self.username,
            b.password == self.password,
            b.timeout_ms == self.timeout_ms,
    {
        RabbitMqAdapterBuilder { vhost: Some(vhost.to_owned()), ..self }
    }

    /// Set the request timeout, in milliseconds.
    pub fn timeout(self, timeout_ms: u64) -> (b: RabbitMqAdapterBuilder)
        ensures
            b.timeout_ms == Some(timeout_ms),
            b.endpoint == self.endpoint,
            b.username == self.username,
            b.password == self.password,
            b.vhost == self.vhost,
    {
        RabbitMqAdapterBuilder { timeout_ms: Some(timeout_ms), ..self }
    }
}

impl Default for RabbitMqAdapterBuilder {
    /// An empty builder.
    fn default() -> (b: RabbitMqAdapterBuilder)
        ensures
            b.endpoint is None,
            b.username is None,
            b.password is None,
            b.vhost is None,
            b.timeout_ms is None,
    {
        RabbitMqAdapterBuilder::new()
    }
}

/// Builder for a consumer-group metrics connection.
#[derive(Debug, PartialEq)]
pub struct KafkaAdapterBuilder {
    /// The broker list, if chosen.
    pub brokers: Option<String>,
    /// The admin consumer-group id, if chosen.
    pub group_id: Option<String>,
    /// Only groups containing this string are collected, if chosen.
    pub group_filter: Option<String>,
    /// The request timeout in milliseconds, if chosen.
    pub timeout_ms: Option<u64>,
}

impl KafkaAdapterBuilder {
    /// An empty builder.
    pub fn new() -> (b: KafkaAdapterBuilder)
        ensures
            b.brokers is None,
            b.group_id is None,
            b.group_filter is None,
            b.timeout_ms is None,
    {
        KafkaAdapterBuilder { brokers: None, group_id: None, group_filter: None, timeout_ms: None }
    }

    /// Set the broker addresses, comma-separated.
    pub fn brokers(self, brokers: &str) -> (b: KafkaAdapterBuilder)
        ensures
            b.brokers matches Some(v) && v@ == brokers@,
            b.group_id == self.group_id,
            b.group_filter == self.group_filter,
            b.timeout_ms == self.timeout_ms,
    {
        KafkaAdapterBuilder { brokers: Some(brokers.to_owned()), ..self }
    }

    /// Set the consumer group id used for admin operations.
    pub fn group_id(self, group_id: &str) -> (b: KafkaAdapterBuilder)
        ensures
            b.group_id matches Some(v) && v@ == group_id@,
            b.brokers == self.brokers,
            b.group_filter == self.group_filter,
            b.timeout_ms == self.timeout_ms,
    {
        KafkaAdapterBuilder { group_id: Some(group_id.to_owned()), ..self }
    }

    /// Collect only groups whose name contains this string.
    pub fn group_filter(self, filter: &str) -> (b: KafkaAdapterBuilder)
        ensures
            b.group_filter matches Some(v) && v@ == filter@,
            b.brokers == self.brokers,
            b.group_id == self.group_id,
            b.timeout_ms == self.timeout_ms,
    {
        KafkaAdapterBuilder { group_filter: Some(filter.to_owned()), ..self }
    }

    /// Set the request timeout, in milliseconds.
    pub fn timeout(self, timeout_ms: u64) -> (b: KafkaAdapterBuilder)
        ensures
            b.timeout_ms == Some(timeout_ms),
            b.brokers == self.brokers,
            b.group_id == self.group_id,
            b.group_filter == self.group_filter,
    {
        KafkaAdapterBuilder { timeout_ms: Some(timeout_ms), ..self }
    }
}

impl Default for KafkaAdapterBuilder {
    /// An empty builder.
    fn default() -> (b: KafkaAdapterBuilder)
        ensures
            b.brokers is None,
            b.group_id is None,
            b.group_filter is None,
            b.timeout_ms is None,
    {
        KafkaAdapterBuilder::new()
    }
}

/// Builder for a stream-server connection.
#[derive(Debug, PartialEq)]
pub struct NatsAdapterBuilder {
    /// The server URL, if chosen.
    pub url: Option<String>,
    /// A credentials file path, if chosen.
    pub credentials: Option<String>,
}

impl NatsAdapterBuilder {
    /// An empty builder.
    pub fn new() -> (b: NatsAdapterBuilder)
        ensures
            b.url is None,
            b.credentials is None,
    {
        NatsAdapterBuilder { url: None, credentials: None }
    }

    /// Set the server URL.
    pub fn url(self, url: &str) -> (b: NatsAdapterBuilder)
        ensures
            b.url matches Some(v) && v@ == url@,
            b.credentials == self.credentials,
    {
        NatsAdapterBuilder { url: Some(url.to_owned()), ..self }
    }

    /// Set the path of a credentials file.
    pub fn credentials_file(self, path: &str) -> (b: NatsAdapterBuilder)
        ensures
            b.credentials matches Some(v) && v@ == path@,
            b.url == self.url,
    {
        NatsAdapterBuilder { credentials: Some(path.to_owned()), ..self }
    }
}

impl Default for NatsAdapterBuilder {
    /// An empty builder.
    fn default() -> (b: NatsAdapterBuilder)
        ensures
            b.url is None,
            b.credentials is None,
    {
        NatsAdapterBuilder::new()
    }
}

} // verus!
