//! Core data model: probe targets, probe outcomes and running summary
//! statistics.
//!
//! Latencies are carried as whole milliseconds and packet loss as a
//! per-mille ratio, so that every statistic is exact integer arithmetic.

use vstd::prelude::*;
use crate::ip::{parse_ip, spec_parse_ip, IpAddress};

verus! {

/// Testing status of a DNS server entry.
#[derive(Clone, Copy, Debug, PartialEq, Eq, Structural)]
pub enum DnsStatus {
    /// Not tested yet.
    Pending,
    /// Currently being tested.
    Testing,
    /// Test completed successfully.
    Success,
    /// Test failed.
    Failed,
    /// Test timed out.
    Timeout,
}

impl Default for DnsStatus {
    fn default() -> (r: Self)
        ensures
            r == DnsStatus::Pending,
    {
        DnsStatus::Pending
    }
}

impl DnsStatus {
    /// The status reports a successful test.
    pub fn is_success(&self) -> (r: bool)
        ensures
            r == (*self is Success),
    {
        matches!(self, DnsStatus::Success)
    }

    /// The status reports a failed or timed-out test.
    pub fn is_failure(&self) -> (r: bool)
        ensures
            r == (*self is Failed || *self is Timeout),
    {
        matches!(self, DnsStatus::Failed | DnsStatus::Timeout)
    }
}

/// A named probe target.
#[derive(Clone, Debug)]
pub struct DnsServer {
    /// Human-readable server name.
    pub name: String,
    /// Address as text; valid entries hold an IPv4 or IPv6 literal.
    pub ip: String,
    /// Last measured delay in milliseconds, if any.
    pub delay: Option<u64>,
    /// Current testing status.
    pub status: DnsStatus,
}

impl DnsServer {
    /// Build a target with no measurement yet.
    pub fn new(name: String, ip: String) -> (r: Self)
        ensures
            r.name == name,
            r.ip == ip,
            r.delay is None,
            r.status == DnsStatus::Pending,
    {
        DnsServer { name, ip, delay: None, status: DnsStatus::Pending }
    }

    /// Parse the address text into an address value, if it is a valid IPv4
    /// or IPv6 literal.
    pub fn ip_addr(&self) -> (r: Option<IpAddress>)
        ensures
            r == spec_parse_ip(self.ip@),
    {
        parse_ip(self.ip.as_str())
    }

    /// The address text is an IPv4 literal.
    pub fn is_ipv4(&self) -> (r: bool)
        ensures
            r == (spec_parse_ip(self.ip@) matches Some(a) && a is V4),
    {
        match self.ip_addr() {
            Some(a) => a.is_ipv4(),
            None => false,
        }
    }

/// Copy a target entry field by field.
    pub fn clone_server(&self) -> (r: Self)
        ensures
            r == *self,
    {
        DnsServer {
            name: self.name.clone(),
            ip: self.ip.clone(),
            delay: self.delay,
            status: self.status,
        }
    }

    /// The address text is an IPv6 literal.
    pub fn is_ipv6(&self) -> (r: bool)
        ensures
            r == (spec_parse_ip(self.ip@) matches Some(a) && a is V6),
    {
        match self.ip_addr() {
            Some(a) => a.is_ipv6(),
            None => false,
        }
    }
}

/// A list of probe targets, typically loaded from configuration.
#[derive(Clone, Debug)]
pub struct DnsList {
    /// The targets.
    pub servers: Vec<DnsServer>,
}

impl DnsList {
    /// An empty list.
    pub fn new() -> (r: Self)
        ensures
            r.servers@.len() == 0,
    {
        DnsList { servers: Vec::new() }
    }

    /// Wrap a vector of targets.
    pub fn from_servers(servers: Vec<DnsServer>) -> (r: Self)
        ensures
            r.servers == servers,
    {
        DnsList { servers }
    }

    /// Number of targets.
    pub fn len(&self) -> (r: usize)
        ensures
            r == self.servers@.len(),
    {
        self.servers.len()
    }

    /// Whether the list holds no target.
    pub fn is_empty(&self) -> (r: bool)
        ensures
            r == (self.servers@.len() == 0),
    {
        self.servers.len() == 0
    }
}

impl Default for DnsList {
    fn default() -> (r: Self)
        ensures
            r.servers@.len() == 0,
    {
        DnsList::new()
    }
}

/// Outcome of probing one target.
#[derive(Clone, Debug)]
pub struct SpeedTestResult {
    /// The target that was probed.
    pub server: DnsServer,
    /// Mean latency of the successful attempts, in milliseconds.
    pub latency_ms: Option<u64>,
    /// Lost attempts per thousand: 0 means no loss, 1000 means all lost.
    pub packet_loss: u32,
    /// Whether at least one attempt succeeded.
    pub success: bool,
    /// Why the probe failed, when it did.
    pub error: Option<String>,
}

impl SpeedTestResult {
    /// Structural invariant: a successful outcome carries a latency and no
    /// failure reason; a failed outcome carries a reason and no latency.
    pub open spec fn wf(self) -> bool {
        &&& self.packet_loss <= 1000
        &&& (self.success ==> self.latency_ms is Some && self.error is None)
        &&& (!self.success ==> self.latency_ms is None && self.error is Some)
    }

    /// Latency counted by the aggregator: the measured mean for a success,
    /// zero otherwise.
    pub open spec fn spec_latency(self) -> u64 {
        if self.success {
            self.latency_ms->Some_0
        } else {
            0
        }
    }

    /// The outcome reports a timeout (a failure whose reason is exactly
    /// "timeout").
    pub open spec fn spec_is_timeout(self) -> bool {
        !self.success && self.error is Some && self.error->Some_0@ == "timeout"@
    }

    /// Build a successful outcome.
    pub fn success(server: DnsServer, latency_ms: u64, packet_loss: u32) -> (r: Self)
        requires
            packet_loss <= 1000,
        ensures
            r.server == server,
            r.latency_ms == Some(latency_ms),
            r.packet_loss == packet_loss,
            r.success,
            r.error is None,
            r.wf(),
    {
        SpeedTestResult {
            server,
            latency_ms: Some(latency_ms),
            packet_loss,
            success: true,
            error: None,
        }
    }

    /// Build a failed outcome; a fully failed probe lost every packet.
    pub fn failure(server: DnsServer, error: &str) -> (r: Self)
        ensures
            r.server == server,
            r.latency_ms is None,
            r.packet_loss == 1000,
            !r.success,
            r.error is Some && r.error->Some_0@ == error@,
            r.wf(),
    {
        SpeedTestResult {
            server,
            latency_ms: None,
            packet_loss: 1000,
            success: false,
            error: Some(error.to_owned()),
        }
    }

    /// The outcome is a timeout.
    pub fn is_timeout(&self) -> (r: bool)
        ensures
            r == self.spec_is_timeout(),
    {
        if self.success {
            false
        } else {
            match &self.error {
                Some(e) => {
                    let t = e.as_str();
                    str_eq(t, "timeout")
                },
                None => false,
            }
        }
    }
}

/// Running summary statistics over a batch of probe outcomes.
///
/// Everything is derivable from the outcomes folded in so far; the latency
/// sum is kept so that the mean is exactly the arithmetic mean of the
/// successful latencies, recomputable at any time.
#[derive(Clone, Debug)]
pub struct TestSummary {
    /// Number of outcomes folded in.
    pub total: usize,
    /// Number of successful outcomes.
    pub success: usize,
    /// Number of failed (not timed-out) outcomes.
    pub failed: usize,
    /// Number of timed-out outcomes.
    pub timeout: usize,
    /// Sum of the successful latencies, in milliseconds.
    pub latency_sum: u64,
    /// Mean successful latency: `latency_sum / success`.
    pub avg_latency: Option<u64>,
    /// Smallest successful latency.
    pub min_latency: Option<u64>,
    /// Largest successful latency.
    pub max_latency: Option<u64>,
}

impl TestSummary {
    /// Structural invariant: the three outcome classes partition the total,
    /// and the latency statistics are present exactly when a success was
    /// seen, with the mean tied to the sum.
    pub open spec fn wf(self) -> bool {
        &&& self.total == self.success + self.failed + self.timeout
        &&& (self.avg_latency is Some <==> self.success > 0)
        &&& (self.min_latency is Some <==> self.success > 0)
        &&& (self.max_latency is Some <==> self.success > 0)
        &&& (self.success == 0 ==> self.latency_sum == 0)
        &&& (self.success > 0 ==> self.avg_latency == Some(
            (self.latency_sum / (self.success as u64)) as u64,
        ))
        &&& (self.success > 0 ==> self.min_latency->Some_0 <= self.max_latency->Some_0)
    }

    /// The summary after folding in one more outcome.
    pub open spec fn spec_add(self, r: SpeedTestResult) -> TestSummary {
        if r.success {
            let lat = r.latency_ms->Some_0;
            let succ = (self.success + 1) as usize;
            let sum = (self.latency_sum + lat) as u64;
            TestSummary {
                total: (self.total + 1) as usize,
                success: succ,
                failed: self.failed,
                timeout: self.timeout,
                latency_sum: sum,
                avg_latency: Some((sum / (succ as u64)) as u64),
                min_latency: Some(
                    match self.min_latency {
                        Some(m) => if lat < m { lat } else { m },
                        None => lat,
                    },
                ),
                max_latency: Some(
                    match self.max_latency {
                        Some(m) => if lat > m { lat } else { m },
                        None => lat,
                    },
                ),
            }
        } else if r.spec_is_timeout() {
            TestSummary { total: (self.total + 1) as usize, timeout: (self.timeout + 1) as usize, ..self }
        } else {
            TestSummary { total: (self.total + 1) as usize, failed: (self.failed + 1) as usize, ..self }
        }
    }

    /// Build an empty summary.
    pub fn new() -> (r: Self)
        ensures
            r == TestSummary::spec_empty(),
            r.wf(),
    {
        TestSummary {
            total: 0,
            success: 0,
            failed: 0,
            timeout: 0,
            latency_sum: 0,
            avg_latency: None,
            min_latency: None,
            max_latency: None,
        }
    }

    /// The empty summary.
    pub open spec fn spec_empty() -> TestSummary {
        TestSummary {
            total: 0,
            success: 0,
            failed: 0,
            timeout: 0,
            latency_sum: 0,
            avg_latency: None,
            min_latency: None,
            max_latency: None,
        }
    }

    /// Fold one outcome into the summary.
    ///
    /// Exactly one of the three class counters grows, so the classes keep
    /// partitioning the total; on a success the mean is recomputed from the
    /// exact sum.
    pub fn add_result(&mut self, result: &SpeedTestResult)
        requires
            old(self).wf(),
            result.wf(),
            old(self).total < usize::MAX,
            old(self).latency_sum + result.spec_latency() <= u64::MAX,
        ensures
            *final(self) == old(self).spec_add(*result),
            final(self).wf(),
            final(self).total == old(self).total + 1,
    {
        self.total = self.total + 1;
        if result.success {
            self.success = self.success + 1;
            if let Some(latency) = result.latency_ms {
                self.latency_sum = self.latency_sum + latency;
                self.avg_latency = Some(self.latency_sum / (self.success as u64));
                self.min_latency = Some(
                    match self.min_latency {
                        Some(m) => if latency < m { latency } else { m },
                        None => latency,
                    },
                );
                self.max_latency = Some(
                    match self.max_latency {
                        Some(m) => if latency > m { latency } else { m },
                        None => latency,
                    },
                );
            }
        } else if result.is_timeout() {
            self.timeout = self.timeout + 1;
        } else {
            self.failed = self.failed + 1;
        }
    }

    /// Success rate as a whole percentage: `100 * success / total`, and `0`
    /// for an empty summary.
    pub fn success_rate(&self) -> (r: u64)
        requires
            self.wf(),
        ensures
            self.total == 0 ==> r == 0,
            self.total > 0 ==> r == 100int * (self.success as int) / (self.total as int),
            r <= 100,
    {
        if self.total == 0 {
            0
        } else {
            let rate = (self.success as u128) * 100 / (self.total as u128);
            assert(self.success <= self.total);
            assert(rate == 100int * (self.success as int) / (self.total as int) && rate <= 100)
                by (nonlinear_arith)
                requires
                    rate == (self.success as int) * 100int / (self.total as int),
                    0 < self.total,
                    self.success <= self.total,
            ;
            rate as u64
        }
    }
}

impl Default for TestSummary {
    fn default() -> (r: Self)
        ensures
            r == TestSummary::spec_empty(),
            r.wf(),
    {
        TestSummary::new()
    }
}

/// Lexicographic order on character sequences, by character value.
pub open spec fn lex_le(a: Seq<char>, b: Seq<char>) -> bool
    decreases a.len(),
{
    if a.len() == 0 {
        true
    } else if b.len() == 0 {
        false
    } else if (a[0] as u32) < (b[0] as u32) {
        true
    } else if (b[0] as u32) < (a[0] as u32) {
        false
    } else {
        lex_le(a.drop_first(), b.drop_first())
    }
}

/// Lexicographic order is total.
pub proof fn lemma_lex_le_total(a: Seq<char>, b: Seq<char>)
    ensures
        lex_le(a, b) || lex_le(b, a),
    decreases a.len(),
{
    if a.len() > 0 && b.len() > 0 && (a[0] as u32) == (b[0] as u32) {
        lemma_lex_le_total(a.drop_first(), b.drop_first());
    }
}

/// Lexicographic order is reflexive.
pub proof fn lemma_lex_le_refl(a: Seq<char>)
    ensures
        lex_le(a, a),
    decreases a.len(),
{
    if a.len() > 0 {
        lemma_lex_le_refl(a.drop_first());
    }
}

/// Two characters with the same code point are the same character.
pub proof fn char_cast_injective(c: char, d: char)
    requires
        c as u32 == d as u32,
    ensures
        c == d,
{
}

/// Lexicographic order is antisymmetric: two sequences each preceding
/// the other are equal.
pub proof fn lemma_lex_le_antisym(a: Seq<char>, b: Seq<char>)
    requires
        lex_le(a, b),
        lex_le(b, a),
    ensures
        a == b,
    decreases a.len(),
{
    if a.len() == 0 {
        assert(b.len() == 0);
        assert(a =~= b);
    } else {
        assert(b.len() > 0);
        assert((a[0] as u32) == (b[0] as u32));
        assert(a[0] == b[0]) by {
            char_cast_injective(a[0], b[0]);
        }
        lemma_lex_le_antisym(a.drop_first(), b.drop_first());
        assert(a =~= seq![a[0]] + a.drop_first());
        assert(b =~= seq![b[0]] + b.drop_first());
    }
}

/// Lexicographic order is transitive.
pub proof fn lemma_lex_le_trans(a: Seq<char>, b: Seq<char>, c: Seq<char>)
    requires
        lex_le(a, b),
        lex_le(b, c),
    ensures
        lex_le(a, c),
    decreases a.len(),
{
    if a.len() > 0 {
        if (a[0] as u32) == (b[0] as u32) && (b[0] as u32) == (c[0] as u32) {
            lemma_lex_le_trans(a.drop_first(), b.drop_first(), c.drop_first());
        }
    }
}

/// Compare two string slices lexicographically.
pub fn str_le(a: &str, b: &str) -> (r: bool)
    ensures
        r == lex_le(a@, b@),
{
    let na = a.unicode_len();
    let nb = b.unicode_len();
    let mut i: usize = 0;
    proof {
        assert(a@.skip(0int) =~= a@);
        assert(b@.skip(0int) =~= b@);
    }
    loop
        invariant
            i <= na,
            i <= nb,
            na == a@.len(),
            nb == b@.len(),
            lex_le(a@, b@) == lex_le(a@.skip(i as int), b@.skip(i as int)),
            lex_le(b@, a@) == lex_le(b@.skip(i as int), a@.skip(i as int)),
        ensures
            i <= na && i <= nb,
            (i == na || i == nb || a@[i as int] != b@[i as int]),
            lex_le(a@, b@) == lex_le(a@.skip(i as int), b@.skip(i as int)),
        decreases na - i,
    {
        if i == na || i == nb {
            break ;
        }
        let ca = a.get_char(i);
        let cb = b.get_char(i);
        if ca != cb {
            break ;
        }
        proof {
            assert(a@.skip(i as int).drop_first() =~= a@.skip(i + 1));
            assert(b@.skip(i as int).drop_first() =~= b@.skip(i + 1));
            assert(a@.skip(i as int)[0] == a@[i as int]);
            assert(b@.skip(i as int)[0] == b@[i as int]);
        }
        i += 1;
    }
    proof {
        assert(a@.skip(i as int).len() == na - i);
        assert(b@.skip(i as int).len() == nb - i);
    }
    if i == na {
        assert(a@.skip(i as int).len() == 0);
        true
    } else if i == nb {
        assert(b@.skip(i as int).len() == 0 && a@.skip(i as int).len() > 0);
        false
    } else {
        let ca = a.get_char(i);
        let cb = b.get_char(i);
        proof {
            assert(a@.skip(i as int)[0] == a@[i as int]);
            assert(b@.skip(i as int)[0] == b@[i as int]);
        }
        (ca as u32) < (cb as u32)
    }
}

/// Compare two string slices for equality, character by character.
pub fn str_eq(a: &str, b: &str) -> (r: bool)
    ensures
        r == (a@ == b@),
{
    let la = a.unicode_len();
    let lb = b.unicode_len();
    if la != lb {
        assert(a@ != b@);
        return false;
    }
    let mut i: usize = 0;
    while i < la
        invariant
            i <= la,
            la == a@.len(),
            la == b@.len(),
            forall|j: int| 0 <= j < i ==> a@[j] == b@[j],
        decreases la - i,
    {
        if a.get_char(i) != b.get_char(i) {
            return false;
        }
        i += 1;
    }
    proof {
        assert(a@ =~= b@);
    }
    true
}

} // verus!
