//! Probe computation: turning the per-attempt measurements of one target
//! into an outcome, and folding a batch of outcomes into a summary.
//!
//! The echo requests themselves are network I/O and live outside the
//! library; they hand back one latency per successful attempt.

use vstd::prelude::*;
use crate::ip::{spec_parse_ip, IpAddress};
use crate::stats::{all_wf, latency_total, latency_weight, lemma_summarize_props,
    lemma_weighted_sum_nonneg, lemma_weighted_sum_take_le, summarize_spec, weighted_sum};
use crate::types::{DnsServer, SpeedTestResult, TestSummary};

verus! {

/// Default per-attempt timeout, in milliseconds.
pub const DEFAULT_TIMEOUT_MS: u64 = 5000;

/// Default number of echo attempts per target.
pub const DEFAULT_PING_COUNT: usize = 3;

/// Probe settings: how long to wait for each attempt, and how many attempts
/// to make per target.
#[derive(Clone, Copy, Debug)]
pub struct SpeedTester {
    /// Per-attempt timeout in milliseconds.
    pub timeout_ms: u64,
    /// Number of echo attempts per target.
    pub ping_count: usize,
}

/// Sum of a sequence of latencies, in order.
pub open spec fn lat_sum(ls: Seq<u64>) -> int
    decreases ls.len(),
{
    if ls.len() == 0 {
        0
    } else {
        lat_sum(ls.drop_last()) + ls.last()
    }
}

/// A prefix sum of latencies never exceeds the whole sum.
pub proof fn lemma_lat_sum_take_le(ls: Seq<u64>, k: int)
    requires
        0 <= k <= ls.len(),
    ensures
        0 <= lat_sum(ls.take(k)) <= lat_sum(ls),
    decreases ls.len(),
{
    if k == ls.len() {
        assert(ls.take(k) =~= ls);
        if ls.len() > 0 {
            lemma_lat_sum_take_le(ls.drop_last(), ls.len() - 1);
            assert(ls.drop_last().take(ls.len() - 1) =~= ls.drop_last());
        }
    } else {
        assert(ls.drop_last().take(k) =~= ls.take(k));
        lemma_lat_sum_take_le(ls.drop_last(), k);
    }
}

impl SpeedTester {
    /// Default settings.
    pub fn new() -> (r: Self)
        ensures
            r.timeout_ms == DEFAULT_TIMEOUT_MS,
            r.ping_count == DEFAULT_PING_COUNT,
            r.wf(),
    {
        SpeedTester { timeout_ms: DEFAULT_TIMEOUT_MS, ping_count: DEFAULT_PING_COUNT }
    }

    /// Custom settings: at least one attempt, and a positive timeout.
    pub fn with_settings(timeout_ms: u64, ping_count: usize) -> (r: Self)
        requires
            timeout_ms > 0,
            ping_count >= 1,
        ensures
            r.timeout_ms == timeout_ms,
            r.ping_count == ping_count,
            r.wf(),
    {
        SpeedTester { timeout_ms, ping_count }
    }

    /// Settings invariant: at least one attempt, positive timeout.
    pub open spec fn wf(self) -> bool {
        self.timeout_ms > 0 && self.ping_count >= 1
    }

    /// Decide whether a target can be probed at all: a target whose address
    /// is no IP literal is rejected outright, and IPv6 targets are rejected
    /// as unsupported; only an IPv4 address reaches the network.
    pub fn classify_target(server: &DnsServer) -> (r: Result<IpAddress, SpeedTestResult>)
        ensures
            r is Ok <==> (spec_parse_ip(server.ip@) matches Some(a) && a is V4),
            r matches Ok(ip) ==> spec_parse_ip(server.ip@) == Some(ip),
            r matches Err(out) ==> !out.success && out.wf() && out.server == *server
                && out.packet_loss == 1000 && (if spec_parse_ip(server.ip@) is None {
                out.error->Some_0@ == "invalid address"@
            } else {
                out.error->Some_0@ == "address family unsupported"@
            }),
    {
        match server.ip_addr() {
            None => Err(SpeedTestResult::failure(server.clone_server(), "invalid address")),
            Some(addr) => {
                if addr.is_ipv6() {
                    Err(
                        SpeedTestResult::failure(
                            server.clone_server(),
                            "address family unsupported",
                        ),
                    )
                } else {
                    Ok(addr)
                }
            },
        }
    }

    /// Turn the successful attempt latencies of one probe into its outcome.
    ///
    /// With no successful attempt the probe is a timeout with full loss;
    /// otherwise the latency is the arithmetic mean of the successful
    /// attempts and the loss is the per-mille share of lost attempts.
    pub fn outcome_from_attempts(&self, server: DnsServer, latencies: &Vec<u64>) -> (r:
        SpeedTestResult)
        requires
            self.wf(),
            latencies@.len() <= self.ping_count,
            lat_sum(latencies@) <= u64::MAX,
        ensures
            r.server == server,
            r.wf(),
            latencies@.len() == 0 ==> !r.success && r.error->Some_0@ == "timeout"@
                && r.packet_loss == 1000,
            latencies@.len() > 0 ==> r.success && r.latency_ms == Some(
                (lat_sum(latencies@) / (latencies@.len() as int)) as u64,
            ) && r.packet_loss == 1000int * (self.ping_count - latencies@.len()) as int
                / (self.ping_count as int),
    {
        let n = latencies.len();
        if n == 0 {
            SpeedTestResult::failure(server, "timeout")
        } else {
            let mut sum: u64 = 0;
            let mut i: usize = 0;
            proof {
                assert(latencies@.take(0int) =~= Seq::<u64>::empty());
            }
            while i < n
                invariant
                    i <= n,
                    n == latencies@.len(),
                    lat_sum(latencies@) <= u64::MAX,
                    sum == lat_sum(latencies@.take(i as int)),
                decreases n - i,
            {
                proof {
                    lemma_lat_sum_take_le(latencies@, i + 1);
                    assert(latencies@.take(i + 1).drop_last() =~= latencies@.take(i as int));
                    assert(latencies@.take(i + 1).last() == latencies@[i as int]);
                }
                sum = sum + latencies[i];
                i += 1;
            }
            proof {
                assert(latencies@.take(n as int) =~= latencies@);
            }
            let avg: u64 = sum / (n as u64);
            let lost: usize = self.ping_count - n;
            let loss128: u128 = (lost as u128) * 1000 / (self.ping_count as u128);
            proof {
                assert(loss128 == 1000int * (self.ping_count - latencies@.len()) as int / (
                self.ping_count as int) && loss128 <= 1000) by (nonlinear_arith)
                    requires
                        loss128 == (lost as int) * 1000int / (self.ping_count as int),
                        lost == self.ping_count - latencies@.len(),
                        latencies@.len() <= self.ping_count,
                        self.ping_count >= 1,
                ;
            }
            let loss: u32 = loss128 as u32;
            SpeedTestResult::success(server, avg, loss)
        }
    }

    /// Fold a batch of outcomes into summary statistics.
    pub fn summarize(results: &Vec<SpeedTestResult>) -> (r: TestSummary)
        requires
            all_wf(results@),
            latency_total(results@) <= u64::MAX,
        ensures
            r == summarize_spec(results@),
            r.wf(),
            r.total == results@.len(),
    {
        let ghost latf = |rr: SpeedTestResult| latency_weight(rr);
        let mut summary = TestSummary::new();
        let mut i: usize = 0;
        proof {
            assert(results@.take(0int) =~= Seq::<SpeedTestResult>::empty());
            lemma_weighted_sum_nonneg(results@, latf);
        }
        while i < results.len()
            invariant
                i <= results@.len(),
                all_wf(results@),
                latency_total(results@) <= u64::MAX,
                summary == summarize_spec(results@.take(i as int)),
                summary.wf(),
                summary.total == i,
                summary.latency_sum == weighted_sum(results@.take(i as int), latf),
                latf == (|rr: SpeedTestResult| latency_weight(rr)),
            decreases results@.len() - i,
        {
            proof {
                lemma_weighted_sum_take_le(results@, latf, i + 1);
                lemma_weighted_sum_nonneg(results@.take(i as int), latf);
                assert(results@.take(i + 1).drop_last() =~= results@.take(i as int));
                assert(results@.take(i + 1).last() == results@[i as int]);
                assert(results@[i as int].wf());
            }
            summary.add_result(&results[i]);
            i += 1;
        }
        proof {
            assert(results@.take(results@.len() as int) =~= results@);
            lemma_summarize_props(results@);
        }
        summary
    }
}

impl Default for SpeedTester {
    fn default() -> (r: Self)
        ensures
            r.timeout_ms == DEFAULT_TIMEOUT_MS,
            r.ping_count == DEFAULT_PING_COUNT,
            r.wf(),
    {
        SpeedTester::new()
    }
}

} // verus!
