//! Bounded-concurrency scheduling protocol.
//!
//! The scheduler is the decision core of one probing run: it admits at most
//! `limit` probes at a time, records each outcome as an `Outcome` message
//! followed by a progress `Tick`, abandons the rest of the batch when the
//! global deadline fires, and closes the stream with exactly one `Done`.
//! The waiting itself (network, timers) happens outside the library, which
//! drives this machine and forwards the returned messages on the real
//! channel; the ghost event log holds everything ever emitted, in order.

use vstd::prelude::*;
use crate::types::SpeedTestResult;

verus! {

/// A message of the progress stream.
#[derive(Clone, Debug)]
pub enum ProgressEvent {
    /// One target's outcome.
    Outcome(SpeedTestResult),
    /// Progress counter: targets recorded so far, out of the whole batch.
    Tick { tested: usize, total: usize },
    /// End of the stream.
    Done,
}

/// The progress counter a `Tick` carries, or `-1` for other messages.
pub open spec fn tick_value(e: ProgressEvent) -> int {
    match e {
        ProgressEvent::Tick { tested, total } => tested as int,
        _ => -1,
    }
}

/// Shape of the emitted stream: `finished` adjacent `Outcome`/`Tick` pairs,
/// the `k`-th pair carrying the counter `k + 1`, then one `Done` if the
/// stream was closed.
pub open spec fn log_wf(s: Seq<ProgressEvent>, finished: int, total: usize, done: bool) -> bool {
    &&& s.len() == 2 * finished + if done {
        1int
    } else {
        0int
    }
    &&& forall|k: int| 0 <= k < finished ==> (#[trigger] s[2 * k]) is Outcome
    &&& forall|k: int|
        0 <= k < finished ==> (#[trigger] s[2 * k + 1]) == (ProgressEvent::Tick {
            tested: (k + 1) as usize,
            total,
        })
    &&& done ==> s.len() > 0 && s.last() is Done
}

/// State of one probing run.
pub struct Scheduler {
    /// Number of targets in the batch.
    pub total: usize,
    /// Concurrency limit: greatest number of probes in flight at once.
    pub limit: usize,
    /// Probes admitted so far.
    pub started: usize,
    /// Outcomes recorded so far.
    pub finished: usize,
    /// The global deadline fired: the rest of the batch is abandoned and
    /// late results are discarded.
    pub abandoned: bool,
    /// `Done` has been emitted; nothing may follow it.
    pub done_sent: bool,
    /// Everything emitted on the stream so far, in order.
    pub events: Ghost<Seq<ProgressEvent>>,
}

impl Scheduler {
    /// Probes currently in flight.
    pub open spec fn in_flight(self) -> int {
        self.started - self.finished
    }

    /// Machine invariant: the counters are consistent, at most `limit`
    /// probes are in flight, and the emitted stream has the paired shape.
    pub open spec fn wf(self) -> bool {
        &&& self.limit >= 1
        &&& self.finished <= self.started <= self.total
        &&& self.in_flight() <= self.limit
        &&& log_wf(self.events@, self.finished as int, self.total, self.done_sent)
    }

    /// A probe may start: targets remain, a slot is free, and the run is
    /// neither abandoned nor closed.
    pub open spec fn can_start_spec(self) -> bool {
        &&& self.started < self.total
        &&& self.in_flight() < self.limit
        &&& !self.abandoned
        &&& !self.done_sent
    }

    /// The stream may close: every target was recorded, or the deadline
    /// fired; and `Done` was not sent yet.
    pub open spec fn can_finish_spec(self) -> bool {
        &&& !self.done_sent
        &&& (self.abandoned || self.finished == self.total)
    }

    /// Open a run over `total` targets with the given concurrency limit.
    pub fn new(total: usize, limit: usize) -> (r: Self)
        requires
            limit >= 1,
        ensures
            r.wf(),
            r.total == total,
            r.limit == limit,
            r.started == 0,
            r.finished == 0,
            !r.abandoned,
            !r.done_sent,
            r.events@ == Seq::<ProgressEvent>::empty(),
    {
        Scheduler {
            total,
            limit,
            started: 0,
            finished: 0,
            abandoned: false,
            done_sent: false,
            events: Ghost(Seq::empty()),
        }
    }

    /// Whether a probe may start now.
    pub fn can_start(&self) -> (r: bool)
        requires
            self.wf(),
        ensures
            r == self.can_start_spec(),
    {
        self.started < self.total && self.started - self.finished < self.limit && !self.abandoned
            && !self.done_sent
    }

    /// Admit one probe. The bound is never exceeded: afterwards at most
    /// `limit` probes are in flight.
    pub fn start_task(&mut self)
        requires
            old(self).wf(),
            old(self).can_start_spec(),
        ensures
            final(self).wf(),
            final(self).started == old(self).started + 1,
            final(self).finished == old(self).finished,
            final(self).total == old(self).total,
            final(self).limit == old(self).limit,
            final(self).abandoned == old(self).abandoned,
            final(self).done_sent == old(self).done_sent,
            final(self).events@ == old(self).events@,
            final(self).in_flight() <= final(self).limit,
    {
        self.started = self.started + 1;
    }

    /// Record one probe's outcome: emits its `Outcome` message immediately
    /// followed by the `Tick` carrying the grown counter. Nothing is
    /// recorded once the run was abandoned or closed.
    pub fn record_outcome(&mut self, outcome: SpeedTestResult) -> (pair: (
        ProgressEvent,
        ProgressEvent,
    ))
        requires
            old(self).wf(),
            old(self).started > old(self).finished,
            !old(self).abandoned,
            !old(self).done_sent,
        ensures
            final(self).wf(),
            final(self).finished == old(self).finished + 1,
            final(self).started == old(self).started,
            final(self).total == old(self).total,
            final(self).limit == old(self).limit,
            !final(self).abandoned,
            !final(self).done_sent,
            pair.0 == ProgressEvent::Outcome(outcome),
            pair.1 == (ProgressEvent::Tick {
                tested: (old(self).finished + 1) as usize,
                total: old(self).total,
            }),
            final(self).events@ == old(self).events@ + seq![pair.0, pair.1],
    {
        self.finished = self.finished + 1;
        let tick = ProgressEvent::Tick { tested: self.finished, total: self.total };
        let ghost tick_g = tick;
        let out_ev = ProgressEvent::Outcome(outcome);
        let ghost out_g = out_ev;
        proof {
            self.events@ = self.events@ + seq![out_g, tick_g];
        }
        assert(log_wf(self.events@, self.finished as int, self.total, false)) by {
            let s = self.events@;
            let f = self.finished as int;
            assert forall|k: int| 0 <= k < f implies (#[trigger] s[2 * k]) is Outcome by {
                if k < f - 1 {
                    assert(s[2 * k] == old(self).events@[2 * k]);
                }
            }
            assert forall|k: int|
                0 <= k < f implies (#[trigger] s[2 * k + 1]) == (ProgressEvent::Tick {
                tested: (k + 1) as usize,
                total: self.total,
            }) by {
                if k < f - 1 {
                    assert(s[2 * k + 1] == old(self).events@[2 * k + 1]);
                }
            }
        }
        (out_ev, tick)
    }

    /// The global deadline fired: abandon what is still in flight and what
    /// never started. Their late results are discarded; the stream shape is
    /// untouched.
    pub fn deadline_expired(&mut self)
        requires
            old(self).wf(),
            !old(self).done_sent,
        ensures
            final(self).wf(),
            final(self).abandoned,
            final(self).started == old(self).started,
            final(self).finished == old(self).finished,
            final(self).total == old(self).total,
            final(self).limit == old(self).limit,
            final(self).done_sent == old(self).done_sent,
            final(self).events@ == old(self).events@,
    {
        self.abandoned = true;
    }

    /// Whether the stream may close now.
    pub fn can_finish(&self) -> (r: bool)
        requires
            self.wf(),
        ensures
            r == self.can_finish_spec(),
    {
        !self.done_sent && (self.abandoned || self.finished == self.total)
    }

    /// Close the stream: emits the one `Done`, after every pair the run
    /// will ever emit.
    pub fn finish(&mut self) -> (e: ProgressEvent)
        requires
            old(self).wf(),
            old(self).can_finish_spec(),
        ensures
            final(self).wf(),
            final(self).done_sent,
            final(self).started == old(self).started,
            final(self).finished == old(self).finished,
            final(self).total == old(self).total,
            final(self).limit == old(self).limit,
            final(self).abandoned == old(self).abandoned,
            e is Done,
            final(self).events@ == old(self).events@.push(ProgressEvent::Done),
    {
        self.done_sent = true;
        proof {
            self.events@ = self.events@.push(ProgressEvent::Done);
        }
        assert(log_wf(self.events@, self.finished as int, self.total, true)) by {
            let s = self.events@;
            let f = self.finished as int;
            assert forall|k: int| 0 <= k < f implies (#[trigger] s[2 * k]) is Outcome by {
                assert(s[2 * k] == old(self).events@[2 * k]);
            }
            assert forall|k: int|
                0 <= k < f implies (#[trigger] s[2 * k + 1]) == (ProgressEvent::Tick {
                tested: (k + 1) as usize,
                total: self.total,
            }) by {
                assert(s[2 * k + 1] == old(self).events@[2 * k + 1]);
            }
        }
        ProgressEvent::Done
    }
}

/// Number of `Done` messages in a stream.
pub open spec fn count_done(s: Seq<ProgressEvent>) -> int
    decreases s.len(),
{
    if s.len() == 0 {
        0
    } else {
        count_done(s.drop_last()) + if s.last() is Done {
            1int
        } else {
            0int
        }
    }
}

/// A stream with no `Done` element counts zero.
pub proof fn lemma_count_done_none(s: Seq<ProgressEvent>)
    requires
        forall|i: int| 0 <= i < s.len() ==> !(#[trigger] s[i] is Done),
    ensures
        count_done(s) == 0,
    decreases s.len(),
{
    if s.len() > 0 {
        lemma_count_done_none(s.drop_last());
    }
}

/// In a well-formed stream, every position below `2 * finished` holds one
/// of the pairs, never a `Done`; even positions are outcomes, odd ones are
/// ticks carrying the counter of their pair.
pub proof fn lemma_pair_positions(
    s: Seq<ProgressEvent>,
    finished: int,
    total: usize,
    done: bool,
    p: int,
)
    requires
        log_wf(s, finished, total, done),
        0 <= finished,
        0 <= p < 2 * finished,
    ensures
        p % 2 == 0 ==> s[p] is Outcome,
        p % 2 == 1 ==> s[p] == (ProgressEvent::Tick { tested: ((p - 1) / 2 + 1) as usize, total }),
        !(s[p] is Done),
{
    let k = p / 2;
    assert(0 <= k < finished);
    if p % 2 == 0 {
        assert(p == 2 * k);
        assert(s[2 * k] is Outcome);
    } else {
        assert(p == 2 * k + 1);
        assert(k == (p - 1) / 2);
        assert(s[2 * k + 1] == (ProgressEvent::Tick { tested: (k + 1) as usize, total }));
    }
}

/// The stream protocol, stated over everything a run has emitted: at most
/// one `Done`, present exactly when the run was closed, standing after
/// every `Outcome`/`Tick` pair; and the progress counter never decreases
/// along the stream.
pub proof fn lemma_event_stream_wf(s: Scheduler)
    requires
        s.wf(),
    ensures
        count_done(s.events@) == if s.done_sent {
            1int
        } else {
            0int
        },
        s.done_sent ==> s.events@.last() is Done,
        forall|i: int, j: int|
            0 <= i < j < s.events@.len() && #[trigger] s.events@[i] is Tick
                && #[trigger] s.events@[j] is Tick ==> tick_value(s.events@[i]) <= tick_value(
                s.events@[j],
            ),
{
    let ev = s.events@;
    let f = s.finished as int;
    assert forall|i: int| 0 <= i < 2 * f implies !(#[trigger] ev[i] is Done) by {
        lemma_pair_positions(ev, f, s.total, s.done_sent, i);
    }
    if s.done_sent {
        assert(ev.len() == 2 * f + 1);
        assert(ev.drop_last().len() == 2 * f);
        assert forall|i: int| 0 <= i < 2 * f implies !(#[trigger] ev.drop_last()[i] is Done) by {
            assert(ev.drop_last()[i] == ev[i]);
        }
        lemma_count_done_none(ev.drop_last());
        assert(count_done(ev) == 1);
    } else {
        lemma_count_done_none(ev);
    }
    assert forall|i: int, j: int|
        0 <= i < j < ev.len() && #[trigger] ev[i] is Tick && #[trigger] ev[j] is Tick implies
        tick_value(ev[i]) <= tick_value(ev[j]) by {
        assert(i < 2 * f) by {
            if i >= 2 * f {
                assert(s.done_sent && i == 2 * f);
                assert(ev.last() is Done);
            }
        }
        assert(j < 2 * f) by {
            if j >= 2 * f {
                assert(s.done_sent && j == 2 * f);
                assert(ev.last() is Done);
            }
        }
        lemma_pair_positions(ev, f, s.total, s.done_sent, i);
        lemma_pair_positions(ev, f, s.total, s.done_sent, j);
        assert(i % 2 == 1 && j % 2 == 1);
        assert((i - 1) / 2 <= (j - 1) / 2);
    }
}

/// One transition of the scheduling protocol: admitting a probe, recording
/// an outcome, the deadline firing, or closing the stream.
pub open spec fn step(pre: Scheduler, post: Scheduler) -> bool {
    ||| {
        // a probe is admitted
        &&& pre.can_start_spec()
        &&& post == (Scheduler { started: (pre.started + 1) as usize, ..pre })
    }
    ||| {
        // an outcome is recorded and its pair emitted
        &&& pre.started > pre.finished
        &&& !pre.abandoned
        &&& !pre.done_sent
        &&& exists|o: SpeedTestResult|
            post == (Scheduler {
                finished: (pre.finished + 1) as usize,
                events: Ghost(
                    pre.events@ + seq![
                        ProgressEvent::Outcome(o),
                        ProgressEvent::Tick {
                            tested: (pre.finished + 1) as usize,
                            total: pre.total,
                        },
                    ],
                ),
                ..pre
            })
    }
    ||| {
        // the global deadline fires
        &&& !pre.done_sent
        &&& post == (Scheduler { abandoned: true, ..pre })
    }
    ||| {
        // the stream closes
        &&& pre.can_finish_spec()
        &&& post == (Scheduler {
            done_sent: true,
            events: Ghost(pre.events@.push(ProgressEvent::Done)),
            ..pre
        })
    }
}

/// Every protocol transition preserves the machine invariant; in
/// particular, no reachable state has more than `limit` probes in flight.
pub proof fn lemma_step_preserves_wf(pre: Scheduler, post: Scheduler)
    requires
        pre.wf(),
        step(pre, post),
    ensures
        post.wf(),
        post.in_flight() <= post.limit,
{
    if pre.started > pre.finished && !pre.abandoned && !pre.done_sent && exists|o: SpeedTestResult|
        post == (Scheduler {
            finished: (pre.finished + 1) as usize,
            events: Ghost(
                pre.events@ + seq![
                    ProgressEvent::Outcome(o),
                    ProgressEvent::Tick { tested: (pre.finished + 1) as usize, total: pre.total },
                ],
            ),
            ..pre
        }) {
        let o = choose|o: SpeedTestResult|
            post == (Scheduler {
                finished: (pre.finished + 1) as usize,
                events: Ghost(
                    pre.events@ + seq![
                        ProgressEvent::Outcome(o),
                        ProgressEvent::Tick {
                            tested: (pre.finished + 1) as usize,
                            total: pre.total,
                        },
                    ],
                ),
                ..pre
            });
        let s = post.events@;
        let f = post.finished as int;
        assert(log_wf(s, f, post.total, false)) by {
            assert forall|k: int| 0 <= k < f implies (#[trigger] s[2 * k]) is Outcome by {
                if k < f - 1 {
                    assert(s[2 * k] == pre.events@[2 * k]);
                }
            }
            assert forall|k: int|
                0 <= k < f implies (#[trigger] s[2 * k + 1]) == (ProgressEvent::Tick {
                tested: (k + 1) as usize,
                total: post.total,
            }) by {
                if k < f - 1 {
                    assert(s[2 * k + 1] == pre.events@[2 * k + 1]);
                }
            }
        }
    } else if !pre.done_sent && post == (Scheduler { done_sent: true, events: Ghost(
        pre.events@.push(ProgressEvent::Done),
    ), ..pre }) && pre.can_finish_spec() {
        let s = post.events@;
        let f = post.finished as int;
        assert(log_wf(s, f, post.total, true)) by {
            assert forall|k: int| 0 <= k < f implies (#[trigger] s[2 * k]) is Outcome by {
                assert(s[2 * k] == pre.events@[2 * k]);
            }
            assert forall|k: int|
                0 <= k < f implies (#[trigger] s[2 * k + 1]) == (ProgressEvent::Tick {
                tested: (k + 1) as usize,
                total: post.total,
            }) by {
                assert(s[2 * k + 1] == pre.events@[2 * k + 1]);
            }
        }
    }
}

/// Along any run of the protocol from a fresh state, every reached state
/// keeps the invariant, so the concurrency bound holds throughout.
/// Along a run of the protocol, the state reached after `i` transitions
/// keeps the invariant.
pub proof fn lemma_run_wf_at(tr: Seq<Scheduler>, i: int)
    requires
        tr.len() > 0,
        tr[0].wf(),
        forall|j: int| 0 <= j < tr.len() - 1 ==> step(#[trigger] tr[j], tr[j + 1]),
        0 <= i < tr.len(),
    ensures
        tr[i].wf(),
    decreases i,
{
    if i > 0 {
        lemma_run_wf_at(tr, i - 1);
        assert(step(tr[i - 1], tr[i]));
        lemma_step_preserves_wf(tr[i - 1], tr[i]);
    }
}

/// Along any run of the protocol from a fresh state, every reached state
/// keeps the invariant, so the concurrency bound holds throughout.
pub proof fn lemma_run_bounded(tr: Seq<Scheduler>)
    requires
        tr.len() > 0,
        tr[0].wf(),
        forall|i: int| 0 <= i < tr.len() - 1 ==> step(#[trigger] tr[i], tr[i + 1]),
    ensures
        forall|i: int| 0 <= i < tr.len() ==> (#[trigger] tr[i]).wf(),
        forall|i: int| 0 <= i < tr.len() ==> (#[trigger] tr[i]).in_flight() <= tr[i].limit,
{
    assert forall|i: int| 0 <= i < tr.len() implies (#[trigger] tr[i]).wf() by {
        lemma_run_wf_at(tr, i);
    }
}

/// The outcomes carried by a stream, in emission order.
pub open spec fn outcomes_of(s: Seq<ProgressEvent>) -> Seq<SpeedTestResult>
    decreases s.len(),
{
    if s.len() == 0 {
        Seq::<SpeedTestResult>::empty()
    } else {
        outcomes_of(s.drop_last()) + match s.last() {
            ProgressEvent::Outcome(o) => seq![o],
            _ => Seq::<SpeedTestResult>::empty(),
        }
    }
}

/// Extract the outcomes a drained stream delivered, in order.
pub fn collect_outcomes(events: Vec<ProgressEvent>) -> (r: Vec<SpeedTestResult>)
    ensures
        r@ == outcomes_of(events@),
{
    let ghost orig = events@;
    let mut rest = events;
    let mut rev: Vec<SpeedTestResult> = Vec::new();
    loop
        invariant
            outcomes_of(orig) == outcomes_of(rest@) + rev@.reverse(),
        ensures
            rest@.len() == 0,
        decreases rest@.len(),
    {
        let ghost pre = rest@;
        match rest.pop() {
            Some(e) => {
                proof {
                    assert(pre.drop_last() =~= rest@);
                }
                match e {
                    ProgressEvent::Outcome(o) => {
                        rev.push(o);
                        proof {
                            assert(rev@.reverse() =~= seq![rev@.last()] + rev@.drop_last().reverse());
                            assert(outcomes_of(orig) =~= outcomes_of(rest@) + rev@.reverse());
                        }
                    },
                    _ => {
                        proof {
                            assert(outcomes_of(pre) =~= outcomes_of(rest@));
                        }
                    },
                }
            },
            None => {
                break ;
            },
        }
    }
    proof {
        assert(outcomes_of(orig) =~= rev@.reverse());
    }
    let mut out: Vec<SpeedTestResult> = Vec::new();
    loop
        invariant
            out@ + rev@.reverse() == outcomes_of(orig),
        ensures
            rev@.len() == 0,
        decreases rev@.len(),
    {
        let ghost pre = rev@;
        match rev.pop() {
            Some(o) => {
                out.push(o);
                proof {
                    assert(pre.reverse() =~= seq![pre.last()] + pre.drop_last().reverse());
                    assert(pre.drop_last() =~= rev@);
                    assert(out@ + rev@.reverse() =~= outcomes_of(orig));
                }
            },
            None => {
                break ;
            },
        }
    }
    proof {
        assert(out@ =~= outcomes_of(orig));
    }
    out
}

} // verus!
