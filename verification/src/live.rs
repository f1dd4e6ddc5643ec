//! State of the interactive live view.
//!
//! Probing tasks communicate with the view only through progress messages;
//! this module is the single mutator of the presentation state, folding each
//! incoming message in. Key handling is a pure transition from state and
//! key to state and action; drawing and the terminal live outside the
//! library.

use vstd::prelude::*;
use crate::scheduler::ProgressEvent;
use crate::stats::{all_wf, latency_total, summarize_spec};
use crate::speedtest::SpeedTester;
use crate::types::{lemma_lex_le_total, lemma_lex_le_trans, lex_le, str_le, DnsServer, SpeedTestResult};

verus! {

/// Order in which results are listed.
#[derive(Clone, Copy, Debug, PartialEq, Eq, Structural)]
pub enum SortMode {
    /// Fastest first; results without a latency last.
    Latency,
    /// By server name.
    Name,
    /// Successes first.
    Status,
}

/// The screen being shown.
#[derive(Clone, Copy, Debug, PartialEq, Eq, Structural)]
pub enum Screen {
    /// The probing results table.
    SpeedTest,
    /// The pollution check screen.
    PollutionCheck,
    /// The key-binding help screen.
    Help,
}

/// A key press, reduced to the inputs the view reacts to.
#[derive(Clone, Copy, Debug, PartialEq, Eq, Structural)]
pub enum KeyInput {
    /// Interrupt (control-C).
    CtrlC,
    /// Cycle through the tabs.
    Tab,
    /// Jump to the first tab.
    One,
    /// Jump to the second tab.
    Two,
    /// Jump to the third tab.
    Three,
    /// Start a probing run.
    Space,
    /// Move the selection up.
    Up,
    /// Move the selection down.
    Down,
    /// Cycle the sort mode.
    CycleSort,
    /// Quit, or leave the help screen.
    Quit,
    /// Leave the help screen.
    Esc,
    /// Any other key.
    Other,
}

/// What the event loop should do after a key press.
#[derive(Clone, Copy, Debug, PartialEq, Eq, Structural)]
pub enum KeyAction {
    /// Keep running.
    Continue,
    /// Leave the application.
    Quit,
    /// Begin a probing run: the state is reset, the probes are to be
    /// launched.
    StartTest,
}

/// Sort key for latency order: the measured latency, with unmeasured
/// results above every measured one.
pub open spec fn latency_key(r: SpeedTestResult) -> int {
    match r.latency_ms {
        Some(l) => l as int,
        None => u64::MAX as int + 1,
    }
}

/// Sort key for status order: successes first.
pub open spec fn status_key(r: SpeedTestResult) -> int {
    if r.success {
        0
    } else {
        1
    }
}

/// The ordering each sort mode lists results in.
pub open spec fn le_mode(mode: SortMode, a: SpeedTestResult, b: SpeedTestResult) -> bool {
    match mode {
        SortMode::Latency => latency_key(a) <= latency_key(b),
        SortMode::Name => lex_le(a.server.name@, b.server.name@),
        SortMode::Status => status_key(a) <= status_key(b),
    }
}

/// Every mode's ordering is total.
pub proof fn lemma_le_mode_total(mode: SortMode, a: SpeedTestResult, b: SpeedTestResult)
    ensures
        le_mode(mode, a, b) || le_mode(mode, b, a),
{
    if mode is Name {
        lemma_lex_le_total(a.server.name@, b.server.name@);
    }
}

/// Every mode's ordering is transitive.
pub proof fn lemma_le_mode_trans(
    mode: SortMode,
    a: SpeedTestResult,
    b: SpeedTestResult,
    c: SpeedTestResult,
)
    requires
        le_mode(mode, a, b),
        le_mode(mode, b, c),
    ensures
        le_mode(mode, a, c),
{
    if mode is Name {
        lemma_lex_le_trans(a.server.name@, b.server.name@, c.server.name@);
    }
}

/// The sequence is sorted for the mode: every earlier element precedes
/// every later one.
pub open spec fn sorted_by_mode(mode: SortMode, s: Seq<SpeedTestResult>) -> bool {
    forall|a: int, b: int| 0 <= a < b < s.len() ==> le_mode(mode, #[trigger] s[a], #[trigger] s[b])
}

/// Whether `a` precedes `b` for the mode.
pub fn le_results(mode: SortMode, a: &SpeedTestResult, b: &SpeedTestResult) -> (r: bool)
    ensures
        r == le_mode(mode, *a, *b),
{
    match mode {
        SortMode::Latency => {
            let ka: u128 = match a.latency_ms {
                Some(l) => l as u128,
                None => (u64::MAX as u128) + 1,
            };
            let kb: u128 = match b.latency_ms {
                Some(l) => l as u128,
                None => (u64::MAX as u128) + 1,
            };
            ka <= kb
        },
        SortMode::Name => str_le(a.server.name.as_str(), b.server.name.as_str()),
        SortMode::Status => {
            let ka: u8 = if a.success {
                0
            } else {
                1
            };
            let kb: u8 = if b.success {
                0
            } else {
                1
            };
            ka <= kb
        },
    }
}

/// Sort results in place by the mode's ordering; the collection of results
/// is unchanged.
pub fn sort_by_mode(v: &mut Vec<SpeedTestResult>, mode: SortMode)
    ensures
        final(v)@.to_multiset() == old(v)@.to_multiset(),
        final(v)@.len() == old(v)@.len(),
        sorted_by_mode(mode, final(v)@),
{
    let n = v.len();
    if n <= 1 {
        return ;
    }
    let mut i: usize = 1;
    while i < n
        invariant
            1 <= i <= n,
            n == v@.len(),
            v@.to_multiset() == old(v)@.to_multiset(),
            sorted_by_mode(mode, v@.take(i as int)),
        decreases n - i,
    {
        // find where the element at `i` belongs in the sorted prefix
        let mut p: usize = 0;
        while p < i && le_results(mode, &v[p], &v[i])
            invariant
                p <= i < n,
                n == v@.len(),
                forall|k: int| 0 <= k < p ==> le_mode(mode, #[trigger] v@[k], v@[i as int]),
            decreases i - p,
        {
            p += 1;
        }
        if p < i {
            proof {
                lemma_le_mode_total(mode, v@[p as int], v@[i as int]);
            }
            let ghost before = v@;
            let x = v.remove(i);
            v.insert(p, x);
            proof {
                broadcast use vstd::seq_lib::group_to_multiset_ensures;
                broadcast use vstd::seq_lib::to_multiset_insert;

                let after = v@;
                assert(after =~= before.remove(i as int).insert(p as int, x));
                assert(before.contains(x)) by {
                    assert(before[i as int] == x);
                }
                assert(after.to_multiset() =~= before.to_multiset()) by {
                    assert(before.remove(i as int).to_multiset() =~= before.to_multiset().remove(
                        x,
                    ));
                    assert(before.to_multiset().count(x) > 0);
                }
                // element layout after the move
                assert(forall|k: int| 0 <= k < p ==> after[k] == before[k]);
                assert(after[p as int] == x);
                assert(forall|k: int| p < k <= i ==> after[k] == before[k - 1]);
                // the sorted prefix, read off `before` directly
                assert forall|a: int, b: int|
                    0 <= a < b < i implies le_mode(mode, #[trigger] before[a], #[trigger]
                before[b]) by {
                    assert(before.take(i as int)[a] == before[a]);
                    assert(before.take(i as int)[b] == before[b]);
                }
                assert forall|a: int, b: int|
                    0 <= a < b < i + 1 implies le_mode(mode, #[trigger] after[a], #[trigger]
                after[b]) by {
                    if b < p {
                        assert(le_mode(mode, before[a], before[b]));
                    } else if b == p {
                        assert(le_mode(mode, before[a], x));
                    } else if a < p {
                        // a before the moved element, b after it
                        assert(le_mode(mode, before[a], before[b - 1]));
                    } else if a == p {
                        // the moved element precedes everything it jumped over
                        assert(le_mode(mode, x, before[p as int]));
                        if b - 1 == p {
                            assert(after[b] == before[p as int]);
                        } else {
                            assert(le_mode(mode, before[p as int], before[b - 1]));
                            lemma_le_mode_trans(mode, x, before[p as int], before[b - 1]);
                        }
                    } else {
                        assert(le_mode(mode, before[a - 1], before[b - 1]));
                    }
                }
                assert(sorted_by_mode(mode, after.take(i + 1))) by {
                    assert(forall|k: int| 0 <= k < i + 1 ==> after.take(i + 1)[k] == after[k]);
                }
            }
        } else {
            proof {
                assert forall|a: int, b: int|
                    0 <= a < b < i + 1 implies le_mode(mode, #[trigger] v@.take(i + 1)[a],
                    #[trigger] v@.take(i + 1)[b]) by {
                    if b < i {
                        assert(le_mode(mode, v@.take(i as int)[a], v@.take(i as int)[b]));
                    } else {
                        assert(le_mode(mode, v@[a], v@[i as int]));
                    }
                }
            }
        }
        i += 1;
    }
    proof {
        assert(v@.take(n as int) =~= v@);
    }
}

/// State of the live view.
pub struct App {
    /// The targets to probe.
    pub dns_servers: Vec<DnsServer>,
    /// Results received so far, listed in the current sort order.
    pub results: Vec<SpeedTestResult>,
    /// The screen being shown.
    pub current_view: Screen,
    /// Index of the shown tab.
    pub tab_index: usize,
    /// Order in which results are listed.
    pub sort_mode: SortMode,
    /// A probing run is under way.
    pub testing: bool,
    /// Progress counter received so far.
    pub tested_count: usize,
    /// Number of targets in the current run.
    pub total_count: usize,
    /// Index of the selected row.
    pub selected_index: usize,
}

impl App {
    /// Every received result satisfies its structural invariant, and the
    /// tab index points at one of the three tabs.
    pub open spec fn wf(self) -> bool {
        &&& all_wf(self.results@)
        &&& self.tab_index <= 2
    }

    /// A fresh view: speed-test tab, latency order, nothing received.
    pub fn new() -> (r: Self)
        ensures
            r.dns_servers@.len() == 0,
            r.results@.len() == 0,
            r.current_view is SpeedTest,
            r.tab_index == 0,
            r.sort_mode is Latency,
            !r.testing,
            r.tested_count == 0,
            r.total_count == 0,
            r.selected_index == 0,
            r.wf(),
    {
        App {
            dns_servers: Vec::new(),
            results: Vec::new(),
            current_view: Screen::SpeedTest,
            tab_index: 0,
            sort_mode: SortMode::Latency,
            testing: false,
            tested_count: 0,
            total_count: 0,
            selected_index: 0,
        }
    }

    /// Replace the target list.
    pub fn set_dns_servers(&mut self, servers: Vec<DnsServer>)
        ensures
            *final(self) == (App { dns_servers: servers, ..*old(self) }),
    {
        self.dns_servers = servers;
    }

    /// Reset the view for a new probing run over the current targets.
    pub fn begin_test(&mut self)
        requires
            old(self).wf(),
        ensures
            *final(self) == (App {
                results: final(self).results,
                testing: true,
                tested_count: 0,
                selected_index: 0,
                total_count: old(self).dns_servers@.len() as usize,
                ..*old(self)
            }),
            final(self).results@.len() == 0,
            final(self).wf(),
    {
        self.testing = true;
        self.results = Vec::new();
        self.tested_count = 0;
        self.selected_index = 0;
        self.total_count = self.dns_servers.len();
    }

    /// Fold one progress message into the view: a result is inserted in
    /// sort order and counted, a tick updates the progress counter, and the
    /// end of the stream clears the busy state.
    pub fn handle_message(&mut self, msg: ProgressEvent)
        requires
            old(self).wf(),
            (msg matches ProgressEvent::Outcome(o) ==> o.wf()),
            old(self).tested_count < usize::MAX,
        ensures
            final(self).wf(),
            final(self).dns_servers == old(self).dns_servers,
            final(self).current_view == old(self).current_view,
            final(self).tab_index == old(self).tab_index,
            final(self).sort_mode == old(self).sort_mode,
            final(self).total_count == old(self).total_count,
            final(self).selected_index == old(self).selected_index,
            match msg {
                ProgressEvent::Outcome(o) => {
                    &&& final(self).results@.to_multiset() == old(self).results@.to_multiset()
                        .insert(o)
                    &&& sorted_by_mode(final(self).sort_mode, final(self).results@)
                    &&& final(self).tested_count == old(self).tested_count + 1
                    &&& final(self).testing == old(self).testing
                },
                ProgressEvent::Tick { tested, total } => {
                    &&& final(self).results == old(self).results
                    &&& final(self).tested_count == tested
                    &&& final(self).testing == old(self).testing
                },
                ProgressEvent::Done => {
                    &&& final(self).results@.to_multiset() == old(self).results@.to_multiset()
                    &&& sorted_by_mode(final(self).sort_mode, final(self).results@)
                    &&& final(self).tested_count == old(self).tested_count
                    &&& !final(self).testing
                },
            },
    {
        match msg {
            ProgressEvent::Outcome(o) => {
                let ghost pre = self.results@;
                self.results.push(o);
                proof {
                    broadcast use vstd::seq_lib::group_to_multiset_ensures;

                    assert(self.results@.to_multiset() =~= pre.to_multiset().insert(o));
                    assert(all_wf(self.results@)) by {
                        assert(forall|k: int| 0 <= k < pre.len() ==> self.results@[k] == pre[k]);
                    }
                }
                self.tested_count = self.tested_count + 1;
                self.sort_results();
            },
            ProgressEvent::Tick { tested, total } => {
                self.tested_count = tested;
            },
            ProgressEvent::Done => {
                self.testing = false;
                self.sort_results();
            },
        }
    }

    /// Re-sort the results by the current mode.
    pub fn sort_results(&mut self)
        requires
            old(self).wf(),
        ensures
            final(self).wf(),
            final(self).results@.to_multiset() == old(self).results@.to_multiset(),
            sorted_by_mode(final(self).sort_mode, final(self).results@),
            *final(self) == (App {
                results: final(self).results,
                ..*old(self)
            }),
    {
        let ghost pre = self.results@;
        let mode = self.sort_mode;
        sort_by_mode(&mut self.results, mode);
        proof {
            broadcast use vstd::seq_lib::group_to_multiset_ensures;

            assert(all_wf(self.results@)) by {
                assert forall|k: int| 0 <= k < self.results@.len() implies (#[trigger]
                self.results@[k]).wf() by {
                    let x = self.results@[k];
                    assert(self.results@.contains(x));
                    assert(self.results@.to_multiset().count(x) > 0);
                    assert(pre.contains(x));
                    let j = choose|j: int| 0 <= j < pre.len() && pre[j] == x;
                    assert(pre[j].wf());
                }
            }
        }
    }

    /// React to one key press: switch tabs, move the selection, cycle the
    /// sort order, start a run, or quit.
    pub fn handle_key(&mut self, key: KeyInput) -> (action: KeyAction)
        requires
            old(self).wf(),
        ensures
            final(self).wf(),
            final(self).dns_servers == old(self).dns_servers,
            final(self).total_count == old(self).total_count,
            final(self).tested_count == old(self).tested_count,
            match key {
                KeyInput::CtrlC => action is Quit && *final(self) == *old(self),
                KeyInput::Tab => {
                    &&& action is Continue
                    &&& final(self).tab_index == (old(self).tab_index + 1) % 3
                    &&& final(self).current_view == (if final(self).tab_index == 0 {
                        Screen::SpeedTest
                    } else if final(self).tab_index == 1 {
                        Screen::PollutionCheck
                    } else {
                        Screen::Help
                    })
                    &&& final(self).results == old(self).results
                    &&& final(self).sort_mode == old(self).sort_mode
                    &&& final(self).testing == old(self).testing
                    &&& final(self).selected_index == old(self).selected_index
                },
                KeyInput::One => action is Continue && *final(self) == (App {
                    tab_index: 0usize,
                    current_view: Screen::SpeedTest,
                    ..*old(self)
                }),
                KeyInput::Two => action is Continue && *final(self) == (App {
                    tab_index: 1usize,
                    current_view: Screen::PollutionCheck,
                    ..*old(self)
                }),
                KeyInput::Three => action is Continue && *final(self) == (App {
                    tab_index: 2usize,
                    current_view: Screen::Help,
                    ..*old(self)
                }),
                KeyInput::Space => {
                    if old(self).current_view is SpeedTest && !old(self).testing {
                        action is StartTest && *final(self) == *old(self)
                    } else {
                        action is Continue && *final(self) == *old(self)
                    }
                },
                KeyInput::Up => action is Continue && *final(self) == (App {
                    selected_index: (if old(self).selected_index > 0 {
                        (old(self).selected_index - 1) as usize
                    } else {
                        0usize
                    }),
                    ..*old(self)
                }),
                KeyInput::Down => action is Continue && *final(self) == (App {
                    selected_index: (if old(self).selected_index + 1 < old(self).results@.len() {
                        (old(self).selected_index + 1) as usize
                    } else {
                        old(self).selected_index
                    }),
                    ..*old(self)
                }),
                KeyInput::CycleSort => {
                    if old(self).current_view is SpeedTest {
                        &&& action is Continue
                        &&& final(self).sort_mode == (match old(self).sort_mode {
                            SortMode::Latency => SortMode::Name,
                            SortMode::Name => SortMode::Status,
                            SortMode::Status => SortMode::Latency,
                        })
                        &&& final(self).results@.to_multiset() == old(self).results@.to_multiset()
                        &&& sorted_by_mode(final(self).sort_mode, final(self).results@)
                        &&& final(self).testing == old(self).testing
                        &&& final(self).selected_index == old(self).selected_index
                        &&& final(self).current_view == old(self).current_view
                        &&& final(self).tab_index == old(self).tab_index
                    } else {
                        action is Continue && *final(self) == *old(self)
                    }
                },
                KeyInput::Quit => {
                    if old(self).current_view is Help {
                        action is Continue && *final(self) == (App {
                            tab_index: 0usize,
                            current_view: Screen::SpeedTest,
                            ..*old(self)
                        })
                    } else {
                        action is Quit && *final(self) == (App { testing: false, ..*old(self) })
                    }
                },
                KeyInput::Esc => {
                    if old(self).current_view is Help {
                        action is Continue && *final(self) == (App {
                            tab_index: 0usize,
                            current_view: Screen::SpeedTest,
                            ..*old(self)
                        })
                    } else {
                        action is Continue && *final(self) == *old(self)
                    }
                },
                KeyInput::Other => action is Continue && *final(self) == *old(self),
            },
    {
        match key {
            KeyInput::CtrlC => KeyAction::Quit,
            KeyInput::Tab => {
                self.tab_index = (self.tab_index + 1) % 3;
                self.current_view = if self.tab_index == 0 {
                    Screen::SpeedTest
                } else if self.tab_index == 1 {
                    Screen::PollutionCheck
                } else {
                    Screen::Help
                };
                KeyAction::Continue
            },
            KeyInput::One => {
                self.tab_index = 0;
                self.current_view = Screen::SpeedTest;
                KeyAction::Continue
            },
            KeyInput::Two => {
                self.tab_index = 1;
                self.current_view = Screen::PollutionCheck;
                KeyAction::Continue
            },
            KeyInput::Three => {
                self.tab_index = 2;
                self.current_view = Screen::Help;
                KeyAction::Continue
            },
            KeyInput::Space => {
                if matches!(self.current_view, Screen::SpeedTest) && !self.testing {
                    KeyAction::StartTest
                } else {
                    KeyAction::Continue
                }
            },
            KeyInput::Up => {
                if self.selected_index > 0 {
                    self.selected_index = self.selected_index - 1;
                }
                KeyAction::Continue
            },
            KeyInput::Down => {
                let max = if self.results.len() > 0 {
                    self.results.len() - 1
                } else {
                    0
                };
                if self.selected_index < max {
                    self.selected_index = self.selected_index + 1;
                }
                KeyAction::Continue
            },
            KeyInput::CycleSort => {
                if matches!(self.current_view, Screen::SpeedTest) {
                    self.sort_mode = match self.sort_mode {
                        SortMode::Latency => SortMode::Name,
                        SortMode::Name => SortMode::Status,
                        SortMode::Status => SortMode::Latency,
                    };
                    self.sort_results();
                }
                KeyAction::Continue
            },
            KeyInput::Quit => {
                if matches!(self.current_view, Screen::Help) {
                    self.tab_index = 0;
                    self.current_view = Screen::SpeedTest;
                    KeyAction::Continue
                } else {
                    self.testing = false;
                    KeyAction::Quit
                }
            },
            KeyInput::Esc => {
                if matches!(self.current_view, Screen::Help) {
                    self.tab_index = 0;
                    self.current_view = Screen::SpeedTest;
                }
                KeyAction::Continue
            },
            KeyInput::Other => KeyAction::Continue,
        }
    }

    /// Recompute the statistics of the received results from scratch:
    /// total, successes, failures, timeouts, and the mean, smallest and
    /// largest latency. They equal the folded summary's fields.
    pub fn get_stats(&self) -> (r: (
        usize,
        usize,
        usize,
        usize,
        Option<u64>,
        Option<u64>,
        Option<u64>,
    ))
        requires
            self.wf(),
            latency_total(self.results@) <= u64::MAX,
        ensures
            r.0 == summarize_spec(self.results@).total,
            r.1 == summarize_spec(self.results@).success,
            r.2 == summarize_spec(self.results@).failed,
            r.3 == summarize_spec(self.results@).timeout,
            r.4 == summarize_spec(self.results@).avg_latency,
            r.5 == summarize_spec(self.results@).min_latency,
            r.6 == summarize_spec(self.results@).max_latency,
    {
        let s = SpeedTester::summarize(&self.results);
        (s.total, s.success, s.failed, s.timeout, s.avg_latency, s.min_latency, s.max_latency)
    }
}

impl Default for App {
    fn default() -> (r: Self)
        ensures
            r.results@.len() == 0,
            r.dns_servers@.len() == 0,
            r.wf(),
    {
        App::new()
    }
}

} // verus!
