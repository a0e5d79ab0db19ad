//! The scan as a state machine: which attempt comes next, and what each
//! outcome does to the result.

use vstd::prelude::*;
use crate::error::SpecParseError;
use crate::options::RangeOptions;
use crate::bridge::parsed_terms;
use crate::parse::{parse, parse_outcome};
use crate::portset::PortSet;
use crate::probe::{Mode, ProbeOutcome};
use crate::serialize::{is_range_text, serialize};

verus! {

/// Where a scan stands.
#[derive(Clone, Copy, Debug, PartialEq, Eq, Structural)]
pub enum Phase {
    /// Ports are left to bind or connect to.
    Probing,
    /// Listen mode: bound listeners are left to accept on.
    ListenAccepting,
    /// Every attempt is over; the result waits to be reported.
    Reporting,
    /// The result was reported.
    Done,
}

/// What the driver has to do next.
#[derive(Clone, Copy, Debug, PartialEq, Eq, Structural)]
pub enum Action {
    /// Bind a listener to `port` and keep it.
    Bind { port: u16 },
    /// Connect to `port`, giving up after `timeout_ms` milliseconds.
    Connect { port: u16, timeout_ms: u64 },
    /// Wait for one peer on the listener bound to `port`.
    Accept { port: u16 },
    /// Take the report.
    Report,
    /// Nothing is left to do.
    Stop,
}

/// The state of a scan as a mathematical value.
pub struct ScanState {
    pub mode: Mode,
    pub phase: Phase,
    /// The ports to scan, in scan order.
    pub ports: Seq<u16>,
    /// Position of the next attempt: in `ports` while probing, in
    /// `succeeded` while accepting.
    pub cursor: int,
    pub succeeded: Seq<u16>,
    pub failed: Seq<u16>,
    pub accepted: Seq<u16>,
}

/// `left` and `right` split the values of `all` between them.
pub open spec fn is_partition(all: Seq<u16>, left: Seq<u16>, right: Seq<u16>) -> bool {
    &&& forall|v: u16| #[trigger] all.contains(v) <==> (left.contains(v) || right.contains(v))
    &&& forall|v: u16| !(#[trigger] left.contains(v) && right.contains(v))
}

/// Every value of `part` is a value of `whole`.
pub open spec fn is_subset(part: Seq<u16>, whole: Seq<u16>) -> bool {
    forall|v: u16| #[trigger] part.contains(v) ==> whole.contains(v)
}

impl ScanState {
    /// The state before the first attempt.
    pub open spec fn initial(mode: Mode, ports: Seq<u16>) -> ScanState {
        ScanState {
            mode,
            phase: if ports.len() > 0 {
                Phase::Probing
            } else {
                Phase::Reporting
            },
            ports,
            cursor: 0,
            succeeded: Seq::empty(),
            failed: Seq::empty(),
            accepted: Seq::empty(),
        }
    }

    /// What holds of every state that a scan reaches.
    pub open spec fn wf(self) -> bool {
        &&& self.ports.no_duplicates()
        &&& self.succeeded.no_duplicates()
        &&& self.failed.no_duplicates()
        &&& self.accepted.no_duplicates()
        &&& is_subset(self.accepted, self.succeeded)
        &&& self.mode != Mode::Listen ==> self.accepted.len() == 0
        &&& match self.phase {
            Phase::Probing => {
                &&& 0 <= self.cursor < self.ports.len()
                &&& is_partition(self.ports.take(self.cursor), self.succeeded, self.failed)
                &&& self.accepted.len() == 0
            },
            Phase::ListenAccepting => {
                &&& self.mode == Mode::Listen
                &&& 0 <= self.cursor < self.succeeded.len()
                &&& is_partition(self.ports, self.succeeded, self.failed)
                &&& is_subset(self.accepted, self.succeeded.take(self.cursor))
            },
            Phase::Reporting | Phase::Done => {
                &&& self.cursor == 0
                &&& is_partition(self.ports, self.succeeded, self.failed)
            },
        }
    }

    /// The attempt that the state asks for.
    pub open spec fn next_action(self) -> Action {
        match self.phase {
            Phase::Probing => match self.mode {
                Mode::Listen => Action::Bind { port: self.ports[self.cursor] },
                Mode::Connect { timeout_ms } => Action::Connect {
                    port: self.ports[self.cursor],
                    timeout_ms,
                },
            },
            Phase::ListenAccepting => Action::Accept { port: self.succeeded[self.cursor] },
            Phase::Reporting => Action::Report,
            Phase::Done => Action::Stop,
        }
    }

    /// The state once the last port is probed: listen mode goes on to accept
    /// on the bound listeners, if there is one; otherwise the result is ready.
    pub open spec fn after_probing(self) -> ScanState {
        ScanState {
            phase: if self.mode == Mode::Listen && self.succeeded.len() > 0 {
                Phase::ListenAccepting
            } else {
                Phase::Reporting
            },
            cursor: 0,
            ..self
        }
    }

    /// The state after the pending attempt ended with `outcome`. While
    /// probing, the port goes to `succeeded` or `failed`; while accepting, a
    /// success adds the port to `accepted`. Later outcomes change nothing.
    pub open spec fn step(self, outcome: ProbeOutcome) -> ScanState {
        match self.phase {
            Phase::Probing => {
                let port = self.ports[self.cursor];
                let recorded = if outcome == ProbeOutcome::Success {
                    ScanState {
                        succeeded: self.succeeded.push(port),
                        cursor: self.cursor + 1,
                        ..self
                    }
                } else {
                    ScanState { failed: self.failed.push(port), cursor: self.cursor + 1, ..self }
                };
                if recorded.cursor < self.ports.len() {
                    recorded
                } else {
                    recorded.after_probing()
                }
            },
            Phase::ListenAccepting => {
                let port = self.succeeded[self.cursor];
                let recorded = ScanState {
                    accepted: if outcome == ProbeOutcome::Success {
                        self.accepted.push(port)
                    } else {
                        self.accepted
                    },
                    cursor: self.cursor + 1,
                    ..self
                };
                if recorded.cursor < self.succeeded.len() {
                    recorded
                } else {
                    ScanState { phase: Phase::Reporting, cursor: 0, ..recorded }
                }
            },
            Phase::Reporting | Phase::Done => self,
        }
    }

    /// The state after the report was taken.
    pub open spec fn reported(self) -> ScanState {
        if self.phase == Phase::Reporting {
            ScanState { phase: Phase::Done, ..self }
        } else {
            self
        }
    }
}

/// A value that is pushed onto a sequence is a member afterwards, and the
/// old members stay.
proof fn lemma_push_contains(s: Seq<u16>, x: u16)
    ensures
        forall|v: u16| #[trigger] s.push(x).contains(v) <==> (s.contains(v) || v == x),
        s.no_duplicates() && !s.contains(x) ==> s.push(x).no_duplicates(),
{
    assert forall|v: u16| #[trigger] s.push(x).contains(v) <==> (s.contains(v) || v == x) by {
        if s.contains(v) {
            let i = choose|i: int| 0 <= i < s.len() && s[i] == v;
            assert(s.push(x)[i] == v);
        }
        if v == x {
            assert(s.push(x)[s.len() as int] == v);
        }
    }
}

/// The members of a prefix that is one longer.
proof fn lemma_take_next(s: Seq<u16>, n: int)
    requires
        0 <= n < s.len(),
    ensures
        forall|v: u16| #[trigger] s.take(n + 1).contains(v) <==> (s.take(n).contains(v) || v == s[n]),
        s.no_duplicates() ==> !s.take(n).contains(s[n]),
        s.take(s.len() as int) == s,
{
    assert(s.take(n + 1) =~= s.take(n).push(s[n]));
    lemma_push_contains(s.take(n), s[n]);
    assert(s.take(s.len() as int) =~= s);
    if s.no_duplicates() && s.take(n).contains(s[n]) {
        let i = choose|i: int| 0 <= i < n && s.take(n)[i] == s[n];
        assert(s[i] == s[n]);
    }
}

/// A scan starts in a well-formed state.
pub proof fn lemma_initial_wf(mode: Mode, ports: Seq<u16>)
    requires
        ports.no_duplicates(),
    ensures
        ScanState::initial(mode, ports).wf(),
{
    let s = ScanState::initial(mode, ports);
    assert(ports.take(0) =~= Seq::<u16>::empty());
    if ports.len() == 0 {
        assert forall|v: u16| !ports.contains(v) by {}
    }
}

/// Every outcome leads from a well-formed state to a well-formed state.
pub proof fn lemma_step_wf(s: ScanState, outcome: ProbeOutcome)
    requires
        s.wf(),
    ensures
        s.step(outcome).wf(),
{
    let t = s.step(outcome);
    match s.phase {
        Phase::Probing => {
            let port = s.ports[s.cursor];
            lemma_take_next(s.ports, s.cursor);
            lemma_push_contains(s.succeeded, port);
            lemma_push_contains(s.failed, port);
            assert(!s.succeeded.contains(port) && !s.failed.contains(port));
            assert(t.succeeded.take(0) =~= Seq::<u16>::empty());
            assert(is_partition(s.ports.take(s.cursor + 1), t.succeeded, t.failed));
        },
        Phase::ListenAccepting => {
            let port = s.succeeded[s.cursor];
            lemma_take_next(s.succeeded, s.cursor);
            lemma_push_contains(s.accepted, port);
            assert(s.succeeded.contains(port));
            if s.accepted.contains(port) {
                assert(s.succeeded.take(s.cursor).contains(port));
            }
        },
        Phase::Reporting | Phase::Done => {},
    }
}

/// The state that a scan reaches from `start` when its attempts end with
/// `outcomes`, in order.
pub open spec fn run(start: ScanState, outcomes: Seq<ProbeOutcome>) -> ScanState
    decreases outcomes.len(),
{
    if outcomes.len() == 0 {
        start
    } else {
        run(start, outcomes.drop_last()).step(outcomes.last())
    }
}

/// Whatever the outcomes are, a scan of distinct ports stays in a
/// well-formed state.
pub proof fn lemma_run_wf(mode: Mode, ports: Seq<u16>, outcomes: Seq<ProbeOutcome>)
    requires
        ports.no_duplicates(),
    ensures
        run(ScanState::initial(mode, ports), outcomes).wf(),
    decreases outcomes.len(),
{
    if outcomes.len() == 0 {
        lemma_initial_wf(mode, ports);
    } else {
        lemma_run_wf(mode, ports, outcomes.drop_last());
        lemma_step_wf(run(ScanState::initial(mode, ports), outcomes.drop_last()), outcomes.last());
    }
}

/// Ports are probed one at a time in their order, and each is judged by its
/// own attempt: after the first attempts ended with `outcomes`, the port at
/// position `i` is in `succeeded` exactly if attempt `i` succeeded, and in
/// `failed` exactly if it failed.
pub proof fn lemma_probed_by_own_attempt(mode: Mode, ports: Seq<u16>, outcomes: Seq<ProbeOutcome>)
    requires
        ports.no_duplicates(),
        outcomes.len() <= ports.len(),
    ensures
        ({
            let reached = run(ScanState::initial(mode, ports), outcomes);
            &&& reached.ports == ports
            &&& reached.mode == mode
            &&& outcomes.len() < ports.len() ==> reached.phase == Phase::Probing && reached.cursor
                == outcomes.len()
            &&& forall|i: int|
                0 <= i < outcomes.len() ==> (reached.succeeded.contains(#[trigger] ports[i])
                    <==> outcomes[i] == ProbeOutcome::Success)
            &&& forall|i: int|
                0 <= i < outcomes.len() ==> (reached.failed.contains(#[trigger] ports[i])
                    <==> outcomes[i] == ProbeOutcome::Failure)
        }),
    decreases outcomes.len(),
{
    let start = ScanState::initial(mode, ports);
    if outcomes.len() > 0 {
        let k = outcomes.len() - 1;
        let earlier = outcomes.drop_last();
        let before = run(start, earlier);
        let reached = run(start, outcomes);
        lemma_probed_by_own_attempt(mode, ports, earlier);
        lemma_run_wf(mode, ports, earlier);
        let port = ports[k];
        assert(reached == before.step(outcomes[k]));
        lemma_take_next(ports, k);
        lemma_push_contains(before.succeeded, port);
        lemma_push_contains(before.failed, port);
        assert(!before.succeeded.contains(port) && !before.failed.contains(port));
        assert forall|i: int| 0 <= i < outcomes.len() implies (reached.succeeded.contains(
            #[trigger] ports[i],
        ) <==> outcomes[i] == ProbeOutcome::Success) && (reached.failed.contains(ports[i])
            <==> outcomes[i] == ProbeOutcome::Failure) by {
            if i < k {
                assert(earlier[i] == outcomes[i]);
                assert(ports[i] != port);
            }
        }
    }
}

/// Once every port is probed, each port of the input is in exactly one of
/// `succeeded` and `failed`, and they hold nothing else.
pub proof fn lemma_partition_complete(s: ScanState)
    requires
        s.wf(),
        s.phase != Phase::Probing,
    ensures
        s.succeeded.to_set().union(s.failed.to_set()) == s.ports.to_set(),
        s.succeeded.to_set().disjoint(s.failed.to_set()),
{
    assert(s.succeeded.to_set().union(s.failed.to_set()) =~= s.ports.to_set());
}

/// While ports are left to probe, `succeeded` and `failed` split the ports
/// probed so far.
pub proof fn lemma_partition_so_far(s: ScanState)
    requires
        s.wf(),
        s.phase == Phase::Probing,
    ensures
        s.succeeded.to_set().union(s.failed.to_set()) == s.ports.take(s.cursor).to_set(),
        s.succeeded.to_set().disjoint(s.failed.to_set()),
{
    assert(s.succeeded.to_set().union(s.failed.to_set()) =~= s.ports.take(s.cursor).to_set());
}

/// A port is accepted only if it was bound: `accepted` is a subset of
/// `succeeded`, and empty outside listen mode.
pub proof fn lemma_accepted_subset(s: ScanState)
    requires
        s.wf(),
    ensures
        s.accepted.to_set().subset_of(s.succeeded.to_set()),
        s.mode != Mode::Listen ==> s.accepted.to_set() == Set::<u16>::empty(),
{
    if s.mode != Mode::Listen {
        assert(s.accepted.to_set() =~= Set::<u16>::empty());
    }
}

/// The range texts of a finished scan.
#[derive(Debug)]
pub struct ScanReport {
    /// The ports whose bind or connect succeeded.
    pub succeeded: String,
    /// The ports whose bind or connect failed.
    pub failed: String,
    /// Listen mode: the ports on which a peer was accepted.
    pub accepted: Option<String>,
}

/// A scan in progress.
#[derive(Debug)]
pub struct Scan {
    mode: Mode,
    phase: Phase,
    ports: PortSet,
    cursor: usize,
    succeeded: PortSet,
    failed: PortSet,
    accepted: PortSet,
}

impl View for Scan {
    type V = ScanState;

    closed spec fn view(&self) -> ScanState {
        ScanState {
            mode: self.mode,
            phase: self.phase,
            ports: self.ports@,
            cursor: self.cursor as int,
            succeeded: self.succeeded@,
            failed: self.failed@,
            accepted: self.accepted@,
        }
    }
}

impl Scan {
    /// The scan is in a state that a scan can reach.
    pub open spec fn wf(&self) -> bool {
        self@.wf()
    }

    /// Starts a scan of `ports`.
    pub fn begin(mode: Mode, ports: PortSet) -> (scan: Scan)
        requires
            ports.wf(),
        ensures
            scan.wf(),
            scan@ == ScanState::initial(mode, ports@),
    {
        proof {
            lemma_initial_wf(mode, ports@);
        }
        let phase = if ports.len() > 0 {
            Phase::Probing
        } else {
            Phase::Reporting
        };
        Scan {
            mode,
            phase,
            ports,
            cursor: 0,
            succeeded: PortSet::new(),
            failed: PortSet::new(),
            accepted: PortSet::new(),
        }
    }

    /// Parses the port range text and starts a scan of the ports it
    /// names. A text that is refused starts no scan.
    pub fn start(mode: Mode, options: &RangeOptions, text: &str) -> (res: Result<Scan, SpecParseError>)
        ensures
            match parse_outcome(*options, text@, parsed_terms(*options, text@)) {
                Ok(ports) => res is Ok && res->Ok_0.wf() && res->Ok_0@ == ScanState::initial(
                    mode,
                    ports,
                ),
                Err(fault) => res is Err && res->Err_0 == fault,
            },
    {
        match parse(options, text) {
            Ok(ports) => Ok(Scan::begin(mode, ports)),
            Err(fault) => Err(fault),
        }
    }

    /// The mode of the scan.
    pub fn mode(&self) -> (mode: Mode)
        ensures
            mode == self@.mode,
    {
        self.mode
    }

    /// Where the scan stands.
    pub fn phase(&self) -> (phase: Phase)
        ensures
            phase == self@.phase,
    {
        self.phase
    }

    /// The ports that the scan was started on.
    pub fn ports(&self) -> (set: &PortSet)
        ensures
            set@ == self@.ports,
    {
        &self.ports
    }

    /// The ports whose bind or connect succeeded so far.
    pub fn succeeded(&self) -> (set: &PortSet)
        ensures
            set@ == self@.succeeded,
    {
        &self.succeeded
    }

    /// The ports whose bind or connect failed so far.
    pub fn failed(&self) -> (set: &PortSet)
        ensures
            set@ == self@.failed,
    {
        &self.failed
    }

    /// The ports on which a peer was accepted so far.
    pub fn accepted(&self) -> (set: &PortSet)
        ensures
            set@ == self@.accepted,
    {
        &self.accepted
    }

    /// What the driver has to do next.
    pub fn next_action(&self) -> (action: Action)
        requires
            self.wf(),
        ensures
            action == self@.next_action(),
    {
        match self.phase {
            Phase::Probing => {
                let port = self.ports.get(self.cursor).unwrap();
                match self.mode {
                    Mode::Listen => Action::Bind { port },
                    Mode::Connect { timeout_ms } => Action::Connect { port, timeout_ms },
                }
            },
            Phase::ListenAccepting => Action::Accept { port: self.succeeded.get(self.cursor).unwrap() },
            Phase::Reporting => Action::Report,
            Phase::Done => Action::Stop,
        }
    }

    /// Records how the pending attempt ended and moves on to the next one.
    pub fn record(&mut self, outcome: ProbeOutcome)
        requires
            old(self).wf(),
        ensures
            final(self).wf(),
            final(self)@ == old(self)@.step(outcome),
    {
        proof {
            lemma_step_wf(self@, outcome);
        }
        match self.phase {
            Phase::Probing => {
                let port = self.ports.get(self.cursor).unwrap();
                let total = self.ports.len();
                proof {
                    lemma_take_next(self.ports@, self.cursor as int);
                }
                match outcome {
                    ProbeOutcome::Success => self.succeeded.push_new(port),
                    ProbeOutcome::Failure => self.failed.push_new(port),
                }
                self.cursor = self.cursor + 1;
                if self.cursor >= total {
                    self.cursor = 0;
                    self.phase = match self.mode {
                        Mode::Listen => if self.succeeded.len() > 0 {
                            Phase::ListenAccepting
                        } else {
                            Phase::Reporting
                        },
                        Mode::Connect { .. } => Phase::Reporting,
                    };
                }
            },
            Phase::ListenAccepting => {
                let port = self.succeeded.get(self.cursor).unwrap();
                let total = self.succeeded.len();
                proof {
                    lemma_take_next(self.succeeded@, self.cursor as int);
                }
                match outcome {
                    ProbeOutcome::Success => {
                        assert(!self.accepted.has(port)) by {
                            if self.accepted@.contains(port) {
                                assert(self.succeeded@.take(self.cursor as int).contains(port));
                            }
                        }
                        self.accepted.push_new(port);
                    },
                    ProbeOutcome::Failure => {},
                }
                self.cursor = self.cursor + 1;
                if self.cursor >= total {
                    self.cursor = 0;
                    self.phase = Phase::Reporting;
                }
            },
            Phase::Reporting => {},
            Phase::Done => {},
        }
    }

    /// Hands out the range texts of the result once every attempt is over,
    /// and ends the scan. Before that, and after the report was taken, there
    /// is no report.
    pub fn report(&mut self, options: &RangeOptions) -> (report: Option<ScanReport>)
        requires
            old(self).wf(),
        ensures
            final(self).wf(),
            final(self)@ == old(self)@.reported(),
            report is Some <==> old(self)@.phase == Phase::Reporting,
            report matches Some(r) ==> {
                &&& is_range_text(*options, old(self)@.succeeded, r.succeeded@)
                &&& is_range_text(*options, old(self)@.failed, r.failed@)
                &&& r.accepted is Some <==> old(self)@.mode == Mode::Listen
                &&& r.accepted matches Some(text) ==> is_range_text(
                    *options,
                    old(self)@.accepted,
                    text@,
                )
            },
    {
        match self.phase {
            Phase::Reporting => {
                let succeeded = serialize(options, &self.succeeded);
                let failed = serialize(options, &self.failed);
                let accepted = match self.mode {
                    Mode::Listen => Some(serialize(options, &self.accepted)),
                    Mode::Connect { .. } => None,
                };
                self.phase = Phase::Done;
                Some(ScanReport { succeeded, failed, accepted })
            },
            _ => None,
        }
    }
}

} // verus!
