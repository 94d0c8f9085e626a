//! Running a batch of tests under bounded admission.
//!
//! The orchestrator decides; the caller acts. The caller owns the worker
//! pool and the channels, reports each thing that happened as an `Event`,
//! and carries out the `Action` it gets back.
//!
//! A test holds one of `permits` permits while it is traced and replayed, and
//! gives it back before its images are fingerprinted, so at most `permits`
//! tests are in the first stage at any time, however large the pool is.
//! Fingerprinting is not bounded here: with many tests past the first stage
//! at once the pool can be oversubscribed, and the caller sizes it with that
//! in mind.
//!
//! The first failure that reaches the collector fails the batch. Nothing is
//! cancelled on that account: tests that wait are still started, tests that
//! run are left to finish, and their results are drained without merging
//! their coverage.

use vstd::prelude::*;

verus! {

/// Where one test of the batch stands.
#[derive(Clone, Copy, Debug, PartialEq, Eq, Structural)]
pub enum Phase {
    /// Not started; holds no permit.
    Waiting,
    /// Being traced and replayed; holds a permit.
    Tracing,
    /// Its images are being fingerprinted; holds no permit.
    Extracting,
    /// Its result was collected and its coverage is being merged.
    Merging,
    /// Nothing more will happen to it.
    Done,
}

/// What the caller reports.
#[derive(Clone, Copy, Debug, PartialEq, Eq, Structural)]
pub enum Event {
    /// The dispatcher would like to start the next test.
    PermitWanted,
    /// Tracing and replay of `task` ended.
    TraceReplayFinished { task: usize, ok: bool },
    /// Fingerprinting for `task` ended.
    ExtractionFinished { task: usize, ok: bool },
    /// The coverage of `task` was merged, or could not be.
    CoverageMerged { task: usize, ok: bool },
}

/// What the caller is to do next.
#[derive(Clone, Copy, Debug, PartialEq, Eq, Structural)]
pub enum Action {
    /// Trace and replay `task`; it holds a permit now.
    Start { task: usize },
    /// Every permit is taken: wait for a test to leave the first stage.
    Blocked,
    /// Every test was started.
    AllStarted,
    /// Fingerprint the images of `task`; its permit is free again.
    Extract { task: usize },
    /// Merge the coverage of `task`.
    MergeCoverage { task: usize },
    /// `task` is the first to fail: the batch has failed.
    Fail { task: usize },
    /// `task` ended after the batch had failed: drop its result.
    Drain { task: usize },
    /// `task` is complete.
    Settled { task: usize },
    /// The event names no test in the phase it speaks of; nothing changed.
    Rejected,
}

/// Why no orchestrator could be made.
#[derive(Clone, Copy, Debug, PartialEq, Eq, Structural)]
pub enum ConfigError {
    /// A batch needs at least one permit.
    ZeroConcurrency,
}

/// How many of the first `n` tests are in phase `p`.
pub open spec fn count(phases: Seq<Phase>, p: Phase, n: int) -> nat
    decreases n,
{
    if n <= 0 {
        0
    } else {
        count(phases, p, n - 1) + if phases[n - 1] == p {
            1nat
        } else {
            0nat
        }
    }
}

/// What an orchestrator stands for.
#[verifier::ext_equal]
pub struct BatchView {
    /// The number of permits there are.
    pub permits: nat,
    /// The number of permits nobody holds.
    pub free: nat,
    /// The phase of every test, in the order of submission.
    pub phases: Seq<Phase>,
    /// The number of tests started so far.
    pub started: nat,
    /// The number of tests that are `Done`.
    pub settled: nat,
    /// The first test whose failure reached the collector.
    pub failure: Option<usize>,
}

impl BatchView {
    /// Every permit is either free or held by a test in its first stage;
    /// tests are started in the order of submission; a failure names a test
    /// that is done.
    pub open spec fn wf(self) -> bool {
        &&& self.permits > 0
        &&& self.free + count(self.phases, Phase::Tracing, self.phases.len() as int) == self.permits
        &&& self.started <= self.phases.len()
        &&& forall|i: int|
            0 <= i < self.phases.len() ==> ((#[trigger] self.phases[i]) == Phase::Waiting <==> i
                >= self.started)
        &&& self.settled == count(self.phases, Phase::Done, self.phases.len() as int)
        &&& match self.failure {
            Some(task) => task < self.phases.len() && self.phases[task as int] == Phase::Done,
            None => true,
        }
    }

    /// A batch of `tests` tests that has not begun.
    pub open spec fn initial(tests: nat, permits: nat) -> BatchView {
        BatchView {
            permits,
            free: permits,
            phases: Seq::new(tests, |i: int| Phase::Waiting),
            started: 0,
            settled: 0,
            failure: None,
        }
    }

    /// Whether every test is done.
    pub open spec fn complete(self) -> bool {
        self.settled == self.phases.len()
    }

    /// A result reaches the collector.
    pub open spec fn deliver(self, task: usize, ok: bool) -> (BatchView, Action) {
        if self.failure is Some {
            (
                BatchView {
                    phases: self.phases.update(task as int, Phase::Done),
                    settled: self.settled + 1,
                    ..self
                },
                Action::Drain { task },
            )
        } else if ok {
            (
                BatchView { phases: self.phases.update(task as int, Phase::Merging), ..self },
                Action::MergeCoverage { task },
            )
        } else {
            (
                BatchView {
                    phases: self.phases.update(task as int, Phase::Done),
                    settled: self.settled + 1,
                    failure: Some(task),
                    ..self
                },
                Action::Fail { task },
            )
        }
    }

    /// Whether `task` is a test in phase `p`.
    pub open spec fn in_phase(self, task: usize, p: Phase) -> bool {
        task < self.phases.len() && self.phases[task as int] == p
    }

    /// The state after `event`, and what the caller is to do.
    pub open spec fn transition(self, event: Event) -> (BatchView, Action) {
        match event {
            Event::PermitWanted => if self.started >= self.phases.len() {
                (self, Action::AllStarted)
            } else if self.free == 0 {
                (self, Action::Blocked)
            } else {
                (
                    BatchView {
                        free: (self.free - 1) as nat,
                        phases: self.phases.update(self.started as int, Phase::Tracing),
                        started: self.started + 1,
                        ..self
                    },
                    Action::Start { task: self.started as usize },
                )
            },
            Event::TraceReplayFinished { task, ok } => if !self.in_phase(task, Phase::Tracing) {
                (self, Action::Rejected)
            } else if ok {
                (
                    BatchView {
                        free: self.free + 1,
                        phases: self.phases.update(task as int, Phase::Extracting),
                        ..self
                    },
                    Action::Extract { task },
                )
            } else {
                (BatchView { free: self.free + 1, ..self }).deliver(task, false)
            },
            Event::ExtractionFinished { task, ok } => if !self.in_phase(task, Phase::Extracting) {
                (self, Action::Rejected)
            } else {
                self.deliver(task, ok)
            },
            Event::CoverageMerged { task, ok } => if !self.in_phase(task, Phase::Merging) {
                (self, Action::Rejected)
            } else {
                (
                    BatchView {
                        phases: self.phases.update(task as int, Phase::Done),
                        settled: self.settled + 1,
                        failure: if !ok && self.failure is None {
                            Some(task)
                        } else {
                            self.failure
                        },
                        ..self
                    },
                    if !ok && self.failure is None {
                        Action::Fail { task }
                    } else {
                        Action::Settled { task }
                    },
                )
            },
        }
    }
}

/// The order in which a test passes through its phases: a step may leave it
/// where it is, or take it one stage on; a failure takes it straight to
/// `Done`.
pub open spec fn phase_follows(before: Phase, after: Phase) -> bool {
    ||| after == before
    ||| (before == Phase::Waiting && after == Phase::Tracing)
    ||| (before == Phase::Tracing && (after == Phase::Extracting || after == Phase::Done))
    ||| (before == Phase::Extracting && (after == Phase::Merging || after == Phase::Done))
    ||| (before == Phase::Merging && after == Phase::Done)
}

/// No more tests are in a phase than there are tests.
pub proof fn lemma_count_bound(phases: Seq<Phase>, p: Phase, n: int)
    requires
        0 <= n <= phases.len(),
    ensures
        count(phases, p, n) <= n,
    decreases n,
{
    if n > 0 {
        lemma_count_bound(phases, p, n - 1);
    }
}

/// Moving one test to another phase changes the counts of those two phases
/// by one and no other count.
pub proof fn lemma_count_update(phases: Seq<Phase>, k: int, q: Phase, p: Phase, n: int)
    requires
        0 <= k < phases.len(),
        0 <= n <= phases.len(),
    ensures
        count(phases.update(k, q), p, n) == count(phases, p, n) + (if k < n && q == p {
            1int
        } else {
            0int
        }) - (if k < n && phases[k] == p {
            1int
        } else {
            0int
        }),
    decreases n,
{
    if n > 0 {
        lemma_count_update(phases, k, q, p, n - 1);
    }
}

/// Whatever is reported, the batch stays well formed: the permits in use
/// are exactly those of the tests being traced, so never more than there
/// are; no test moves against the order of its stages; no test is added or
/// lost; and a failure, once recorded, stays the one that is reported.
pub proof fn law_transition(s: BatchView, event: Event)
    requires
        s.wf(),
    ensures
        s.transition(event).0.wf(),
        s.transition(event).0.permits == s.permits,
        s.transition(event).0.phases.len() == s.phases.len(),
        count(
            s.transition(event).0.phases,
            Phase::Tracing,
            s.phases.len() as int,
        ) <= s.permits,
        forall|i: int|
            0 <= i < s.phases.len() ==> phase_follows(
                s.phases[i],
                #[trigger] s.transition(event).0.phases[i],
            ),
        s.failure is Some ==> s.transition(event).0.failure == s.failure,
        s.settled <= s.transition(event).0.settled <= s.settled + 1,
{
    let t = s.transition(event).0;
    let n = s.phases.len() as int;
    match event {
        Event::PermitWanted => {
            if s.started < s.phases.len() && s.free > 0 {
                let k = s.started as int;
                lemma_count_update(s.phases, k, Phase::Tracing, Phase::Tracing, n);
                lemma_count_update(s.phases, k, Phase::Tracing, Phase::Done, n);
            }
        },
        Event::TraceReplayFinished { task, ok } => {
            if s.in_phase(task, Phase::Tracing) {
                let k = task as int;
                lemma_count_update(s.phases, k, t.phases[k], Phase::Tracing, n);
                lemma_count_update(s.phases, k, t.phases[k], Phase::Done, n);
            }
        },
        Event::ExtractionFinished { task, ok } => {
            if s.in_phase(task, Phase::Extracting) {
                let k = task as int;
                lemma_count_update(s.phases, k, t.phases[k], Phase::Tracing, n);
                lemma_count_update(s.phases, k, t.phases[k], Phase::Done, n);
            }
        },
        Event::CoverageMerged { task, ok } => {
            if s.in_phase(task, Phase::Merging) {
                let k = task as int;
                lemma_count_update(s.phases, k, Phase::Done, Phase::Tracing, n);
                lemma_count_update(s.phases, k, Phase::Done, Phase::Done, n);
            }
        },
    }
}

/// Whether a test in this phase is being worked on.
pub open spec fn in_flight(phase: Phase) -> bool {
    phase == Phase::Tracing || phase == Phase::Extracting || phase == Phase::Merging
}

/// If none of the first `n` tests is in phase `p`, their count is zero; if
/// all are, it is `n`.
pub proof fn lemma_count_uniform(phases: Seq<Phase>, p: Phase, n: int)
    requires
        0 <= n <= phases.len(),
    ensures
        (forall|i: int| 0 <= i < n ==> (#[trigger] phases[i]) != p) ==> count(phases, p, n) == 0,
        (forall|i: int| 0 <= i < n ==> (#[trigger] phases[i]) == p) ==> count(phases, p, n) == n,
    decreases n,
{
    if n > 0 {
        lemma_count_uniform(phases, p, n - 1);
    }
}

/// An unfinished batch is never stuck: some test is being worked on, or a
/// permit is free and the next waiting test can be started.
pub proof fn law_no_deadlock(s: BatchView)
    requires
        s.wf(),
        !s.complete(),
    ensures
        (exists|i: int| 0 <= i < s.phases.len() && in_flight(#[trigger] s.phases[i]))
            || s.transition(Event::PermitWanted).1 == (Action::Start { task: s.started as usize }),
{
    let n = s.phases.len() as int;
    if !exists|i: int| 0 <= i < s.phases.len() && in_flight(#[trigger] s.phases[i]) {
        assert forall|i: int| 0 <= i < n implies (#[trigger] s.phases[i]) != Phase::Tracing by {
            assert(!in_flight(s.phases[i]));
        }
        lemma_count_uniform(s.phases, Phase::Tracing, n);
        if s.started >= s.phases.len() {
            assert forall|i: int| 0 <= i < n implies (#[trigger] s.phases[i]) == Phase::Done by {
                assert(!in_flight(s.phases[i]));
            }
            lemma_count_uniform(s.phases, Phase::Done, n);
        }
    }
}

/// Once the batch is complete, every test is `Done` and all permits are
/// free.
pub proof fn law_complete(s: BatchView)
    requires
        s.wf(),
        s.complete(),
    ensures
        forall|i: int| 0 <= i < s.phases.len() ==> (#[trigger] s.phases[i]) == Phase::Done,
        s.free == s.permits,
{
    lemma_all_done(s.phases, s.phases.len() as int);
}

/// If as many tests are done as there are, each is done and none is being
/// traced.
pub proof fn lemma_all_done(phases: Seq<Phase>, n: int)
    requires
        0 <= n <= phases.len(),
        count(phases, Phase::Done, n) == n,
    ensures
        forall|i: int| 0 <= i < n ==> (#[trigger] phases[i]) == Phase::Done,
        count(phases, Phase::Tracing, n) == 0,
    decreases n,
{
    if n > 0 {
        lemma_count_bound(phases, Phase::Done, n - 1);
        lemma_all_done(phases, n - 1);
    }
}

/// Asks `num_cpus::get` for the number of processors this process may use.
/// Nothing is claimed of the answer: it depends on the machine and on the
/// limits set for the process.
#[verifier::external_body]
fn host_cpus() -> (n: usize) {
    num_cpus::get()
}

/// What `new` answers for `tests` tests and `permits` permits: a batch that
/// has not begun, or, without a permit, a refusal.
pub open spec fn made_with(result: Result<Orchestrator, ConfigError>, tests: usize, permits: usize) -> bool {
    &&& result is Ok <==> permits > 0
    &&& result is Ok ==> result->Ok_0.inv() && result->Ok_0@ == BatchView::initial(
        tests as nat,
        permits as nat,
    )
    &&& result is Err ==> result->Err_0 == ConfigError::ZeroConcurrency
}

/// The state of one batch: its permits and the phase of each test.
#[derive(Debug)]
pub struct Orchestrator {
    permits: usize,
    free: usize,
    phases: Vec<Phase>,
    started: usize,
    settled: usize,
    failure: Option<usize>,
}

impl View for Orchestrator {
    type V = BatchView;

    closed spec fn view(&self) -> BatchView {
        BatchView {
            permits: self.permits as nat,
            free: self.free as nat,
            phases: self.phases@,
            started: self.started as nat,
            settled: self.settled as nat,
            failure: self.failure,
        }
    }
}

impl Orchestrator {
    /// What every orchestrator satisfies from `new` on.
    pub open spec fn inv(&self) -> bool {
        self@.wf()
    }

    /// A batch of `tests` tests of which at most `permits` are traced and
    /// replayed at a time. Refused without a permit.
    pub fn new(tests: usize, permits: usize) -> (result: Result<Orchestrator, ConfigError>)
        ensures
            made_with(result, tests, permits),
    {
        if permits == 0 {
            return Err(ConfigError::ZeroConcurrency);
        }
        let mut phases: Vec<Phase> = Vec::new();
        let mut i: usize = 0;
        while i < tests
            invariant
                i <= tests,
                phases@ == Seq::new(i as nat, |k: int| Phase::Waiting),
                count(phases@, Phase::Tracing, i as int) == 0,
                count(phases@, Phase::Done, i as int) == 0,
            decreases tests - i,
        {
            let ghost before = phases@;
            phases.push(Phase::Waiting);
            i += 1;
            proof {
                lemma_count_prefix(before, phases@, Phase::Tracing, i - 1);
                lemma_count_prefix(before, phases@, Phase::Done, i - 1);
            }
        }
        let batch = Orchestrator { permits, free: permits, phases, started: 0, settled: 0, failure: None };
        Ok(batch)
    }

    /// As `new`, with as many permits as were asked for, or, when none were,
    /// with one per processor of the host, whatever that number is.
    pub fn with_concurrency(tests: usize, requested: Option<usize>) -> (result: Result<
        Orchestrator,
        ConfigError,
    >)
        ensures
            match requested {
                Some(permits) => made_with(result, tests, permits),
                None => exists|host: usize| #[trigger] made_with(result, tests, host),
            },
    {
        let permits: usize = match requested {
            Some(n) => n,
            None => host_cpus(),
        };
        let result = Orchestrator::new(tests, permits);
        result
    }

    /// The number of tests in the batch.
    pub fn tests(&self) -> (n: usize)
        ensures
            n == self@.phases.len(),
    {
        self.phases.len()
    }

    /// The number of permits there are.
    pub fn permits(&self) -> (n: usize)
        ensures
            n == self@.permits,
    {
        self.permits
    }

    /// The number of permits nobody holds.
    pub fn free_permits(&self) -> (n: usize)
        ensures
            n == self@.free,
    {
        self.free
    }

    /// The phase of `task`, or `None` if the batch has no such test.
    pub fn phase(&self, task: usize) -> (phase: Option<Phase>)
        ensures
            phase == if task < self@.phases.len() {
                Some(self@.phases[task as int])
            } else {
                None
            },
    {
        if task < self.phases.len() {
            Some(self.phases[task])
        } else {
            None
        }
    }

    /// The first test whose failure reached the collector.
    pub fn failure(&self) -> (failure: Option<usize>)
        ensures
            failure == self@.failure,
    {
        self.failure
    }

    /// Whether every test is done.
    pub fn is_complete(&self) -> (complete: bool)
        ensures
            complete == self@.complete(),
    {
        self.settled == self.phases.len()
    }

    /// Hands a result to the collector.
    fn deliver(&mut self, task: usize, ok: bool) -> (action: Action)
        requires
            task < old(self)@.phases.len() <= usize::MAX,
            old(self)@.phases[task as int] != Phase::Done,
            old(self)@.settled == count(
                old(self)@.phases,
                Phase::Done,
                old(self)@.phases.len() as int,
            ),
        ensures
            (final(self)@, action) == old(self)@.deliver(task, ok),
    {
        proof {
            let n = self@.phases.len() as int;
            lemma_count_update(self@.phases, task as int, Phase::Done, Phase::Done, n);
            lemma_count_bound(self@.phases.update(task as int, Phase::Done), Phase::Done, n);
        }
        let first = self.failure.is_none();
        if first && ok {
            self.phases[task] = Phase::Merging;
            Action::MergeCoverage { task }
        } else {
            self.phases[task] = Phase::Done;
            self.settled += 1;
            if first {
                self.failure = Some(task);
                Action::Fail { task }
            } else {
                Action::Drain { task }
            }
        }
    }

    /// Takes note of `event` and says what the caller is to do.
    pub fn handle(&mut self, event: Event) -> (action: Action)
        requires
            old(self).inv(),
        ensures
            final(self).inv(),
            (final(self)@, action) == old(self)@.transition(event),
    {
        proof {
            law_transition(self@, event);
        }
        let n: usize = self.phases.len();
        let ghost len = n as int;
        match event {
            Event::PermitWanted => {
                if self.started >= n {
                    Action::AllStarted
                } else if self.free == 0 {
                    Action::Blocked
                } else {
                    let task: usize = self.started;
                    self.phases[task] = Phase::Tracing;
                    self.free -= 1;
                    self.started = task + 1;
                    Action::Start { task }
                }
            },
            Event::TraceReplayFinished { task, ok } => {
                if task >= n || self.phases[task] != Phase::Tracing {
                    return Action::Rejected;
                }
                proof {
                    lemma_count_update(
                        self@.phases,
                        task as int,
                        Phase::Extracting,
                        Phase::Tracing,
                        len,
                    );
                }
                self.free += 1;
                if ok {
                    self.phases[task] = Phase::Extracting;
                    Action::Extract { task }
                } else {
                    self.deliver(task, false)
                }
            },
            Event::ExtractionFinished { task, ok } => {
                if task >= n || self.phases[task] != Phase::Extracting {
                    return Action::Rejected;
                }
                self.deliver(task, ok)
            },
            Event::CoverageMerged { task, ok } => {
                if task >= n || self.phases[task] != Phase::Merging {
                    return Action::Rejected;
                }
                proof {
                    lemma_count_update(self@.phases, task as int, Phase::Done, Phase::Done, len);
                    lemma_count_bound(self@.phases.update(task as int, Phase::Done), Phase::Done, len);
                }
                self.phases[task] = Phase::Done;
                self.settled += 1;
                if !ok && self.failure.is_none() {
                    self.failure = Some(task);
                    Action::Fail { task }
                } else {
                    Action::Settled { task }
                }
            },
        }
    }
}

/// A count over the first `n` tests looks at those tests only.
pub proof fn lemma_count_prefix(a: Seq<Phase>, b: Seq<Phase>, p: Phase, n: int)
    requires
        0 <= n <= a.len(),
        n <= b.len(),
        forall|i: int| 0 <= i < n ==> a[i] == b[i],
    ensures
        count(a, p, n) == count(b, p, n),
    decreases n,
{
    if n > 0 {
        lemma_count_prefix(a, b, p, n - 1);
    }
}

} // verus!
