use vstd::prelude::*;

verus! {

/// A phase value that the tracker can compare and duplicate.
pub trait Phase: Sized {
    /// Whether two phases are the same.
    fn same_phase(&self, other: &Self) -> (r: bool)
        ensures
            r == (*self == *other),
    ;

    /// A copy of the phase.
    fn copied(&self) -> (r: Self)
        ensures
            r == *self,
    ;
}

/// What one arrival at the phase barrier did.
#[derive(Debug, Clone, Copy, PartialEq, Eq, Structural)]
pub enum Arrival {
    /// This caller completed the cycle: it wrote the new phase and reset the counters.
    Transitioned,
    /// The cycle is still open: the caller waits until the tracker releases it.
    Waiting,
    /// A stop was requested: nothing changed, and the caller returns at once.
    Cancelled,
}

/// The mathematical content of a [`ProgressTracker`].
pub struct TrackerModel<State> {
    pub total: u64,
    pub counter: u64,
    pub threads: usize,
    pub threads_waiting_to_transition: usize,
    pub state: State,
    pub stop_requested: bool,
}

impl<State> TrackerModel<State> {
    /// Every tracker counts at least one thread, and an open cycle has fewer
    /// arrivals than threads.
    pub open spec fn wf(self) -> bool {
        &&& self.threads >= 1
        &&& self.threads_waiting_to_transition < self.threads
    }

    /// One arrival at the barrier towards `new_state`. After a stop request it
    /// changes nothing. Otherwise the arrival that brings the count up to the
    /// thread count writes the phase, resets the arrivals and starts the new
    /// phase's progress; any other arrival is only counted.
    pub open spec fn arrive(self, new_state: State, new_total: u64) -> (TrackerModel<State>, Arrival) {
        if self.stop_requested {
            (self, Arrival::Cancelled)
        } else if self.threads_waiting_to_transition + 1 == self.threads {
            (
                TrackerModel {
                    total: new_total,
                    counter: 0,
                    threads_waiting_to_transition: 0,
                    state: new_state,
                    ..self
                },
                Arrival::Transitioned,
            )
        } else {
            (
                TrackerModel {
                    threads_waiting_to_transition: (self.threads_waiting_to_transition + 1) as usize,
                    ..self
                },
                Arrival::Waiting,
            )
        }
    }

    /// A caller waiting for `awaited` may return: the phase is there, or a stop
    /// was requested.
    pub open spec fn is_released(self, awaited: State) -> bool {
        self.state == awaited || self.stop_requested
    }

    /// The counter after `amount` more units, wrapping as a 64-bit counter does.
    pub open spec fn add(self, amount: u64) -> TrackerModel<State> {
        TrackerModel { counter: ((self.counter + amount) % 0x1_0000_0000_0000_0000) as u64, ..self }
    }

    pub open spec fn request_stop(self) -> TrackerModel<State> {
        TrackerModel { stop_requested: true, ..self }
    }

    /// `k` arrivals towards the same phase, one after another.
    pub open spec fn arrivals(self, k: nat, new_state: State, new_total: u64) -> TrackerModel<State>
        decreases k,
    {
        if k == 0 {
            self
        } else {
            self.arrivals((k - 1) as nat, new_state, new_total).arrive(new_state, new_total).0
        }
    }

    /// What the arrival numbered `i` (counting from zero) reports.
    pub open spec fn arrival_outcome(self, i: nat, new_state: State, new_total: u64) -> Arrival {
        self.arrivals(i, new_state, new_total).arrive(new_state, new_total).1
    }

    /// `n` calls of `add(amount)`, one after another.
    pub open spec fn adds(self, amount: u64, n: nat) -> TrackerModel<State>
        decreases n,
    {
        if n == 0 {
            self
        } else {
            self.adds(amount, (n - 1) as nat).add(amount)
        }
    }
}

/// Progress of a benchmark run and the barrier that moves its workers through the
/// phases together.
///
/// This type holds the tracker's state and every decision of its protocol. A
/// program that shares it between threads keeps it behind a lock, blocks a
/// caller that got [`Arrival::Waiting`] until [`ProgressTracker::is_released`]
/// holds, and wakes the waiters after a transition or a stop request.
pub struct ProgressTracker<State> {
    stop_requested: bool,
    total: u64,
    counter: u64,
    threads: usize,
    threads_waiting_to_transition: usize,
    state: State,
}

/// A copy of a tracker's state, taken at one moment.
pub struct BenchmarkProgressSnapshop<State> {
    pub total: u64,
    pub counter: u64,
    pub state: State,
    pub threads_waiting_to_transition: usize,
    pub was_cancelled: bool,
}

impl<State> View for ProgressTracker<State> {
    type V = TrackerModel<State>;

    closed spec fn view(&self) -> TrackerModel<State> {
        TrackerModel {
            total: self.total,
            counter: self.counter,
            threads: self.threads,
            threads_waiting_to_transition: self.threads_waiting_to_transition,
            state: self.state,
            stop_requested: self.stop_requested,
        }
    }
}

impl<State> ProgressTracker<State> {
    #[verifier::type_invariant]
    closed spec fn inv(self) -> bool {
        self@.wf()
    }
}

impl<State: Phase> ProgressTracker<State> {
    /// A tracker for `threads` workers, in phase `state`, expecting `total` units of
    /// progress.
    pub fn new(total: u64, threads: usize, state: State) -> (r: Self)
        requires
            threads >= 1,
        ensures
            r@ == (TrackerModel {
                total,
                counter: 0,
                threads,
                threads_waiting_to_transition: 0,
                state,
                stop_requested: false,
            }),
    {
        ProgressTracker {
            total,
            counter: 0,
            threads,
            threads_waiting_to_transition: 0,
            state,
            stop_requested: false,
        }
    }

    /// Counts one more worker. The count is left as it is while a barrier cycle is
    /// open, where a change would stall the cycle or end it early, and where it
    /// would overflow.
    pub fn add_thread(&mut self)
        ensures
            old(self)@.threads_waiting_to_transition == 0 && old(self)@.threads < usize::MAX
                ==> final(self)@ == (TrackerModel { threads: (old(self)@.threads + 1) as usize, ..old(self)@ }),
            !(old(self)@.threads_waiting_to_transition == 0 && old(self)@.threads < usize::MAX)
                ==> final(self)@ == old(self)@,
    {
        proof {
            use_type_invariant(&*self);
        }
        if self.threads_waiting_to_transition == 0 && self.threads < usize::MAX {
            self.threads = self.threads + 1;
        }
    }

    pub fn stop_requested(&self) -> (r: bool)
        ensures
            r == self@.stop_requested,
    {
        self.stop_requested
    }

    /// Asks every worker to stop. Every waiter is released from then on.
    pub fn request_stop(&mut self)
        ensures
            final(self)@ == old(self)@.request_stop(),
    {
        proof {
            use_type_invariant(&*self);
        }
        self.stop_requested = true;
    }

    /// One worker arrives at the barrier towards `new_state`. After a stop request
    /// the call changes nothing and gives [`Arrival::Cancelled`]. Otherwise the
    /// arrival that completes the cycle performs the transition and gets
    /// [`Arrival::Transitioned`]; every other one gets [`Arrival::Waiting`] and
    /// waits until [`ProgressTracker::is_released`] holds for `new_state`.
    pub fn transition_state(&mut self, new_state: State, new_total: u64) -> (r: Arrival)
        ensures
            (final(self)@, r) == old(self)@.arrive(new_state, new_total),
            old(self)@.wf(),
            final(self)@.wf(),
    {
        proof {
            use_type_invariant(&*self);
        }
        if self.stop_requested {
            return Arrival::Cancelled;
        }
        let transition_number = self.threads_waiting_to_transition;
        if transition_number + 1 == self.threads {
            self.threads_waiting_to_transition = 0;
            self.state = new_state;
            self.total = new_total;
            self.counter = 0;
            Arrival::Transitioned
        } else {
            self.threads_waiting_to_transition = transition_number + 1;
            Arrival::Waiting
        }
    }

    /// Whether a worker that waits for `awaited` may go on.
    pub fn is_released(&self, awaited: &State) -> (r: bool)
        ensures
            r == self@.is_released(*awaited),
            self@.wf(),
    {
        proof {
            use_type_invariant(self);
        }
        self.stop_requested || self.state.same_phase(awaited)
    }

    /// Adds `amount` units of progress; the counter wraps as a 64-bit counter does.
    pub fn add(&mut self, amount: u64)
        ensures
            final(self)@ == old(self)@.add(amount),
    {
        proof {
            use_type_invariant(&*self);
        }
        self.counter = self.counter.wrapping_add(amount);
    }

    pub fn set_total(&mut self, new_total: u64)
        ensures
            final(self)@ == (TrackerModel { total: new_total, ..old(self)@ }),
    {
        proof {
            use_type_invariant(&*self);
        }
        self.total = new_total;
    }

    pub fn set_counter(&mut self, new_counter: u64)
        ensures
            final(self)@ == (TrackerModel { counter: new_counter, ..old(self)@ }),
    {
        proof {
            use_type_invariant(&*self);
        }
        self.counter = new_counter;
    }

    /// Starts the tracker afresh for a new run.
    pub fn reset(&mut self, total: u64, threads: usize, state: State)
        requires
            threads >= 1,
        ensures
            final(self)@ == (TrackerModel {
                total,
                counter: 0,
                threads,
                threads_waiting_to_transition: 0,
                state,
                stop_requested: false,
            }),
    {
        *self = ProgressTracker {
            total,
            counter: 0,
            threads,
            threads_waiting_to_transition: 0,
            state,
            stop_requested: false,
        };
    }

    pub fn load_state(&self) -> (r: State)
        ensures
            r == self@.state,
    {
        self.state.copied()
    }

    pub fn load(&self) -> (r: BenchmarkProgressSnapshop<State>)
        ensures
            r.total == self@.total,
            r.counter == self@.counter,
            r.state == self@.state,
            r.threads_waiting_to_transition == self@.threads_waiting_to_transition,
            r.was_cancelled == self@.stop_requested,
    {
        let total = self.total;
        let counter = self.counter;
        let state = self.load_state();
        let threads_waiting_to_transition = self.threads_waiting_to_transition;
        let was_cancelled = self.stop_requested();
        BenchmarkProgressSnapshop { total, counter, state, threads_waiting_to_transition, was_cancelled }
    }
}

impl<State: Phase> BenchmarkProgressSnapshop<State> {
    pub fn was_cancelled(&self) -> (r: bool)
        ensures
            r == self.was_cancelled,
    {
        self.was_cancelled
    }

    pub fn current_state(&self) -> (r: State)
        ensures
            r == self.state,
    {
        self.state.copied()
    }
}

/// Arrivals before the end of a cycle only raise the arrival count.
proof fn lemma_open_cycle<State>(m: TrackerModel<State>, i: nat, new_state: State, new_total: u64)
    requires
        m.wf(),
        !m.stop_requested,
        m.threads_waiting_to_transition == 0,
        i < m.threads,
    ensures
        m.arrivals(i, new_state, new_total) == (TrackerModel {
            threads_waiting_to_transition: i as usize,
            ..m
        }),
    decreases i,
{
    if i > 0 {
        lemma_open_cycle(m, (i - 1) as nat, new_state, new_total);
    }
}

/// Arrivals after a stop request change nothing.
proof fn lemma_stopped_arrivals<State>(m: TrackerModel<State>, k: nat, new_state: State, new_total: u64)
    requires
        m.stop_requested,
    ensures
        m.arrivals(k, new_state, new_total) == m,
    decreases k,
{
    if k > 0 {
        lemma_stopped_arrivals(m, (k - 1) as nat, new_state, new_total);
    }
}

/// For any thread count of at least one, in a barrier cycle towards `new_state`
/// exactly one arrival, the last, writes the phase: every earlier arrival waits and
/// leaves the phase as it was, and none of them is released before the new phase
/// is written unless the phase was already there. After the last arrival the
/// tracker is in `new_state`, with no arrivals counted, and every waiter is
/// released. Once a stop was requested no arrival writes anything: each one is
/// cancelled and leaves the tracker as it was.
pub proof fn lemma_one_writer_per_cycle<State>(m: TrackerModel<State>, new_state: State, new_total: u64)
    requires
        m.wf(),
        m.threads_waiting_to_transition == 0,
    ensures
        !m.stop_requested ==> {
            &&& forall|i: nat|
                i + 1 < m.threads ==> #[trigger] m.arrival_outcome(i, new_state, new_total) == Arrival::Waiting
                    && m.arrivals(i + 1, new_state, new_total).state == m.state
            &&& forall|i: nat|
                0 < i < m.threads ==> (#[trigger] m.arrivals(i, new_state, new_total).is_released(new_state)
                    <==> m.state == new_state)
            &&& m.arrival_outcome((m.threads - 1) as nat, new_state, new_total) == Arrival::Transitioned
            &&& m.arrivals(m.threads as nat, new_state, new_total).state == new_state
            &&& m.arrivals(m.threads as nat, new_state, new_total).threads_waiting_to_transition == 0
            &&& m.arrivals(m.threads as nat, new_state, new_total).is_released(new_state)
        },
        m.stop_requested ==> forall|i: nat|
            #[trigger] m.arrival_outcome(i, new_state, new_total) == Arrival::Cancelled && m.arrivals(
                i + 1,
                new_state,
                new_total,
            ) == m,
{
    if m.stop_requested {
        assert forall|i: nat| #[trigger] m.arrival_outcome(i, new_state, new_total) == Arrival::Cancelled
            && m.arrivals(i + 1, new_state, new_total) == m by {
            lemma_stopped_arrivals(m, i, new_state, new_total);
            lemma_stopped_arrivals(m, i + 1, new_state, new_total);
        }
    } else {
        assert forall|i: nat| i + 1 < m.threads implies #[trigger] m.arrival_outcome(i, new_state, new_total)
            == Arrival::Waiting && m.arrivals(i + 1, new_state, new_total).state == m.state by {
            lemma_open_cycle(m, i, new_state, new_total);
            lemma_open_cycle(m, i + 1, new_state, new_total);
        }
        assert forall|i: nat| 0 < i < m.threads implies (#[trigger] m.arrivals(i, new_state, new_total).is_released(
            new_state,
        ) <==> m.state == new_state) by {
            lemma_open_cycle(m, i, new_state, new_total);
        }
        let last = (m.threads - 1) as nat;
        lemma_open_cycle(m, last, new_state, new_total);
        assert(m.arrivals(m.threads as nat, new_state, new_total) == m.arrivals(last, new_state, new_total).arrive(
            new_state,
            new_total,
        ).0);
    }
}

/// `n` additions of `amount` raise the counter by `amount * n` where that fits, and
/// change nothing else.
proof fn lemma_adds<State>(m: TrackerModel<State>, amount: u64, n: nat)
    requires
        m.counter + amount * n <= u64::MAX,
    ensures
        m.adds(amount, n) == (TrackerModel { counter: (m.counter + amount * n) as u64, ..m }),
    decreases n,
{
    if n > 0 {
        assert(amount * n == amount * (n - 1) + amount) by (nonlinear_arith)
            requires
                n > 0,
        ;
        assert(amount * (n - 1) >= 0) by (nonlinear_arith)
            requires
                n > 0,
        ;
        lemma_adds(m, amount, (n - 1) as nat);
        let before = m.adds(amount, (n - 1) as nat).counter;
        assert(before + amount == m.counter + amount * n);
        assert((before + amount) % 0x1_0000_0000_0000_0000 == before + amount);
        assert(m.adds(amount, n) == m.adds(amount, (n - 1) as nat).add(amount));
    } else {
        assert(amount * n == 0) by (nonlinear_arith)
            requires
                n == 0,
        ;
    }
}

/// Additions of `amount` by `workers` threads, `calls` each, in whatever order the
/// lock admits them, raise the counter by exactly `amount * calls * workers` where
/// that fits in the counter: no addition is lost.
pub proof fn lemma_adds_lose_nothing<State>(m: TrackerModel<State>, amount: u64, calls: nat, workers: nat)
    requires
        m.counter + amount * calls * workers <= u64::MAX,
    ensures
        m.adds(amount, calls * workers).counter == m.counter + amount * calls * workers,
        m.adds(amount, calls * workers) == (TrackerModel {
            counter: (m.counter + amount * calls * workers) as u64,
            ..m
        }),
{
    assert(amount * (calls * workers) == amount * calls * workers) by (nonlinear_arith);
    lemma_adds(m, amount, calls * workers);
}

/// After a stop request every waiter is released, whatever phase it waits for;
/// every later arrival returns at once as cancelled and leaves the tracker as it
/// was, however many threads have or have not arrived.
pub proof fn lemma_stop_releases_every_waiter<State>(
    m: TrackerModel<State>,
    awaited: State,
    new_state: State,
    new_total: u64,
)
    ensures
        m.request_stop().is_released(awaited),
        m.request_stop().arrive(new_state, new_total) == (m.request_stop(), Arrival::Cancelled),
        forall|k: nat| #[trigger] m.request_stop().arrivals(k, new_state, new_total) == m.request_stop(),
{
    assert forall|k: nat| #[trigger] m.request_stop().arrivals(k, new_state, new_total) == m.request_stop() by {
        lemma_stopped_arrivals(m.request_stop(), k, new_state, new_total);
    }
}

} // verus!
