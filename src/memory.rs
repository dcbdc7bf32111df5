use vstd::prelude::*;

use crate::cpu::CPUFeatures;
use crate::progress::{Phase, ProgressTracker, TrackerModel};
use crate::strategies::{OperationStrategy, SelectableEnum};
use rand::RngCore;
use std::time::Duration;

verus! {

/// The byte that the all-ones initialization stores.
pub const ONES: u8 = 0xFF;

/// How many pages one chunk of work spans.
pub const PAGES_PER_CHUNK: usize = 4;

#[verifier::external_type_specification]
#[verifier::external_body]
pub struct ExSmallRng(rand::rngs::SmallRng);

/// Relies on rand's `RngCore::fill_bytes` for `SmallRng`: it overwrites every byte of
/// `dest` with generated bytes and keeps its length.
#[verifier::external_body]
fn fill_random(rng: &mut rand::rngs::SmallRng, dest: &mut [u8])
    ensures
        final(dest)@.len() == old(dest)@.len(),
{
    rng.fill_bytes(dest)
}

/// A part of `buffer`, borrowed alone.
fn chunk_mut(buffer: &mut Vec<u8>, start: usize, len: usize) -> (r: &mut [u8])
    requires
        start + len <= old(buffer)@.len(),
    ensures
        r@ == old(buffer)@.subrange(start as int, start + len),
        final(buffer)@ == old(buffer)@.subrange(0, start as int) + final(r)@ + old(buffer)@.subrange(
            start + len,
            old(buffer)@.len() as int,
        ),
{
    let slice = buffer.as_mut_slice();
    let (_, rest) = slice.split_at_mut(start);
    let (chunk, _) = rest.split_at_mut(len);
    chunk
}

/// Stores `value` into every byte of `data`.
fn fill(data: &mut [u8], value: u8)
    ensures
        final(data)@ == Seq::new(old(data)@.len(), |i: int| value),
{
    let len = data.len();
    let mut i: usize = 0;
    while i < len
        invariant
            len == data@.len(),
            data@.len() == old(data)@.len(),
            i <= len,
            forall|j: int| 0 <= j < i ==> data@[j] == value,
        decreases len - i,
    {
        data[i] = value;
        i = i + 1;
    }
    proof {
        assert(data@ =~= Seq::new(old(data)@.len(), |i: int| value));
    }
}

/// What a benchmark pass does with each chunk of a worker's buffer.
#[derive(Debug, Clone, Copy, PartialEq, Eq, Structural)]
pub enum MemoryOperation {
    Read,
    Write,
    Copy,
}

/// What a worker's buffer holds before the first pass.
#[derive(Debug, Clone, Copy, PartialEq, Eq, Structural)]
pub enum MemoryInitializationType {
    Zeros,
    Random,
    Ones,
}

/// The phases that the workers of a run go through together.
#[derive(Debug, Clone, Copy, PartialEq, Eq, Structural)]
pub enum State {
    Allocating,
    Initializing,
    /// Pass number (from one) and the number of passes.
    Executing(usize, usize),
    Done,
}

impl Phase for State {
    fn same_phase(&self, other: &Self) -> (r: bool) {
        *self == *other
    }

    fn copied(&self) -> (r: Self) {
        *self
    }
}

impl SelectableEnum for MemoryOperation {
    fn all_values() -> (r: Vec<Self>)
        ensures
            r@ == seq![MemoryOperation::Read, MemoryOperation::Write, MemoryOperation::Copy],
    {
        vec![MemoryOperation::Read, MemoryOperation::Write, MemoryOperation::Copy]
    }

    fn is_enabled(&self, features: &CPUFeatures) -> (r: bool)
        ensures
            r,
    {
        true
    }

    fn as_str(&self) -> (r: &'static str)
        ensures
            r@ == match self {
                MemoryOperation::Read => "Read"@,
                MemoryOperation::Write => "Write"@,
                MemoryOperation::Copy => "Copy"@,
            },
    {
        match self {
            MemoryOperation::Read => "Read",
            MemoryOperation::Write => "Write",
            MemoryOperation::Copy => "Copy",
        }
    }
}

impl SelectableEnum for MemoryInitializationType {
    fn all_values() -> (r: Vec<Self>)
        ensures
            r@ == seq![
                MemoryInitializationType::Zeros,
                MemoryInitializationType::Ones,
                MemoryInitializationType::Random,
            ],
    {
        vec![MemoryInitializationType::Zeros, MemoryInitializationType::Ones, MemoryInitializationType::Random]
    }

    fn is_enabled(&self, features: &CPUFeatures) -> (r: bool)
        ensures
            r,
    {
        true
    }

    fn as_str(&self) -> (r: &'static str)
        ensures
            r@ == match self {
                MemoryInitializationType::Zeros => "Zeros"@,
                MemoryInitializationType::Ones => "Ones"@,
                MemoryInitializationType::Random => "Random"@,
            },
    {
        match self {
            MemoryInitializationType::Zeros => "Zeros",
            MemoryInitializationType::Ones => "Ones",
            MemoryInitializationType::Random => "Random",
        }
    }
}

/// `n` rounded up to a multiple of `unit`.
pub open spec fn round_up(n: nat, unit: nat) -> nat
    recommends
        unit >= 1,
{
    ((n + unit - 1) / unit as int) as nat * unit
}

/// The settings of one benchmark run.
#[derive(Debug, Clone, Copy)]
pub struct Config {
    /// Bytes over all threads together.
    pub memory_size: usize,
    pub passes: usize,
    pub threads: usize,
    pub operation: MemoryOperation,
    pub init_type: MemoryInitializationType,
    pub strategy: OperationStrategy,
}

impl Config {
    /// The bytes of one worker's buffer: an equal share of the memory size,
    /// rounded up to whole pages.
    pub open spec fn spec_thread_bytes(self, page_size: nat) -> nat {
        round_up(self.memory_size as nat / self.threads as nat, page_size)
    }

    /// Whether a run of this configuration can be set up with pages of
    /// `page_size` bytes: at least one thread and one pass, and every size that the
    /// run computes fits its integer type.
    pub open spec fn runnable(self, page_size: nat) -> bool {
        &&& self.threads >= 1
        &&& self.passes >= 1
        &&& page_size >= 1
        &&& page_size * PAGES_PER_CHUNK <= usize::MAX
        &&& (self.memory_size / self.threads) as nat + page_size <= isize::MAX
        &&& self.spec_thread_bytes(page_size) * self.threads <= u64::MAX
        &&& self.spec_thread_bytes(page_size) * self.passes <= usize::MAX
    }

    /// Checks [`Config::runnable`].
    pub fn is_runnable(&self, page_size: usize) -> (r: bool)
        ensures
            r == self.runnable(page_size as nat),
    {
        if self.threads == 0 || self.passes == 0 || page_size == 0 {
            return false;
        }
        if page_size.checked_mul(PAGES_PER_CHUNK).is_none() {
            return false;
        }
        let share = self.memory_size / self.threads;
        if share > isize::MAX as usize - page_size {
            return false;
        }
        let size = self.thread_memory_layout(page_size);
        (size as u64).checked_mul(self.threads as u64).is_some() && size.checked_mul(self.passes).is_some()
    }

    /// Whether every worker gets at least one whole chunk: the memory size is at
    /// least four pages per thread, the least that a front end offers.
    pub fn has_minimum_size(&self, page_size: usize) -> (r: bool)
        ensures
            r == (self.memory_size >= PAGES_PER_CHUNK * page_size * self.threads),
    {
        if self.threads == 0 {
            return true;
        }
        proof {
            let c = PAGES_PER_CHUNK * page_size;
            assert(c * self.threads >= c) by (nonlinear_arith)
                requires
                    self.threads >= 1,
                    c >= 0,
            ;
        }
        match PAGES_PER_CHUNK.checked_mul(page_size) {
            Some(chunk) => match chunk.checked_mul(self.threads) {
                Some(least) => self.memory_size >= least,
                None => false,
            },
            None => false,
        }
    }

    /// A tracker for a run of this configuration: one unit per byte over all
    /// buffers, every worker counted, in the allocation phase.
    pub fn new_tracker(&self, page_size: usize) -> (r: ProgressTracker<State>)
        requires
            self.runnable(page_size as nat),
        ensures
            r@ == (TrackerModel {
                total: (self.spec_thread_bytes(page_size as nat) * self.threads) as u64,
                counter: 0,
                threads: self.threads,
                threads_waiting_to_transition: 0,
                state: State::Allocating,
                stop_requested: false,
            }),
    {
        let size = self.thread_memory_layout(page_size);
        ProgressTracker::new((size as u64) * (self.threads as u64), self.threads, State::Allocating)
    }

    /// The size of one worker's buffer for pages of `page_size` bytes.
    pub fn thread_memory_layout(&self, page_size: usize) -> (r: usize)
        requires
            self.threads >= 1,
            page_size >= 1,
            self.memory_size / self.threads + page_size <= isize::MAX,
        ensures
            r == self.spec_thread_bytes(page_size as nat),
            r >= self.memory_size / self.threads,
            r % page_size == 0,
    {
        let share = self.memory_size / self.threads;
        let pages = (share + page_size - 1) / page_size;
        proof {
            assert(pages * page_size <= share + page_size - 1) by (nonlinear_arith)
                requires
                    pages == (share + page_size - 1) / page_size as int,
                    page_size >= 1,
                    share + page_size - 1 >= 0,
            ;
            assert(pages * page_size >= share) by (nonlinear_arith)
                requires
                    pages == (share + page_size - 1) / page_size as int,
                    page_size >= 1,
                    share >= 0,
            ;
            assert((pages * page_size) % page_size as int == 0) by (nonlinear_arith)
                requires
                    page_size >= 1,
                    pages >= 0,
            ;
        }
        pages * page_size
    }
}

/// One worker's measurement: bytes processed over all passes, and the time that
/// the operations took.
#[derive(Debug, Clone, Copy)]
pub struct TestResult {
    pub memory_processed: usize,
    pub runtime: Duration,
}

/// A chunk after a pass of `op` with strategy `s`. A copy moves the first half of
/// the chunk into the second half.
pub open spec fn operated(op: MemoryOperation, s: OperationStrategy, chunk: Seq<u8>) -> Seq<u8> {
    match op {
        MemoryOperation::Read => chunk,
        MemoryOperation::Write => s.written(chunk),
        MemoryOperation::Copy => {
            let half = chunk.len() / 2;
            let from = chunk.subrange(0, half as int);
            from + s.copied(from, chunk.subrange(half as int, chunk.len() as int), half)
        },
    }
}

/// Whether `after` is a chunk initialized as `init` says.
pub open spec fn initialized(init: MemoryInitializationType, before: Seq<u8>, after: Seq<u8>) -> bool {
    &&& after.len() == before.len()
    &&& match init {
        MemoryInitializationType::Zeros => after == Seq::new(before.len(), |i: int| 0u8),
        MemoryInitializationType::Ones => after == Seq::new(before.len(), |i: int| ONES),
        MemoryInitializationType::Random => true,
    }
}

/// Where a worker stands in its pipeline.
#[derive(Debug, Clone, Copy, PartialEq, Eq, Structural)]
pub enum WorkerStage {
    /// The buffer exists; the allocation is not reported yet.
    Allocated,
    /// The allocation is reported; the barrier into initialization comes next.
    AwaitInitializing,
    /// Chunks before this index are initialized.
    Initializing(usize),
    /// Passes before this index are complete; the next barrier comes next.
    AwaitPass(usize),
    /// The barrier into this pass is behind; its timing starts next.
    StartingPass(usize),
    /// In this pass, chunks before the second index are done.
    Operating(usize, usize),
    /// The barrier into the last phase is behind; the last report comes next.
    Finishing,
    /// The run is complete.
    Finished,
    /// A stop was seen: the worker gives no result.
    Cancelled,
}

/// What a worker asks its thread to do next.
#[derive(Debug, Clone, Copy, PartialEq, Eq, Structural)]
pub enum Step {
    /// Add this many units to the shared progress.
    Report(u64),
    /// Arrive at the shared barrier towards the phase, with the phase's total, and
    /// wait until released.
    Barrier(State, u64),
    /// Initialize this chunk (see [`Worker::initialize_chunk`]).
    Initialize(usize),
    /// Start timing a pass.
    StartPass,
    /// Apply the operation to this chunk (see [`Worker::operate_chunk`]).
    Operate(usize),
    /// Stop timing the pass and add its time to the runtime.
    EndPass,
    /// The run is complete: take [`Worker::result`].
    Finish,
    /// A stop was requested: the worker gives no result.
    Abandon,
}

/// The mathematical content of a [`Worker`].
pub struct WorkerModel {
    pub config: Config,
    pub buffer: Seq<u8>,
    pub chunk_size: nat,
    pub total: u64,
    pub stage: WorkerStage,
}

impl WorkerModel {
    /// The number of whole chunks in the buffer; a tail shorter than a chunk is
    /// not touched.
    pub open spec fn chunks(self) -> nat {
        self.buffer.len() / self.chunk_size
    }

    pub open spec fn wf(self) -> bool {
        &&& self.chunk_size >= 1
        &&& self.config.threads >= 1
        &&& self.chunks() * self.chunk_size <= self.buffer.len()
        &&& self.buffer.len() * self.config.passes <= usize::MAX
        &&& self.buffer.len() <= usize::MAX
        &&& match self.stage {
            WorkerStage::Initializing(i) => i <= self.chunks(),
            WorkerStage::AwaitPass(p) => p <= self.config.passes,
            WorkerStage::StartingPass(p) => p < self.config.passes,
            WorkerStage::Operating(p, i) => p < self.config.passes && i <= self.chunks(),
            _ => true,
        }
    }

    /// The barrier before pass `p` (from zero), or the one into the last phase
    /// once every pass is complete.
    pub open spec fn enter_pass(self, p: nat) -> (WorkerStage, Step) {
        if p < self.config.passes {
            (
                WorkerStage::StartingPass(p as usize),
                Step::Barrier(State::Executing((p + 1) as usize, self.config.passes), self.total),
            )
        } else {
            (WorkerStage::Finishing, Step::Barrier(State::Done, self.config.threads as u64))
        }
    }

    /// The next stage and step. A requested stop ends the pipeline at every
    /// checkpoint; only a complete run ignores it.
    pub open spec fn step(self, stop_requested: bool) -> (WorkerStage, Step) {
        if stop_requested && self.stage != WorkerStage::Finished {
            (WorkerStage::Cancelled, Step::Abandon)
        } else {
            match self.stage {
                WorkerStage::Allocated => (WorkerStage::AwaitInitializing, Step::Report(1)),
                WorkerStage::AwaitInitializing => (
                    WorkerStage::Initializing(0),
                    Step::Barrier(State::Initializing, self.total),
                ),
                WorkerStage::Initializing(i) => if i < self.chunks() {
                    (WorkerStage::Initializing((i + 1) as usize), Step::Initialize(i))
                } else {
                    self.enter_pass(0)
                },
                WorkerStage::AwaitPass(p) => self.enter_pass(p as nat),
                WorkerStage::StartingPass(p) => (WorkerStage::Operating(p, 0), Step::StartPass),
                WorkerStage::Operating(p, i) => if i < self.chunks() {
                    (WorkerStage::Operating(p, (i + 1) as usize), Step::Operate(i))
                } else {
                    (WorkerStage::AwaitPass((p + 1) as usize), Step::EndPass)
                },
                WorkerStage::Finishing => (WorkerStage::Finished, Step::Report(1)),
                WorkerStage::Finished => (WorkerStage::Finished, Step::Finish),
                WorkerStage::Cancelled => (WorkerStage::Cancelled, Step::Abandon),
            }
        }
    }
}

/// One benchmark thread's buffer and its place in the pipeline.
pub struct Worker {
    config: Config,
    buffer: Vec<u8>,
    chunk_size: usize,
    total: u64,
    stage: WorkerStage,
}

impl View for Worker {
    type V = WorkerModel;

    closed spec fn view(&self) -> WorkerModel {
        WorkerModel {
            config: self.config,
            buffer: self.buffer@,
            chunk_size: self.chunk_size as nat,
            total: self.total,
            stage: self.stage,
        }
    }
}

impl Worker {
    /// A worker for `config` with a zeroed buffer of its share of the memory, in
    /// pages of `page_size` bytes, worked through in chunks of four pages.
    pub fn new(config: Config, page_size: usize) -> (r: Self)
        requires
            config.runnable(page_size as nat),
        ensures
            r@.wf(),
            r@.config == config,
            r@.buffer == Seq::new(config.spec_thread_bytes(page_size as nat), |i: int| 0u8),
            r@.chunk_size == page_size * PAGES_PER_CHUNK,
            r@.total == config.spec_thread_bytes(page_size as nat) * config.threads,
            r@.stage == WorkerStage::Allocated,
    {
        let size = config.thread_memory_layout(page_size);
        let buffer: Vec<u8> = vec![0u8; size];
        let chunk_size = page_size * PAGES_PER_CHUNK;
        let total = (size as u64) * (config.threads as u64);
        proof {
            assert(buffer@ =~= Seq::new(config.spec_thread_bytes(page_size as nat), |i: int| 0u8));
            let n = size as nat;
            let c = chunk_size as nat;
            assert((n / c) * c <= n) by (nonlinear_arith)
                requires
                    c >= 1,
            ;
        }
        Worker { config, buffer, chunk_size, total, stage: WorkerStage::Allocated }
    }

    /// Decides the next step; `stop_requested` is the shared stop flag as last seen.
    pub fn next_step(&mut self, stop_requested: bool) -> (r: Step)
        requires
            old(self)@.wf(),
        ensures
            final(self)@.wf(),
            (final(self)@.stage, r) == old(self)@.step(stop_requested),
            final(self)@ == (WorkerModel { stage: final(self)@.stage, ..old(self)@ }),
    {
        if stop_requested && self.stage != WorkerStage::Finished {
            self.stage = WorkerStage::Cancelled;
            return Step::Abandon;
        }
        let chunks = self.buffer.len() / self.chunk_size;
        let (stage, step) = match self.stage {
            WorkerStage::Allocated => (WorkerStage::AwaitInitializing, Step::Report(1)),
            WorkerStage::AwaitInitializing => (
                WorkerStage::Initializing(0),
                Step::Barrier(State::Initializing, self.total),
            ),
            WorkerStage::Initializing(i) => if i < chunks {
                (WorkerStage::Initializing(i + 1), Step::Initialize(i))
            } else {
                self.enter_pass(0)
            },
            WorkerStage::AwaitPass(p) => self.enter_pass(p),
            WorkerStage::StartingPass(p) => (WorkerStage::Operating(p, 0), Step::StartPass),
            WorkerStage::Operating(p, i) => if i < chunks {
                (WorkerStage::Operating(p, i + 1), Step::Operate(i))
            } else {
                (WorkerStage::AwaitPass(p + 1), Step::EndPass)
            },
            WorkerStage::Finishing => (WorkerStage::Finished, Step::Report(1)),
            WorkerStage::Finished => (WorkerStage::Finished, Step::Finish),
            WorkerStage::Cancelled => (WorkerStage::Cancelled, Step::Abandon),
        };
        self.stage = stage;
        step
    }

    fn enter_pass(&self, p: usize) -> (r: (WorkerStage, Step))
        requires
            self@.wf(),
            p <= self@.config.passes,
        ensures
            r == self@.enter_pass(p as nat),
    {
        if p < self.config.passes {
            (WorkerStage::StartingPass(p), Step::Barrier(State::Executing(p + 1, self.config.passes), self.total))
        } else {
            (WorkerStage::Finishing, Step::Barrier(State::Done, self.config.threads as u64))
        }
    }

    /// Initializes chunk `index` as the configuration says, drawing random bytes
    /// from `rng` where it asks for them, and gives the bytes touched.
    pub fn initialize_chunk(&mut self, index: usize, rng: &mut rand::rngs::SmallRng) -> (r: u64)
        requires
            old(self)@.wf(),
            index < old(self)@.chunks(),
        ensures
            final(self)@.wf(),
            r == old(self)@.chunk_size,
            final(self)@ == (WorkerModel { buffer: final(self)@.buffer, ..old(self)@ }),
            ({
                let start = index * old(self)@.chunk_size;
                let end = start + old(self)@.chunk_size;
                &&& final(self)@.buffer.len() == old(self)@.buffer.len()
                &&& final(self)@.buffer.subrange(0, start) == old(self)@.buffer.subrange(0, start)
                &&& final(self)@.buffer.subrange(end, old(self)@.buffer.len() as int)
                    == old(self)@.buffer.subrange(end, old(self)@.buffer.len() as int)
                &&& initialized(
                    old(self)@.config.init_type,
                    old(self)@.buffer.subrange(start, end),
                    final(self)@.buffer.subrange(start, end),
                )
            }),
    {
        let chunk_size = self.chunk_size;
        proof {
            lemma_chunk_fits(index as nat, chunk_size as nat, self@.chunks(), self.buffer@.len());
        }
        let start = index * chunk_size;
        let init = self.config.init_type;
        let chunk = chunk_mut(&mut self.buffer, start, chunk_size);
        match init {
            MemoryInitializationType::Zeros => fill(chunk, 0),
            MemoryInitializationType::Ones => fill(chunk, ONES),
            MemoryInitializationType::Random => fill_random(rng, chunk),
        }
        proof {
            let end = start + chunk_size;
            let old_buf = old(self)@.buffer;
            assert(self.buffer@.subrange(0, start as int) =~= old_buf.subrange(0, start as int));
            assert(self.buffer@.subrange(end as int, old_buf.len() as int) =~= old_buf.subrange(end as int, old_buf.len() as int));
            assert(self.buffer@.subrange(start as int, end as int) =~= chunk@);
        }
        chunk_size as u64
    }

    /// Applies the configured operation to chunk `index` with the configured
    /// strategy, and gives the bytes touched.
    pub fn operate_chunk(&mut self, index: usize) -> (r: u64)
        requires
            old(self)@.wf(),
            index < old(self)@.chunks(),
        ensures
            final(self)@.wf(),
            r == old(self)@.chunk_size,
            final(self)@ == (WorkerModel { buffer: final(self)@.buffer, ..old(self)@ }),
            ({
                let start = index * old(self)@.chunk_size;
                let end = start + old(self)@.chunk_size;
                final(self)@.buffer == old(self)@.buffer.subrange(0, start) + operated(
                    old(self)@.config.operation,
                    old(self)@.config.strategy,
                    old(self)@.buffer.subrange(start, end),
                ) + old(self)@.buffer.subrange(end, old(self)@.buffer.len() as int)
            }),
    {
        let chunk_size = self.chunk_size;
        proof {
            lemma_chunk_fits(index as nat, chunk_size as nat, self@.chunks(), self.buffer@.len());
        }
        let start = index * chunk_size;
        let operation = self.config.operation;
        let strategy = self.config.strategy;
        let chunk = chunk_mut(&mut self.buffer, start, chunk_size);
        match operation {
            MemoryOperation::Read => {
                strategy.read_fn(chunk);
            },
            MemoryOperation::Write => strategy.write_fn(chunk),
            MemoryOperation::Copy => {
                let half = chunk.len() / 2;
                let (from, to) = chunk.split_at_mut(half);
                strategy.copy_nonoverlapping_fn(from, to, half);
            },
        }
        proof {
            let end = start + chunk_size;
            let old_buf = old(self)@.buffer;
            let chunk_before = old_buf.subrange(start as int, end as int);
            assert(chunk@ =~= operated(operation, strategy, chunk_before));
        }
        chunk_size as u64
    }

    /// The worker's buffer.
    pub fn buffer(&self) -> (r: &[u8])
        ensures
            r@ == self@.buffer,
    {
        self.buffer.as_slice()
    }

    /// The result of a complete run: the buffer's bytes once per pass, in `runtime`.
    /// The count is the buffer's nominal size: a tail shorter than a chunk, which
    /// no pass touches, is counted as well, and so are the bytes after a strategy's
    /// last whole register. A buffer of less than one chunk is counted whole
    /// though no pass touches it.
    pub fn result(&self, runtime: Duration) -> (r: TestResult)
        requires
            self@.wf(),
        ensures
            r.memory_processed == self@.buffer.len() * self@.config.passes,
            r.runtime == runtime,
    {
        TestResult { memory_processed: self.buffer.len() * self.config.passes, runtime }
    }
}

/// Whether a run is over: every worker passed into the last phase, or a stop was
/// requested.
pub fn is_done(progress: &ProgressTracker<State>) -> (r: bool)
    ensures
        r == (progress@.stop_requested || progress@.state == State::Done),
{
    progress.stop_requested() || progress.load_state() == State::Done
}

/// The samples of the workers that completed, in order; a worker that stopped
/// early gave none.
pub open spec fn completed(samples: Seq<Option<TestResult>>) -> Seq<TestResult>
    decreases samples.len(),
{
    if samples.len() == 0 {
        Seq::empty()
    } else {
        let rest = completed(samples.drop_last());
        match samples.last() {
            Some(sample) => rest.push(sample),
            None => rest,
        }
    }
}

/// Keeps the samples of the workers that completed, in order.
pub fn collect_results(samples: Vec<Option<TestResult>>) -> (r: Vec<TestResult>)
    ensures
        r@ == completed(samples@),
{
    let mut results: Vec<TestResult> = Vec::new();
    let mut i: usize = 0;
    while i < samples.len()
        invariant
            i <= samples@.len(),
            results@ == completed(samples@.subrange(0, i as int)),
        decreases samples@.len() - i,
    {
        proof {
            assert(samples@.subrange(0, i + 1).drop_last() =~= samples@.subrange(0, i as int));
        }
        match samples[i] {
            Some(sample) => results.push(sample),
            None => {},
        }
        i = i + 1;
    }
    proof {
        assert(samples@.subrange(0, samples@.len() as int) =~= samples@);
    }
    results
}

impl WorkerModel {
    /// The worker once it saw a stop request.
    pub open spec fn cancelled(self) -> WorkerModel {
        WorkerModel { stage: WorkerStage::Cancelled, ..self }
    }

    /// The worker after `k` steps without a stop request.
    pub open spec fn advance(self, k: nat) -> WorkerModel
        decreases k,
    {
        if k == 0 {
            self
        } else {
            WorkerModel { stage: self.step(false).0, ..self }.advance((k - 1) as nat)
        }
    }
}

proof fn lemma_advance_split(m: WorkerModel, a: nat, b: nat)
    ensures
        m.advance(a + b) == m.advance(a).advance(b),
    decreases a,
{
    if a > 0 {
        let m1 = WorkerModel { stage: m.step(false).0, ..m };
        lemma_advance_split(m1, (a - 1) as nat, b);
        assert((a + b - 1) as nat == (a - 1) as nat + b);
    }
}

proof fn lemma_advance_one(m: WorkerModel)
    ensures
        m.advance(1) == (WorkerModel { stage: m.step(false).0, ..m }),
{
    let m1 = WorkerModel { stage: m.step(false).0, ..m };
    assert(m1.advance(0) == m1);
}

/// Initialization visits the chunks from `i` on, one step each.
proof fn lemma_initializing(m: WorkerModel, i: nat)
    requires
        i <= m.chunks(),
        m.stage == WorkerStage::Initializing(i as usize),
        m.buffer.len() <= usize::MAX,
        m.chunk_size >= 1,
    ensures
        m.advance((m.chunks() - i) as nat) == (WorkerModel {
            stage: WorkerStage::Initializing(m.chunks() as usize),
            ..m
        }),
    decreases m.chunks() - i,
{
    lemma_chunks_fit(m);
    if i < m.chunks() {
        let m1 = WorkerModel { stage: WorkerStage::Initializing((i + 1) as usize), ..m };
        lemma_advance_one(m);
        lemma_initializing(m1, i + 1);
        lemma_advance_split(m, 1, (m.chunks() - i - 1) as nat);
    }
}

/// A pass visits the chunks from `i` on, one step each.
proof fn lemma_operating(m: WorkerModel, p: nat, i: nat)
    requires
        i <= m.chunks(),
        p < m.config.passes,
        m.stage == WorkerStage::Operating(p as usize, i as usize),
        m.buffer.len() <= usize::MAX,
        m.chunk_size >= 1,
    ensures
        m.advance((m.chunks() - i) as nat) == (WorkerModel {
            stage: WorkerStage::Operating(p as usize, m.chunks() as usize),
            ..m
        }),
    decreases m.chunks() - i,
{
    lemma_chunks_fit(m);
    if i < m.chunks() {
        let m1 = WorkerModel { stage: WorkerStage::Operating(p as usize, (i + 1) as usize), ..m };
        lemma_advance_one(m);
        lemma_operating(m1, p, i + 1);
        lemma_advance_split(m, 1, (m.chunks() - i - 1) as nat);
    }
}

proof fn lemma_chunks_fit(m: WorkerModel)
    requires
        m.buffer.len() <= usize::MAX,
        m.chunk_size >= 1,
    ensures
        m.chunks() <= usize::MAX,
{
    assert(m.buffer.len() / m.chunk_size <= m.buffer.len()) by (nonlinear_arith)
        requires
            m.chunk_size >= 1,
    ;
}

/// From the start of pass `p`, the passes that are left take `chunks + 3` steps
/// each, and lead to the last barrier behind.
proof fn lemma_passes(m: WorkerModel, p: nat)
    requires
        p < m.config.passes,
        m.stage == WorkerStage::StartingPass(p as usize),
        m.buffer.len() <= usize::MAX,
        m.chunk_size >= 1,
    ensures
        m.advance(((m.config.passes - p) * (m.chunks() + 3)) as nat) == (WorkerModel {
            stage: WorkerStage::Finishing,
            ..m
        }),
    decreases m.config.passes - p,
{
    lemma_chunks_fit(m);
    let c = m.chunks();
    let m1 = WorkerModel { stage: WorkerStage::Operating(p as usize, 0), ..m };
    lemma_advance_one(m);
    lemma_operating(m1, p, 0);
    let m2 = WorkerModel { stage: WorkerStage::Operating(p as usize, c as usize), ..m };
    let m3 = WorkerModel { stage: WorkerStage::AwaitPass((p + 1) as usize), ..m };
    lemma_advance_one(m2);
    lemma_advance_one(m3);
    lemma_advance_split(m, 1, c);
    lemma_advance_split(m, 1 + c, 1);
    lemma_advance_split(m, 1 + c + 1, 1);
    let rest = ((m.config.passes - p - 1) * (c + 3)) as nat;
    assert((m.config.passes - p) * (c + 3) == (c + 3) + (m.config.passes - p - 1) * (c + 3)) by (nonlinear_arith);
    assert(rest >= 0) by (nonlinear_arith)
        requires
            m.config.passes - p - 1 >= 0,
    ;
    if p + 1 < m.config.passes {
        let m4 = WorkerModel { stage: WorkerStage::StartingPass((p + 1) as usize), ..m };
        lemma_passes(m4, p + 1);
        lemma_advance_split(m, c + 3, rest);
    } else {
        assert(rest == 0) by (nonlinear_arith)
            requires
                m.config.passes - p - 1 == 0,
                rest == (m.config.passes - p - 1) * (c + 3),
        ;
    }
}

/// A worker that sees no stop request completes: after
/// `4 + chunks + passes * (chunks + 3)` steps (one report and one barrier, one
/// step per chunk to initialize, per pass a barrier, a start, one step per chunk
/// and an end, then the last barrier and the last report) it has finished, and its
/// next step hands out the result.
pub proof fn lemma_uncancelled_worker_completes(m: WorkerModel)
    requires
        m.wf(),
        m.stage == WorkerStage::Allocated,
        m.config.passes >= 1,
    ensures
        m.advance((4 + m.chunks() + m.config.passes * (m.chunks() + 3)) as nat).stage == WorkerStage::Finished,
        m.advance((4 + m.chunks() + m.config.passes * (m.chunks() + 3)) as nat).step(false).1 == Step::Finish,
{
    let c = m.chunks();
    let passes_steps = (m.config.passes * (c + 3)) as nat;
    assert(m.config.passes * (c + 3) >= 0) by (nonlinear_arith)
        requires
            m.config.passes >= 1,
    ;
    let a1 = WorkerModel { stage: WorkerStage::AwaitInitializing, ..m };
    let a2 = WorkerModel { stage: WorkerStage::Initializing(0), ..m };
    let a3 = WorkerModel { stage: WorkerStage::Initializing(c as usize), ..m };
    let a4 = WorkerModel { stage: WorkerStage::StartingPass(0), ..m };
    let a5 = WorkerModel { stage: WorkerStage::Finishing, ..m };
    lemma_chunks_fit(m);
    lemma_advance_one(m);
    lemma_advance_one(a1);
    lemma_advance_split(m, 1, 1);
    lemma_initializing(a2, 0);
    lemma_advance_split(m, 2, c);
    lemma_advance_one(a3);
    lemma_advance_split(m, 2 + c, 1);
    lemma_passes(a4, 0);
    lemma_advance_split(m, 3 + c, passes_steps);
    lemma_advance_one(a5);
    lemma_advance_split(m, 3 + c + passes_steps, 1);
}

/// A stop request right after the start leaves no result: a worker that has not
/// finished abandons at its next step and every step after, so it hands back no
/// sample, and samples that are all absent collect to an empty list.
pub proof fn lemma_stop_before_finish_yields_nothing(workers: Seq<WorkerModel>)
    requires
        forall|i: int| 0 <= i < workers.len() ==> (#[trigger] workers[i]).stage != WorkerStage::Finished,
    ensures
        forall|i: int|
            0 <= i < workers.len() ==> (#[trigger] workers[i]).step(true) == (WorkerStage::Cancelled, Step::Abandon),
        forall|i: int, stop: bool|
            0 <= i < workers.len() ==> #[trigger] workers[i].cancelled().step(stop) == (
                WorkerStage::Cancelled,
                Step::Abandon,
            ),
        completed(Seq::new(workers.len(), |i: int| None::<TestResult>)) == Seq::<TestResult>::empty(),
{
    lemma_no_samples(workers.len());
}

proof fn lemma_no_samples(n: nat)
    ensures
        completed(Seq::new(n, |i: int| None::<TestResult>)) == Seq::<TestResult>::empty(),
    decreases n,
{
    if n > 0 {
        lemma_no_samples((n - 1) as nat);
        assert(Seq::new(n, |i: int| None::<TestResult>).drop_last() =~= Seq::new((n - 1) as nat, |i: int| None::<TestResult>));
    }
}

proof fn lemma_chunk_fits(index: nat, chunk_size: nat, chunks: nat, len: nat)
    requires
        index < chunks,
        chunks * chunk_size <= len,
    ensures
        index * chunk_size + chunk_size <= len,
{
    assert(index * chunk_size + chunk_size <= chunks * chunk_size) by (nonlinear_arith)
        requires
            index < chunks,
    ;
}

} // verus!
