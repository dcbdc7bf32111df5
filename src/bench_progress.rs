use vstd::prelude::*;

verus! {

/// A progress bar that also counts the workers that finished.
pub struct BenchmarkProgressTracker {
    pub total: u64,
    pub counter: u64,
    pub threads: usize,
    pub threads_done: usize,
}

/// A copy of a [`BenchmarkProgressTracker`]'s progress, taken at one moment.
#[derive(Debug, Clone, Copy, PartialEq, Eq, Structural)]
pub struct BenchmarkProgressSnapshop {
    pub total: u64,
    pub counter: u64,
}

impl BenchmarkProgressTracker {
    pub fn new(total: u64, threads: usize) -> (r: Self)
        ensures
            r.total == total,
            r.counter == 0,
            r.threads == threads,
            r.threads_done == 0,
    {
        BenchmarkProgressTracker { total, counter: 0, threads, threads_done: 0 }
    }

    /// Counts one more finished worker; never more than the number of workers.
    pub fn flag_thread_done(&mut self)
        ensures
            final(self).threads_done == if old(self).threads_done < old(self).threads {
                old(self).threads_done + 1
            } else {
                old(self).threads_done as int
            },
            final(self).total == old(self).total,
            final(self).counter == old(self).counter,
            final(self).threads == old(self).threads,
    {
        if self.threads_done < self.threads {
            self.threads_done = self.threads_done + 1;
        }
    }

    /// Adds `amount` units of progress; the counter wraps as a 64-bit counter does.
    pub fn add(&mut self, amount: u64)
        ensures
            final(self).counter == (old(self).counter + amount) % 0x1_0000_0000_0000_0000,
            final(self).total == old(self).total,
            final(self).threads == old(self).threads,
            final(self).threads_done == old(self).threads_done,
    {
        self.counter = self.counter.wrapping_add(amount);
    }

    pub fn set_total(&mut self, new_total: u64)
        ensures
            *final(self) == (BenchmarkProgressTracker { total: new_total, ..*old(self) }),
    {
        self.total = new_total;
    }

    pub fn set_counter(&mut self, new_counter: u64)
        ensures
            *final(self) == (BenchmarkProgressTracker { counter: new_counter, ..*old(self) }),
    {
        self.counter = new_counter;
    }

    /// Starts the tracker afresh for a new run.
    pub fn reset(&mut self, total: u64, threads: usize)
        ensures
            *final(self) == (BenchmarkProgressTracker { total, counter: 0, threads, threads_done: 0 }),
    {
        self.total = total;
        self.threads_done = 0;
        self.threads = threads;
        self.set_counter(0);
    }

    pub fn all_threads_done(&self) -> (r: bool)
        ensures
            r == (self.threads_done == self.threads),
    {
        self.threads_done == self.threads
    }

    pub fn load(&self) -> (r: BenchmarkProgressSnapshop)
        ensures
            r == (BenchmarkProgressSnapshop { total: self.total, counter: self.counter }),
    {
        BenchmarkProgressSnapshop { total: self.total, counter: self.counter }
    }
}

impl BenchmarkProgressSnapshop {
    /// Whether the counter reached the total.
    pub fn is_full(&self) -> (r: bool)
        ensures
            r == (self.counter >= self.total),
    {
        self.counter >= self.total
    }
}

/// The settings of a throughput run split into blocks.
#[derive(Debug, Clone, Copy, PartialEq, Eq, Structural)]
pub struct MemoryThroughputBenchConfig {
    pub total_size: usize,
    pub block_size: usize,
    pub hugepages: bool,
    pub threads: usize,
}

} // verus!
