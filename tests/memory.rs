use benchmarks::memory::{
    collect_results, is_done, Config, MemoryInitializationType, MemoryOperation, State, Step, TestResult,
    Worker,
};
use benchmarks::progress::{Arrival, ProgressTracker};
use benchmarks::strategies::{OperationStrategy, SelectableEnum};
use rand::SeedableRng;
use std::time::Duration;

const PAGE: usize = 4096;

/// Runs every worker of `config` on one thread, taking turns, with the tracker as
/// the barrier. `stop_at` asks for a stop once that many steps were taken.
fn run(config: Config, stop_at: Option<usize>) -> (Vec<TestResult>, ProgressTracker<State>) {
    assert!(config.is_runnable(PAGE));
    let mut tracker = config.new_tracker(PAGE);
    let mut workers: Vec<Worker> = (0..config.threads).map(|_| Worker::new(config, PAGE)).collect();
    let mut waiting: Vec<Option<State>> = vec![None; config.threads];
    let mut samples: Vec<Option<Option<TestResult>>> = vec![None; config.threads];
    let mut rng = rand::rngs::SmallRng::seed_from_u64(7);
    let mut steps = 0usize;
    while samples.iter().any(|s| s.is_none()) {
        for (i, worker) in workers.iter_mut().enumerate() {
            if samples[i].is_some() {
                continue;
            }
            if let Some(target) = &waiting[i] {
                if !tracker.is_released(target) {
                    continue;
                }
                waiting[i] = None;
            }
            steps += 1;
            if stop_at == Some(steps) {
                tracker.request_stop();
            }
            match worker.next_step(tracker.stop_requested()) {
                Step::Report(units) => tracker.add(units),
                Step::Barrier(state, total) => {
                    if tracker.transition_state(state, total) == Arrival::Waiting {
                        waiting[i] = Some(state);
                    }
                }
                Step::Initialize(chunk) => {
                    let n = worker.initialize_chunk(chunk, &mut rng);
                    tracker.add(n);
                }
                Step::StartPass | Step::EndPass => {}
                Step::Operate(chunk) => {
                    let n = worker.operate_chunk(chunk);
                    tracker.add(n);
                }
                Step::Finish => samples[i] = Some(Some(worker.result(Duration::from_millis(3)))),
                Step::Abandon => samples[i] = Some(None),
            }
        }
    }
    (collect_results(samples.into_iter().map(|s| s.unwrap()).collect()), tracker)
}

fn config(threads: usize, passes: usize, memory_size: usize, operation: MemoryOperation) -> Config {
    Config {
        memory_size,
        passes,
        threads,
        operation,
        init_type: MemoryInitializationType::Zeros,
        strategy: OperationStrategy::Generic,
    }
}

#[test]
fn four_workers_complete_a_write_run() {
    let config = config(4, 2, 4 * PAGE, MemoryOperation::Write);
    let (results, tracker) = run(config, None);
    assert_eq!(results.len(), 4);
    for r in &results {
        assert_eq!(r.memory_processed, (config.memory_size / 4) * 2);
        assert_eq!(r.runtime, Duration::from_millis(3));
    }
    assert!(is_done(&tracker));
    assert_eq!(tracker.load_state(), State::Done);
}

#[test]
fn stop_right_after_start_gives_no_results() {
    let config = config(4, 2, 64 * PAGE, MemoryOperation::Read);
    let (results, tracker) = run(config, Some(1));
    assert!(results.is_empty());
    assert!(is_done(&tracker));
}

#[test]
fn stop_in_the_middle_gives_no_results() {
    let config = config(2, 3, 64 * PAGE, MemoryOperation::Copy);
    let (results, _) = run(config, Some(40));
    assert!(results.is_empty());
}

#[test]
fn every_operation_and_strategy_runs_to_completion() {
    for strategy in OperationStrategy::all_values() {
        for operation in MemoryOperation::all_values() {
            for init_type in MemoryInitializationType::all_values() {
                let config = Config {
                    memory_size: 16 * PAGE,
                    passes: 2,
                    threads: 2,
                    operation,
                    init_type,
                    strategy,
                };
                let (results, _) = run(config, None);
                assert_eq!(results.len(), 2);
                assert!(results.iter().all(|r| r.memory_processed == 16 * PAGE));
            }
        }
    }
}

#[test]
fn thread_buffers_are_rounded_up_to_pages() {
    let c = config(3, 1, 10 * PAGE, MemoryOperation::Read);
    assert_eq!(c.thread_memory_layout(PAGE), 4 * PAGE);
    let c = config(4, 1, 4 * PAGE, MemoryOperation::Read);
    assert_eq!(c.thread_memory_layout(PAGE), PAGE);
    let c = config(1, 1, 0, MemoryOperation::Read);
    assert_eq!(c.thread_memory_layout(PAGE), 0);
    let c = config(2, 1, 3, MemoryOperation::Read);
    assert_eq!(c.thread_memory_layout(PAGE), PAGE);
}

#[test]
fn runnable_configurations() {
    assert!(config(1, 1, PAGE, MemoryOperation::Read).is_runnable(PAGE));
    assert!(!config(0, 1, PAGE, MemoryOperation::Read).is_runnable(PAGE));
    assert!(!config(1, 0, PAGE, MemoryOperation::Read).is_runnable(PAGE));
    assert!(!config(1, 1, PAGE, MemoryOperation::Read).is_runnable(0));
    assert!(!config(1, usize::MAX, PAGE, MemoryOperation::Read).is_runnable(PAGE));
    assert!(!config(1, 1, usize::MAX, MemoryOperation::Read).is_runnable(PAGE));
}

#[test]
fn new_tracker_counts_every_byte() {
    let c = config(3, 2, 10 * PAGE, MemoryOperation::Read);
    let tracker = c.new_tracker(PAGE);
    let snapshot = tracker.load();
    assert_eq!(snapshot.total, (12 * PAGE) as u64);
    assert_eq!(snapshot.state, State::Allocating);
    assert_eq!(snapshot.counter, 0);
}

#[test]
fn worker_steps_in_order() {
    let c = config(1, 1, 4 * PAGE, MemoryOperation::Write);
    let mut w = Worker::new(c, PAGE);
    let total = (4 * PAGE) as u64;
    assert_eq!(w.next_step(false), Step::Report(1));
    assert_eq!(w.next_step(false), Step::Barrier(State::Initializing, total));
    assert_eq!(w.next_step(false), Step::Initialize(0));
    assert_eq!(w.next_step(false), Step::Barrier(State::Executing(1, 1), total));
    assert_eq!(w.next_step(false), Step::StartPass);
    assert_eq!(w.next_step(false), Step::Operate(0));
    assert_eq!(w.operate_chunk(0), (4 * PAGE) as u64);
    assert_eq!(w.next_step(false), Step::EndPass);
    assert_eq!(w.next_step(false), Step::Barrier(State::Done, 1));
    assert_eq!(w.next_step(false), Step::Report(1));
    assert_eq!(w.next_step(false), Step::Finish);
    assert_eq!(w.next_step(true), Step::Finish);
    assert_eq!(w.result(Duration::ZERO).memory_processed, 4 * PAGE);
}

#[test]
fn worker_abandons_on_stop() {
    let c = config(1, 1, 4 * PAGE, MemoryOperation::Write);
    let mut w = Worker::new(c, PAGE);
    assert_eq!(w.next_step(false), Step::Report(1));
    assert_eq!(w.next_step(true), Step::Abandon);
    assert_eq!(w.next_step(false), Step::Abandon);
}

#[test]
fn collect_results_keeps_completed_samples_in_order() {
    let a = TestResult { memory_processed: 1, runtime: Duration::from_secs(1) };
    let b = TestResult { memory_processed: 2, runtime: Duration::from_secs(2) };
    let kept = collect_results(vec![Some(a), None, Some(b), None]);
    assert_eq!(kept.len(), 2);
    assert_eq!(kept[0].memory_processed, 1);
    assert_eq!(kept[1].memory_processed, 2);
    assert!(collect_results(vec![None, None]).is_empty());
}

#[test]
fn operation_and_init_labels() {
    let ops: Vec<&str> = MemoryOperation::all_values().iter().map(|o| o.as_str()).collect();
    assert_eq!(ops, vec!["Read", "Write", "Copy"]);
    let inits: Vec<&str> = MemoryInitializationType::all_values().iter().map(|o| o.as_str()).collect();
    assert_eq!(inits, vec!["Zeros", "Ones", "Random"]);
}

#[test]
fn chunks_are_initialized_and_operated() {
    let mut c = config(1, 1, 8 * PAGE, MemoryOperation::Copy);
    c.init_type = MemoryInitializationType::Ones;
    let mut w = Worker::new(c, PAGE);
    assert!(w.buffer().iter().all(|&b| b == 0));
    let mut rng = rand::rngs::SmallRng::seed_from_u64(1);
    assert_eq!(w.initialize_chunk(1, &mut rng), (4 * PAGE) as u64);
    assert!(w.buffer()[..4 * PAGE].iter().all(|&b| b == 0));
    assert!(w.buffer()[4 * PAGE..].iter().all(|&b| b == 0xFF));

    let mut c = config(1, 1, 4 * PAGE, MemoryOperation::Copy);
    c.init_type = MemoryInitializationType::Random;
    let mut w = Worker::new(c, PAGE);
    w.initialize_chunk(0, &mut rng);
    assert!(w.buffer().iter().any(|&b| b != 0));
    w.operate_chunk(0);
    let half = 2 * PAGE;
    assert_eq!(&w.buffer()[..half], &w.buffer()[half..]);
}

#[test]
fn write_operation_fills_the_pattern() {
    let mut c = config(1, 1, 4 * PAGE, MemoryOperation::Write);
    c.strategy = OperationStrategy::AVX2;
    let mut w = Worker::new(c, PAGE);
    w.operate_chunk(0);
    assert!(w.buffer().iter().all(|&b| b == 0xAA));
}

#[test]
fn minimum_size_is_one_chunk_per_thread() {
    assert!(config(2, 1, 8 * PAGE, MemoryOperation::Read).has_minimum_size(PAGE));
    assert!(!config(2, 1, 8 * PAGE - 1, MemoryOperation::Read).has_minimum_size(PAGE));
    assert!(!config(usize::MAX, 1, 8 * PAGE, MemoryOperation::Read).has_minimum_size(PAGE));
}
