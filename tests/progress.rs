use benchmarks::bench_progress::BenchmarkProgressTracker;
use benchmarks::memory::State;
use benchmarks::progress::{Arrival, ProgressTracker};

#[test]
fn one_writer_per_barrier_cycle() {
    for threads in 1..=8usize {
        let mut tracker = ProgressTracker::new(10, threads, State::Allocating);
        for i in 0..threads {
            let outcome = tracker.transition_state(State::Initializing, 99);
            if i + 1 < threads {
                assert_eq!(outcome, Arrival::Waiting);
                assert_eq!(tracker.load_state(), State::Allocating);
                assert!(!tracker.is_released(&State::Initializing));
            } else {
                assert_eq!(outcome, Arrival::Transitioned);
            }
        }
        let snapshot = tracker.load();
        assert_eq!(snapshot.state, State::Initializing);
        assert_eq!(snapshot.total, 99);
        assert_eq!(snapshot.counter, 0);
        assert_eq!(snapshot.threads_waiting_to_transition, 0);
        assert!(tracker.is_released(&State::Initializing));
    }
}

#[test]
fn second_cycle_after_first() {
    let mut tracker = ProgressTracker::new(0, 2, State::Allocating);
    assert_eq!(tracker.transition_state(State::Initializing, 5), Arrival::Waiting);
    assert_eq!(tracker.transition_state(State::Initializing, 5), Arrival::Transitioned);
    assert_eq!(tracker.transition_state(State::Executing(1, 2), 7), Arrival::Waiting);
    assert_eq!(tracker.load_state(), State::Initializing);
    assert_eq!(tracker.transition_state(State::Executing(1, 2), 7), Arrival::Transitioned);
    assert_eq!(tracker.load_state(), State::Executing(1, 2));
    assert_eq!(tracker.load().total, 7);
}

#[test]
fn adds_from_many_workers_lose_nothing() {
    let workers = 6u64;
    let calls = 250u64;
    let amount = 3u64;
    let mut tracker = ProgressTracker::new(0, 6, State::Allocating);
    for _ in 0..calls {
        for _ in 0..workers {
            tracker.add(amount);
        }
    }
    assert_eq!(tracker.load().counter, amount * calls * workers);
}

#[test]
fn add_wraps_like_a_64_bit_counter() {
    let mut tracker = ProgressTracker::new(0, 1, State::Allocating);
    tracker.set_counter(u64::MAX);
    tracker.add(2);
    assert_eq!(tracker.load().counter, 1);
}

#[test]
fn stop_releases_blocked_and_later_callers() {
    let mut tracker = ProgressTracker::new(0, 3, State::Allocating);
    assert_eq!(tracker.transition_state(State::Initializing, 1), Arrival::Waiting);
    assert!(!tracker.is_released(&State::Initializing));
    tracker.request_stop();
    assert!(tracker.stop_requested());
    assert!(tracker.is_released(&State::Initializing));
    assert!(tracker.is_released(&State::Done));
    assert_eq!(tracker.transition_state(State::Initializing, 1), Arrival::Cancelled);
    assert!(tracker.is_released(&State::Executing(1, 1)));
    assert!(tracker.load().was_cancelled());
}

#[test]
fn reset_starts_a_fresh_run() {
    let mut tracker = ProgressTracker::new(5, 2, State::Done);
    tracker.add(4);
    assert_eq!(tracker.transition_state(State::Initializing, 1), Arrival::Waiting);
    tracker.request_stop();
    tracker.reset(40, 3, State::Allocating);
    let snapshot = tracker.load();
    assert_eq!(snapshot.total, 40);
    assert_eq!(snapshot.counter, 0);
    assert_eq!(snapshot.threads_waiting_to_transition, 0);
    assert_eq!(snapshot.current_state(), State::Allocating);
    assert!(!snapshot.was_cancelled());
}

#[test]
fn add_thread_waits_for_a_closed_cycle() {
    let mut tracker = ProgressTracker::new(0, 1, State::Allocating);
    tracker.add_thread();
    assert_eq!(tracker.transition_state(State::Initializing, 0), Arrival::Waiting);
    tracker.add_thread();
    assert_eq!(tracker.transition_state(State::Initializing, 0), Arrival::Transitioned);
}

#[test]
fn set_total_and_counter() {
    let mut tracker = ProgressTracker::new(1, 1, State::Allocating);
    tracker.set_total(77);
    tracker.set_counter(12);
    let snapshot = tracker.load();
    assert_eq!((snapshot.total, snapshot.counter), (77, 12));
}

#[test]
fn simple_tracker_counts_finished_threads() {
    let mut tracker = BenchmarkProgressTracker::new(100, 2);
    assert!(!tracker.all_threads_done());
    tracker.flag_thread_done();
    tracker.flag_thread_done();
    tracker.flag_thread_done();
    assert_eq!(tracker.threads_done, 2);
    assert!(tracker.all_threads_done());
    tracker.add(60);
    assert!(!tracker.load().is_full());
    tracker.add(40);
    assert!(tracker.load().is_full());
    tracker.set_total(500);
    assert_eq!(tracker.load().total, 500);
    tracker.reset(10, 4);
    assert_eq!(tracker.load().counter, 0);
    assert_eq!(tracker.threads, 4);
    assert_eq!(tracker.threads_done, 0);
}

#[test]
fn no_phase_advance_after_stop() {
    let mut tracker = ProgressTracker::new(10, 1, State::Allocating);
    tracker.add(3);
    tracker.request_stop();
    assert_eq!(tracker.transition_state(State::Initializing, 5), Arrival::Cancelled);
    let snapshot = tracker.load();
    assert_eq!(snapshot.state, State::Allocating);
    assert_eq!(snapshot.total, 10);
    assert_eq!(snapshot.counter, 3);
    assert_eq!(snapshot.threads_waiting_to_transition, 0);

    let mut tracker = ProgressTracker::new(0, 3, State::Allocating);
    assert_eq!(tracker.transition_state(State::Initializing, 1), Arrival::Waiting);
    assert_eq!(tracker.transition_state(State::Initializing, 1), Arrival::Waiting);
    tracker.request_stop();
    assert_eq!(tracker.transition_state(State::Initializing, 1), Arrival::Cancelled);
    assert_eq!(tracker.load_state(), State::Allocating);
    assert_eq!(tracker.load().threads_waiting_to_transition, 2);
}
