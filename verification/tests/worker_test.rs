use springql_core::api::spring_open;
use springql_core::api::SpringConfig;
use springql_core::error::SpringError;
use springql_core::name::PumpName;
use springql_core::name::SourceReaderName;
use springql_core::scheduler::pick;
use springql_core::scheduler::TaskId;
use springql_core::task::TaskOutcome;
use springql_core::worker::same_task;
use springql_core::worker::Event;
use springql_core::worker::Latch;
use springql_core::worker::RetryState;
use springql_core::worker::Settle;
use springql_core::worker::Tick;
use springql_core::worker::Worker;
use springql_core::worker::BACKOFF_BASE_MSEC;
use springql_core::worker::BACKOFF_CAP_MSEC;
use springql_core::worker::PARK_MSEC;

#[test]
fn test_backoff_doubles_up_to_the_cap() {
    let mut retry = RetryState::new();
    let delays: Vec<u64> = (0..10).map(|_| retry.on_failure()).collect();
    assert_eq!(delays, vec![100, 200, 400, 800, 1600, 3200, 6400, 10000, 10000, 10000]);
    assert_eq!(retry.error_count, 10);
    assert_eq!(BACKOFF_BASE_MSEC, 100);
    assert_eq!(BACKOFF_CAP_MSEC, 10000);
}

#[test]
fn test_backoff_resets_on_success() {
    let mut retry = RetryState::new();
    retry.on_failure();
    retry.on_failure();
    retry.on_success();
    assert_eq!(retry.failures, 0);
    assert_eq!(retry.error_count, 2);
    assert_eq!(retry.on_failure(), 100);
}

#[test]
fn test_latch_releases_after_all_arrivals() {
    let mut latch = Latch::new(3);
    assert!(!latch.is_released());
    latch.arrive();
    latch.arrive();
    assert!(!latch.is_released());
    latch.arrive();
    assert!(latch.is_released());
    latch.arrive();
    assert!(latch.is_released());
    assert!(Latch::new(0).is_released());
}

#[test]
fn test_pick_takes_the_greatest_score() {
    assert_eq!(pick(&vec![Some(1), Some(5), Some(3)], 0), Some(1));
    assert_eq!(pick(&vec![None, Some(-4), None], 0), Some(1));
    assert_eq!(pick(&vec![None, None], 0), None);
    assert_eq!(pick(&Vec::new(), 0), None);
}

#[test]
fn test_pick_breaks_ties_round_robin() {
    let scores = vec![Some(2), Some(2), Some(2)];
    assert_eq!(pick(&scores, 0), Some(0));
    assert_eq!(pick(&scores, 1), Some(1));
    assert_eq!(pick(&scores, 2), Some(2));
    assert_eq!(pick(&scores, 3), Some(0));
    assert_eq!(pick(&vec![Some(2), Some(9), Some(2)], 2), Some(1));
    assert_eq!(pick(&vec![Some(2), None, Some(2)], 1), Some(2));
}

#[test]
fn test_worker_exits_after_shutdown() {
    let pipeline = spring_open(&SpringConfig::new(1)).unwrap();
    let mut worker = Worker::new();
    assert!(matches!(worker.tick(&pipeline.engine), Tick::Park(PARK_MSEC)));
    worker.on_event(Event::MetricsTick);
    worker.on_event(Event::PipelineUpdated(2));
    assert!(!worker.stop);
    worker.on_event(Event::Shutdown);
    assert!(worker.stop);
    assert!(matches!(worker.tick(&pipeline.engine), Tick::Exit));
    assert!(matches!(worker.tick(&pipeline.engine), Tick::Exit));
}

#[test]
fn test_worker_turns_to_the_current_version_at_each_tick() {
    let pipeline = spring_open(&SpringConfig::new(1)).unwrap();
    let mut worker = Worker::new();
    assert_eq!(worker.version, 0);
    worker.tick(&pipeline.engine);
    assert_eq!(worker.version, 1);
}

fn source(name: &str) -> TaskId {
    TaskId::Source(SourceReaderName::new(name.to_string()))
}

#[test]
fn test_settle_parks_on_no_work_and_backs_off_on_foreign_failure() {
    let mut worker = Worker::new();
    let task = source("a");
    assert_eq!(worker.settle(&task, Ok(TaskOutcome::NoWork)), Settle::Park(10));
    assert!(worker.retries.is_empty());
    assert_eq!(worker.settle(&task, Ok(TaskOutcome::Yielded)), Settle::Continue);
    assert_eq!(worker.settle(&task, Err(SpringError::ForeignIo)), Settle::Park(100));
    assert_eq!(worker.settle(&task, Err(SpringError::ForeignSourceTimeout)), Settle::Park(200));
    assert_eq!(worker.settle(&task, Err(SpringError::ForeignSinkTimeout)), Settle::Park(400));
    assert_eq!(worker.retries[0].state.error_count, 3);
    assert_eq!(worker.retries[0].state.failures, 3);
    assert_eq!(worker.settle(&task, Ok(TaskOutcome::Yielded)), Settle::Continue);
    assert_eq!(worker.retries[0].state.failures, 0);
    assert_eq!(worker.retries[0].state.error_count, 3);
    assert_eq!(worker.settle(&task, Err(SpringError::ForeignIo)), Settle::Park(100));
    assert!(!worker.stop);
}

#[test]
fn test_each_task_has_its_own_retry_state() {
    let mut worker = Worker::new();
    let a = source("a");
    let b = source("b");
    let pump_a = TaskId::Pump(PumpName::new("a".to_string()));
    assert_eq!(worker.settle(&a, Err(SpringError::ForeignIo)), Settle::Park(100));
    assert_eq!(worker.settle(&a, Err(SpringError::ForeignIo)), Settle::Park(200));
    assert_eq!(worker.settle(&b, Err(SpringError::ForeignIo)), Settle::Park(100));
    assert_eq!(worker.settle(&pump_a, Err(SpringError::ForeignIo)), Settle::Park(100));
    assert_eq!(worker.settle(&b, Ok(TaskOutcome::Yielded)), Settle::Continue);
    assert_eq!(worker.settle(&a, Err(SpringError::ForeignIo)), Settle::Park(400));
    assert_eq!(worker.settle(&b, Err(SpringError::ForeignIo)), Settle::Park(100));
    assert_eq!(worker.retries.len(), 3);
    assert!(same_task(&a, &source("a")));
    assert!(!same_task(&a, &b));
    assert!(!same_task(&a, &pump_a));
    assert_eq!(worker.find_retry(&b), Some(1));
    assert_eq!(worker.find_retry(&source("c")), None);
}

#[test]
fn test_settle_aborts_on_internal_failure() {
    let mut worker = Worker::new();
    let task = source("a");
    assert_eq!(worker.settle(&task, Err(SpringError::Sql)), Settle::Continue);
    assert!(!worker.stop);
    assert_eq!(worker.settle(&task, Err(SpringError::Internal)), Settle::Abort);
    assert!(worker.stop);
    assert_eq!(worker.retries[0].state.error_count, 2);
    assert_eq!(worker.retries[0].state.failures, 0);
}
