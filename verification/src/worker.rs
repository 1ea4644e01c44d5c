//! Workers as state machines: what a worker does on an event, at the start
//! of a tick and after a task ran. The thread that owns a worker performs
//! the actions.

use vstd::prelude::*;
use crate::error::SpringError;
use crate::scheduler::scheduled;
use crate::scheduler::task_at;
use crate::scheduler::Scheduler;
use crate::scheduler::Slot;
use crate::scheduler::TaskId;
use crate::stream_engine::StreamEngine;
use crate::task::TaskOutcome;

verus! {

/// For how long a worker without work parks, in milliseconds.
pub const PARK_MSEC: u64 = 10;

/// The first delay of a retry after a foreign I/O failure, in milliseconds.
pub const BACKOFF_BASE_MSEC: u64 = 100;

/// The longest delay of a retry, in milliseconds.
pub const BACKOFF_CAP_MSEC: u64 = 10000;

/// What the event bus broadcasts.
#[derive(Clone, Copy, Debug, PartialEq, Eq, Structural)]
pub enum Event {
    /// The pipeline moved on to the given version.
    PipelineUpdated(u64),
    MetricsTick,
    Shutdown,
}

/// What a worker does at the start of a tick.
#[derive(Debug)]
pub enum Tick {
    /// Leave the loop.
    Exit,
    /// Wait for the given number of milliseconds, or until an event.
    Park(u64),
    /// Run the task.
    Run(TaskId),
}

/// What a worker does after a task ran.
#[derive(Clone, Copy, Debug, PartialEq, Eq, Structural)]
pub enum Settle {
    /// Go on with the next tick.
    Continue,
    /// Wait for the given number of milliseconds, or until an event.
    Park(u64),
    /// Publish `Shutdown` and leave the loop.
    Abort,
}

/// The delay before the retry that follows the `failures`-th failure in a
/// row: the base delay doubled with every failure after the first, up to
/// the cap.
pub open spec fn backoff_msec(failures: nat) -> nat
    decreases failures,
{
    if failures == 0 {
        0
    } else if failures == 1 {
        BACKOFF_BASE_MSEC as nat
    } else if 2 * backoff_msec((failures - 1) as nat) >= BACKOFF_CAP_MSEC {
        BACKOFF_CAP_MSEC as nat
    } else {
        2 * backoff_msec((failures - 1) as nat)
    }
}

/// The retry state of a task: how many foreign I/O failures it has seen
/// in a row, the delay before its next retry, and how many errors it has
/// seen in all.
#[derive(Clone, Copy, Debug, PartialEq, Eq, Structural)]
pub struct RetryState {
    pub failures: u32,
    pub delay_msec: u64,
    pub error_count: u64,
}

impl RetryState {
    /// The delay is that of the failures seen in a row.
    pub open spec fn wf(self) -> bool {
        self.delay_msec == backoff_msec(self.failures as nat) && self.delay_msec <= BACKOFF_CAP_MSEC
    }

    /// The state before any failure.
    pub fn new() -> (res: RetryState)
        ensures
            res.wf(),
            res.failures == 0,
            res.error_count == 0,
    {
        RetryState { failures: 0, delay_msec: 0, error_count: 0 }
    }

    /// Notes a foreign I/O failure and gives the delay before the retry.
    /// Counters that reach their greatest value stay there.
    pub fn on_failure(&mut self) -> (res: u64)
        requires
            old(self).wf(),
        ensures
            final(self).wf(),
            final(self).failures == (if old(self).failures < u32::MAX {
                (old(self).failures + 1) as u32
            } else {
                u32::MAX
            }),
            final(self).error_count == (if old(self).error_count < u64::MAX {
                (old(self).error_count + 1) as u64
            } else {
                u64::MAX
            }),
            res == final(self).delay_msec,
            res == backoff_msec(final(self).failures as nat),
    {
        if self.error_count < u64::MAX {
            self.error_count = self.error_count + 1;
        }
        if self.failures < u32::MAX {
            self.failures = self.failures + 1;
            if self.failures == 1 {
                self.delay_msec = BACKOFF_BASE_MSEC;
            } else if 2 * self.delay_msec >= BACKOFF_CAP_MSEC {
                self.delay_msec = BACKOFF_CAP_MSEC;
            } else {
                self.delay_msec = 2 * self.delay_msec;
            }
        }
        self.delay_msec
    }

    /// Notes a success: the next failure is the first in a row again.
    pub fn on_success(&mut self)
        ensures
            final(self).wf(),
            final(self).failures == 0,
            final(self).error_count == old(self).error_count,
    {
        self.failures = 0;
        self.delay_msec = 0;
    }
}

/// A count-down latch: released once every party has arrived.
#[derive(Clone, Copy, Debug, PartialEq, Eq, Structural)]
pub struct Latch {
    pub remaining: u32,
}

impl Latch {
    /// A latch that waits for `parties` arrivals.
    pub fn new(parties: u32) -> (res: Latch)
        ensures
            res.remaining == parties,
    {
        Latch { remaining: parties }
    }

    /// Notes the arrival of one party; an arrival at a released latch
    /// changes nothing.
    pub fn arrive(&mut self)
        ensures
            final(self).remaining == (if old(self).remaining > 0 {
                (old(self).remaining - 1) as u32
            } else {
                0
            }),
    {
        if self.remaining > 0 {
            self.remaining = self.remaining - 1;
        }
    }

    /// Whether every party has arrived.
    pub fn is_released(&self) -> (res: bool)
        ensures
            res == (self.remaining == 0),
    {
        self.remaining == 0
    }
}

/// What tells one task from another: its kind and its name.
pub struct TaskKey {
    pub kind: int,
    pub name: Seq<char>,
}

/// The key of a task.
pub open spec fn task_key(task: TaskId) -> TaskKey {
    match task {
        TaskId::Source(name) => TaskKey { kind: 0, name: name@ },
        TaskId::Pump(name) => TaskKey { kind: 1, name: name@ },
        TaskId::Sink(name) => TaskKey { kind: 2, name: name@ },
    }
}

/// Whether both stand for the same task.
pub fn same_task(a: &TaskId, b: &TaskId) -> (res: bool)
    ensures
        res == (task_key(*a) == task_key(*b)),
{
    match (a, b) {
        (TaskId::Source(x), TaskId::Source(y)) => x.same(y),
        (TaskId::Pump(x), TaskId::Pump(y)) => x.same(y),
        (TaskId::Sink(x), TaskId::Sink(y)) => x.same(y),
        _ => false,
    }
}

/// A copy of a task's name and kind.
pub fn duplicate_task(task: &TaskId) -> (res: TaskId)
    ensures
        res == *task,
{
    match task {
        TaskId::Source(name) => TaskId::Source(name.duplicate()),
        TaskId::Pump(name) => TaskId::Pump(name.duplicate()),
        TaskId::Sink(name) => TaskId::Sink(name.duplicate()),
    }
}

/// The retry state of one task.
#[derive(Debug)]
pub struct TaskRetry {
    pub task: TaskId,
    pub state: RetryState,
}

/// Whether some entry belongs to the task with the key `key`.
pub open spec fn has_retry(entries: Seq<TaskRetry>, key: TaskKey) -> bool {
    exists|i: int| 0 <= i < entries.len() && task_key((#[trigger] entries[i]).task) == key
}

/// A position whose entry belongs to the task with the key `key`.
pub open spec fn retry_at(entries: Seq<TaskRetry>, key: TaskKey) -> int {
    choose|i: int| 0 <= i < entries.len() && task_key((#[trigger] entries[i]).task) == key
}

/// The retry state of the task with the key `key`: that of its entry, or
/// the state before any failure where it has none.
pub open spec fn retry_of(entries: Seq<TaskRetry>, key: TaskKey) -> RetryState {
    if has_retry(entries, key) {
        entries[retry_at(entries, key)].state
    } else {
        RetryState { failures: 0, delay_msec: 0, error_count: 0 }
    }
}

/// No two entries belong to the same task, and every state is well formed.
pub open spec fn retries_wf(entries: Seq<TaskRetry>) -> bool {
    &&& forall|i: int, j: int|
        0 <= i < j < entries.len() ==> task_key((#[trigger] entries[i]).task) != task_key(
            (#[trigger] entries[j]).task,
        )
    &&& forall|i: int| 0 <= i < entries.len() ==> (#[trigger] entries[i]).state.wf()
}

/// A count one greater, or `u64::MAX` where it is that already.
pub open spec fn one_more(count: u64) -> u64 {
    if count < u64::MAX {
        (count + 1) as u64
    } else {
        u64::MAX
    }
}

/// The retry state of a task after a run with the given outcome. Work done
/// ends a row of failures; no work changes nothing; a foreign I/O failure
/// is one more failure in a row and one more error, with the delay of the
/// backoff; any other failure is one more error.
pub open spec fn settled(state: RetryState, outcome: Result<TaskOutcome, SpringError>) -> RetryState {
    match outcome {
        Ok(TaskOutcome::Yielded) => RetryState { failures: 0, delay_msec: 0, error_count: state.error_count },
        Ok(TaskOutcome::NoWork) => state,
        Err(e) => if e.is_foreign() {
            let failures = if state.failures < u32::MAX {
                (state.failures + 1) as u32
            } else {
                u32::MAX
            };
            RetryState {
                failures,
                delay_msec: backoff_msec(failures as nat) as u64,
                error_count: one_more(state.error_count),
            }
        } else {
            RetryState { error_count: one_more(state.error_count), ..state }
        },
    }
}

/// What a worker does after a run with the given outcome that left the
/// task in the retry state `state`.
pub open spec fn settlement(outcome: Result<TaskOutcome, SpringError>, state: RetryState) -> Settle {
    match outcome {
        Ok(TaskOutcome::Yielded) => Settle::Continue,
        Ok(TaskOutcome::NoWork) => Settle::Park(PARK_MSEC),
        Err(e) => if e.is_foreign() {
            Settle::Park(state.delay_msec)
        } else if e == SpringError::Internal {
            Settle::Abort
        } else {
            Settle::Continue
        },
    }
}

/// Where tasks are distinct, an entry is found at its own position.
pub proof fn lemma_retry_at(entries: Seq<TaskRetry>, i: int)
    requires
        retries_wf(entries),
        0 <= i < entries.len(),
    ensures
        has_retry(entries, task_key(entries[i].task)),
        retry_at(entries, task_key(entries[i].task)) == i,
        retry_of(entries, task_key(entries[i].task)) == entries[i].state,
{
    let key = task_key(entries[i].task);
    let c = retry_at(entries, key);
    assert(0 <= c < entries.len() && task_key(entries[c].task) == key);
    if c < i {
        assert(task_key(entries[c].task) != task_key(entries[i].task));
    } else if i < c {
        assert(task_key(entries[i].task) != task_key(entries[c].task));
    }
}

/// Replacing the state of one entry changes the state of its task alone.
pub proof fn lemma_retry_replaced(before: Seq<TaskRetry>, after: Seq<TaskRetry>, i: int, key: TaskKey)
    requires
        retries_wf(before),
        0 <= i < before.len(),
        after.len() == before.len(),
        after[i].task == before[i].task,
        after[i].state.wf(),
        forall|k: int| 0 <= k < before.len() && k != i ==> after[k] == before[k],
    ensures
        retries_wf(after),
        retry_of(after, key) == (if key == task_key(before[i].task) {
            after[i].state
        } else {
            retry_of(before, key)
        }),
{
    assert forall|a: int, b: int| 0 <= a < b < after.len() implies task_key((#[trigger] after[a]).task)
        != task_key((#[trigger] after[b]).task) by {
        assert(task_key(before[a].task) != task_key(before[b].task));
    }
    assert forall|a: int| 0 <= a < after.len() implies (#[trigger] after[a]).state.wf() by {
        if a != i {
            assert(before[a].state.wf());
        }
    }
    lemma_retry_at(after, i);
    if has_retry(after, key) {
        let c = retry_at(after, key);
        assert(0 <= c < after.len() && task_key(after[c].task) == key);
        assert(task_key(before[c].task) == key);
        lemma_retry_at(before, c);
        lemma_retry_at(after, c);
    }
    if has_retry(before, key) {
        let c = retry_at(before, key);
        assert(0 <= c < before.len() && task_key(before[c].task) == key);
        assert(task_key(after[c].task) == key);
    }
}

/// Appending an entry for a task without one gives that task its state
/// and leaves the others alone.
pub proof fn lemma_retry_added(before: Seq<TaskRetry>, entry: TaskRetry, key: TaskKey)
    requires
        retries_wf(before),
        !has_retry(before, task_key(entry.task)),
        entry.state.wf(),
    ensures
        retries_wf(before.push(entry)),
        retry_of(before.push(entry), key) == (if key == task_key(entry.task) {
            entry.state
        } else {
            retry_of(before, key)
        }),
{
    let after = before.push(entry);
    assert forall|a: int, b: int| 0 <= a < b < after.len() implies task_key((#[trigger] after[a]).task)
        != task_key((#[trigger] after[b]).task) by {
        if b == before.len() {
            assert(task_key(before[a].task) != task_key(entry.task));
        } else {
            assert(task_key(before[a].task) != task_key(before[b].task));
        }
    }
    assert forall|a: int| 0 <= a < after.len() implies (#[trigger] after[a]).state.wf() by {
        if a < before.len() {
            assert(before[a].state.wf());
        }
    }
    lemma_retry_at(after, before.len() as int);
    if has_retry(after, key) {
        let c = retry_at(after, key);
        assert(0 <= c < after.len() && task_key(after[c].task) == key);
        lemma_retry_at(after, c);
        if c < before.len() {
            assert(task_key(before[c].task) == key);
            lemma_retry_at(before, c);
        }
    }
    if has_retry(before, key) {
        let c = retry_at(before, key);
        assert(0 <= c < before.len() && task_key(before[c].task) == key);
        assert(task_key(after[c].task) == key);
    }
}

/// One worker of the pool.
#[derive(Debug)]
pub struct Worker {
    pub scheduler: Scheduler,
    /// Set by `Shutdown`; the worker leaves its loop at the next tick.
    pub stop: bool,
    /// The version of the pipeline that the worker last worked on.
    pub version: u64,
    /// The retry state of each task that has failed or done work here.
    pub retries: Vec<TaskRetry>,
}

impl Worker {
    /// Each task has one retry state at most, and each state is well
    /// formed.
    pub open spec fn wf(self) -> bool {
        retries_wf(self.retries@)
    }

    /// The retry state of the task with the key `key`.
    pub open spec fn retry(self, key: TaskKey) -> RetryState {
        retry_of(self.retries@, key)
    }

    /// A worker that has not run yet.
    pub fn new() -> (res: Worker)
        ensures
            res.wf(),
            !res.stop,
            res.version == 0,
            res.scheduler == (Scheduler { sink_cursor: 0, pump_cursor: 0, source_cursor: 0 }),
            res.retries@.len() == 0,
    {
        Worker { scheduler: Scheduler::new(), stop: false, version: 0, retries: Vec::new() }
    }

    /// Takes note of an event: `Shutdown` sets the stop flag; the others
    /// change nothing, for a worker takes the pipeline as it stands at the
    /// start of each tick.
    pub fn on_event(&mut self, event: Event)
        ensures
            final(self).stop == (old(self).stop || event == Event::Shutdown),
            final(self).scheduler == old(self).scheduler,
            final(self).version == old(self).version,
            final(self).retries == old(self).retries,
    {
        match event {
            Event::Shutdown => {
                self.stop = true;
            },
            _ => {},
        }
    }

    /// Starts a tick. A stopped worker exits. Otherwise the worker turns to
    /// the pipeline as it stands and asks its scheduler for a task: it
    /// runs the task picked, or parks where nothing is picked.
    pub fn tick(&mut self, engine: &StreamEngine) -> (res: Tick)
        requires
            engine.wf(),
        ensures
            final(self).stop == old(self).stop,
            final(self).retries == old(self).retries,
            old(self).stop ==> res is Exit && *final(self) == *old(self),
            !old(self).stop ==> final(self).version == engine.pipeline.version.0 && exists|slot: Option<Slot>|
                #[trigger] scheduled(old(self).scheduler, *engine, final(self).scheduler, slot) && (match task_at(
                    *engine,
                    slot,
                ) {
                    Some(task) => res matches Tick::Run(t) && t == task,
                    None => res matches Tick::Park(ms) && ms == PARK_MSEC,
                }),
    {
        if self.stop {
            return Tick::Exit;
        }
        self.version = engine.pipeline.version.0;
        let ghost before = self.scheduler;
        let next = self.scheduler.next_task(engine);
        proof {
            let slot = choose|slot: Option<Slot>| #[trigger]
                scheduled(before, *engine, self.scheduler, slot) && next == task_at(*engine, slot);
            assert(scheduled(before, *engine, self.scheduler, slot));
        }
        match next {
            Some(task) => Tick::Run(task),
            None => Tick::Park(PARK_MSEC),
        }
    }

    /// The position of the retry state of `task`.
    pub fn find_retry(&self, task: &TaskId) -> (res: Option<usize>)
        ensures
            res matches Some(i) ==> i < self.retries@.len() && task_key(self.retries@[i as int].task) == task_key(
                *task,
            ),
            res is None ==> !has_retry(self.retries@, task_key(*task)),
    {
        let mut i: usize = 0;
        while i < self.retries.len()
            invariant
                i <= self.retries.len(),
                forall|k: int| 0 <= k < i ==> task_key((#[trigger] self.retries@[k]).task) != task_key(*task),
            decreases self.retries.len() - i,
        {
            if same_task(&self.retries[i].task, task) {
                return Some(i);
            }
            i = i + 1;
        }
        None
    }

    /// Decides what follows the run of `task`, and keeps the retry state of
    /// the task. Work done ends the task's row of failures. No work parks
    /// the worker. A foreign I/O failure is counted and parks the worker
    /// for the delay of the task's backoff. An internal failure stops the
    /// worker, which aborts. Any other failure is counted, and the worker
    /// goes on. The retry state of every other task stays as it is.
    pub fn settle(&mut self, task: &TaskId, outcome: Result<TaskOutcome, SpringError>) -> (res: Settle)
        requires
            old(self).wf(),
        ensures
            final(self).wf(),
            final(self).scheduler == old(self).scheduler,
            final(self).version == old(self).version,
            final(self).stop == (old(self).stop || outcome == Err::<TaskOutcome, SpringError>(
                SpringError::Internal,
            )),
            forall|key: TaskKey|
                #[trigger] final(self).retry(key) == (if key == task_key(*task) {
                    settled(old(self).retry(key), outcome)
                } else {
                    old(self).retry(key)
                }),
            res == settlement(outcome, final(self).retry(task_key(*task))),
    {
        let ghost before = self.retries@;
        let e = match outcome {
            Ok(TaskOutcome::NoWork) => {
                return Settle::Park(PARK_MSEC);
            },
            Ok(TaskOutcome::Yielded) => None,
            Err(e) => Some(e),
        };
        let i = match self.find_retry(task) {
            Some(i) => i,
            None => {
                let entry = TaskRetry { task: duplicate_task(task), state: RetryState::new() };
                proof {
                    assert forall|key: TaskKey| #[trigger]
                        retry_of(before.push(entry), key) == retry_of(before, key) by {
                        lemma_retry_added(before, entry, key);
                    }
                    lemma_retry_added(before, entry, task_key(*task));
                }
                self.retries.push(entry);
                self.retries.len() - 1
            },
        };
        let ghost held = self.retries@;
        proof {
            lemma_retry_at(held, i as int);
        }
        let res = match e {
            None => {
                self.retries[i].state.on_success();
                Settle::Continue
            },
            Some(e) => {
                if e.is_foreign_io() {
                    let delay = self.retries[i].state.on_failure();
                    Settle::Park(delay)
                } else {
                    if self.retries[i].state.error_count < u64::MAX {
                        self.retries[i].state.error_count = self.retries[i].state.error_count + 1;
                    }
                    match e {
                        SpringError::Internal => {
                            self.stop = true;
                            Settle::Abort
                        },
                        _ => Settle::Continue,
                    }
                }
            },
        };
        proof {
            assert forall|key: TaskKey|
                #[trigger] retry_of(self.retries@, key) == (if key == task_key(*task) {
                    settled(retry_of(before, key), outcome)
                } else {
                    retry_of(before, key)
                }) by {
                lemma_retry_replaced(held, self.retries@, i as int, key);
            }
            lemma_retry_replaced(held, self.retries@, i as int, task_key(*task));
        }
        res
    }
}

} // verus!
