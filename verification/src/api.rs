//! The host's handle on an engine.

use std::sync::Arc;
use vstd::prelude::*;
use crate::command::Command;
use crate::error::SpringError;
use crate::name::QueueName;
use crate::row::Row;
use crate::stream_engine::altered;
use crate::stream_engine::popped;
use crate::stream_engine::StreamEngine;
use vstd::string::StringExecFns;

verus! {

/// How long a blocking pop sleeps between two looks at its queue, in
/// milliseconds.
pub const POP_POLL_INTERVAL_MSEC: u64 = 10;

/// The configuration of an engine.
#[derive(Clone, Copy, Debug, PartialEq, Eq, Structural)]
pub struct SpringConfig {
    /// The number of generic workers; positive.
    pub n_worker_threads: u16,
    /// The deadline for connecting to a foreign source, in milliseconds.
    pub source_reader_net_connect_timeout_msec: u32,
    /// The deadline for reading one row from a foreign source, in
    /// milliseconds.
    pub source_reader_net_read_timeout_msec: u32,
    /// The deadline for connecting to a foreign sink, in milliseconds.
    pub sink_writer_net_connect_timeout_msec: u32,
    /// The deadline for writing one row to a foreign sink, in milliseconds.
    pub sink_writer_net_write_timeout_msec: u32,
    /// The soft cap over all inter-task queues, in bytes: while their rows
    /// take as much or more, source tasks do not run.
    pub memory_upper_limit_bytes: Option<u64>,
    /// How many rows an inter-task queue may hold before the tasks that feed
    /// it stop running.
    pub queue_bound: Option<usize>,
}

impl SpringConfig {
    /// The configuration with the given number of workers and the default
    /// for everything else: one second to connect, a tenth of a second to
    /// read or write a row, no cap on memory and unbounded queues.
    pub fn new(n_worker_threads: u16) -> (res: SpringConfig)
        ensures
            res == (SpringConfig {
                n_worker_threads,
                source_reader_net_connect_timeout_msec: 1000,
                source_reader_net_read_timeout_msec: 100,
                sink_writer_net_connect_timeout_msec: 1000,
                sink_writer_net_write_timeout_msec: 100,
                memory_upper_limit_bytes: None,
                queue_bound: None,
            }),
    {
        SpringConfig {
            n_worker_threads,
            source_reader_net_connect_timeout_msec: 1000,
            source_reader_net_read_timeout_msec: 100,
            sink_writer_net_connect_timeout_msec: 1000,
            sink_writer_net_write_timeout_msec: 100,
            memory_upper_limit_bytes: None,
            queue_bound: None,
        }
    }

    /// There is at least one worker, and a bound on the queues is not zero.
    pub open spec fn valid(self) -> bool {
        self.n_worker_threads > 0 && self.queue_bound != Some(0usize)
    }
}

/// An in-process stream pipeline. One pipeline has one handle: they live
/// and die together.
pub struct SpringPipeline {
    pub engine: StreamEngine,
    pub config: SpringConfig,
}

impl SpringPipeline {
    /// The engine is well formed and runs under a valid configuration.
    pub open spec fn wf(self) -> bool {
        self.engine.wf() && self.config.valid() && self.engine.queue_bound == self.config.queue_bound
            && self.engine.memory_limit == self.config.memory_upper_limit_bytes
    }
}

/// A row from an in-memory queue.
#[derive(Debug)]
pub struct SpringRow(pub Arc<Row>);

impl From<Arc<Row>> for SpringRow {
    fn from(sink_row: Arc<Row>) -> (res: Self) {
        SpringRow(sink_row)
    }
}

impl vstd::std_specs::convert::FromSpecImpl<Arc<Row>> for SpringRow {
    open spec fn obeys_from_spec() -> bool {
        true
    }

    open spec fn from_spec(v: Arc<Row>) -> Self {
        SpringRow(v)
    }
}

/// The rows behind the outcome of a pop.
pub open spec fn sink_rows(res: Result<Option<SpringRow>, SpringError>) -> Result<Option<Arc<Row>>, SpringError> {
    match res {
        Ok(Some(row)) => Ok(Some(row.0)),
        Ok(None) => Ok(None),
        Err(e) => Err(e),
    }
}

/// Creates and opens an in-process stream pipeline: an engine with an empty
/// pipeline at version 1. Fails with `InvalidOption` exactly when the
/// configuration asks for no worker or bounds the queues to zero rows.
pub fn spring_open(config: &SpringConfig) -> (res: Result<SpringPipeline, SpringError>)
    ensures
        res is Ok <==> config.valid(),
        res matches Err(e) ==> e == SpringError::InvalidOption,
        res matches Ok(pipeline) ==> pipeline.wf() && pipeline.config == *config
            && pipeline.engine.pipeline.version.0 == 1 && pipeline.engine.pipeline.names() == Set::<
            Seq<char>,
        >::empty() && pipeline.engine.pipeline.graph.streams@.len() == 0
            && pipeline.engine.pipeline.graph.pumps@.len() == 0 && pipeline.engine.pipeline.graph.sources@.len()
            == 0 && pipeline.engine.pipeline.graph.sinks@.len() == 0 && pipeline.engine.pump_queues@ == Map::<
            Seq<char>,
            Seq<Arc<Row>>,
        >::empty() && pipeline.engine.sink_queues@ == Map::<Seq<char>, Seq<Arc<Row>>>::empty()
            && pipeline.engine.in_memory_queues@ == Map::<Seq<char>, Seq<Arc<Row>>>::empty(),
{
    if config.n_worker_threads == 0 {
        return Err(SpringError::InvalidOption);
    }
    let engine = match StreamEngine::new(config.queue_bound, config.memory_upper_limit_bytes) {
        Err(e) => {
            return Err(e);
        },
        Ok(engine) => engine,
    };
    Ok(SpringPipeline { engine, config: *config })
}

/// Executes a command. The command takes effect as a whole or not at all.
/// One that the pipeline does not accept fails with `Sql`; an accepted one
/// that carries a malformed object fails with `InvalidOption` for a sink
/// writer and with `Sql` otherwise; a well-formed, accepted one fails with
/// `Unavailable` where the pipeline has run out of versions. A failed
/// command leaves the pipeline, its version and every queue as they were.
pub fn spring_command(pipeline: &mut SpringPipeline, command: Command) -> (res: Result<(), SpringError>)
    requires
        old(pipeline).wf(),
    ensures
        final(pipeline).wf(),
        final(pipeline).config == old(pipeline).config,
        altered(old(pipeline).engine, command->AlterPipeline_0, final(pipeline).engine, res),
{
    match command {
        Command::AlterPipeline(c) => pipeline.engine.alter_pipeline(c),
    }
}

/// Pops a row from the in-memory queue called `queue` without blocking:
/// the oldest row of the queue, or `None` when the queue is empty. Fails
/// with `Unavailable` exactly when no such queue was declared.
pub fn spring_pop_non_blocking(pipeline: &mut SpringPipeline, queue: &str) -> (res: Result<
    Option<SpringRow>,
    SpringError,
>)
    requires
        old(pipeline).wf(),
    ensures
        final(pipeline).wf(),
        final(pipeline).config == old(pipeline).config,
        popped(old(pipeline).engine, queue@, final(pipeline).engine, sink_rows(res)),
{
    let sink_row = pipeline.engine.pop_in_memory_queue_non_blocking(QueueName::new(String::from_str(queue)));
    match sink_row {
        Err(e) => Err(e),
        Ok(None) => Ok(None),
        Ok(Some(row)) => Ok(Some(SpringRow::from(row))),
    }
}

} // verus!
