//! The engine state: the pipeline, the row queues between its tasks and the
//! subtask tree of each pump.

use std::sync::Arc;
use vstd::prelude::*;
use crate::command::AlterPipelineCommand;
use crate::error::SpringError;
use crate::name::PumpName;
use crate::name::QueueName;
use crate::pipeline::Pipeline;
use crate::pipeline::PipelineVersion;
use crate::pipeline_graph::PipelineGraph;
use crate::pump_model::PumpModel;
use crate::pump_model::PumpState;
use crate::query_plan::QueryPlanOperation;
use crate::query_subtask::released;
use crate::query_subtask::QuerySubtask;
use crate::query_subtask::QuerySubtaskNode;
use crate::row::share;
use crate::row::Row;
use crate::row_repository::RowRepository;
use crate::sink_writer_model::SinkWriterModel;
use crate::sink_writer_model::SinkWriterType;

verus! {

/// The running form of a pump: its subtask tree with the state of its
/// window.
pub struct PumpTask {
    pub name: PumpName,
    pub subtask: QuerySubtask,
}

/// Whether a started pump called `owner` reads the stream `stream`.
pub open spec fn feeds_pump(graph: PipelineGraph, stream: Seq<char>, owner: Seq<char>) -> bool {
    exists|i: int|
        0 <= i < graph.pumps@.len() && (#[trigger] graph.pumps@[i]).name@ == owner && graph.pumps@[i].state
            == PumpState::Started && graph.pumps@[i].upstream_name() == stream
}

/// Whether a sink writer called `owner` drains the stream `stream`.
pub open spec fn feeds_sink(graph: PipelineGraph, stream: Seq<char>, owner: Seq<char>) -> bool {
    exists|i: int|
        0 <= i < graph.sinks@.len() && (#[trigger] graph.sinks@[i]).name@ == owner && graph.sinks@[i].from_stream@
            == stream
}

/// The queues after `row` was appended to the queue of every owner in
/// `targets`.
pub open spec fn delivered(
    queues: Map<Seq<char>, Seq<Arc<Row>>>,
    targets: spec_fn(Seq<char>) -> bool,
    row: Arc<Row>,
) -> Map<Seq<char>, Seq<Arc<Row>>> {
    Map::new(
        |o: Seq<char>| queues.dom().contains(o),
        |o: Seq<char>|
            if targets(o) {
                queues[o].push(row)
            } else {
                queues[o]
            },
    )
}

/// The queues after each of `rows`, in order, was appended to the queue of
/// every owner in `targets`.
pub open spec fn delivered_all(
    queues: Map<Seq<char>, Seq<Arc<Row>>>,
    targets: spec_fn(Seq<char>) -> bool,
    rows: Seq<Arc<Row>>,
) -> Map<Seq<char>, Seq<Arc<Row>>> {
    Map::new(
        |o: Seq<char>| queues.dom().contains(o),
        |o: Seq<char>|
            if targets(o) {
                queues[o] + rows
            } else {
                queues[o]
            },
    )
}

/// Whether every queue of an owner in `targets` holds fewer rows than
/// `bound`, where there is a bound.
pub open spec fn has_room(
    queues: Map<Seq<char>, Seq<Arc<Row>>>,
    targets: spec_fn(Seq<char>) -> bool,
    bound: Option<usize>,
) -> bool {
    bound matches Some(b) ==> forall|o: Seq<char>|
        #![trigger queues[o]]
        queues.dom().contains(o) && targets(o) ==> queues[o].len() < b
}

/// The queues after `owner` was given an empty queue unless it had one.
pub open spec fn with_queue(queues: Map<Seq<char>, Seq<Arc<Row>>>, owner: Seq<char>) -> Map<
    Seq<char>,
    Seq<Arc<Row>>,
> {
    if queues.dom().contains(owner) {
        queues
    } else {
        queues.insert(owner, Seq::<Arc<Row>>::empty())
    }
}

/// Whether `post` is the graph that `command` makes of `pre`: the created
/// object is appended to the objects of its kind, a pump stopped, or the
/// altered pump is in its new state; everything else is as before.
pub open spec fn graph_altered(pre: PipelineGraph, command: AlterPipelineCommand, post: PipelineGraph) -> bool {
    match command {
        AlterPipelineCommand::CreateSourceStream(s) => post.streams@ == pre.streams@.push(s) && post.pumps@
            == pre.pumps@ && post.sources@ == pre.sources@ && post.sinks@ == pre.sinks@,
        AlterPipelineCommand::CreateSinkStream(s) => post.streams@ == pre.streams@.push(s) && post.pumps@
            == pre.pumps@ && post.sources@ == pre.sources@ && post.sinks@ == pre.sinks@,
        AlterPipelineCommand::CreateStream(s) => post.streams@ == pre.streams@.push(s) && post.pumps@
            == pre.pumps@ && post.sources@ == pre.sources@ && post.sinks@ == pre.sinks@,
        AlterPipelineCommand::CreatePump(p) => post.streams@ == pre.streams@ && post.pumps@ == pre.pumps@.push(
            PumpModel { state: PumpState::Stopped, ..p },
        ) && post.sources@ == pre.sources@ && post.sinks@ == pre.sinks@,
        AlterPipelineCommand::CreateSourceReader(r) => post.streams@ == pre.streams@ && post.pumps@
            == pre.pumps@ && post.sources@.len() == pre.sources@.len() + 1 && post.sources@.drop_last()
            == pre.sources@ && *post.sources@.last() == r && post.sinks@ == pre.sinks@,
        AlterPipelineCommand::CreateSinkWriter(w) => post.streams@ == pre.streams@ && post.pumps@ == pre.pumps@
            && post.sources@ == pre.sources@ && post.sinks@.len() == pre.sinks@.len() + 1
            && post.sinks@.drop_last() == pre.sinks@ && *post.sinks@.last() == w,
        AlterPipelineCommand::AlterPump { name, state } => post.streams@ == pre.streams@ && post.sources@
            == pre.sources@ && post.sinks@ == pre.sinks@ && exists|i: int|
            0 <= i < pre.pumps@.len() && (#[trigger] pre.pumps@[i]).name@ == name@ && post.pumps@
                == pre.pumps@.update(i, PumpModel { state, ..pre.pumps@[i] }),
    }
}

/// The kind of failure with which the engine refuses a command that it
/// does not carry out.
pub open spec fn refusal(pre: StreamEngine, command: AlterPipelineCommand) -> SpringError {
    if !command.applies_to(pre.pipeline) {
        SpringError::Sql
    } else if !command.wf() {
        if command is CreateSinkWriter {
            SpringError::InvalidOption
        } else {
            SpringError::Sql
        }
    } else {
        SpringError::Unavailable
    }
}

/// Whether `command` leads the engine from `pre` to `post` with the outcome
/// `res`.
///
/// A command that the pipeline does not accept fails with `Sql`. An
/// accepted command that carries a malformed object fails with
/// `InvalidOption` where the object is a sink writer and with `Sql`
/// otherwise. A well-formed, accepted command fails with `Unavailable`
/// where the pipeline has run out of versions. A failed command changes
/// nothing. A command that succeeds
/// raises the version by one; a created object takes its name and joins
/// the graph, a pump stopped; a created pump or sink writer gets its input
/// queue, and a sink writer to an in-memory queue that queue.
pub open spec fn altered(
    pre: StreamEngine,
    command: AlterPipelineCommand,
    post: StreamEngine,
    res: Result<(), SpringError>,
) -> bool {
    &&& res is Ok <==> command.applies_to(pre.pipeline) && command.wf() && pre.pipeline.version.0 < u64::MAX
    &&& res matches Err(e) ==> post == pre && e == refusal(pre, command)
    &&& post.queue_bound == pre.queue_bound
    &&& post.memory_limit == pre.memory_limit
    &&& res is Ok ==> {
        &&& post.pipeline.version.0 == pre.pipeline.version.0 + 1
        &&& post.pipeline.names() == (if command.creates() {
            pre.pipeline.names().insert(command.object_name())
        } else {
            pre.pipeline.names()
        })
        &&& graph_altered(pre.pipeline.graph, command, post.pipeline.graph)
        &&& post.pump_queues@ == (if command is CreatePump {
            with_queue(pre.pump_queues@, command.object_name())
        } else {
            pre.pump_queues@
        })
        &&& post.sink_queues@ == (if command is CreateSinkWriter {
            with_queue(pre.sink_queues@, command.object_name())
        } else {
            pre.sink_queues@
        })
        &&& post.in_memory_queues@ == (match command {
            AlterPipelineCommand::CreateSinkWriter(w) => if w.writer_type == SinkWriterType::InMemoryQueue {
                with_queue(pre.in_memory_queues@, w.queue_text())
            } else {
                pre.in_memory_queues@
            },
            _ => pre.in_memory_queues@,
        })
    }
}

/// Whether a pop on the in-memory queue called `queue` leads the engine
/// from `pre` to `post` with the outcome `res`.
///
/// A queue that was not declared fails with `Unavailable`; an empty queue
/// gives `None`; in both cases nothing changes. Otherwise the outcome is
/// the oldest row of the queue, which leaves the queue; nothing else
/// changes.
pub open spec fn popped(
    pre: StreamEngine,
    queue: Seq<char>,
    post: StreamEngine,
    res: Result<Option<Arc<Row>>, SpringError>,
) -> bool {
    if !pre.in_memory_queues@.dom().contains(queue) {
        res matches Err(e) && e == SpringError::Unavailable && post == pre
    } else if pre.in_memory_queues@[queue].len() == 0 {
        res matches Ok(None) && post == pre
    } else {
        &&& res matches Ok(Some(row)) && row == pre.in_memory_queues@[queue][0]
        &&& post.in_memory_queues@ == pre.in_memory_queues@.insert(
            queue,
            pre.in_memory_queues@[queue].drop_first(),
        )
        &&& post.pipeline == pre.pipeline
        &&& post.pump_queues == pre.pump_queues
        &&& post.sink_queues == pre.sink_queues
        &&& post.pump_tasks == pre.pump_tasks
        &&& post.queue_bound == pre.queue_bound
        &&& post.memory_limit == pre.memory_limit
    }
}

/// Whether the rows of the inter-task queues take fewer bytes than the
/// limit, where there is one.
pub open spec fn within_memory(engine: StreamEngine) -> bool {
    engine.memory_limit matches Some(limit) ==> crate::row_repository::queues_bytes(engine.pump_queues.queues@)
        + crate::row_repository::queues_bytes(engine.sink_queues.queues@) < limit
}

/// The state of an engine.
pub struct StreamEngine {
    pub pipeline: Pipeline,
    /// The input queue of each pump, by the pump's name.
    pub pump_queues: RowRepository,
    /// The input queue of each sink writer, by the writer's name.
    pub sink_queues: RowRepository,
    /// The queues that the host drains, by queue name.
    pub in_memory_queues: RowRepository,
    /// The running form of each pump, in the order of the graph's pumps.
    pub pump_tasks: Vec<PumpTask>,
    /// How many rows an inter-task queue may hold before the tasks that feed
    /// it stop running; no limit where `None`.
    pub queue_bound: Option<usize>,
    /// How many bytes the rows of all inter-task queues may take before the
    /// source tasks stop running; no limit where `None`.
    pub memory_limit: Option<u64>,
}

impl StreamEngine {
    /// Whether the task at `i` is the running form of the pump at `i`.
    pub open spec fn task_of_pump(self, i: int) -> bool {
        let task = self.pump_tasks@[i];
        let pump = self.pipeline.graph.pumps@[i];
        &&& task.name@ == pump.name@
        &&& task.subtask.wf()
        &&& task.subtask.nodes() == pump.query_plan.operations().map_values(
            |op: QueryPlanOperation| QuerySubtaskNode::of(op),
        )
    }

    /// The pipeline and the queues are well formed; every pump has a queue
    /// and a running form; every sink writer has a queue, and its in-memory
    /// queue where it writes to one.
    pub open spec fn wf(self) -> bool {
        &&& self.pipeline.wf()
        &&& self.pump_queues.wf()
        &&& self.sink_queues.wf()
        &&& self.in_memory_queues.wf()
        &&& self.pump_tasks@.len() == self.pipeline.graph.pumps@.len()
        &&& forall|i: int|
            0 <= i < self.pipeline.graph.pumps@.len() ==> self.pump_queues@.dom().contains(
                (#[trigger] self.pipeline.graph.pumps@[i]).name@,
            )
        &&& forall|i: int| 0 <= i < self.pump_tasks@.len() ==> #[trigger] self.task_of_pump(i)
        &&& forall|i: int|
            0 <= i < self.pipeline.graph.sinks@.len() ==> self.sink_queues@.dom().contains(
                (#[trigger] self.pipeline.graph.sinks@[i]).name@,
            )
        &&& forall|i: int|
            0 <= i < self.pipeline.graph.sinks@.len() && (#[trigger] self.pipeline.graph.sinks@[i]).writer_type
                == SinkWriterType::InMemoryQueue ==> self.in_memory_queues@.dom().contains(
                self.pipeline.graph.sinks@[i].queue_text(),
            )
        &&& self.queue_bound matches Some(b) ==> b > 0
    }

    /// An engine with an empty pipeline. Fails with `InvalidOption` exactly
    /// when the bound of the queues is zero.
    pub fn new(queue_bound: Option<usize>, memory_limit: Option<u64>) -> (res: Result<StreamEngine, SpringError>)
        ensures
            res is Ok <==> queue_bound != Some(0usize),
            res matches Err(e) ==> e == SpringError::InvalidOption,
            res matches Ok(engine) ==> engine.wf() && engine.queue_bound == queue_bound && engine.memory_limit
                == memory_limit
                && engine.pipeline.version.0 == 1 && engine.pipeline.names() == Set::<Seq<char>>::empty()
                && engine.pipeline.graph.streams@.len() == 0 && engine.pipeline.graph.pumps@.len() == 0
                && engine.pipeline.graph.sources@.len() == 0 && engine.pipeline.graph.sinks@.len() == 0
                && engine.pump_queues@ == Map::<Seq<char>, Seq<Arc<Row>>>::empty() && engine.sink_queues@
                == Map::<Seq<char>, Seq<Arc<Row>>>::empty() && engine.in_memory_queues@ == Map::<
                Seq<char>,
                Seq<Arc<Row>>,
            >::empty(),
    {
        if let Some(b) = queue_bound {
            if b == 0 {
                return Err(SpringError::InvalidOption);
            }
        }
        Ok(
            StreamEngine {
                pipeline: Pipeline::new(PipelineVersion::new()),
                pump_queues: RowRepository::new(),
                sink_queues: RowRepository::new(),
                in_memory_queues: RowRepository::new(),
                pump_tasks: Vec::new(),
                queue_bound,
                memory_limit,
            },
        )
    }

    /// Whether the rows of the inter-task queues take fewer bytes than the
    /// limit, where there is one.
    pub fn has_memory(&self) -> (res: bool)
        ensures
            res == within_memory(*self),
    {
        match self.memory_limit {
            None => true,
            Some(limit) => crate::row_repository::add_capped(self.pump_queues.bytes(), self.sink_queues.bytes())
                < limit,
        }
    }

    /// The pipeline as it stands.
    pub fn current_pipeline(&self) -> (res: &Pipeline)
        ensures
            *res == self.pipeline,
    {
        &self.pipeline
    }

    /// Takes the oldest row from the in-memory queue called `queue`. Fails
    /// with `Unavailable` exactly when no such queue was declared; gives
    /// `None`, changing nothing, when the queue is empty.
    pub fn pop_in_memory_queue_non_blocking(&mut self, queue: QueueName) -> (res: Result<
        Option<Arc<Row>>,
        SpringError,
    >)
        requires
            old(self).wf(),
        ensures
            final(self).wf(),
            popped(*old(self), queue@, *final(self), res),
    {
        let res = self.in_memory_queues.pop(queue.as_str());
        proof {
            assert(self.in_memory_queues@.dom() =~= old(self).in_memory_queues@.dom());
            assert forall|i: int| 0 <= i < self.pump_tasks@.len() implies #[trigger] self.task_of_pump(i) by {
                assert(old(self).task_of_pump(i));
            }
        }
        res
    }
}

impl StreamEngine {
    /// Applies a change to the pipeline. The change is made on a copy of
    /// the pipeline, which replaces the pipeline only if the change
    /// succeeds: a failed command leaves the engine as it was.
    pub fn alter_pipeline(&mut self, command: AlterPipelineCommand) -> (res: Result<(), SpringError>)
        requires
            old(self).wf(),
        ensures
            final(self).wf(),
            altered(*old(self), command, *final(self), res),
    {
        if !command.applies(&self.pipeline) {
            return Err(SpringError::Sql);
        }
        if !command.is_valid() {
            return match command {
                AlterPipelineCommand::CreateSinkWriter(_) => Err(SpringError::InvalidOption),
                _ => Err(SpringError::Sql),
            };
        }
        match command {
            AlterPipelineCommand::CreateSourceStream(stream) => self.create_stream(stream),
            AlterPipelineCommand::CreateSinkStream(stream) => self.create_stream(stream),
            AlterPipelineCommand::CreateStream(stream) => self.create_stream(stream),
            AlterPipelineCommand::CreatePump(pump) => self.create_pump(pump),
            AlterPipelineCommand::CreateSourceReader(reader) => self.create_source_reader(reader),
            AlterPipelineCommand::CreateSinkWriter(writer) => self.create_sink_writer(writer),
            AlterPipelineCommand::AlterPump { name, state } => self.alter_pump(name, state),
        }
    }

    /// Whether the tasks that were the running forms of the pumps of `pre`
    /// still are.
    proof fn lemma_tasks_kept(self, pre: StreamEngine)
        requires
            pre.wf(),
            self.pump_tasks == pre.pump_tasks,
            self.pipeline.graph.pumps@.len() == pre.pipeline.graph.pumps@.len(),
            forall|i: int|
                0 <= i < pre.pipeline.graph.pumps@.len() ==> (#[trigger] self.pipeline.graph.pumps@[i]).name@
                    == pre.pipeline.graph.pumps@[i].name@ && self.pipeline.graph.pumps@[i].query_plan
                    == pre.pipeline.graph.pumps@[i].query_plan,
        ensures
            forall|i: int| 0 <= i < self.pump_tasks@.len() ==> #[trigger] self.task_of_pump(i),
    {
        assert forall|i: int| 0 <= i < self.pump_tasks@.len() implies #[trigger] self.task_of_pump(i) by {
            assert(pre.task_of_pump(i));
            assert(self.pipeline.graph.pumps@[i].name@ == pre.pipeline.graph.pumps@[i].name@);
        }
    }

    fn create_stream(&mut self, stream: Arc<crate::stream_model::StreamModel>) -> (res: Result<(), SpringError>)
        requires
            old(self).wf(),
            stream.wf(),
        ensures
            final(self).wf(),
            altered(*old(self), AlterPipelineCommand::CreateStream(stream), *final(self), res),
            altered(*old(self), AlterPipelineCommand::CreateSourceStream(stream), *final(self), res),
            altered(*old(self), AlterPipelineCommand::CreateSinkStream(stream), *final(self), res),
    {
        let mut next = self.pipeline.duplicate();
        match next.add_stream(stream) {
            Err(e) => {
                return Err(e);
            },
            Ok(()) => {},
        }
        self.pipeline = next;
        proof {
            self.lemma_tasks_kept(*old(self));
        }
        Ok(())
    }

    fn create_source_reader(&mut self, reader: crate::source_reader_model::SourceReaderModel) -> (res: Result<
        (),
        SpringError,
    >)
        requires
            old(self).wf(),
        ensures
            final(self).wf(),
            altered(*old(self), AlterPipelineCommand::CreateSourceReader(reader), *final(self), res),
    {
        let mut next = self.pipeline.duplicate();
        match next.add_source_reader(reader) {
            Err(e) => {
                return Err(e);
            },
            Ok(()) => {},
        }
        self.pipeline = next;
        proof {
            self.lemma_tasks_kept(*old(self));
        }
        Ok(())
    }

    fn alter_pump(&mut self, name: PumpName, state: PumpState) -> (res: Result<(), SpringError>)
        requires
            old(self).wf(),
        ensures
            final(self).wf(),
            altered(*old(self), AlterPipelineCommand::AlterPump { name, state }, *final(self), res),
    {
        let mut next = self.pipeline.duplicate();
        match next.alter_pump(&name, state) {
            Err(e) => {
                return Err(e);
            },
            Ok(()) => {},
        }
        self.pipeline = next;
        proof {
            self.lemma_tasks_kept(*old(self));
        }
        Ok(())
    }

    fn create_pump(&mut self, pump: PumpModel) -> (res: Result<(), SpringError>)
        requires
            old(self).wf(),
            pump.wf(),
        ensures
            final(self).wf(),
            altered(*old(self), AlterPipelineCommand::CreatePump(pump), *final(self), res),
    {
        let mut next = self.pipeline.duplicate();
        let name = pump.name.duplicate();
        let plan = share(&pump.query_plan);
        match next.add_pump(pump) {
            Err(e) => {
                return Err(e);
            },
            Ok(()) => {},
        }
        let subtask = QuerySubtask::from(&plan);
        self.pipeline = next;
        self.pump_queues.ensure_queue(name.as_str());
        self.pump_tasks.push(PumpTask { name, subtask });
        proof {
            let n = old(self).pump_tasks@.len() as int;
            assert forall|i: int| 0 <= i < self.pump_tasks@.len() implies #[trigger] self.task_of_pump(i) by {
                if i < n {
                    assert(old(self).task_of_pump(i));
                }
            }
            assert forall|i: int| 0 <= i < self.pipeline.graph.pumps@.len() implies self.pump_queues@.dom().contains(
                (#[trigger] self.pipeline.graph.pumps@[i]).name@,
            ) by {
                if i < n {
                    assert(old(self).pump_queues@.dom().contains(old(self).pipeline.graph.pumps@[i].name@));
                }
            }
        }
        Ok(())
    }

    fn create_sink_writer(&mut self, writer: SinkWriterModel) -> (res: Result<(), SpringError>)
        requires
            old(self).wf(),
            writer.wf(),
        ensures
            final(self).wf(),
            altered(*old(self), AlterPipelineCommand::CreateSinkWriter(writer), *final(self), res),
    {
        let mut next = self.pipeline.duplicate();
        let name = writer.name.duplicate();
        let queue = writer.queue_name();
        match next.add_sink_writer(writer) {
            Err(e) => {
                return Err(e);
            },
            Ok(()) => {},
        }
        self.pipeline = next;
        self.sink_queues.ensure_queue(name.as_str());
        if let Some(q) = queue {
            self.in_memory_queues.ensure_queue(q.as_str());
        }
        proof {
            let n = old(self).pipeline.graph.sinks@.len() as int;
            let sinks = self.pipeline.graph.sinks@;
            assert(sinks.drop_last() == old(self).pipeline.graph.sinks@);
            assert forall|i: int| 0 <= i < n implies sinks[i] == old(self).pipeline.graph.sinks@[i] by {
                assert(sinks.drop_last()[i] == sinks[i]);
            }
            self.lemma_tasks_kept(*old(self));
            assert forall|i: int| 0 <= i < sinks.len() implies self.sink_queues@.dom().contains(
                (#[trigger] sinks[i]).name@,
            ) by {
                if i < n {
                    assert(old(self).sink_queues@.dom().contains(old(self).pipeline.graph.sinks@[i].name@));
                }
            }
            assert forall|i: int|
                0 <= i < sinks.len() && (#[trigger] sinks[i]).writer_type
                    == SinkWriterType::InMemoryQueue implies self.in_memory_queues@.dom().contains(
                sinks[i].queue_text(),
            ) by {
                if i < n {
                    assert(old(self).in_memory_queues@.dom().contains(
                        old(self).pipeline.graph.sinks@[i].queue_text(),
                    ));
                }
            }
        }
        Ok(())
    }
}

impl StreamEngine {
    /// The purger's pass after the pipeline changed: releases the window
    /// state of every pump that the new version does not run. The other
    /// pumps, the pipeline and the queues stay as they are.
    pub fn purge(&mut self)
        requires
            old(self).wf(),
        ensures
            final(self).wf(),
            final(self).pipeline == old(self).pipeline,
            final(self).pump_queues == old(self).pump_queues,
            final(self).sink_queues == old(self).sink_queues,
            final(self).in_memory_queues == old(self).in_memory_queues,
            final(self).queue_bound == old(self).queue_bound,
            final(self).memory_limit == old(self).memory_limit,
            final(self).pump_tasks@.len() == old(self).pump_tasks@.len(),
            forall|i: int|
                0 <= i < old(self).pump_tasks@.len() ==> (#[trigger] final(self).pump_tasks@[i]).name == old(self).pump_tasks@[i].name && (if old(self).pipeline.graph.pumps@[i].state == PumpState::Stopped {
                    released(old(self).pump_tasks@[i].subtask, final(self).pump_tasks@[i].subtask)
                } else {
                    final(self).pump_tasks@[i] == old(self).pump_tasks@[i]
                }),
    {
        let mut i: usize = 0;
        while i < self.pump_tasks.len()
            invariant
                i <= self.pump_tasks.len(),
                self.wf(),
                self.pipeline == old(self).pipeline,
                self.pump_queues == old(self).pump_queues,
                self.sink_queues == old(self).sink_queues,
                self.in_memory_queues == old(self).in_memory_queues,
                self.queue_bound == old(self).queue_bound,
                self.memory_limit == old(self).memory_limit,
                self.pump_tasks@.len() == old(self).pump_tasks@.len(),
                forall|k: int| i <= k < self.pump_tasks@.len() ==> (#[trigger] self.pump_tasks@[k]) == old(self).pump_tasks@[k],
                forall|k: int|
                    0 <= k < i ==> (#[trigger] self.pump_tasks@[k]).name == old(self).pump_tasks@[k].name && (
                    if old(self).pipeline.graph.pumps@[k].state == PumpState::Stopped {
                        released(old(self).pump_tasks@[k].subtask, self.pump_tasks@[k].subtask)
                    } else {
                        self.pump_tasks@[k] == old(self).pump_tasks@[k]
                    }),
            decreases self.pump_tasks.len() - i,
        {
            let ghost before = *self;
            if self.pipeline.graph.pumps[i].state == PumpState::Stopped {
                assert(self.task_of_pump(i as int));
                self.pump_tasks[i].subtask.release_window();
                proof {
                    assert forall|k: int| 0 <= k < self.pump_tasks@.len() implies #[trigger] self.task_of_pump(
                        k,
                    ) by {
                        assert(before.task_of_pump(k));
                    }
                }
            }
            i = i + 1;
        }
    }
}

} // verus!
