//! Tasks: one source read, one pump quantum or one sink write at a time.

use std::sync::Arc;
use vstd::prelude::*;
use crate::error::SpringError;
use crate::foreign_input_row::cell_for;
use crate::foreign_input_row::ForeignInputRow;
use crate::name::ColumnName;
use crate::name::PumpName;
use crate::name::SinkWriterName;
use crate::name::SourceReaderName;
use crate::name::StreamName;
use crate::pipeline_graph::has_sink;
use crate::pipeline_graph::has_source;
use crate::pipeline_graph::PipelineGraph;
use crate::pump_model::PumpState;
use crate::row::event_time_of;
use crate::row::share;
use crate::row::Row;
use crate::sink_writer_model::SinkWriterType;
use crate::sql_value::SqlValue;
use crate::pipeline_graph::has_pump;
use crate::query_subtask::fills;
use crate::query_subtask::placed;
use crate::query_subtask::ran;
use crate::query_subtask::QuerySubtaskOut;
use crate::query_subtask::SqlValues;
use crate::stream_engine::delivered;
use crate::stream_engine::delivered_all;
use crate::stream_engine::feeds_pump;
use crate::stream_engine::feeds_sink;
use crate::stream_engine::has_room;
use crate::stream_engine::within_memory;
use crate::stream_engine::StreamEngine;
use crate::stream_model::StreamModel;

verus! {

/// How a task's run ended.
#[derive(Clone, Copy, Debug, PartialEq, Eq, Structural)]
pub enum TaskOutcome {
    /// The task did its bounded work.
    Yielded,
    /// The task had nothing to do, or a queue it feeds is full.
    NoWork,
}

/// How a sink task's run ended.
#[derive(Debug)]
pub enum SinkOutcome {
    /// The input queue is empty.
    NoWork,
    /// A row went to the in-memory queue of the writer.
    Delivered,
    /// A row left the engine; the caller writes it to the foreign sink.
    Write(Arc<Row>),
}

/// The owners of the pump queues that a row of `stream` goes to: the
/// started pumps that read the stream.
pub open spec fn pump_targets(graph: PipelineGraph, stream: Seq<char>) -> spec_fn(Seq<char>) -> bool {
    |o: Seq<char>| feeds_pump(graph, stream, o)
}

/// The owners of the sink queues that a row of `stream` goes to: the sink
/// writers that drain the stream.
pub open spec fn sink_targets(graph: PipelineGraph, stream: Seq<char>) -> spec_fn(Seq<char>) -> bool {
    |o: Seq<char>| feeds_sink(graph, stream, o)
}

/// The started pumps among the first `n` that read `stream`.
pub open spec fn pump_targets_below(graph: PipelineGraph, stream: Seq<char>, n: int) -> spec_fn(Seq<char>) -> bool {
    |o: Seq<char>|
        exists|i: int|
            0 <= i < n && i < graph.pumps@.len() && (#[trigger] graph.pumps@[i]).name@ == o && graph.pumps@[i].state
                == PumpState::Started && graph.pumps@[i].upstream_name() == stream
}

/// The sink writers among the first `n` that drain `stream`.
pub open spec fn sink_targets_below(graph: PipelineGraph, stream: Seq<char>, n: int) -> spec_fn(Seq<char>) -> bool {
    |o: Seq<char>|
        exists|i: int|
            0 <= i < n && i < graph.sinks@.len() && (#[trigger] graph.sinks@[i]).name@ == o
                && graph.sinks@[i].from_stream@ == stream
}

/// Whether the queues that a row of `stream` goes to have room for it.
pub open spec fn room_downstream(engine: StreamEngine, stream: Seq<char>) -> bool {
    &&& has_room(engine.pump_queues@, pump_targets(engine.pipeline.graph, stream), engine.queue_bound)
    &&& has_room(engine.sink_queues@, sink_targets(engine.pipeline.graph, stream), engine.queue_bound)
}

/// Whether `row` is the row of `stream` that the input stands for: each
/// cell comes from the field named like its column.
pub open spec fn is_input_row(input: ForeignInputRow, stream: Arc<StreamModel>, arrival: i64, row: Row) -> bool {
    &&& row.wf()
    &&& row.stream == stream
    &&& row.values@.len() == stream.shape.columns@.len()
    &&& row.event_time == event_time_of(stream.shape, row.values@, arrival)
    &&& forall|i: int|
        0 <= i < stream.shape.columns@.len() ==> Ok::<SqlValue, SpringError>(#[trigger] row.values@[i])
            == cell_for(input.fields(), stream.shape.columns@[i])
}

/// Whether the input provides a cell for every column of `stream`.
pub open spec fn input_fits(input: ForeignInputRow, stream: Arc<StreamModel>) -> bool {
    forall|i: int|
        0 <= i < stream.shape.columns@.len() ==> cell_for(input.fields(), #[trigger] stream.shape.columns@[i]) is Ok
}

impl StreamEngine {
    /// Whether the queues that a row of `stream` goes to have room for it.
    pub fn has_room_downstream(&self, stream: &StreamName) -> (res: bool)
        requires
            self.wf(),
        ensures
            res == room_downstream(*self, stream@),
    {
        let bound = match self.queue_bound {
            None => {
                return true;
            },
            Some(b) => b,
        };
        let mut i: usize = 0;
        while i < self.pipeline.graph.pumps.len()
            invariant
                self.wf(),
                self.queue_bound == Some(bound),
                i <= self.pipeline.graph.pumps.len(),
                forall|o: Seq<char>|
                    #![trigger self.pump_queues@[o]]
                    pump_targets_below(self.pipeline.graph, stream@, i as int)(o) ==> self.pump_queues@[o].len()
                        < bound,
            decreases self.pipeline.graph.pumps.len() - i,
        {
            let pump = &self.pipeline.graph.pumps[i];
            if pump.state == PumpState::Started && pump.upstream().same(stream) {
                if self.pump_queues.depth(pump.name.as_str()) >= bound {
                    proof {
                        let o = pump.name@;
                        assert(feeds_pump(self.pipeline.graph, stream@, o));
                        assert(self.pump_queues@.dom().contains(o));
                        assert(!(self.pump_queues@[o].len() < bound));
                    }
                    return false;
                }
            }
            i = i + 1;
        }
        let mut j: usize = 0;
        while j < self.pipeline.graph.sinks.len()
            invariant
                self.wf(),
                self.queue_bound == Some(bound),
                j <= self.pipeline.graph.sinks.len(),
                has_room(self.pump_queues@, pump_targets(self.pipeline.graph, stream@), self.queue_bound),
                forall|o: Seq<char>|
                    #![trigger self.sink_queues@[o]]
                    sink_targets_below(self.pipeline.graph, stream@, j as int)(o) ==> self.sink_queues@[o].len()
                        < bound,
            decreases self.pipeline.graph.sinks.len() - j,
        {
            let sink = &self.pipeline.graph.sinks[j];
            if sink.from_stream.same(stream) {
                if self.sink_queues.depth(sink.name.as_str()) >= bound {
                    proof {
                        let o = sink.name@;
                        assert(feeds_sink(self.pipeline.graph, stream@, o));
                        assert(self.sink_queues@.dom().contains(o));
                        assert(!(self.sink_queues@[o].len() < bound));
                    }
                    return false;
                }
            }
            j = j + 1;
        }
        true
    }

    /// Appends a row of `stream` to the queue of every started pump that
    /// reads the stream and of every sink writer that drains it.
    pub fn emit_row(&mut self, stream: &StreamName, row: Arc<Row>)
        requires
            old(self).wf(),
            row.wf(),
        ensures
            final(self).wf(),
            final(self).pump_queues@ == delivered(
                old(self).pump_queues@,
                pump_targets(old(self).pipeline.graph, stream@),
                row,
            ),
            final(self).sink_queues@ == delivered(
                old(self).sink_queues@,
                sink_targets(old(self).pipeline.graph, stream@),
                row,
            ),
            final(self).pipeline == old(self).pipeline,
            final(self).in_memory_queues == old(self).in_memory_queues,
            final(self).pump_tasks == old(self).pump_tasks,
            final(self).queue_bound == old(self).queue_bound,
            final(self).memory_limit == old(self).memory_limit,
    {
        let ghost q0 = self.pump_queues@;
        let ghost s0 = self.sink_queues@;
        let ghost graph = self.pipeline.graph;
        let mut i: usize = 0;
        proof {
            assert(self.pump_queues@ =~= delivered(q0, pump_targets_below(graph, stream@, 0), row));
        }
        while i < self.pipeline.graph.pumps.len()
            invariant
                old(self).wf(),
                row.wf(),
                self.pump_queues.wf(),
                graph == old(self).pipeline.graph,
                q0 == old(self).pump_queues@,
                i <= self.pipeline.graph.pumps.len(),
                self.pump_queues@ == delivered(q0, pump_targets_below(graph, stream@, i as int), row),
                self.pipeline == old(self).pipeline,
                self.sink_queues == old(self).sink_queues,
                self.in_memory_queues == old(self).in_memory_queues,
                self.pump_tasks == old(self).pump_tasks,
                self.queue_bound == old(self).queue_bound,
                self.memory_limit == old(self).memory_limit,
            decreases self.pipeline.graph.pumps.len() - i,
        {
            let pump = &self.pipeline.graph.pumps[i];
            let ghost before = self.pump_queues@;
            if pump.state == PumpState::Started && pump.upstream().same(stream) {
                proof {
                    assert(q0.dom().contains(pump.name@));
                    assert(!pump_targets_below(graph, stream@, i as int)(pump.name@)) by {
                        if pump_targets_below(graph, stream@, i as int)(pump.name@) {
                            let k = choose|k: int|
                                0 <= k < i && k < graph.pumps@.len() && (#[trigger] graph.pumps@[k]).name@
                                    == pump.name@ && graph.pumps@[k].state == PumpState::Started
                                    && graph.pumps@[k].upstream_name() == stream@;
                            assert(graph.pumps@[k].name@ != graph.pumps@[i as int].name@);
                        }
                    }
                }
                let pushed = self.pump_queues.push(pump.name.as_str(), share(&row));
                proof {
                    assert(pushed is Ok);
                    assert(self.pump_queues@ =~= delivered(
                        q0,
                        pump_targets_below(graph, stream@, i as int + 1),
                        row,
                    ));
                }
            } else {
                proof {
                    assert(self.pump_queues@ =~= delivered(
                        q0,
                        pump_targets_below(graph, stream@, i as int + 1),
                        row,
                    ));
                }
            }
            i = i + 1;
        }
        proof {
            assert(self.pump_queues@ =~= delivered(q0, pump_targets(graph, stream@), row));
            assert(self.sink_queues@ =~= delivered(s0, sink_targets_below(graph, stream@, 0), row));
        }
        let mut j: usize = 0;
        while j < self.pipeline.graph.sinks.len()
            invariant
                old(self).wf(),
                row.wf(),
                self.pump_queues.wf(),
                self.sink_queues.wf(),
                graph == old(self).pipeline.graph,
                s0 == old(self).sink_queues@,
                j <= self.pipeline.graph.sinks.len(),
                self.sink_queues@ == delivered(s0, sink_targets_below(graph, stream@, j as int), row),
                self.pump_queues@ == delivered(
                    old(self).pump_queues@,
                    pump_targets(old(self).pipeline.graph, stream@),
                    row,
                ),
                self.pipeline == old(self).pipeline,
                self.in_memory_queues == old(self).in_memory_queues,
                self.pump_tasks == old(self).pump_tasks,
                self.queue_bound == old(self).queue_bound,
                self.memory_limit == old(self).memory_limit,
            decreases self.pipeline.graph.sinks.len() - j,
        {
            let sink = &self.pipeline.graph.sinks[j];
            if sink.from_stream.same(stream) {
                proof {
                    assert(s0.dom().contains(sink.name@));
                    assert(!sink_targets_below(graph, stream@, j as int)(sink.name@)) by {
                        if sink_targets_below(graph, stream@, j as int)(sink.name@) {
                            let k = choose|k: int|
                                0 <= k < j && k < graph.sinks@.len() && (#[trigger] graph.sinks@[k]).name@
                                    == sink.name@ && graph.sinks@[k].from_stream@ == stream@;
                            assert(graph.sinks@[k].name@ != graph.sinks@[j as int].name@);
                        }
                    }
                }
                let pushed = self.sink_queues.push(sink.name.as_str(), share(&row));
                proof {
                    assert(pushed is Ok);
                    assert(self.sink_queues@ =~= delivered(
                        s0,
                        sink_targets_below(graph, stream@, j as int + 1),
                        row,
                    ));
                }
            } else {
                proof {
                    assert(self.sink_queues@ =~= delivered(
                        s0,
                        sink_targets_below(graph, stream@, j as int + 1),
                        row,
                    ));
                }
            }
            j = j + 1;
        }
        proof {
            assert(self.sink_queues@ =~= delivered(s0, sink_targets(graph, stream@), row));
            assert(self.pump_queues@.dom() =~= old(self).pump_queues@.dom());
            assert(self.sink_queues@.dom() =~= old(self).sink_queues@.dom());
            assert forall|k: int| 0 <= k < self.pump_tasks@.len() implies #[trigger] self.task_of_pump(k) by {
                assert(old(self).task_of_pump(k));
            }
        }
    }
}

/// The stream of the graph that is called `name`.
pub open spec fn stream_named(graph: PipelineGraph, name: Seq<char>) -> Arc<StreamModel> {
    graph.streams@[choose|i: int| 0 <= i < graph.streams@.len() && (#[trigger] graph.streams@[i]).name@ == name]
}

/// The stream that the source reader called `source` feeds.
pub open spec fn source_stream(graph: PipelineGraph, source: Seq<char>) -> Seq<char> {
    graph.sources@[choose|i: int|
        0 <= i < graph.sources@.len() && (#[trigger] graph.sources@[i]).name@ == source].dest_stream@
}

/// The position of the pump called `pump`.
pub open spec fn pump_index(graph: PipelineGraph, pump: Seq<char>) -> int {
    choose|i: int| 0 <= i < graph.pumps@.len() && (#[trigger] graph.pumps@[i]).name@ == pump
}

/// The position of the sink writer called `sink`.
pub open spec fn sink_index(graph: PipelineGraph, sink: Seq<char>) -> int {
    choose|i: int| 0 <= i < graph.sinks@.len() && (#[trigger] graph.sinks@[i]).name@ == sink
}

/// Whether feeding `input` to the source reader called `source` leads the
/// engine from `pre` to `post` with the outcome `res`.
///
/// An unknown reader fails with `Unavailable`. Where a queue that the row
/// would go to is full, or the queues take as many bytes as the memory
/// limit allows, the outcome is `NoWork`. An input that lacks a cell
/// for a column of the reader's stream fails with `ForeignIo`. In each of
/// these cases nothing changes. Otherwise the row that the input stands for
/// goes to the queue of every started pump that reads the stream and of
/// every sink writer that drains it, and the outcome is `Yielded`.
pub open spec fn fed(
    pre: StreamEngine,
    source: Seq<char>,
    input: ForeignInputRow,
    arrival: i64,
    post: StreamEngine,
    res: Result<TaskOutcome, SpringError>,
) -> bool {
    let graph = pre.pipeline.graph;
    if !has_source(graph.sources@, source) {
        res == Err::<TaskOutcome, SpringError>(SpringError::Unavailable) && post == pre
    } else {
        let stream = source_stream(graph, source);
        if !room_downstream(pre, stream) || !within_memory(pre) {
            res == Ok::<TaskOutcome, SpringError>(TaskOutcome::NoWork) && post == pre
        } else if !input_fits(input, stream_named(graph, stream)) {
            res == Err::<TaskOutcome, SpringError>(SpringError::ForeignIo) && post == pre
        } else {
            &&& res == Ok::<TaskOutcome, SpringError>(TaskOutcome::Yielded)
            &&& post.pipeline == pre.pipeline
            &&& post.in_memory_queues == pre.in_memory_queues
            &&& post.pump_tasks == pre.pump_tasks
            &&& post.queue_bound == pre.queue_bound
            &&& post.memory_limit == pre.memory_limit
            &&& exists|row: Arc<Row>|
                #![trigger delivered(pre.pump_queues@, pump_targets(graph, stream), row)]
                is_input_row(input, stream_named(graph, stream), arrival, *row) && post.pump_queues@ == delivered(
                    pre.pump_queues@,
                    pump_targets(graph, stream),
                    row,
                ) && post.sink_queues@ == delivered(pre.sink_queues@, sink_targets(graph, stream), row)
        }
    }
}

/// Whether one run of the sink writer called `sink` leads the engine from
/// `pre` to `post` with the outcome `res`.
///
/// An unknown writer fails with `Unavailable`; an empty input queue gives
/// `NoWork`; in both cases nothing changes. Otherwise the oldest row leaves
/// the input queue: a writer to an in-memory queue appends it to that
/// queue, any other writer hands it out to be written.
pub open spec fn sunk(pre: StreamEngine, sink: Seq<char>, post: StreamEngine, res: Result<SinkOutcome, SpringError>) -> bool {
    let graph = pre.pipeline.graph;
    if !has_sink(graph.sinks@, sink) {
        res matches Err(e) && e == SpringError::Unavailable && post == pre
    } else if pre.sink_queues@[sink].len() == 0 {
        res matches Ok(SinkOutcome::NoWork) && post == pre
    } else {
        let writer = graph.sinks@[sink_index(graph, sink)];
        let row = pre.sink_queues@[sink][0];
        &&& post.pipeline == pre.pipeline
        &&& post.pump_queues == pre.pump_queues
        &&& post.pump_tasks == pre.pump_tasks
        &&& post.queue_bound == pre.queue_bound
        &&& post.memory_limit == pre.memory_limit
        &&& post.sink_queues@ == pre.sink_queues@.insert(sink, pre.sink_queues@[sink].drop_first())
        &&& if writer.writer_type == SinkWriterType::InMemoryQueue {
            res matches Ok(SinkOutcome::Delivered) && post.in_memory_queues@ == pre.in_memory_queues@.insert(
                writer.queue_text(),
                pre.in_memory_queues@[writer.queue_text()].push(row),
            )
        } else {
            (res matches Ok(SinkOutcome::Write(out)) && out == row) && post.in_memory_queues == pre.in_memory_queues
        }
    }
}

impl StreamEngine {
    /// Where names are distinct, the stream found at `i` is the stream of
    /// its name.
    pub proof fn lemma_stream_named(self, i: int)
        requires
            self.pipeline.graph.streams_wf(),
            0 <= i < self.pipeline.graph.streams@.len(),
        ensures
            stream_named(self.pipeline.graph, self.pipeline.graph.streams@[i].name@)
                == self.pipeline.graph.streams@[i],
    {
        let streams = self.pipeline.graph.streams@;
        let name = streams[i].name@;
        let c = choose|c: int| 0 <= c < streams.len() && (#[trigger] streams[c]).name@ == name;
        assert(0 <= c < streams.len() && streams[c].name@ == name);
        if c < i {
            assert(streams[c].name@ != streams[i].name@);
        } else if i < c {
            assert(streams[i].name@ != streams[c].name@);
        }
    }

    /// The source task: takes one input row that the caller read from the
    /// foreign source of `source` and puts it on its way.
    pub fn feed_source(&mut self, source: &SourceReaderName, input: &ForeignInputRow, arrival: i64) -> (res:
        Result<TaskOutcome, SpringError>)
        requires
            old(self).wf(),
        ensures
            final(self).wf(),
            fed(*old(self), source@, *input, arrival, *final(self), res),
    {
        let i = match self.pipeline.graph.find_source(source) {
            None => {
                return Err(SpringError::Unavailable);
            },
            Some(i) => i,
        };
        proof {
            let sources = self.pipeline.graph.sources@;
            let c = choose|c: int| 0 <= c < sources.len() && (#[trigger] sources[c]).name@ == source@;
            assert(0 <= c < sources.len() && sources[c].name@ == source@);
            if c < i {
                assert(sources[c].name@ != sources[i as int].name@);
            } else if i < c {
                assert(sources[i as int].name@ != sources[c].name@);
            }
        }
        let stream_name = self.pipeline.graph.sources[i].dest_stream.duplicate();
        if !self.has_room_downstream(&stream_name) || !self.has_memory() {
            return Ok(TaskOutcome::NoWork);
        }
        let k = match self.pipeline.graph.find_stream(&stream_name) {
            None => {
                proof {
                    assert(crate::pipeline_graph::has_stream(
                        self.pipeline.graph.streams@,
                        self.pipeline.graph.sources@[i as int].dest_stream@,
                    ));
                }
                return Err(SpringError::Internal);
            },
            Some(k) => k,
        };
        proof {
            self.lemma_stream_named(k as int);
            assert(self.pipeline.graph.streams@[k as int].wf());
        }
        let model = share(&self.pipeline.graph.streams[k]);
        let row = match input._into_row(model, arrival) {
            Err(e) => {
                return Err(e);
            },
            Ok(row) => Arc::new(row),
        };
        self.emit_row(&stream_name, row);
        Ok(TaskOutcome::Yielded)
    }

    /// The sink task: takes one row from the input queue of the sink writer
    /// called `sink` and delivers it.
    pub fn run_sink(&mut self, sink: &SinkWriterName) -> (res: Result<SinkOutcome, SpringError>)
        requires
            old(self).wf(),
        ensures
            final(self).wf(),
            sunk(*old(self), sink@, *final(self), res),
    {
        let i = match self.pipeline.graph.find_sink(sink) {
            None => {
                return Err(SpringError::Unavailable);
            },
            Some(i) => i,
        };
        proof {
            let sinks = self.pipeline.graph.sinks@;
            let c = choose|c: int| 0 <= c < sinks.len() && (#[trigger] sinks[c]).name@ == sink@;
            assert(0 <= c < sinks.len() && sinks[c].name@ == sink@);
            if c < i {
                assert(sinks[c].name@ != sinks[i as int].name@);
            } else if i < c {
                assert(sinks[i as int].name@ != sinks[c].name@);
            }
            assert(self.sink_queues@.dom().contains(sinks[i as int].name@));
            assert(sinks[i as int].wf());
        }
        let row = match self.sink_queues.pop(sink.as_str()) {
            Ok(Some(row)) => row,
            _ => {
                return Ok(SinkOutcome::NoWork);
            },
        };
        let queue = self.pipeline.graph.sinks[i].queue_name();
        let res = match queue {
            Some(q) => {
                proof {
                    assert(old(self).in_memory_queues@.dom().contains(
                        old(self).pipeline.graph.sinks@[i as int].queue_text(),
                    ));
                }
                let pushed = self.in_memory_queues.push(q.as_str(), row);
                proof {
                    assert(pushed is Ok);
                }
                SinkOutcome::Delivered
            },
            None => SinkOutcome::Write(row),
        };
        proof {
            assert(self.sink_queues@.dom() =~= old(self).sink_queues@.dom());
            assert(self.in_memory_queues@.dom() =~= old(self).in_memory_queues@.dom());
            assert forall|k: int| 0 <= k < self.pump_tasks@.len() implies #[trigger] self.task_of_pump(k) by {
                assert(old(self).task_of_pump(k));
            }
        }
        Ok(res)
    }
}

/// Whether `row` is the row of `stream` that the output values stand for:
/// each value stands in the column that `order` names for its position.
pub open spec fn is_output_row(
    values: Seq<SqlValue>,
    order: Seq<ColumnName>,
    stream: Arc<StreamModel>,
    arrival: i64,
    row: Row,
) -> bool {
    &&& row.wf()
    &&& row.stream == stream
    &&& row.event_time == event_time_of(stream.shape, row.values@, arrival)
    &&& placed(values, order, stream.shape.columns@, row.values@)
}

/// Whether each list of output values fills the columns of `stream`.
pub open spec fn all_fill(values_seq: Seq<Seq<SqlValue>>, order: Seq<ColumnName>, stream: Arc<StreamModel>) -> bool {
    forall|k: int| 0 <= k < values_seq.len() ==> fills(#[trigger] values_seq[k], order, stream.shape.columns@)
}

/// Whether `rows` are, one by one, the rows that the lists of output values
/// stand for.
pub open spec fn are_output_rows(
    values_seq: Seq<Seq<SqlValue>>,
    order: Seq<ColumnName>,
    stream: Arc<StreamModel>,
    arrival: i64,
    rows: Seq<Arc<Row>>,
) -> bool {
    &&& rows.len() == values_seq.len()
    &&& forall|k: int|
        0 <= k < rows.len() ==> is_output_row(values_seq[k], order, stream, arrival, *(#[trigger] rows[k]))
}

/// The views of lists of output values.
pub open spec fn values_views(values_seq: Seq<SqlValues>) -> Seq<Seq<SqlValue>> {
    values_seq.map_values(|v: SqlValues| v@)
}

/// Turns the output of a query into rows of the downstream stream. Gives
/// `None` exactly when some output does not fill the stream's columns.
pub fn build_rows(values_seq: Vec<SqlValues>, stream: &Arc<StreamModel>, order: &Vec<ColumnName>, arrival: i64) -> (res:
    Option<Vec<Arc<Row>>>)
    requires
        stream.wf(),
    ensures
        res is Some <==> all_fill(values_views(values_seq@), order@, *stream),
        res matches Some(rows) ==> are_output_rows(values_views(values_seq@), order@, *stream, arrival, rows@),
{
    let ghost all = values_views(values_seq@);
    let mut k: usize = 0;
    while k < values_seq.len()
        invariant
            k <= values_seq.len(),
            all == values_views(values_seq@),
            forall|m: int| 0 <= m < k ==> fills(#[trigger] all[m], order@, stream.shape.columns@),
        decreases values_seq.len() - k,
    {
        if !values_seq[k].can_fill(stream, order) {
            proof {
                assert(!fills(all[k as int], order@, stream.shape.columns@));
            }
            return None;
        }
        k = k + 1;
    }
    let mut pending = values_seq;
    let mut rows: Vec<Arc<Row>> = Vec::new();
    let n = pending.len();
    let mut k: usize = 0;
    while k < n
        invariant
            k <= n,
            n == all.len(),
            stream.wf(),
            pending@.len() == n - k,
            forall|m: int| 0 <= m < pending@.len() ==> (#[trigger] pending@[m])@ == all[m + k],
            forall|m: int| 0 <= m < n ==> fills(#[trigger] all[m], order@, stream.shape.columns@),
            rows@.len() == k,
            forall|m: int| 0 <= m < k ==> is_output_row(all[m], order@, *stream, arrival, *(#[trigger] rows@[m])),
        decreases n - k,
    {
        let values = pending.remove(0);
        let mut column_order: Vec<ColumnName> = Vec::new();
        let mut c: usize = 0;
        while c < order.len()
            invariant
                c <= order.len(),
                column_order@ == order@.take(c as int),
            decreases order.len() - c,
        {
            column_order.push(order[c].duplicate());
            proof {
                assert(order@.take(c + 1) =~= order@.take(c as int).push(order@[c as int]));
            }
            c = c + 1;
        }
        proof {
            assert(order@.take(order@.len() as int) =~= order@);
            assert(values@ == all[k as int]);
        }
        let row = values.into_row(share(stream), column_order, arrival);
        rows.push(Arc::new(row));
        k = k + 1;
    }
    Some(rows)
}

impl StreamEngine {
    /// Appends each of the rows of `stream`, in order, to the queue of every
    /// started pump that reads the stream and of every sink writer that
    /// drains it.
    pub fn emit_rows(&mut self, stream: &StreamName, rows: Vec<Arc<Row>>)
        requires
            old(self).wf(),
            forall|k: int| 0 <= k < rows@.len() ==> (#[trigger] rows@[k]).wf(),
        ensures
            final(self).wf(),
            final(self).pump_queues@ == delivered_all(
                old(self).pump_queues@,
                pump_targets(old(self).pipeline.graph, stream@),
                rows@,
            ),
            final(self).sink_queues@ == delivered_all(
                old(self).sink_queues@,
                sink_targets(old(self).pipeline.graph, stream@),
                rows@,
            ),
            final(self).pipeline == old(self).pipeline,
            final(self).in_memory_queues == old(self).in_memory_queues,
            final(self).pump_tasks == old(self).pump_tasks,
            final(self).queue_bound == old(self).queue_bound,
            final(self).memory_limit == old(self).memory_limit,
    {
        let ghost graph = self.pipeline.graph;
        let ghost q0 = self.pump_queues@;
        let ghost s0 = self.sink_queues@;
        let mut k: usize = 0;
        proof {
            assert(rows@.take(0) =~= Seq::<Arc<Row>>::empty());
            assert(q0 =~= delivered_all(q0, pump_targets(graph, stream@), rows@.take(0)));
            assert(s0 =~= delivered_all(s0, sink_targets(graph, stream@), rows@.take(0)));
        }
        while k < rows.len()
            invariant
                k <= rows.len(),
                self.wf(),
                forall|m: int| 0 <= m < rows@.len() ==> (#[trigger] rows@[m]).wf(),
                graph == old(self).pipeline.graph,
                q0 == old(self).pump_queues@,
                s0 == old(self).sink_queues@,
                self.pump_queues@ == delivered_all(q0, pump_targets(graph, stream@), rows@.take(k as int)),
                self.sink_queues@ == delivered_all(s0, sink_targets(graph, stream@), rows@.take(k as int)),
                self.pipeline == old(self).pipeline,
                self.in_memory_queues == old(self).in_memory_queues,
                self.pump_tasks == old(self).pump_tasks,
                self.queue_bound == old(self).queue_bound,
                self.memory_limit == old(self).memory_limit,
            decreases rows.len() - k,
        {
            let row = share(&rows[k]);
            self.emit_row(stream, row);
            proof {
                assert(rows@.take(k + 1) =~= rows@.take(k as int).push(rows@[k as int]));
                assert forall|o: Seq<char>| q0.dom().contains(o) implies #[trigger] self.pump_queues@[o]
                    == delivered_all(q0, pump_targets(graph, stream@), rows@.take(k + 1))[o] by {
                    assert(q0[o] + rows@.take(k as int).push(rows@[k as int]) =~= (q0[o] + rows@.take(
                        k as int,
                    )).push(rows@[k as int]));
                }
                assert(self.pump_queues@ =~= delivered_all(q0, pump_targets(graph, stream@), rows@.take(k + 1)));
                assert forall|o: Seq<char>| s0.dom().contains(o) implies #[trigger] self.sink_queues@[o]
                    == delivered_all(s0, sink_targets(graph, stream@), rows@.take(k + 1))[o] by {
                    assert(s0[o] + rows@.take(k as int).push(rows@[k as int]) =~= (s0[o] + rows@.take(
                        k as int,
                    )).push(rows@[k as int]));
                }
                assert(self.sink_queues@ =~= delivered_all(s0, sink_targets(graph, stream@), rows@.take(k + 1)));
            }
            k = k + 1;
        }
        proof {
            assert(rows@.take(rows@.len() as int) =~= rows@);
        }
    }
}

/// Whether, after the subtask tree of the pump at `i` ran with the outcome
/// `sub` and left the pump queues as `mid`, the engine ends as `post` with
/// the outcome `res`.
///
/// A failure of the tree is the outcome. No row gives `NoWork`. Output that
/// does not fill the columns of the downstream stream fails with
/// `Internal`. In each of these cases no row is emitted. Otherwise each
/// output becomes a row of the downstream stream with the arrival time
/// `now`, and the rows go, in order, to the queue of every started pump
/// that reads that stream and of every sink writer that drains it.
pub open spec fn emitted(
    pre: StreamEngine,
    i: int,
    now: i64,
    mid: Map<Seq<char>, Seq<Arc<Row>>>,
    sub: Result<Option<QuerySubtaskOut>, SpringError>,
    post: StreamEngine,
    res: Result<TaskOutcome, SpringError>,
) -> bool {
    let graph = pre.pipeline.graph;
    let pump = graph.pumps@[i];
    let down = pump.downstream_name();
    let stream = stream_named(graph, down);
    let order = pump.insert_plan.column_order@;
    match sub {
        Err(e) => res == Err::<TaskOutcome, SpringError>(e) && post.pump_queues@ == mid && post.sink_queues
            == pre.sink_queues,
        Ok(None) => res == Ok::<TaskOutcome, SpringError>(TaskOutcome::NoWork) && post.pump_queues@ == mid
            && post.sink_queues == pre.sink_queues,
        Ok(Some(out)) => if all_fill(out.value_views(), order, stream) {
            &&& res == Ok::<TaskOutcome, SpringError>(TaskOutcome::Yielded)
            &&& exists|rows: Seq<Arc<Row>>|
                #![trigger delivered_all(mid, pump_targets(graph, down), rows)]
                are_output_rows(out.value_views(), order, stream, now, rows) && post.pump_queues@
                    == delivered_all(mid, pump_targets(graph, down), rows) && post.sink_queues@ == delivered_all(
                    pre.sink_queues@,
                    sink_targets(graph, down),
                    rows,
                )
        } else {
            res == Err::<TaskOutcome, SpringError>(SpringError::Internal) && post.pump_queues@ == mid
                && post.sink_queues == pre.sink_queues
        },
    }
}

/// Whether one run of the pump called `pump` leads the engine from `pre` to
/// `post` with the outcome `res`.
///
/// An unknown pump fails with `Unavailable`. A stopped pump, and a pump
/// that feeds a full queue, gives `NoWork`. In each of these cases nothing
/// changes. Otherwise the subtask tree of the pump runs once on the pump's
/// input queue, and what it yields is emitted downstream.
pub open spec fn pumped(
    pre: StreamEngine,
    pump: Seq<char>,
    now: i64,
    post: StreamEngine,
    res: Result<TaskOutcome, SpringError>,
) -> bool {
    let graph = pre.pipeline.graph;
    if !has_pump(graph.pumps@, pump) {
        res == Err::<TaskOutcome, SpringError>(SpringError::Unavailable) && post == pre
    } else {
        let i = pump_index(graph, pump);
        let model = graph.pumps@[i];
        if model.state == PumpState::Stopped || !room_downstream(pre, model.downstream_name()) {
            res == Ok::<TaskOutcome, SpringError>(TaskOutcome::NoWork) && post == pre
        } else {
            &&& post.pipeline == pre.pipeline
            &&& post.in_memory_queues == pre.in_memory_queues
            &&& post.queue_bound == pre.queue_bound
            &&& post.memory_limit == pre.memory_limit
            &&& post.pump_tasks@.len() == pre.pump_tasks@.len()
            &&& forall|k: int|
                0 <= k < pre.pump_tasks@.len() && k != i ==> (#[trigger] post.pump_tasks@[k]) == pre.pump_tasks@[k]
            &&& post.pump_tasks@[i].name == pre.pump_tasks@[i].name
            &&& exists|mid: Map<Seq<char>, Seq<Arc<Row>>>, sub: Result<Option<QuerySubtaskOut>, SpringError>|
                #![trigger emitted(pre, i, now, mid, sub, post, res)]
                ran(
                    pre.pump_tasks@[i].subtask,
                    pump,
                    pre.pump_queues@,
                    post.pump_tasks@[i].subtask,
                    mid,
                    sub,
                ) && emitted(pre, i, now, mid, sub, post, res)
        }
    }
}

impl StreamEngine {
    /// The pump task: runs the pump called `pump` for one quantum. `now` is
    /// the arrival time of the rows it emits.
    pub fn run_pump(&mut self, pump: &PumpName, now: i64) -> (res: Result<TaskOutcome, SpringError>)
        requires
            old(self).wf(),
        ensures
            final(self).wf(),
            pumped(*old(self), pump@, now, *final(self), res),
    {
        let i = match self.pipeline.graph.find_pump(pump) {
            None => {
                return Err(SpringError::Unavailable);
            },
            Some(i) => i,
        };
        proof {
            let pumps = self.pipeline.graph.pumps@;
            let c = choose|c: int| 0 <= c < pumps.len() && (#[trigger] pumps[c]).name@ == pump@;
            assert(0 <= c < pumps.len() && pumps[c].name@ == pump@);
            if c < i {
                assert(pumps[c].name@ != pumps[i as int].name@);
            } else if i < c {
                assert(pumps[i as int].name@ != pumps[c].name@);
            }
        }
        if self.pipeline.graph.pumps[i].state == PumpState::Stopped {
            return Ok(TaskOutcome::NoWork);
        }
        let down = self.pipeline.graph.pumps[i].downstream().duplicate();
        if !self.has_room_downstream(&down) {
            return Ok(TaskOutcome::NoWork);
        }
        proof {
            assert(self.task_of_pump(i as int));
            assert(self.pump_queues@.dom().contains(self.pipeline.graph.pumps@[i as int].name@));
        }
        let sub = self.pump_tasks[i].subtask.run(pump.as_str(), &mut self.pump_queues);
        let ghost mid = self.pump_queues@;
        proof {
            assert(self.pump_queues@.dom() =~= old(self).pump_queues@.dom());
            assert forall|k: int| 0 <= k < self.pump_tasks@.len() implies #[trigger] self.task_of_pump(k) by {
                assert(old(self).task_of_pump(k));
            }
            assert(self.wf());
        }
        let out = match sub {
            Err(e) => {
                proof {
                    assert(emitted(*old(self), i as int, now, mid, sub, *self, Err::<TaskOutcome, SpringError>(e)));
                }
                return Err(e);
            },
            Ok(None) => {
                proof {
                    assert(emitted(
                        *old(self),
                        i as int,
                        now,
                        mid,
                        sub,
                        *self,
                        Ok::<TaskOutcome, SpringError>(TaskOutcome::NoWork),
                    ));
                }
                return Ok(TaskOutcome::NoWork);
            },
            Ok(Some(out)) => out,
        };
        let k = match self.pipeline.graph.find_stream(&down) {
            None => {
                proof {
                    assert(crate::pipeline_graph::has_stream(
                        self.pipeline.graph.streams@,
                        self.pipeline.graph.pumps@[i as int].downstream_name(),
                    ));
                }
                return Err(SpringError::Internal);
            },
            Some(k) => k,
        };
        proof {
            self.lemma_stream_named(k as int);
            assert(self.pipeline.graph.streams@[k as int].wf());
        }
        let model = share(&self.pipeline.graph.streams[k]);
        let ghost views = out.value_views();
        let built = build_rows(out.values_seq, &model, &self.pipeline.graph.pumps[i].insert_plan.column_order, now);
        let rows = match built {
            None => {
                proof {
                    assert(emitted(
                        *old(self),
                        i as int,
                        now,
                        mid,
                        sub,
                        *self,
                        Err::<TaskOutcome, SpringError>(SpringError::Internal),
                    ));
                }
                return Err(SpringError::Internal);
            },
            Some(rows) => rows,
        };
        let ghost emitted_rows = rows@;
        self.emit_rows(&down, rows);
        proof {
            assert(emitted(
                *old(self),
                i as int,
                now,
                mid,
                sub,
                *self,
                Ok::<TaskOutcome, SpringError>(TaskOutcome::Yielded),
            ));
        }
        Ok(TaskOutcome::Yielded)
    }
}

} // verus!
