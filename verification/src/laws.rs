//! Laws that relate the operations of the engine to one another.

use std::sync::Arc;
use vstd::prelude::*;
use crate::command::AlterPipelineCommand;
use crate::error::SpringError;
use crate::foreign_input_row::ForeignInputRow;
use crate::query_subtask::climb;
use crate::query_subtask::head_of;
use crate::query_subtask::out_is;
use crate::query_subtask::ran;
use crate::query_subtask::row_values;
use crate::query_subtask::tuple_of;
use crate::query_subtask::QuerySubtaskOut;
use crate::row::Row;
use crate::sink_writer_model::SinkWriterType;
use crate::sql_value::text_lt;
use crate::sql_value::value_lt;
use crate::sql_value::SqlValueView;
use crate::stream_engine::altered;
use crate::stream_engine::popped;
use crate::stream_engine::with_queue;
use crate::task::sink_index;
use crate::task::SinkOutcome;
use crate::stream_engine::delivered;
use crate::stream_engine::delivered_all;
use crate::stream_engine::feeds_pump;
use crate::stream_engine::feeds_sink;
use crate::stream_engine::StreamEngine;
use crate::task::are_output_rows;
use crate::task::emitted;
use crate::task::fed;
use crate::task::is_input_row;
use crate::task::is_output_row;
use crate::task::pump_targets;
use crate::task::pumped;
use crate::task::sink_targets;
use crate::task::stream_named;
use crate::task::sunk;
use crate::task::TaskOutcome;
use crate::tuple::values_of;
use crate::window::closed_part;
use crate::window::dispatched_to;
use crate::window::groups_in;
use crate::window::open_part;
use crate::window::panes_model;
use crate::window::reading;
use crate::window::AggrWindow;
use crate::tuple::TupleView;
use crate::window::groups_model;
use crate::window::groups_wf;
use crate::window::has_group;
use crate::window::lemma_aligned_unique;
use crate::window::listing;
use crate::window::observe;
use crate::window::panes_wf;
use crate::window::AvgState;
use crate::window::Group;
use crate::window::Pane;
use crate::window::WindowKind;
use crate::window::WindowParameter;
use crate::worker::Latch;

verus! {

/// Every command that succeeds raises the version of the pipeline by one,
/// and one that creates an object adds the object's name to the names
/// taken: the new names are the old ones and one that was free.
pub proof fn law_successful_command(
    pre: StreamEngine,
    command: AlterPipelineCommand,
    post: StreamEngine,
    res: Result<(), SpringError>,
)
    requires
        altered(pre, command, post, res),
        res is Ok,
    ensures
        post.pipeline.version.0 == pre.pipeline.version.0 + 1,
        pre.pipeline.names().subset_of(post.pipeline.names()),
        command.creates() ==> post.pipeline.names().contains(command.object_name())
            && !pre.pipeline.names().contains(command.object_name()),
{
}

/// A command that fails leaves the engine as it was: the pipeline, its
/// version and every queue. It fails with `Sql` where the pipeline does
/// not accept it, and with `Unavailable` exactly when it is accepted and
/// well formed and the pipeline has run out of versions.
pub proof fn law_failed_command(
    pre: StreamEngine,
    command: AlterPipelineCommand,
    post: StreamEngine,
    res: Result<(), SpringError>,
)
    requires
        altered(pre, command, post, res),
        res is Err,
    ensures
        post == pre,
        !command.applies_to(pre.pipeline) ==> res == Err::<(), SpringError>(SpringError::Sql),
        res == Err::<(), SpringError>(SpringError::Unavailable) <==> command.applies_to(pre.pipeline)
            && command.wf() && pre.pipeline.version.0 == u64::MAX,
{
}

/// A created object never takes a name in use: a command that creates an
/// object under the name of a stream, pump, source reader or sink writer
/// of the pipeline fails with `Sql`, whatever the version, and changes
/// nothing.
pub proof fn law_name_collision(
    pre: StreamEngine,
    command: AlterPipelineCommand,
    post: StreamEngine,
    res: Result<(), SpringError>,
)
    requires
        pre.pipeline.wf(),
        command.creates(),
        pre.pipeline.graph.object_named(command.object_name()),
        altered(pre, command, post, res),
    ensures
        res == Err::<(), SpringError>(SpringError::Sql),
        post == pre,
{
    assert(pre.pipeline.names().contains(command.object_name()));
}

/// A pump is created stopped, whatever its model says: after a successful
/// `CREATE PUMP` the pump is the last of the graph's pumps and is stopped,
/// and no queue feeds it until it is started.
pub proof fn law_pump_created_stopped(
    pre: StreamEngine,
    command: AlterPipelineCommand,
    post: StreamEngine,
    stream: Seq<char>,
)
    requires
        pre.pipeline.wf(),
        command is CreatePump,
        altered(pre, command, post, Ok(())),
    ensures
        post.pipeline.graph.pumps@.last().name@ == command.object_name(),
        post.pipeline.graph.pumps@.last().state == crate::pump_model::PumpState::Stopped,
        !feeds_pump(post.pipeline.graph, stream, command.object_name()),
{
    let name = command.object_name();
    let before = pre.pipeline.graph.pumps@;
    let after = post.pipeline.graph.pumps@;
    assert(!pre.pipeline.names().contains(name));
    assert(!pre.pipeline.graph.object_named(name));
    assert forall|i: int| 0 <= i < after.len() && (#[trigger] after[i]).name@ == name implies after[i].state
        == crate::pump_model::PumpState::Stopped by {
        if i < before.len() {
            assert(before[i].name@ == name);
            assert(crate::pipeline_graph::has_pump(before, name));
        }
    }
}

/// Creating an object under a name that a successful command has just
/// taken fails with `Sql`.
pub proof fn law_create_twice(
    s0: StreamEngine,
    first: AlterPipelineCommand,
    s1: StreamEngine,
    second: AlterPipelineCommand,
    s2: StreamEngine,
    res: Result<(), SpringError>,
)
    requires
        altered(s0, first, s1, Ok(())),
        first.creates(),
        second.creates(),
        second.object_name() == first.object_name(),
        altered(s1, second, s2, res),
    ensures
        res == Err::<(), SpringError>(SpringError::Sql),
        s2 == s1,
{
}

/// Starting or stopping a pump twice leaves the graph as the first time
/// did: only the version moves on.
pub proof fn law_alter_pump_twice(
    s0: StreamEngine,
    command: AlterPipelineCommand,
    s1: StreamEngine,
    s2: StreamEngine,
)
    requires
        s0.pipeline.graph.pumps_wf(),
        command is AlterPump,
        altered(s0, command, s1, Ok(())),
        altered(s1, command, s2, Ok(())),
    ensures
        s2.pipeline.graph.streams@ == s1.pipeline.graph.streams@,
        s2.pipeline.graph.pumps@ == s1.pipeline.graph.pumps@,
        s2.pipeline.graph.sources@ == s1.pipeline.graph.sources@,
        s2.pipeline.graph.sinks@ == s1.pipeline.graph.sinks@,
        s2.pipeline.names() == s1.pipeline.names(),
        s2.pump_queues@ == s1.pump_queues@,
        s2.sink_queues@ == s1.sink_queues@,
        s2.in_memory_queues@ == s1.in_memory_queues@,
{
    let name = command->AlterPump_name;
    let state = command->AlterPump_state;
    let before = s0.pipeline.graph.pumps@;
    let once = s1.pipeline.graph.pumps@;
    let twice = s2.pipeline.graph.pumps@;
    let i = choose|i: int|
        0 <= i < before.len() && (#[trigger] before[i]).name@ == name@ && once == before.update(
            i,
            crate::pump_model::PumpModel { state, ..before[i] },
        );
    let j = choose|j: int|
        0 <= j < once.len() && (#[trigger] once[j]).name@ == name@ && twice == once.update(
            j,
            crate::pump_model::PumpModel { state, ..once[j] },
        );
    if i != j {
        assert(once[j] == before[j]);
        if i < j {
            assert(before[i].name@ != before[j].name@);
        } else {
            assert(before[j].name@ != before[i].name@);
        }
    }
    assert(twice =~= once);
}

/// Whether `row`, a row of `stream`, went to each queue downstream once
/// between `pre` and `post`: the queue of every started pump that reads the
/// stream and of every sink writer that drains it grew by that one row at
/// its end, and no other queue changed.
pub open spec fn delivered_once(pre: StreamEngine, post: StreamEngine, stream: Seq<char>, row: Arc<Row>) -> bool {
    &&& forall|o: Seq<char>|
        #![trigger post.pump_queues@[o]]
        pre.pump_queues@.dom().contains(o) ==> post.pump_queues@[o] == (if feeds_pump(
            pre.pipeline.graph,
            stream,
            o,
        ) {
            pre.pump_queues@[o].push(row)
        } else {
            pre.pump_queues@[o]
        })
    &&& forall|o: Seq<char>|
        #![trigger post.sink_queues@[o]]
        pre.sink_queues@.dom().contains(o) ==> post.sink_queues@[o] == (if feeds_sink(
            pre.pipeline.graph,
            stream,
            o,
        ) {
            pre.sink_queues@[o].push(row)
        } else {
            pre.sink_queues@[o]
        })
    &&& post.pump_queues@.dom() == pre.pump_queues@.dom()
    &&& post.sink_queues@.dom() == pre.sink_queues@.dom()
    &&& post.in_memory_queues == pre.in_memory_queues
}

/// A row that a source task takes in is neither lost nor doubled: it goes
/// to each queue downstream once.
pub proof fn law_source_delivers_once(
    pre: StreamEngine,
    source: Seq<char>,
    input: ForeignInputRow,
    arrival: i64,
    post: StreamEngine,
)
    requires
        fed(pre, source, input, arrival, post, Ok(TaskOutcome::Yielded)),
    ensures
        exists|stream: Seq<char>, row: Arc<Row>| #[trigger] delivered_once(pre, post, stream, row),
{
    let graph = pre.pipeline.graph;
    let stream = crate::task::source_stream(graph, source);
    let row = choose|row: Arc<Row>|
        #![trigger delivered(pre.pump_queues@, pump_targets(graph, stream), row)]
        is_input_row(input, stream_named(graph, stream), arrival, *row) && post.pump_queues@ == delivered(
            pre.pump_queues@,
            pump_targets(graph, stream),
            row,
        ) && post.sink_queues@ == delivered(pre.sink_queues@, sink_targets(graph, stream), row);
    assert(post.pump_queues@.dom() =~= pre.pump_queues@.dom());
    assert(post.sink_queues@.dom() =~= pre.sink_queues@.dom());
    assert(delivered_once(pre, post, stream, row));
}

/// Whether a run of the pump at `i` took the row at the head of the pump's
/// queue and sent `row`, made of the values that the tuple of that row has
/// at the root of the pump's tree, to each queue downstream.
pub open spec fn one_for_one(pre: StreamEngine, i: int, now: i64, post: StreamEngine, row: Arc<Row>) -> bool {
    let graph = pre.pipeline.graph;
    let model = graph.pumps@[i];
    let pump = model.name@;
    let down = model.downstream_name();
    let taken = pre.pump_queues@.insert(pump, pre.pump_queues@[pump].drop_first());
    &&& 0 <= i < graph.pumps@.len()
    &&& pre.pump_queues@.dom().contains(pump) && pre.pump_queues@[pump].len() > 0
    &&& climb(
        pre.pump_tasks@[i].subtask.nodes(),
        pre.pump_tasks@[i].subtask.nodes().len() - 1,
        tuple_of(*pre.pump_queues@[pump][0]),
    ) matches Ok(t) && is_output_row(
        values_of(t.fields),
        model.insert_plan.column_order@,
        stream_named(graph, down),
        now,
        *row,
    )
    &&& post.pump_queues@ == delivered(taken, pump_targets(graph, down), row)
    &&& post.sink_queues@ == delivered(pre.sink_queues@, sink_targets(graph, down), row)
    &&& post.in_memory_queues == pre.in_memory_queues
}

/// A pump without a window turns one row into one row: a run that yields
/// takes the row at the head of the pump's queue and sends one row to each
/// queue downstream.
pub proof fn law_pump_one_for_one(pre: StreamEngine, pump: Seq<char>, now: i64, post: StreamEngine)
    requires
        pre.wf(),
        pumped(pre, pump, now, post, Ok(TaskOutcome::Yielded)),
        forall|i: int|
            0 <= i < pre.pump_tasks@.len() && (#[trigger] pre.pump_tasks@[i]).name@ == pump
                ==> pre.pump_tasks@[i].subtask.window is None,
    ensures
        exists|i: int, row: Arc<Row>|
            pre.pipeline.graph.pumps@[i].name@ == pump && #[trigger] one_for_one(pre, i, now, post, row),
{
    let graph = pre.pipeline.graph;
    let i = crate::task::pump_index(graph, pump);
    let model = graph.pumps@[i];
    let down = model.downstream_name();
    assert(pre.task_of_pump(i));
    let (mid, sub) = choose|mid: Map<Seq<char>, Seq<Arc<Row>>>, sub: Result<Option<QuerySubtaskOut>, SpringError>|
        #![trigger emitted(pre, i, now, mid, sub, post, Ok(TaskOutcome::Yielded))]
        ran(pre.pump_tasks@[i].subtask, pump, pre.pump_queues@, post.pump_tasks@[i].subtask, mid, sub) && emitted(
            pre,
            i,
            now,
            mid,
            sub,
            post,
            Ok(TaskOutcome::Yielded),
        );
    let out = sub->Ok_0->Some_0;
    let stream = stream_named(graph, down);
    let order = model.insert_plan.column_order@;
    let rows = choose|rows: Seq<Arc<Row>>|
        #![trigger delivered_all(mid, pump_targets(graph, down), rows)]
        are_output_rows(out.value_views(), order, stream, now, rows) && post.pump_queues@ == delivered_all(
            mid,
            pump_targets(graph, down),
            rows,
        ) && post.sink_queues@ == delivered_all(pre.sink_queues@, sink_targets(graph, down), rows);
    let nodes = pre.pump_tasks@[i].subtask.nodes();
    let head = head_of(pre.pump_queues@, pump)->Some_0;
    let t = climb(nodes, nodes.len() - 1, tuple_of(head))->Ok_0;
    assert(out_is(sub, Ok(seq![t]), crate::query_subtask::metrics_of(head)));
    assert(row_values(seq![t]).len() == 1);
    assert(rows.len() == 1);
    let row = rows[0];
    assert(row_values(seq![t])[0] == values_of(t.fields));
    assert(is_output_row(values_of(t.fields), order, stream, now, *row));
    assert forall|o: Seq<char>| mid.dom().contains(o) implies #[trigger] delivered_all(
        mid,
        pump_targets(graph, down),
        rows,
    )[o] == delivered(mid, pump_targets(graph, down), row)[o] by {
        assert(mid[o] + rows =~= mid[o].push(row));
    }
    assert(delivered_all(mid, pump_targets(graph, down), rows) =~= delivered(
        mid,
        pump_targets(graph, down),
        row,
    ));
    assert forall|o: Seq<char>| pre.sink_queues@.dom().contains(o) implies #[trigger] delivered_all(
        pre.sink_queues@,
        sink_targets(graph, down),
        rows,
    )[o] == delivered(pre.sink_queues@, sink_targets(graph, down), row)[o] by {
        assert(pre.sink_queues@[o] + rows =~= pre.sink_queues@[o].push(row));
    }
    assert(delivered_all(pre.sink_queues@, sink_targets(graph, down), rows) =~= delivered(
        pre.sink_queues@,
        sink_targets(graph, down),
        row,
    ));
    assert(one_for_one(pre, i, now, post, row));
}

/// A sink task moves one row: the row at the head of the writer's input
/// queue leaves it, and a writer to an in-memory queue puts that very row
/// at the end of its queue.
pub proof fn law_sink_moves_one(pre: StreamEngine, sink: Seq<char>, post: StreamEngine, queue: Seq<char>)
    requires
        pre.wf(),
        sunk(pre, sink, post, Ok(crate::task::SinkOutcome::Delivered)),
        exists|i: int|
            0 <= i < pre.pipeline.graph.sinks@.len() && (#[trigger] pre.pipeline.graph.sinks@[i]).name@ == sink
                && pre.pipeline.graph.sinks@[i].queue_text() == queue,
    ensures
        pre.sink_queues@[sink].len() > 0,
        post.sink_queues@[sink] == pre.sink_queues@[sink].drop_first(),
        post.in_memory_queues@[queue] == pre.in_memory_queues@[queue].push(pre.sink_queues@[sink][0]),
        post.pump_queues == pre.pump_queues,
{
    let sinks = pre.pipeline.graph.sinks@;
    let i = choose|i: int| 0 <= i < sinks.len() && (#[trigger] sinks[i]).name@ == sink && sinks[i].queue_text() == queue;
    let c = crate::task::sink_index(pre.pipeline.graph, sink);
    assert(0 <= c < sinks.len() && sinks[c].name@ == sink);
    if c < i {
        assert(sinks[c].name@ != sinks[i].name@);
    } else if i < c {
        assert(sinks[i].name@ != sinks[c].name@);
    }
}

/// The rows that `n` pops in a row take from a queue that holds `rows`:
/// each pop takes the oldest row left.
pub open spec fn drained(rows: Seq<Arc<Row>>, n: nat) -> Seq<Arc<Row>>
    decreases n,
{
    if n == 0 || rows.len() == 0 {
        Seq::empty()
    } else {
        seq![rows[0]] + drained(rows.drop_first(), (n - 1) as nat)
    }
}

/// Pops take the rows of a queue in the order in which they arrived: the
/// first `n` pops take the first `n` rows, and as many pops as there are
/// rows take them all.
pub proof fn law_pops_in_order(rows: Seq<Arc<Row>>, n: nat)
    requires
        n <= rows.len(),
    ensures
        drained(rows, n) == rows.take(n as int),
        drained(rows, rows.len()) == rows,
    decreases rows.len(),
{
    if rows.len() > 0 {
        law_pops_in_order(rows.drop_first(), (rows.len() - 1) as nat);
        assert(seq![rows[0]] + rows.drop_first() =~= rows);
        if n > 0 {
            law_pops_in_order(rows.drop_first(), (n - 1) as nat);
            assert(seq![rows[0]] + rows.drop_first().take(n - 1) =~= rows.take(n as int));
        } else {
            assert(rows.take(0) =~= Seq::<Arc<Row>>::empty());
        }
    } else {
        assert(rows.take(0) =~= rows);
    }
}

/// A table of groups holds one group for each of its keys: the number of
/// its groups is the number of distinct keys.
pub proof fn law_groups_count(groups: Seq<Group>)
    requires
        groups_wf(groups),
    ensures
        groups_model(groups).dom().finite(),
        groups_model(groups).dom().len() == groups.len(),
    decreases groups.len(),
{
    let dom = groups_model(groups).dom();
    if groups.len() == 0 {
        assert(dom =~= Set::<SqlValueView>::empty());
    } else {
        let rest = groups.drop_last();
        let last = groups.last();
        assert forall|i: int, j: int| 0 <= i < j < rest.len() implies (#[trigger] rest[i]).key@ != (
        #[trigger] rest[j]).key@ by {
            assert(groups[i].key@ != groups[j].key@);
        }
        assert forall|i: int| 0 <= i < rest.len() - 1 implies crate::sql_value::value_lt(
            (#[trigger] rest[i]).key@,
            rest[i + 1].key@,
        ) by {
            assert(crate::sql_value::value_lt(groups[i].key@, groups[i + 1].key@));
        }
        assert forall|i: int| 0 <= i < rest.len() implies (#[trigger] rest[i]).wf() by {
            assert(groups[i].wf());
        }
        law_groups_count(rest);
        let rest_dom = groups_model(rest).dom();
        assert(!rest_dom.contains(last.key@)) by {
            if has_group(rest, last.key@) {
                let c = choose|c: int| 0 <= c < rest.len() && (#[trigger] rest[c]).key@ == last.key@;
                assert(groups[c].key@ != groups[groups.len() - 1].key@);
            }
        }
        assert forall|k: SqlValueView| dom.contains(k) <==> rest_dom.insert(last.key@).contains(k) by {
            if has_group(groups, k) {
                let c = choose|c: int| 0 <= c < groups.len() && (#[trigger] groups[c]).key@ == k;
                if c < rest.len() {
                    assert(rest[c].key@ == k);
                }
            }
            if has_group(rest, k) {
                let c = choose|c: int| 0 <= c < rest.len() && (#[trigger] rest[c]).key@ == k;
                assert(groups[c].key@ == k);
            }
            assert(groups[groups.len() - 1].key@ == last.key@);
        }
        assert(dom =~= rest_dom.insert(last.key@));
    }
}

/// The number of distinct keys of each pane, summed over the panes.
pub open spec fn distinct_keys(panes: Seq<Pane>) -> nat
    decreases panes.len(),
{
    if panes.len() == 0 {
        0
    } else {
        distinct_keys(panes.drop_last()) + groups_model(panes.last().groups@).dom().len()
    }
}

/// A windowed `GROUP BY` emits one row for each key of each pane it
/// closes: the number of rows listed for closed panes is the number of
/// distinct keys seen in each pane, summed over the panes.
pub proof fn law_emitted_count(
    closed: Seq<Pane>,
    group_by: crate::name::ColumnName,
    alias: crate::name::ColumnName,
    rowtime: i64,
)
    requires
        panes_wf(closed),
    ensures
        listing(closed, group_by, alias, rowtime).len() == distinct_keys(closed),
    decreases closed.len(),
{
    if closed.len() > 0 {
        let rest = closed.drop_last();
        assert forall|i: int, j: int| 0 <= i < j < rest.len() implies (#[trigger] rest[i]).start < (
        #[trigger] rest[j]).start by {
            assert(closed[i].start < closed[j].start);
        }
        assert forall|i: int| 0 <= i < rest.len() implies groups_wf((#[trigger] rest[i]).groups@) by {
            assert(groups_wf(closed[i].groups@));
        }
        law_emitted_count(rest, group_by, alias, rowtime);
        assert(groups_wf(closed[closed.len() - 1].groups@));
        law_groups_count(closed.last().groups@);
    }
}

/// What a window has seen: an event time, the key of a group and a value.
pub struct Observation {
    pub t: int,
    pub key: SqlValueView,
    pub value: int,
}

/// The pane index after each observation of the trace was recorded, in
/// order, starting from `m`.
pub open spec fn observe_all(
    m: Map<int, Map<SqlValueView, AvgState>>,
    param: WindowParameter,
    trace: Seq<Observation>,
) -> Map<int, Map<SqlValueView, AvgState>>
    decreases trace.len(),
{
    if trace.len() == 0 {
        m
    } else {
        observe(
            observe_all(m, param, trace.drop_last()),
            param,
            trace.last().t,
            trace.last().key,
            trace.last().value,
        )
    }
}

/// The keys of a pane are the keys observed in it: after a trace was
/// recorded in an empty index, a pane holds a group for a key exactly when
/// some observation with that key falls into the pane.
pub proof fn law_pane_keys(param: WindowParameter, trace: Seq<Observation>, s: int, k: SqlValueView)
    ensures
        groups_in(observe_all(Map::empty(), param, trace), s).dom().contains(k) <==> exists|i: int|
            0 <= i < trace.len() && (#[trigger] trace[i]).key == k && param.in_pane(s, trace[i].t),
    decreases trace.len(),
{
    let seen = |i: int| 0 <= i < trace.len() && trace[i].key == k && param.in_pane(s, trace[i].t);
    if trace.len() > 0 {
        let rest = trace.drop_last();
        let last = trace.last();
        law_pane_keys(param, rest, s, k);
        let before = observe_all(Map::empty(), param, rest);
        if exists|i: int| 0 <= i < rest.len() && (#[trigger] rest[i]).key == k && param.in_pane(s, rest[i].t) {
            let i = choose|i: int|
                0 <= i < rest.len() && (#[trigger] rest[i]).key == k && param.in_pane(s, rest[i].t);
            assert(trace[i].key == k && param.in_pane(s, trace[i].t));
        }
        if exists|i: int| 0 <= i < trace.len() && (#[trigger] trace[i]).key == k && param.in_pane(s, trace[i].t) {
            let i = choose|i: int|
                0 <= i < trace.len() && (#[trigger] trace[i]).key == k && param.in_pane(s, trace[i].t);
            if i < rest.len() {
                assert(rest[i].key == k && param.in_pane(s, rest[i].t));
            }
        }
        assert(trace[trace.len() - 1] == last);
    }
}

/// The panes of a tumbling window part time: every instant falls into
/// exactly one pane.
pub proof fn law_tumbling_partition(param: WindowParameter, t: int)
    requires
        param.wf(),
        param.kind == WindowKind::TimeTumbling,
    ensures
        exists|s: int| #[trigger] param.in_pane(s, t),
        forall|s1: int, s2: int| #[trigger] param.in_pane(s1, t) && #[trigger] param.in_pane(s2, t) ==> s1 == s2,
{
    let p = param.period as int;
    let s = t - t % p;
    assert(s % p == 0) by {
        vstd::arithmetic::div_mod::lemma_fundamental_div_mod(t, p);
        crate::window::lemma_multiple(p, t / p);
    }
    assert(param.in_pane(s, t));
    assert forall|s1: int, s2: int| #[trigger] param.in_pane(s1, t) && #[trigger] param.in_pane(s2, t) implies s1
        == s2 by {
        if s1 <= s2 {
            lemma_aligned_unique(p, s2, s1);
        } else {
            lemma_aligned_unique(p, s1, s2);
        }
    }
}

/// The state of a latch after `k` arrivals.
pub open spec fn after_arrivals(latch: Latch, k: nat) -> Latch
    decreases k,
{
    if k == 0 {
        latch
    } else {
        let before = after_arrivals(latch, (k - 1) as nat);
        Latch {
            remaining: if before.remaining > 0 {
                (before.remaining - 1) as u32
            } else {
                0
            },
        }
    }
}

/// A latch for `n` parties is released once all of them have arrived, and
/// not before: after `k` of them arrived it waits for the other `n - k`.
pub proof fn law_latch(n: u32, k: nat)
    requires
        k <= n,
    ensures
        after_arrivals(Latch { remaining: n }, k).remaining == n - k,
        (after_arrivals(Latch { remaining: n }, k).remaining == 0) <==> k == n,
    decreases k,
{
    if k > 0 {
        law_latch(n, (k - 1) as nat);
    }
}

/// The order of texts is strict: no text comes before itself, and a text
/// that comes before a second that comes before a third comes before the
/// third.
pub proof fn law_text_order(a: Seq<char>, b: Seq<char>, c: Seq<char>)
    ensures
        !text_lt(a, a),
        text_lt(a, b) && text_lt(b, c) ==> text_lt(a, c),
{
    assert forall|k: int| 0 <= k <= a.len() && k < a.len() && #[trigger] a.take(k) == a.take(k) implies !(k
        == a.len() || (a[k] as int) < (a[k] as int)) by {}
    if text_lt(a, b) && text_lt(b, c) {
        let k1 = choose|k: int|
            0 <= k <= a.len() && k < b.len() && #[trigger] a.take(k) == b.take(k) && (k == a.len() || (
            a[k] as int) < (b[k] as int));
        let k2 = choose|k: int|
            0 <= k <= b.len() && k < c.len() && #[trigger] b.take(k) == c.take(k) && (k == b.len() || (
            b[k] as int) < (c[k] as int));
        let k = if k1 <= k2 {
            k1
        } else {
            k2
        };
        assert(a.take(k) =~= c.take(k)) by {
            assert forall|i: int| 0 <= i < k implies a[i] == c[i] by {
                assert(a.take(k1)[i] == b.take(k1)[i]);
                assert(b.take(k2)[i] == c.take(k2)[i]);
            }
        }
        if k2 < k1 {
            assert(a.take(k1)[k2] == b.take(k1)[k2]);
        } else if k1 < k2 {
            assert(b.take(k2)[k1] == c.take(k2)[k1]);
        }
        assert(0 <= k <= a.len() && k < c.len() && a.take(k) == c.take(k) && (k == a.len() || (a[k] as int) < (
        c[k] as int)));
    }
}

/// The order of values is a strict total order: no value comes before
/// itself, the order is transitive, and of two values that differ one
/// comes before the other.
pub proof fn law_value_order(a: SqlValueView, b: SqlValueView, c: SqlValueView)
    ensures
        !value_lt(a, a),
        value_lt(a, b) && value_lt(b, c) ==> value_lt(a, c),
        a == b || value_lt(a, b) || value_lt(b, a),
{
    crate::sql_value::lemma_value_total(a, b);
    match (a, b, c) {
        (SqlValueView::Text(x), SqlValueView::Text(y), SqlValueView::Text(z)) => {
            law_text_order(x, y, z);
        },
        (SqlValueView::Text(x), _, _) => {
            law_text_order(x, x, x);
        },
        _ => {},
    }
}

/// The groups of a pane ascend by key: each comes before every later one,
/// which is the order in which a closed pane lists its aggregates.
pub proof fn law_groups_ascend(groups: Seq<Group>, i: int, j: int)
    requires
        groups_wf(groups),
        0 <= i < j < groups.len(),
    ensures
        value_lt(groups[i].key@, groups[j].key@),
    decreases j - i,
{
    lemma_next_group(groups, j - 1);
    if i + 1 < j {
        law_groups_ascend(groups, i, j - 1);
        lemma_value_chain(groups[i].key@, groups[j - 1].key@, groups[j].key@);
    }
}

/// In a well-formed table each group comes before the next.
proof fn lemma_next_group(groups: Seq<Group>, i: int)
    requires
        groups_wf(groups),
        0 <= i < groups.len() - 1,
    ensures
        value_lt(groups[i].key@, groups[i + 1].key@),
{
    assert(value_lt((#[trigger] groups[i]).key@, groups[i + 1].key@));
}

/// A value that comes before a second that comes before a third comes
/// before the third.
proof fn lemma_value_chain(a: SqlValueView, b: SqlValueView, c: SqlValueView)
    requires
        value_lt(a, b),
        value_lt(b, c),
    ensures
        value_lt(a, c),
{
    law_value_order(a, b, c);
}

/// A chain from a source to a queue of the host: a source reader feeds
/// the stream `upstream`; the pump `pump` alone reads that stream and
/// writes the stream `downstream`; the sink writer `sink` alone drains
/// that stream, into the in-memory queue `queue`.
pub struct Chain {
    pub source: Seq<char>,
    pub upstream: Seq<char>,
    pub pump: Seq<char>,
    pub downstream: Seq<char>,
    pub sink: Seq<char>,
    pub queue: Seq<char>,
}

/// Whether the engine holds the chain, with no window on the way.
pub open spec fn is_chain(engine: StreamEngine, c: Chain) -> bool {
    let graph = engine.pipeline.graph;
    &&& crate::pipeline_graph::has_source(graph.sources@, c.source)
    &&& crate::task::source_stream(graph, c.source) == c.upstream
    &&& forall|o: Seq<char>| #[trigger] feeds_pump(graph, c.upstream, o) <==> o == c.pump
    &&& forall|o: Seq<char>| !#[trigger] feeds_sink(graph, c.upstream, o)
    &&& forall|o: Seq<char>| !#[trigger] feeds_pump(graph, c.downstream, o)
    &&& forall|o: Seq<char>| #[trigger] feeds_sink(graph, c.downstream, o) <==> o == c.sink
    &&& forall|i: int|
        0 <= i < graph.pumps@.len() && (#[trigger] graph.pumps@[i]).name@ == c.pump
            ==> graph.pumps@[i].downstream_name() == c.downstream && engine.pump_tasks@[i].subtask.window is None
    &&& forall|i: int|
        0 <= i < graph.sinks@.len() && (#[trigger] graph.sinks@[i]).name@ == c.sink ==> graph.sinks@[i].writer_type
            == SinkWriterType::InMemoryQueue && graph.sinks@[i].queue_text() == c.queue
    &&& engine.pump_queues@.dom().contains(c.pump)
    &&& engine.sink_queues@.dom().contains(c.sink)
    &&& engine.in_memory_queues@.dom().contains(c.queue)
}

/// The number of rows on their way along the chain: those that wait for
/// the pump, for the sink writer and for the host.
pub open spec fn in_flight(engine: StreamEngine, c: Chain) -> int {
    (engine.pump_queues@[c.pump].len() + engine.sink_queues@[c.sink].len()
        + engine.in_memory_queues@[c.queue].len()) as int
}

/// The rows that have left the pump of the chain and wait on their way to
/// the host, oldest first.
pub open spec fn waiting(engine: StreamEngine, c: Chain) -> Seq<Arc<Row>> {
    engine.in_memory_queues@[c.queue] + engine.sink_queues@[c.sink]
}

/// A row that the source of a chain takes in waits for the pump behind
/// the rows that came before it: it is one more row on its way, and no
/// other queue of the chain changes.
pub proof fn law_chain_source(
    pre: StreamEngine,
    c: Chain,
    input: ForeignInputRow,
    arrival: i64,
    post: StreamEngine,
)
    requires
        is_chain(pre, c),
        fed(pre, c.source, input, arrival, post, Ok(TaskOutcome::Yielded)),
    ensures
        exists|row: Arc<Row>|
            is_input_row(input, stream_named(pre.pipeline.graph, c.upstream), arrival, *row)
                && #[trigger] pre.pump_queues@[c.pump].push(row) == post.pump_queues@[c.pump],
        waiting(post, c) == waiting(pre, c),
        in_flight(post, c) == in_flight(pre, c) + 1,
{
    let graph = pre.pipeline.graph;
    let row = choose|row: Arc<Row>|
        #![trigger delivered(pre.pump_queues@, pump_targets(graph, c.upstream), row)]
        is_input_row(input, stream_named(graph, c.upstream), arrival, *row) && post.pump_queues@ == delivered(
            pre.pump_queues@,
            pump_targets(graph, c.upstream),
            row,
        ) && post.sink_queues@ == delivered(pre.sink_queues@, sink_targets(graph, c.upstream), row);
    assert(feeds_pump(graph, c.upstream, c.pump));
    assert(!feeds_sink(graph, c.upstream, c.sink));
    assert(post.pump_queues@[c.pump] == pre.pump_queues@[c.pump].push(row));
    assert(post.sink_queues@[c.sink] == pre.sink_queues@[c.sink]);
}

/// A run of the pump of a chain that yields moves one row on, in order:
/// the oldest row that waits for the pump leaves its queue, and the row
/// made of it waits for the sink writer behind the rows made before it.
pub proof fn law_chain_pump(pre: StreamEngine, c: Chain, now: i64, post: StreamEngine)
    requires
        pre.wf(),
        is_chain(pre, c),
        pumped(pre, c.pump, now, post, Ok(TaskOutcome::Yielded)),
    ensures
        pre.pump_queues@[c.pump].len() > 0,
        post.pump_queues@[c.pump] == pre.pump_queues@[c.pump].drop_first(),
        exists|i: int, row: Arc<Row>|
            pre.pipeline.graph.pumps@[i].name@ == c.pump && #[trigger] one_for_one(pre, i, now, post, row)
                && waiting(pre, c).push(row) == waiting(post, c),
        in_flight(post, c) == in_flight(pre, c),
{
    let graph = pre.pipeline.graph;
    assert forall|i: int|
        0 <= i < pre.pump_tasks@.len() && (#[trigger] pre.pump_tasks@[i]).name@ == c.pump
        implies pre.pump_tasks@[i].subtask.window is None by {
        assert(pre.task_of_pump(i));
        assert(graph.pumps@[i].name@ == c.pump);
    }
    law_pump_one_for_one(pre, c.pump, now, post);
    let (i, row) = choose|i: int, row: Arc<Row>|
        pre.pipeline.graph.pumps@[i].name@ == c.pump && #[trigger] one_for_one(pre, i, now, post, row);
    assert(graph.pumps@[i].name@ == c.pump);
    assert(graph.pumps@[i].downstream_name() == c.downstream);
    let taken = pre.pump_queues@.insert(c.pump, pre.pump_queues@[c.pump].drop_first());
    assert(!feeds_pump(graph, c.downstream, c.pump));
    assert(feeds_sink(graph, c.downstream, c.sink));
    assert(post.pump_queues@[c.pump] == taken[c.pump]);
    assert(post.sink_queues@[c.sink] == pre.sink_queues@[c.sink].push(row));
    assert(waiting(pre, c).push(row) =~= waiting(post, c));
}

/// A run of the sink writer of a chain that delivers moves one row on, in
/// order: the rows on their way to the host are the same, in the same
/// order.
pub proof fn law_chain_sink(pre: StreamEngine, c: Chain, post: StreamEngine)
    requires
        pre.wf(),
        is_chain(pre, c),
        sunk(pre, c.sink, post, Ok(crate::task::SinkOutcome::Delivered)),
    ensures
        post.sink_queues@[c.sink] == pre.sink_queues@[c.sink].drop_first(),
        post.in_memory_queues@[c.queue] == pre.in_memory_queues@[c.queue].push(pre.sink_queues@[c.sink][0]),
        post.pump_queues == pre.pump_queues,
        waiting(post, c) == waiting(pre, c),
        in_flight(post, c) == in_flight(pre, c),
{
    let graph = pre.pipeline.graph;
    if crate::pipeline_graph::has_sink(graph.sinks@, c.sink) {
        let i = crate::task::sink_index(graph, c.sink);
        assert(0 <= i < graph.sinks@.len() && graph.sinks@[i].name@ == c.sink);
        assert(graph.sinks@[i].queue_text() == c.queue);
    }
    assert(waiting(post, c) =~= waiting(pre, c));
}

/// A pop takes the oldest of the rows on their way to the host: the row
/// popped, followed by the rows that still wait, are the rows that
/// waited.
pub proof fn law_chain_pop(pre: StreamEngine, c: Chain, post: StreamEngine, row: Arc<Row>)
    requires
        is_chain(pre, c),
        pre.in_memory_queues@[c.queue].len() > 0,
        row == pre.in_memory_queues@[c.queue][0],
        post.in_memory_queues@ == pre.in_memory_queues@.insert(c.queue, pre.in_memory_queues@[c.queue].drop_first()),
        post.sink_queues == pre.sink_queues,
        post.pump_queues == pre.pump_queues,
    ensures
        seq![row] + waiting(post, c) == waiting(pre, c),
        in_flight(post, c) == in_flight(pre, c) - 1,
{
    assert(seq![row] + waiting(post, c) =~= waiting(pre, c));
}

/// Only one candidate is the pick.
pub proof fn law_pick_unique(scores: Seq<Option<i128>>, cursor: int, p: int, q: int)
    requires
        crate::scheduler::is_pick(scores, cursor, p),
        crate::scheduler::is_pick(scores, cursor, q),
    ensures
        p == q,
{
    if p != q {
        assert(scores[p]->Some_0 <= scores[q]->Some_0);
        assert(scores[q]->Some_0 <= scores[p]->Some_0);
        assert(scores[p] == scores[q]);
    }
}

/// The pane and the key behind each tuple listed for closed panes: the
/// start of the pane and the key of the group, in the order of the listing.
pub open spec fn listing_keys(panes: Seq<Pane>) -> Seq<(int, SqlValueView)>
    decreases panes.len(),
{
    if panes.len() == 0 {
        Seq::empty()
    } else {
        listing_keys(panes.drop_last()) + Seq::new(
            panes.last().groups@.len(),
            |i: int| (panes.last().start as int, panes.last().groups@[i].key@),
        )
    }
}

/// The listing has one tuple for each pane and key, and the first field of
/// each tuple holds the key.
pub proof fn law_listing_keys(
    panes: Seq<Pane>,
    group_by: crate::name::ColumnName,
    alias: crate::name::ColumnName,
    rowtime: i64,
)
    ensures
        listing(panes, group_by, alias, rowtime).len() == listing_keys(panes).len(),
        forall|i: int|
            0 <= i < listing_keys(panes).len() ==> (#[trigger] listing(
                panes,
                group_by,
                alias,
                rowtime,
            )[i]).fields[0].value@ == listing_keys(panes)[i].1,
    decreases panes.len(),
{
    if panes.len() > 0 {
        law_listing_keys(panes.drop_last(), group_by, alias, rowtime);
    }
}

/// Every tuple listed for closed panes belongs to one of the panes.
pub proof fn law_listing_panes(panes: Seq<Pane>, i: int)
    requires
        0 <= i < listing_keys(panes).len(),
    ensures
        exists|p: int| 0 <= p < panes.len() && (#[trigger] panes[p]).start == listing_keys(panes)[i].0,
    decreases panes.len(),
{
    let rest = panes.drop_last();
    if i < listing_keys(rest).len() {
        law_listing_panes(rest, i);
        let p = choose|p: int| 0 <= p < rest.len() && (#[trigger] rest[p]).start == listing_keys(rest)[i].0;
        assert(panes[p].start == listing_keys(panes)[i].0);
    } else {
        assert(panes[panes.len() - 1].start == listing_keys(panes)[i].0);
    }
}

/// The tuples listed for closed panes ascend by pane, then by key: of two
/// tuples the earlier one belongs to an earlier pane, or to the same pane
/// and a key that comes first.
pub proof fn law_listing_ascends(panes: Seq<Pane>, a: int, b: int)
    requires
        panes_wf(panes),
        0 <= a < b < listing_keys(panes).len(),
    ensures
        listing_keys(panes)[a].0 < listing_keys(panes)[b].0 || (listing_keys(panes)[a].0 == listing_keys(
            panes,
        )[b].0 && value_lt(listing_keys(panes)[a].1, listing_keys(panes)[b].1)),
    decreases panes.len(),
{
    let rest = panes.drop_last();
    let last = panes.last();
    let n = listing_keys(rest).len() as int;
    assert forall|i: int, j: int| 0 <= i < j < rest.len() implies (#[trigger] rest[i]).start < (
    #[trigger] rest[j]).start by {
        assert(panes[i].start < panes[j].start);
    }
    assert forall|i: int| 0 <= i < rest.len() implies groups_wf((#[trigger] rest[i]).groups@) by {
        assert(groups_wf(panes[i].groups@));
    }
    if b < n {
        law_listing_ascends(rest, a, b);
    } else if a < n {
        law_listing_panes(rest, a);
        let p = choose|p: int| 0 <= p < rest.len() && (#[trigger] rest[p]).start == listing_keys(rest)[a].0;
        assert(panes[p].start < panes[panes.len() - 1].start);
    } else {
        assert(groups_wf(panes[panes.len() - 1].groups@));
        law_groups_ascend(last.groups@, a - n, b - n);
    }
}

/// One call on an engine, with its arguments and its outcome.
pub enum Step {
    /// A call of `alter_pipeline`, or of `spring_command`.
    Command { command: AlterPipelineCommand, result: Result<(), SpringError> },
    /// A call of `feed_source`.
    Feed { source: Seq<char>, input: ForeignInputRow, arrival: i64, outcome: Result<TaskOutcome, SpringError> },
    /// A call of `run_pump`.
    Pump { pump: Seq<char>, now: i64, outcome: Result<TaskOutcome, SpringError> },
    /// A call of `run_sink`.
    Sink { sink: Seq<char>, delivery: Result<SinkOutcome, SpringError> },
    /// A call of `pop_in_memory_queue_non_blocking`, or of
    /// `spring_pop_non_blocking`, on which the blocking pop is built.
    Pop { queue: Seq<char>, row: Result<Option<Arc<Row>>, SpringError> },
}

/// Whether the call leads the engine from `pre` to `post`: what the
/// contract of the function called says of the call.
pub open spec fn stepped(pre: StreamEngine, step: Step, post: StreamEngine) -> bool {
    match step {
        Step::Command { command, result } => altered(pre, command, post, result),
        Step::Feed { source, input, arrival, outcome } => fed(pre, source, input, arrival, post, outcome),
        Step::Pump { pump, now, outcome } => pumped(pre, pump, now, post, outcome),
        Step::Sink { sink, delivery } => sunk(pre, sink, post, delivery),
        Step::Pop { queue, row } => popped(pre, queue, post, row),
    }
}

/// Whether the calls, made one after another in any interleaving, lead the
/// engine through the states: each call from one state to the next.
pub open spec fn is_run(states: Seq<StreamEngine>, steps: Seq<Step>) -> bool {
    &&& states.len() == steps.len() + 1
    &&& forall|i: int| 0 <= i < steps.len() ==> stepped(states[i], #[trigger] steps[i], states[i + 1])
}

/// The row that the call takes from the in-memory queue `queue`, if it
/// pops one from that queue.
pub open spec fn taken(step: Step, queue: Seq<char>) -> Seq<Arc<Row>> {
    match step {
        Step::Pop { queue: q, row: Ok(Some(row)) } => if q == queue {
            seq![row]
        } else {
            Seq::empty()
        },
        _ => Seq::empty(),
    }
}

/// The row that the call puts into the in-memory queue `queue`, if it is a
/// run of a sink writer to that queue that delivers.
pub open spec fn put(pre: StreamEngine, step: Step, queue: Seq<char>) -> Seq<Arc<Row>> {
    match step {
        Step::Sink { sink, delivery: Ok(SinkOutcome::Delivered) } => if pre.pipeline.graph.sinks@[sink_index(
            pre.pipeline.graph,
            sink,
        )].queue_text() == queue {
            seq![pre.sink_queues@[sink][0]]
        } else {
            Seq::empty()
        },
        _ => Seq::empty(),
    }
}

/// The rows that the calls of a run pop from `queue`, in the order of the
/// calls.
pub open spec fn all_taken(steps: Seq<Step>, queue: Seq<char>) -> Seq<Arc<Row>>
    decreases steps.len(),
{
    if steps.len() == 0 {
        Seq::empty()
    } else {
        all_taken(steps.drop_last(), queue) + taken(steps.last(), queue)
    }
}

/// The rows that the calls of a run put into `queue`, in the order of the
/// calls.
pub open spec fn all_put(states: Seq<StreamEngine>, steps: Seq<Step>, queue: Seq<char>) -> Seq<Arc<Row>>
    decreases steps.len(),
{
    if steps.len() == 0 {
        Seq::empty()
    } else {
        all_put(states.drop_last(), steps.drop_last(), queue) + put(
            states[steps.len() - 1],
            steps.last(),
            queue,
        )
    }
}

/// Whatever call is made, a declared in-memory queue stays declared, and
/// the row the call pops from it, followed by the rows it then holds, are
/// the rows it held, followed by the row the call puts into it.
pub proof fn law_step_keeps_order(pre: StreamEngine, step: Step, post: StreamEngine, queue: Seq<char>)
    requires
        stepped(pre, step, post),
        pre.in_memory_queues@.dom().contains(queue),
    ensures
        post.in_memory_queues@.dom().contains(queue),
        taken(step, queue) + post.in_memory_queues@[queue] == pre.in_memory_queues@[queue] + put(
            pre,
            step,
            queue,
        ),
{
    let held = pre.in_memory_queues@[queue];
    assert(Seq::<Arc<Row>>::empty() + held =~= held);
    assert(held + Seq::<Arc<Row>>::empty() =~= held);
    match step {
        Step::Command { command, result } => {
            if result is Ok {
                match command {
                    AlterPipelineCommand::CreateSinkWriter(w) => {
                        assert(with_queue(pre.in_memory_queues@, w.queue_text())[queue] == held);
                    },
                    _ => {},
                }
            }
        },
        Step::Feed { .. } => {},
        Step::Pump { .. } => {},
        Step::Sink { sink, delivery } => {
            let after = post.in_memory_queues@[queue];
            let row = pre.sink_queues@[sink][0];
            assert(Seq::<Arc<Row>>::empty() + after =~= after);
            assert(held + seq![row] =~= held.push(row));
        },
        Step::Pop { queue: q, row } => {
            let after = post.in_memory_queues@[queue];
            assert(Seq::<Arc<Row>>::empty() + after =~= after);
            if q == queue && held.len() > 0 {
                assert(seq![held[0]] + held.drop_first() =~= held);
            }
        },
    }
}

/// Pops take the rows of a queue in the order in which they arrived,
/// whatever else is called in between: over any run of calls, the rows
/// popped from a declared queue, in the order of the pops, followed by the
/// rows the queue holds in the end, are the rows it held at first followed
/// by the rows the sink tasks put into it, in the order in which they put
/// them. No row is popped twice, none is skipped, none is lost.
pub proof fn law_run_pops_in_order(states: Seq<StreamEngine>, steps: Seq<Step>, queue: Seq<char>)
    requires
        is_run(states, steps),
        states[0].in_memory_queues@.dom().contains(queue),
    ensures
        states.last().in_memory_queues@.dom().contains(queue),
        all_taken(steps, queue) + states.last().in_memory_queues@[queue] == states[0].in_memory_queues@[queue]
            + all_put(states, steps, queue),
    decreases steps.len(),
{
    let first = states[0].in_memory_queues@[queue];
    if steps.len() == 0 {
        assert(Seq::<Arc<Row>>::empty() + first =~= first + Seq::<Arc<Row>>::empty());
    } else {
        let n = steps.len() as int;
        let earlier = states.drop_last();
        let before = steps.drop_last();
        assert forall|i: int| 0 <= i < before.len() implies stepped(
            earlier[i],
            #[trigger] before[i],
            earlier[i + 1],
        ) by {
            assert(stepped(states[i], steps[i], states[i + 1]));
        }
        law_run_pops_in_order(earlier, before, queue);
        assert(earlier.last() == states[n - 1]);
        assert(stepped(states[n - 1], steps[n - 1], states[n]));
        law_step_keeps_order(states[n - 1], steps.last(), states[n], queue);
        let t0 = all_taken(before, queue);
        let t = taken(steps.last(), queue);
        let p0 = all_put(earlier, before, queue);
        let p = put(states[n - 1], steps.last(), queue);
        let mid = states[n - 1].in_memory_queues@[queue];
        let end = states[n].in_memory_queues@[queue];
        assert((t0 + t) + end =~= t0 + (t + end));
        assert(t0 + (mid + p) =~= (t0 + mid) + p);
        assert((first + p0) + p =~= first + (p0 + p));
    }
}

/// Whether no inter-task queue holds more rows than the bound, where
/// there is one.
pub open spec fn within_bound(engine: StreamEngine) -> bool {
    engine.queue_bound matches Some(b) ==> {
        &&& forall|o: Seq<char>|
            #![trigger engine.pump_queues@[o]]
            engine.pump_queues@.dom().contains(o) ==> engine.pump_queues@[o].len() <= b
        &&& forall|o: Seq<char>|
            #![trigger engine.sink_queues@[o]]
            engine.sink_queues@.dom().contains(o) ==> engine.sink_queues@[o].len() <= b
    }
}

/// Whether no pump of the engine has a window.
pub open spec fn windowless(engine: StreamEngine) -> bool {
    forall|i: int| 0 <= i < engine.pump_tasks@.len() ==> (#[trigger] engine.pump_tasks@[i]).subtask.window is None
}

/// A source task never overfills a queue: it runs only where every queue
/// it feeds has room, and puts one row into each.
proof fn lemma_feed_keeps_bound(
    pre: StreamEngine,
    source: Seq<char>,
    input: ForeignInputRow,
    arrival: i64,
    post: StreamEngine,
    res: Result<TaskOutcome, SpringError>,
)
    requires
        within_bound(pre),
        fed(pre, source, input, arrival, post, res),
    ensures
        within_bound(post),
{
    let graph = pre.pipeline.graph;
    if res == Ok::<TaskOutcome, SpringError>(TaskOutcome::Yielded) && pre.queue_bound is Some {
        let b = pre.queue_bound->Some_0;
        let stream = crate::task::source_stream(graph, source);
        let row = choose|row: Arc<Row>|
            #![trigger delivered(pre.pump_queues@, pump_targets(graph, stream), row)]
            is_input_row(input, stream_named(graph, stream), arrival, *row) && post.pump_queues@ == delivered(
                pre.pump_queues@,
                pump_targets(graph, stream),
                row,
            ) && post.sink_queues@ == delivered(pre.sink_queues@, sink_targets(graph, stream), row);
        assert forall|o: Seq<char>|
            #![trigger post.pump_queues@[o]]
            post.pump_queues@.dom().contains(o) implies post.pump_queues@[o].len() <= b by {
            assert(pre.pump_queues@[o].len() <= b);
            if pump_targets(graph, stream)(o) {
                assert(pre.pump_queues@[o].len() < b);
            }
        }
        assert forall|o: Seq<char>|
            #![trigger post.sink_queues@[o]]
            post.sink_queues@.dom().contains(o) implies post.sink_queues@[o].len() <= b by {
            assert(pre.sink_queues@[o].len() <= b);
            if sink_targets(graph, stream)(o) {
                assert(pre.sink_queues@[o].len() < b);
            }
        }
    }
}

/// A pump without a window never overfills a queue: it runs only where
/// every queue it feeds has room, takes one row and puts one row at most
/// into each.
proof fn lemma_pump_keeps_bound(
    pre: StreamEngine,
    pump: Seq<char>,
    now: i64,
    post: StreamEngine,
    res: Result<TaskOutcome, SpringError>,
)
    requires
        pre.wf(),
        windowless(pre),
        within_bound(pre),
        pumped(pre, pump, now, post, res),
    ensures
        within_bound(post),
{
    let graph = pre.pipeline.graph;
    if pre.queue_bound is Some && crate::pipeline_graph::has_pump(graph.pumps@, pump) && post != pre {
        let b = pre.queue_bound->Some_0;
        let i = crate::task::pump_index(graph, pump);
        let down = graph.pumps@[i].downstream_name();
        assert(pre.task_of_pump(i));
        let (mid, sub) = choose|mid: Map<Seq<char>, Seq<Arc<Row>>>, sub: Result<Option<QuerySubtaskOut>, SpringError>|
            #![trigger emitted(pre, i, now, mid, sub, post, res)]
            ran(pre.pump_tasks@[i].subtask, pump, pre.pump_queues@, post.pump_tasks@[i].subtask, mid, sub)
                && emitted(pre, i, now, mid, sub, post, res);
        assert(pre.pump_tasks@[i].subtask.window is None);
        assert(mid.dom() =~= pre.pump_queues@.dom());
        assert forall|o: Seq<char>| mid.dom().contains(o) implies (#[trigger] mid[o]).len() <= pre.pump_queues@[o].len() by {}
        match sub {
            Ok(Some(out)) => {
                let stream = stream_named(graph, down);
                let order = graph.pumps@[i].insert_plan.column_order@;
                if crate::task::all_fill(out.value_views(), order, stream) {
                    let rows = choose|rows: Seq<Arc<Row>>|
                        #![trigger delivered_all(mid, pump_targets(graph, down), rows)]
                        are_output_rows(out.value_views(), order, stream, now, rows) && post.pump_queues@
                            == delivered_all(mid, pump_targets(graph, down), rows) && post.sink_queues@
                            == delivered_all(pre.sink_queues@, sink_targets(graph, down), rows);
                    let nodes = pre.pump_tasks@[i].subtask.nodes();
                    let head = head_of(pre.pump_queues@, pump)->Some_0;
                    let t = climb(nodes, nodes.len() - 1, tuple_of(head))->Ok_0;
                    assert(out_is(sub, Ok(seq![t]), crate::query_subtask::metrics_of(head)));
                    assert(row_values(seq![t]).len() == 1);
                    assert(rows.len() == 1);
                    assert forall|o: Seq<char>|
                        #![trigger post.pump_queues@[o]]
                        post.pump_queues@.dom().contains(o) implies post.pump_queues@[o].len() <= b by {
                        assert(mid[o].len() <= pre.pump_queues@[o].len());
                        assert(pre.pump_queues@[o].len() <= b);
                        if pump_targets(graph, down)(o) {
                            assert(pre.pump_queues@[o].len() < b);
                        }
                    }
                    assert forall|o: Seq<char>|
                        #![trigger post.sink_queues@[o]]
                        post.sink_queues@.dom().contains(o) implies post.sink_queues@[o].len() <= b by {
                        assert(pre.sink_queues@[o].len() <= b);
                        if sink_targets(graph, down)(o) {
                            assert(pre.sink_queues@[o].len() < b);
                        }
                    }
                } else {
                    assert forall|o: Seq<char>|
                        #![trigger post.pump_queues@[o]]
                        post.pump_queues@.dom().contains(o) implies post.pump_queues@[o].len() <= b by {
                        assert(mid[o].len() <= pre.pump_queues@[o].len());
                        assert(pre.pump_queues@[o].len() <= b);
                    }
                }
            },
            _ => {
                assert forall|o: Seq<char>|
                    #![trigger post.pump_queues@[o]]
                    post.pump_queues@.dom().contains(o) implies post.pump_queues@[o].len() <= b by {
                    assert(mid[o].len() <= pre.pump_queues@[o].len());
                    assert(pre.pump_queues@[o].len() <= b);
                }
            },
        }
    }
}

/// No call overfills a queue: where no inter-task queue holds more rows
/// than the bound and no pump has a window, whatever call is made leaves
/// no inter-task queue with more rows than the bound. A task that would
/// feed a full queue answers `NoWork` and changes nothing.
pub proof fn law_step_keeps_bound(pre: StreamEngine, step: Step, post: StreamEngine)
    requires
        pre.wf(),
        windowless(pre),
        within_bound(pre),
        stepped(pre, step, post),
    ensures
        within_bound(post),
{
    match step {
        Step::Command { command, result } => {
            if result is Ok && pre.queue_bound is Some {
                let b = pre.queue_bound->Some_0;
                assert forall|o: Seq<char>|
                    #![trigger post.pump_queues@[o]]
                    post.pump_queues@.dom().contains(o) implies post.pump_queues@[o].len() <= b by {
                    if pre.pump_queues@.dom().contains(o) {
                        assert(pre.pump_queues@[o].len() <= b);
                    }
                }
                assert forall|o: Seq<char>|
                    #![trigger post.sink_queues@[o]]
                    post.sink_queues@.dom().contains(o) implies post.sink_queues@[o].len() <= b by {
                    if pre.sink_queues@.dom().contains(o) {
                        assert(pre.sink_queues@[o].len() <= b);
                    }
                }
            }
        },
        Step::Feed { source, input, arrival, outcome } => {
            lemma_feed_keeps_bound(pre, source, input, arrival, post, outcome);
        },
        Step::Pump { pump, now, outcome } => {
            lemma_pump_keeps_bound(pre, pump, now, post, outcome);
        },
        Step::Sink { sink, delivery } => {
            if pre.queue_bound is Some && post != pre {
                let b = pre.queue_bound->Some_0;
                assert forall|o: Seq<char>|
                    #![trigger post.sink_queues@[o]]
                    post.sink_queues@.dom().contains(o) implies post.sink_queues@[o].len() <= b by {
                    assert(pre.sink_queues@[o].len() <= b);
                }
            }
        },
        Step::Pop { queue, row } => {},
    }
}

/// Over any run of calls on an engine whose pumps have no window, no
/// inter-task queue ever holds more rows than the bound, if none did at
/// first.
pub proof fn law_run_keeps_bound(states: Seq<StreamEngine>, steps: Seq<Step>, k: int)
    requires
        is_run(states, steps),
        forall|i: int| 0 <= i < states.len() ==> (#[trigger] states[i]).wf() && windowless(states[i]),
        within_bound(states[0]),
        0 <= k < states.len(),
    ensures
        within_bound(states[k]),
    decreases k,
{
    if k > 0 {
        law_run_keeps_bound(states, steps, k - 1);
        assert(states[k - 1].wf() && windowless(states[k - 1]));
        assert(stepped(states[k - 1], steps[k - 1], states[k]));
        law_step_keeps_bound(states[k - 1], steps[k - 1], states[k]);
    }
}

/// Whether the engine holds the chain and nothing else feeds it: no pump
/// writes the stream at its head, the pump of the chain alone writes the
/// stream at its tail, no source reader feeds that stream, and the sink
/// writer of the chain alone writes its queue.
pub open spec fn is_sole_chain(engine: StreamEngine, c: Chain) -> bool {
    let graph = engine.pipeline.graph;
    &&& is_chain(engine, c)
    &&& forall|i: int| 0 <= i < graph.pumps@.len() ==> (#[trigger] graph.pumps@[i]).downstream_name() != c.upstream
    &&& forall|i: int|
        0 <= i < graph.pumps@.len() && (#[trigger] graph.pumps@[i]).downstream_name() == c.downstream
            ==> graph.pumps@[i].name@ == c.pump
    &&& forall|i: int| 0 <= i < graph.sources@.len() ==> (#[trigger] graph.sources@[i]).dest_stream@ != c.downstream
    &&& forall|i: int|
        0 <= i < graph.sinks@.len() && (#[trigger] graph.sinks@[i]).writer_type == SinkWriterType::InMemoryQueue
            && graph.sinks@[i].queue_text() == c.queue ==> graph.sinks@[i].name@ == c.sink
}

/// How many rows the call lets into the chain: one, if it is a source task
/// that takes a row in for the stream at the head of the chain.
pub open spec fn entered(pre: StreamEngine, step: Step, c: Chain) -> int {
    match step {
        Step::Feed { source, outcome: Ok(TaskOutcome::Yielded), .. } => if crate::task::source_stream(
            pre.pipeline.graph,
            source,
        ) == c.upstream {
            1
        } else {
            0
        },
        _ => 0,
    }
}

/// How many rows the calls of a run let into the chain.
pub open spec fn all_entered(states: Seq<StreamEngine>, steps: Seq<Step>, c: Chain) -> int
    decreases steps.len(),
{
    if steps.len() == 0 {
        0
    } else {
        all_entered(states.drop_last(), steps.drop_last(), c) + entered(states[steps.len() - 1], steps.last(), c)
    }
}

/// Whether the call is no failed run of the pump of the chain. A pump
/// that fails has taken its row and yields none.
pub open spec fn pump_succeeds(step: Step, c: Chain) -> bool {
    step matches Step::Pump { pump, outcome, .. } ==> pump != c.pump || outcome is Ok
}

/// Rows reach the pump of a chain from the stream at its head alone, and
/// its sink writer from the stream at its tail alone.
proof fn lemma_chain_inlets(engine: StreamEngine, c: Chain, stream: Seq<char>)
    requires
        engine.wf(),
        is_chain(engine, c),
    ensures
        feeds_pump(engine.pipeline.graph, stream, c.pump) ==> stream == c.upstream,
        feeds_sink(engine.pipeline.graph, stream, c.sink) ==> stream == c.downstream,
{
    let graph = engine.pipeline.graph;
    if feeds_pump(graph, stream, c.pump) {
        let i = choose|i: int|
            0 <= i < graph.pumps@.len() && (#[trigger] graph.pumps@[i]).name@ == c.pump && graph.pumps@[i].state
                == crate::pump_model::PumpState::Started && graph.pumps@[i].upstream_name() == stream;
        assert(feeds_pump(graph, c.upstream, c.pump));
        let j = choose|j: int|
            0 <= j < graph.pumps@.len() && (#[trigger] graph.pumps@[j]).name@ == c.pump && graph.pumps@[j].state
                == crate::pump_model::PumpState::Started && graph.pumps@[j].upstream_name() == c.upstream;
        if i < j {
            assert(graph.pumps@[i].name@ != graph.pumps@[j].name@);
        } else if j < i {
            assert(graph.pumps@[j].name@ != graph.pumps@[i].name@);
        }
    }
    if feeds_sink(graph, stream, c.sink) {
        let i = choose|i: int|
            0 <= i < graph.sinks@.len() && (#[trigger] graph.sinks@[i]).name@ == c.sink && graph.sinks@[i].from_stream@
                == stream;
        assert(feeds_sink(graph, c.downstream, c.sink));
        let j = choose|j: int|
            0 <= j < graph.sinks@.len() && (#[trigger] graph.sinks@[j]).name@ == c.sink && graph.sinks@[j].from_stream@
                == c.downstream;
        if i < j {
            assert(graph.sinks@[i].name@ != graph.sinks@[j].name@);
        } else if j < i {
            assert(graph.sinks@[j].name@ != graph.sinks@[i].name@);
        }
    }
}

proof fn lemma_chain_feed(
    pre: StreamEngine,
    c: Chain,
    source: Seq<char>,
    input: ForeignInputRow,
    arrival: i64,
    post: StreamEngine,
    res: Result<TaskOutcome, SpringError>,
)
    requires
        pre.wf(),
        is_sole_chain(pre, c),
        fed(pre, source, input, arrival, post, res),
    ensures
        in_flight(post, c) == in_flight(pre, c) + entered(
            pre,
            Step::Feed { source, input, arrival, outcome: res },
            c,
        ),
{
    let graph = pre.pipeline.graph;
    if res == Ok::<TaskOutcome, SpringError>(TaskOutcome::Yielded) {
        let stream = crate::task::source_stream(graph, source);
        let row = choose|row: Arc<Row>|
            #![trigger delivered(pre.pump_queues@, pump_targets(graph, stream), row)]
            is_input_row(input, stream_named(graph, stream), arrival, *row) && post.pump_queues@ == delivered(
                pre.pump_queues@,
                pump_targets(graph, stream),
                row,
            ) && post.sink_queues@ == delivered(pre.sink_queues@, sink_targets(graph, stream), row);
        lemma_chain_inlets(pre, c, stream);
        let k = choose|k: int| 0 <= k < graph.sources@.len() && (#[trigger] graph.sources@[k]).name@ == source;
        assert(graph.sources@[k].dest_stream@ != c.downstream);
        assert(!feeds_sink(graph, stream, c.sink));
        if stream == c.upstream {
            assert(feeds_pump(graph, stream, c.pump));
        } else {
            assert(!feeds_pump(graph, stream, c.pump));
        }
    }
}

proof fn lemma_chain_other_pump(pre: StreamEngine, c: Chain, pump: Seq<char>, now: i64, post: StreamEngine, res: Result<TaskOutcome, SpringError>)
    requires
        pre.wf(),
        is_sole_chain(pre, c),
        pump != c.pump,
        pumped(pre, pump, now, post, res),
    ensures
        in_flight(post, c) == in_flight(pre, c),
{
    let graph = pre.pipeline.graph;
    if crate::pipeline_graph::has_pump(graph.pumps@, pump) && post != pre {
        let i = crate::task::pump_index(graph, pump);
        let down = graph.pumps@[i].downstream_name();
        let (mid, sub) = choose|mid: Map<Seq<char>, Seq<Arc<Row>>>, sub: Result<Option<QuerySubtaskOut>, SpringError>|
            #![trigger emitted(pre, i, now, mid, sub, post, res)]
            ran(pre.pump_tasks@[i].subtask, pump, pre.pump_queues@, post.pump_tasks@[i].subtask, mid, sub)
                && emitted(pre, i, now, mid, sub, post, res);
        assert(mid[c.pump] == pre.pump_queues@[c.pump]);
        assert(down != c.upstream);
        assert(down != c.downstream);
        lemma_chain_inlets(pre, c, down);
        assert(!feeds_pump(graph, down, c.pump));
        assert(!feeds_sink(graph, down, c.sink));
        assert(!pump_targets(graph, down)(c.pump));
        assert(!sink_targets(graph, down)(c.sink));
    }
}

proof fn lemma_chain_step_pump(pre: StreamEngine, c: Chain, pump: Seq<char>, now: i64, post: StreamEngine, res: Result<TaskOutcome, SpringError>)
    requires
        pre.wf(),
        is_sole_chain(pre, c),
        pump != c.pump || res is Ok,
        pumped(pre, pump, now, post, res),
    ensures
        in_flight(post, c) == in_flight(pre, c),
{
    if pump != c.pump {
        lemma_chain_other_pump(pre, c, pump, now, post, res);
    } else if res == Ok::<TaskOutcome, SpringError>(TaskOutcome::Yielded) {
        law_chain_pump(pre, c, now, post);
    } else if post != pre {
        let graph = pre.pipeline.graph;
        let i = crate::task::pump_index(graph, pump);
        assert(pre.task_of_pump(i));
        assert(graph.pumps@[i].name@ == c.pump);
        let (mid, sub) = choose|mid: Map<Seq<char>, Seq<Arc<Row>>>, sub: Result<Option<QuerySubtaskOut>, SpringError>|
            #![trigger emitted(pre, i, now, mid, sub, post, res)]
            ran(pre.pump_tasks@[i].subtask, pump, pre.pump_queues@, post.pump_tasks@[i].subtask, mid, sub)
                && emitted(pre, i, now, mid, sub, post, res);
        assert(pre.pump_tasks@[i].subtask.window is None);
        assert(sub matches Ok(None));
        assert(mid == pre.pump_queues@);
    }
}

proof fn lemma_chain_step_sink(pre: StreamEngine, c: Chain, sink: Seq<char>, post: StreamEngine, res: Result<SinkOutcome, SpringError>)
    requires
        pre.wf(),
        is_sole_chain(pre, c),
        sunk(pre, sink, post, res),
    ensures
        in_flight(post, c) == in_flight(pre, c),
{
    let graph = pre.pipeline.graph;
    if crate::pipeline_graph::has_sink(graph.sinks@, sink) && pre.sink_queues@[sink].len() > 0 {
        let i = sink_index(graph, sink);
        assert(0 <= i < graph.sinks@.len() && graph.sinks@[i].name@ == sink);
        if sink == c.sink {
            assert(graph.sinks@[i].writer_type == SinkWriterType::InMemoryQueue);
            assert(graph.sinks@[i].queue_text() == c.queue);
        } else {
            assert(post.sink_queues@[c.sink] == pre.sink_queues@[c.sink]);
            if graph.sinks@[i].writer_type == SinkWriterType::InMemoryQueue {
                assert(graph.sinks@[i].queue_text() != c.queue);
            }
        }
    }
}

/// Whatever call is made on an engine that holds a chain, the rows on
/// their way along the chain are those that were, one more for a row that
/// a source task lets in, and one fewer for a row that the host pops.
pub proof fn law_chain_step(pre: StreamEngine, c: Chain, step: Step, post: StreamEngine)
    requires
        pre.wf(),
        is_sole_chain(pre, c),
        pump_succeeds(step, c),
        stepped(pre, step, post),
    ensures
        in_flight(post, c) + taken(step, c.queue).len() == in_flight(pre, c) + entered(pre, step, c),
{
    match step {
        Step::Command { command, result } => {},
        Step::Feed { source, input, arrival, outcome } => {
            lemma_chain_feed(pre, c, source, input, arrival, post, outcome);
        },
        Step::Pump { pump, now, outcome } => {
            lemma_chain_step_pump(pre, c, pump, now, post, outcome);
        },
        Step::Sink { sink, delivery } => {
            lemma_chain_step_sink(pre, c, sink, post, delivery);
        },
        Step::Pop { queue, row } => {},
    }
}

/// Along a chain without a window no row is lost and none is doubled:
/// over any run of calls in which the pump of the chain does not fail,
/// the rows that the source tasks let into the chain are the rows that
/// the host popped from its queue and the rows still on their way; of
/// those that were on their way at first, the same holds. So once the
/// chain is drained, the host has popped as many rows as the sources let
/// in.
pub proof fn law_run_conserves(states: Seq<StreamEngine>, steps: Seq<Step>, c: Chain)
    requires
        is_run(states, steps),
        forall|i: int| 0 <= i < states.len() ==> (#[trigger] states[i]).wf() && is_sole_chain(states[i], c),
        forall|i: int| 0 <= i < steps.len() ==> pump_succeeds(#[trigger] steps[i], c),
    ensures
        in_flight(states.last(), c) + all_taken(steps, c.queue).len() == in_flight(states[0], c) + all_entered(
            states,
            steps,
            c,
        ),
    decreases steps.len(),
{
    if steps.len() > 0 {
        let n = steps.len() as int;
        let earlier = states.drop_last();
        let before = steps.drop_last();
        assert forall|i: int| 0 <= i < before.len() implies stepped(
            earlier[i],
            #[trigger] before[i],
            earlier[i + 1],
        ) by {
            assert(stepped(states[i], steps[i], states[i + 1]));
        }
        assert forall|i: int| 0 <= i < earlier.len() implies (#[trigger] earlier[i]).wf() && is_sole_chain(
            earlier[i],
            c,
        ) by {
            assert(states[i].wf() && is_sole_chain(states[i], c));
        }
        assert forall|i: int| 0 <= i < before.len() implies pump_succeeds(#[trigger] before[i], c) by {
            assert(pump_succeeds(steps[i], c));
        }
        law_run_conserves(earlier, before, c);
        assert(earlier.last() == states[n - 1]);
        assert(states[n - 1].wf() && is_sole_chain(states[n - 1], c));
        assert(pump_succeeds(steps[n - 1], c));
        assert(stepped(states[n - 1], steps[n - 1], states[n]));
        law_chain_step(states[n - 1], c, steps[n - 1], states[n]);
    }
}

/// What a window reads from a tuple, as an observation.
pub open spec fn observation(window: AggrWindow, t: TupleView) -> Observation {
    Observation {
        t: t.rowtime as int,
        key: reading(window.op, t.fields)->Ok_0.0@,
        value: reading(window.op, t.fields)->Ok_0.1 as int,
    }
}

/// The observations that a window reads from the first `n` tuples.
pub open spec fn observations(window: AggrWindow, tuples: Seq<TupleView>, n: int) -> Seq<Observation> {
    Seq::new(n as nat, |i: int| observation(window, tuples[i]))
}

/// Whether a window takes the tuples in, one after another, with success,
/// starting without panes or watermark, and no tuple comes late: none is
/// older than the watermark at its arrival.
pub open spec fn is_window_run(states: Seq<AggrWindow>, tuples: Seq<TupleView>, outs: Seq<Seq<TupleView>>) -> bool {
    &&& states.len() == tuples.len() + 1
    &&& outs.len() == tuples.len()
    &&& states[0].watermark is None
    &&& states[0].model() == Map::<int, Map<SqlValueView, AvgState>>::empty()
    &&& forall|i: int|
        0 <= i < tuples.len() ==> dispatched_to(states[i], #[trigger] tuples[i], states[i + 1], Ok(outs[i]))
    &&& forall|i: int|
        0 <= i < tuples.len() ==> ((#[trigger] states[i]).watermark matches Some(w) ==> tuples[i].rowtime >= w)
}

/// The part of a pane index that is open at a watermark: all of it where
/// there is no watermark yet.
pub open spec fn still_open(m: Map<int, Map<SqlValueView, AvgState>>, length: int, watermark: Option<i128>) -> Map<
    int,
    Map<SqlValueView, AvgState>,
> {
    match watermark {
        Some(w) => open_part(m, length, w as int),
        None => m,
    }
}

/// The panes of an index that close as the watermark moves on from
/// `before` to `after`: those that end after the one and at or before the
/// other.
pub open spec fn closing(
    m: Map<int, Map<SqlValueView, AvgState>>,
    length: int,
    before: Option<i128>,
    after: int,
) -> Map<int, Map<SqlValueView, AvgState>> {
    m.restrict(Set::new(|s: int| s + length <= after && (before matches Some(w) ==> s + length > w)))
}

/// Recording a tuple that is not late in the open panes, and then closing
/// panes, is recording it in all panes and then closing.
proof fn lemma_open_commutes(
    all: Map<int, Map<SqlValueView, AvgState>>,
    param: WindowParameter,
    o: Observation,
    before: Option<i128>,
    after: int,
)
    requires
        before matches Some(w) ==> o.t >= w && after >= w,
    ensures
        open_part(
            observe(still_open(all, param.length as int, before), param, o.t, o.key, o.value),
            param.length as int,
            after,
        ) == open_part(observe(all, param, o.t, o.key, o.value), param.length as int, after),
        closed_part(
            observe(still_open(all, param.length as int, before), param, o.t, o.key, o.value),
            param.length as int,
            after,
        ) == closing(observe(all, param, o.t, o.key, o.value), param.length as int, before, after),
{
    let length = param.length as int;
    let held = still_open(all, length, before);
    let left = observe(held, param, o.t, o.key, o.value);
    let right = observe(all, param, o.t, o.key, o.value);
    assert forall|s: int| param.in_pane(s, o.t) implies groups_in(held, s) == groups_in(all, s) by {}
    assert(open_part(left, length, after) =~= open_part(right, length, after));
    assert(closed_part(left, length, after) =~= closing(right, length, before, after));
}

/// After the first `i` tuples of a run the window holds the open part of
/// all that it has read, and its parameters are those it began with.
pub proof fn law_window_holds(states: Seq<AggrWindow>, tuples: Seq<TupleView>, outs: Seq<Seq<TupleView>>, i: int)
    requires
        is_window_run(states, tuples, outs),
        0 <= i <= tuples.len(),
    ensures
        states[i].param == states[0].param,
        states[i].op == states[0].op,
        states[i].max_out_of_order == states[0].max_out_of_order,
        states[i].model() == still_open(
            observe_all(Map::empty(), states[0].param, observations(states[0], tuples, i)),
            states[0].param.length as int,
            states[i].watermark,
        ),
        i > 0 ==> states[i].watermark is Some,
    decreases i,
{
    if i == 0 {
        assert(observations(states[0], tuples, 0).len() == 0);
    } else {
        law_window_holds(states, tuples, outs, i - 1);
        let pre = states[i - 1];
        let post = states[i];
        let param = states[0].param;
        assert(dispatched_to(pre, tuples[i - 1], post, Ok(outs[i - 1])));
        let o = observation(states[0], tuples[i - 1]);
        let earlier = observations(states[0], tuples, i - 1);
        let now = observations(states[0], tuples, i);
        assert(now.drop_last() =~= earlier);
        assert(now.last() == o);
        let all = observe_all(Map::empty(), param, earlier);
        let w = crate::window::advanced(pre.watermark, tuples[i - 1].rowtime, pre.max_out_of_order);
        assert(post.watermark == Some(w as i128));
        assert((w as i128) as int == w);
        lemma_open_commutes(all, param, o, pre.watermark, w);
    }
}

/// The watermark of a run never moves back.
pub proof fn law_watermark_grows(
    states: Seq<AggrWindow>,
    tuples: Seq<TupleView>,
    outs: Seq<Seq<TupleView>>,
    i: int,
    j: int,
)
    requires
        is_window_run(states, tuples, outs),
        0 < i <= j <= tuples.len(),
    ensures
        states[i].watermark is Some,
        states[j].watermark is Some,
        states[i].watermark->Some_0 <= states[j].watermark->Some_0,
    decreases j - i,
{
    law_window_holds(states, tuples, outs, i);
    law_window_holds(states, tuples, outs, j);
    if i < j {
        law_watermark_grows(states, tuples, outs, i, j - 1);
        assert(dispatched_to(states[j - 1], tuples[j - 1], states[j], Ok(outs[j - 1])));
        let w = crate::window::advanced(
            states[j - 1].watermark,
            tuples[j - 1].rowtime,
            states[j - 1].max_out_of_order,
        );
        assert((w as i128) as int == w);
    }
}

/// What a windowed `GROUP BY` emits over a run in which no tuple comes
/// late. The tuple at `i` closes the panes that end after the watermark
/// before it and at or before the watermark after it; the rows emitted for
/// it list those panes, one row for each key of each pane: their number is
/// the number of distinct keys of each pane, summed over the panes. A pane
/// that closes holds a group for a key exactly when some tuple of the whole
/// run has that key and falls into the pane, so every pane is emitted
/// once, complete.
#[verifier::rlimit(50)]
pub proof fn law_window_run(
    states: Seq<AggrWindow>,
    tuples: Seq<TupleView>,
    outs: Seq<Seq<TupleView>>,
    i: int,
)
    requires
        is_window_run(states, tuples, outs),
        0 <= i < tuples.len(),
    ensures
        exists|closed: Seq<Pane>|
            {
                &&& panes_wf(closed)
                &&& #[trigger] panes_model(closed) == closing(
                    observe_all(Map::empty(), states[0].param, observations(states[0], tuples, i + 1)),
                    states[0].param.length as int,
                    states[i].watermark,
                    states[i + 1].watermark->Some_0 as int,
                )
                &&& outs[i] == listing(closed, states[0].op.group_by(), states[0].op.alias(), tuples[i].rowtime)
                &&& outs[i].len() == distinct_keys(closed)
                &&& forall|s: int, k: SqlValueView|
                    panes_model(closed).dom().contains(s) ==> (#[trigger] panes_model(closed)[s].dom().contains(k)
                        <==> exists|j: int|
                        0 <= j < tuples.len() && (#[trigger] observation(states[0], tuples[j])).key == k
                            && states[0].param.in_pane(s, observation(states[0], tuples[j]).t))
            },
{
    let param = states[0].param;
    let length = param.length as int;
    let n = tuples.len() as int;
    law_window_holds(states, tuples, outs, i);
    law_window_holds(states, tuples, outs, i + 1);
    let pre = states[i];
    let post = states[i + 1];
    assert(dispatched_to(pre, tuples[i], post, Ok(outs[i])));
    let o = observation(states[0], tuples[i]);
    let earlier = observations(states[0], tuples, i);
    let now = observations(states[0], tuples, i + 1);
    assert(now.drop_last() =~= earlier);
    assert(now.last() == o);
    let all = observe_all(Map::empty(), param, earlier);
    let w = crate::window::advanced(pre.watermark, tuples[i].rowtime, pre.max_out_of_order);
    assert((w as i128) as int == w);
    lemma_open_commutes(all, param, o, pre.watermark, w);
    let seen = observe(pre.model(), pre.param, tuples[i].rowtime as int, o.key, o.value);
    let closed = choose|closed: Seq<Pane>|
        #![trigger panes_model(closed)]
        panes_wf(closed) && panes_model(closed) == closed_part(seen, pre.param.length as int, w) && Ok::<
            Seq<TupleView>,
            SpringError,
        >(outs[i])->Ok_0 == listing(closed, pre.op.group_by(), pre.op.alias(), tuples[i].rowtime);
    law_emitted_count(closed, states[0].op.group_by(), states[0].op.alias(), tuples[i].rowtime);
    let recorded = observe_all(Map::empty(), param, now);
    assert forall|s: int, k: SqlValueView| panes_model(closed).dom().contains(s) implies (#[trigger] panes_model(
        closed,
    )[s].dom().contains(k) <==> exists|j: int|
        0 <= j < n && (#[trigger] observation(states[0], tuples[j])).key == k && param.in_pane(
            s,
            observation(states[0], tuples[j]).t,
        )) by {
        assert(recorded.dom().contains(s) && panes_model(closed)[s] == recorded[s]);
        assert(s + length <= w);
        law_pane_keys(param, now, s, k);
        if groups_in(recorded, s).dom().contains(k) {
            let j = choose|j: int| 0 <= j < now.len() && (#[trigger] now[j]).key == k && param.in_pane(s, now[j].t);
            assert(observation(states[0], tuples[j]).key == k);
        }
        if exists|j: int|
            0 <= j < n && (#[trigger] observation(states[0], tuples[j])).key == k && param.in_pane(
                s,
                observation(states[0], tuples[j]).t,
            ) {
            let j = choose|j: int|
                0 <= j < n && (#[trigger] observation(states[0], tuples[j])).key == k && param.in_pane(
                    s,
                    observation(states[0], tuples[j]).t,
                );
            if j > i {
                law_watermark_grows(states, tuples, outs, i + 1, j);
                assert(states[j].watermark matches Some(x) ==> tuples[j].rowtime >= x);
            } else {
                assert(now[j].key == k && param.in_pane(s, now[j].t));
            }
        }
    }
}

/// The retry state of a task after `k` more foreign I/O failures in a
/// row.
pub open spec fn after_failures(state: crate::worker::RetryState, k: nat) -> crate::worker::RetryState
    decreases k,
{
    if k == 0 {
        state
    } else {
        crate::worker::settled(after_failures(state, (k - 1) as nat), Err(SpringError::ForeignIo))
    }
}

/// The delays of the backoff: a tenth of a second after the first failure,
/// twice the delay before after each further one, and ten seconds from the
/// eighth failure on.
pub proof fn law_backoff_delays(k: nat)
    ensures
        crate::worker::backoff_msec(0) == 0,
        crate::worker::backoff_msec(1) == 100,
        crate::worker::backoff_msec(2) == 200,
        crate::worker::backoff_msec(3) == 400,
        crate::worker::backoff_msec(4) == 800,
        crate::worker::backoff_msec(5) == 1600,
        crate::worker::backoff_msec(6) == 3200,
        crate::worker::backoff_msec(7) == 6400,
        k >= 8 ==> crate::worker::backoff_msec(k) == 10000,
        k >= 1 ==> 100 <= crate::worker::backoff_msec(k) <= 10000,
    decreases k,
{
    reveal_with_fuel(crate::worker::backoff_msec, 9);
    if k > 8 {
        law_backoff_delays((k - 1) as nat);
    }
}

/// A task that fails on foreign I/O again and again is retried after the
/// delays of the backoff, and each failure is counted; work done ends the
/// row of failures and keeps the count.
pub proof fn law_backoff(k: nat)
    requires
        k <= u32::MAX,
    ensures
        after_failures(crate::worker::RetryState { failures: 0, delay_msec: 0, error_count: 0 }, k).failures
            == k,
        after_failures(crate::worker::RetryState { failures: 0, delay_msec: 0, error_count: 0 }, k).error_count
            == k,
        after_failures(crate::worker::RetryState { failures: 0, delay_msec: 0, error_count: 0 }, k).delay_msec
            == crate::worker::backoff_msec(k),
        crate::worker::settled(
            after_failures(crate::worker::RetryState { failures: 0, delay_msec: 0, error_count: 0 }, k),
            Ok(TaskOutcome::Yielded),
        ) == (crate::worker::RetryState { failures: 0, delay_msec: 0, error_count: k as u64 }),
    decreases k,
{
    law_backoff_delays(k);
    if k > 0 {
        law_backoff((k - 1) as nat);
    }
}

} // verus!
