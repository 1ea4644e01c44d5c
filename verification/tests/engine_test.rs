use std::sync::Arc;

use springql_core::api::spring_command;
use springql_core::api::spring_open;
use springql_core::api::spring_pop_non_blocking;
use springql_core::api::SpringConfig;
use springql_core::api::SpringPipeline;
use springql_core::api::SpringRow;
use springql_core::api::POP_POLL_INTERVAL_MSEC;
use springql_core::command::AlterPipelineCommand;
use springql_core::command::Command;
use springql_core::error::SpringError;
use springql_core::expression::BinaryOperator;
use springql_core::expression::ValueExpr;
use springql_core::foreign_input_row::ForeignInputRow;
use springql_core::foreign_input_row::JsonField;
use springql_core::foreign_input_row::JsonObject;
use springql_core::foreign_input_row::JsonValue;
use springql_core::name::ColumnName;
use springql_core::name::PumpName;
use springql_core::name::SinkWriterName;
use springql_core::name::SourceReaderName;
use springql_core::name::StreamName;
use springql_core::option::Options;
use springql_core::pipeline::PipelineVersion;
use springql_core::pump_model::InsertPlan;
use springql_core::pump_model::PumpModel;
use springql_core::pump_model::PumpState;
use springql_core::query_plan::CollectOp;
use springql_core::query_plan::EvalValueExprOp;
use springql_core::query_plan::GroupAggregateWindowOp;
use springql_core::query_plan::JoinOp;
use springql_core::query_plan::LabelledExpr;
use springql_core::query_plan::LowerOps;
use springql_core::query_plan::ProjectionOp;
use springql_core::query_plan::QueryPlan;
use springql_core::query_plan::UpperOps;
use springql_core::scheduler::TaskId;
use springql_core::sink_writer_model::SinkWriterModel;
use springql_core::sink_writer_model::SinkWriterType;
use springql_core::source_reader_model::SourceReaderModel;
use springql_core::source_reader_model::SourceReaderType;
use springql_core::sql_value::SqlType;
use springql_core::sql_value::SqlValue;
use springql_core::stream_model::ColumnDefinition;
use springql_core::stream_model::StreamModel;
use springql_core::stream_model::StreamShape;
use springql_core::task::SinkOutcome;
use springql_core::task::TaskOutcome;
use springql_core::window::AggregateFunctionParameter;
use springql_core::window::WindowOperationParameter;
use springql_core::window::WindowParameter;
use springql_core::worker::Settle;
use springql_core::worker::Tick;
use springql_core::worker::Worker;

fn col(name: &str) -> ColumnName {
    ColumnName::new(name.to_string())
}

fn stream(name: &str, columns: Vec<(&str, SqlType, bool)>, rowtime: Option<&str>) -> AlterPipelineCommand {
    let columns = columns
        .into_iter()
        .map(|(n, t, nullable)| ColumnDefinition { name: col(n), sql_type: t, nullable })
        .collect();
    let shape = StreamShape::new(columns, rowtime.map(col)).unwrap();
    AlterPipelineCommand::CreateStream(Arc::new(StreamModel::new(StreamName::new(name.to_string()), shape)))
}

fn pump(
    name: &str,
    from: &str,
    to: &str,
    labels: Vec<&str>,
    exprs: Vec<(&str, ValueExpr)>,
    window: Option<GroupAggregateWindowOp>,
    order: Vec<&str>,
) -> AlterPipelineCommand {
    let eval = if exprs.is_empty() {
        None
    } else {
        Some(EvalValueExprOp {
            expressions: exprs.into_iter().map(|(l, e)| LabelledExpr { label: col(l), expr: e }).collect(),
        })
    };
    let upper = UpperOps {
        projection: ProjectionOp { value_expr_labels: labels.into_iter().map(col).collect() },
        eval_value_expr: eval,
        group_aggr_window: window,
    };
    let lower = LowerOps { join: JoinOp::Collect(CollectOp { stream: StreamName::new(from.to_string()) }) };
    let plan = QueryPlan::new(upper, lower).unwrap();
    let insert = InsertPlan {
        stream: StreamName::new(to.to_string()),
        column_order: order.into_iter().map(col).collect(),
    };
    AlterPipelineCommand::CreatePump(PumpModel::new(PumpName::new(name.to_string()), plan, insert))
}

fn start(name: &str) -> AlterPipelineCommand {
    AlterPipelineCommand::AlterPump { name: PumpName::new(name.to_string()), state: PumpState::Started }
}

fn source(name: &str, to: &str) -> AlterPipelineCommand {
    AlterPipelineCommand::CreateSourceReader(SourceReaderModel::new(
        SourceReaderName::new(name.to_string()),
        SourceReaderType::NetClient,
        StreamName::new(to.to_string()),
        Options::new(),
    ))
}

fn queue_sink(name: &str, from: &str, queue: &str) -> AlterPipelineCommand {
    let mut options = Options::new();
    options.add("NAME".to_string(), queue.to_string());
    AlterPipelineCommand::CreateSinkWriter(
        SinkWriterModel::new(
            SinkWriterName::new(name.to_string()),
            SinkWriterType::InMemoryQueue,
            StreamName::new(from.to_string()),
            options,
        )
        .unwrap(),
    )
}

fn run(pipeline: &mut SpringPipeline, command: AlterPipelineCommand) -> Result<(), SpringError> {
    spring_command(pipeline, Command::AlterPipeline(command))
}

fn json(fields: Vec<(&str, JsonValue)>) -> ForeignInputRow {
    ForeignInputRow::from_json(JsonObject {
        fields: fields.into_iter().map(|(k, v)| JsonField { key: k.to_string(), value: v }).collect(),
    })
}

fn feed(pipeline: &mut SpringPipeline, source: &str, input: ForeignInputRow) -> Result<TaskOutcome, SpringError> {
    pipeline.engine.feed_source(&SourceReaderName::new(source.to_string()), &input, 0)
}

/// Runs pump and sink tasks as a worker would, until none has work.
fn drain_tasks(pipeline: &mut SpringPipeline, worker: &mut Worker) -> usize {
    let mut ran = 0;
    loop {
        let task = match worker.tick(&pipeline.engine) {
            Tick::Run(task) => task,
            _ => return ran,
        };
        let outcome = match &task {
            TaskId::Pump(name) => pipeline.engine.run_pump(name, 0),
            TaskId::Sink(name) => match pipeline.engine.run_sink(name) {
                Ok(SinkOutcome::NoWork) => Ok(TaskOutcome::NoWork),
                Ok(_) => Ok(TaskOutcome::Yielded),
                Err(e) => Err(e),
            },
            TaskId::Source(_) => return ran,
        };
        ran += 1;
        assert_eq!(worker.settle(&task, outcome), Settle::Continue);
    }
}

fn pop_all(pipeline: &mut SpringPipeline, queue: &str) -> Vec<Vec<SqlValue>> {
    let mut rows = Vec::new();
    while let Some(SpringRow(row)) = spring_pop_non_blocking(pipeline, queue).unwrap() {
        rows.push(row.values.clone());
    }
    rows
}

fn passthrough() -> SpringPipeline {
    let mut pipeline = spring_open(&SpringConfig::new(2)).unwrap();
    run(&mut pipeline, stream("s", vec![("c1", SqlType::Integer, false)], None)).unwrap();
    run(&mut pipeline, stream("out", vec![("c1", SqlType::Integer, false)], None)).unwrap();
    run(&mut pipeline, pump("p", "s", "out", vec!["c1"], vec![], None, vec!["c1"])).unwrap();
    run(&mut pipeline, source("src", "s")).unwrap();
    run(&mut pipeline, queue_sink("snk", "out", "q")).unwrap();
    run(&mut pipeline, start("p")).unwrap();
    pipeline
}

#[test]
fn test_open_starts_with_an_empty_pipeline_at_version_one() {
    let pipeline = spring_open(&SpringConfig::new(4)).unwrap();
    assert_eq!(pipeline.engine.current_pipeline().version().0, 1);
    assert!(pipeline.engine.current_pipeline().all_sources().is_empty());
    assert!(pipeline.engine.current_pipeline().all_sinks().is_empty());
    assert_eq!(pipeline.config.source_reader_net_connect_timeout_msec, 1000);
    assert_eq!(pipeline.config.source_reader_net_read_timeout_msec, 100);
    assert_eq!(pipeline.config.sink_writer_net_connect_timeout_msec, 1000);
    assert_eq!(pipeline.config.sink_writer_net_write_timeout_msec, 100);
    assert_eq!(pipeline.config.memory_upper_limit_bytes, None);
    assert_eq!(POP_POLL_INTERVAL_MSEC, 10);
}

#[test]
fn test_open_refuses_invalid_configuration() {
    assert!(matches!(spring_open(&SpringConfig::new(0)), Err(SpringError::InvalidOption)));
    let mut config = SpringConfig::new(1);
    config.queue_bound = Some(0);
    assert!(matches!(spring_open(&config), Err(SpringError::InvalidOption)));
    config.queue_bound = Some(1);
    assert!(spring_open(&config).is_ok());
}

#[test]
fn test_passthrough_delivers_rows_in_order() {
    let mut pipeline = passthrough();
    let mut worker = Worker::new();
    for v in [1, 2, 3] {
        assert_eq!(feed(&mut pipeline, "src", json(vec![("c1", JsonValue::Number(v))])), Ok(TaskOutcome::Yielded));
    }
    drain_tasks(&mut pipeline, &mut worker);
    assert_eq!(
        pop_all(&mut pipeline, "q"),
        vec![vec![SqlValue::Integer(1)], vec![SqlValue::Integer(2)], vec![SqlValue::Integer(3)]]
    );
}

#[test]
fn test_projection_of_a_sum() {
    let mut pipeline = spring_open(&SpringConfig::new(1)).unwrap();
    run(
        &mut pipeline,
        stream("s", vec![("a", SqlType::Integer, false), ("b", SqlType::Integer, false)], None),
    )
    .unwrap();
    run(&mut pipeline, stream("out", vec![("sum", SqlType::Integer, false)], None)).unwrap();
    let a_plus_b = ValueExpr::Binary(
        BinaryOperator::Add,
        Box::new(ValueExpr::Field(col("a"))),
        Box::new(ValueExpr::Field(col("b"))),
    );
    run(&mut pipeline, pump("p", "s", "out", vec!["sum"], vec![("sum", a_plus_b)], None, vec!["sum"])).unwrap();
    run(&mut pipeline, source("src", "s")).unwrap();
    run(&mut pipeline, queue_sink("snk", "out", "q")).unwrap();
    run(&mut pipeline, start("p")).unwrap();
    let mut worker = Worker::new();
    feed(&mut pipeline, "src", json(vec![("a", JsonValue::Number(1)), ("b", JsonValue::Number(2))])).unwrap();
    feed(&mut pipeline, "src", json(vec![("a", JsonValue::Number(10)), ("b", JsonValue::Number(20))])).unwrap();
    drain_tasks(&mut pipeline, &mut worker);
    assert_eq!(pop_all(&mut pipeline, "q"), vec![vec![SqlValue::Integer(3)], vec![SqlValue::Integer(30)]]);
}

fn tumbling_avg() -> SpringPipeline {
    let mut pipeline = spring_open(&SpringConfig::new(1)).unwrap();
    run(
        &mut pipeline,
        stream(
            "s",
            vec![("t", SqlType::Timestamp, false), ("k", SqlType::Text, false), ("v", SqlType::Integer, false)],
            Some("t"),
        ),
    )
    .unwrap();
    run(
        &mut pipeline,
        stream("out", vec![("k", SqlType::Text, false), ("avg_v", SqlType::Integer, false)], None),
    )
    .unwrap();
    let window = GroupAggregateWindowOp {
        window_param: WindowParameter::tumbling(1_000_000_000).unwrap(),
        op_param: WindowOperationParameter::GroupAggregate {
            group_by_field: col("k"),
            aggregated_field: col("v"),
            aggregated_alias: col("avg_v"),
            function: AggregateFunctionParameter::Avg,
        },
        max_out_of_order: 0,
    };
    run(&mut pipeline, pump("p", "s", "out", vec!["k", "v"], vec![], Some(window), vec!["k", "avg_v"])).unwrap();
    run(&mut pipeline, source("src", "s")).unwrap();
    run(&mut pipeline, queue_sink("snk", "out", "q")).unwrap();
    run(&mut pipeline, start("p")).unwrap();
    pipeline
}

fn reading(t: &str, k: &str, v: i64) -> ForeignInputRow {
    json(vec![
        ("t", JsonValue::Text(t.to_string())),
        ("k", JsonValue::Text(k.to_string())),
        ("v", JsonValue::Number(v)),
    ])
}

#[test]
fn test_tumbling_average_per_key() {
    let mut pipeline = tumbling_avg();
    let mut worker = Worker::new();
    feed(&mut pipeline, "src", reading("2021-01-01T00:00:00.100Z", "A", 10)).unwrap();
    feed(&mut pipeline, "src", reading("2021-01-01T00:00:00.200Z", "B", 30)).unwrap();
    feed(&mut pipeline, "src", reading("2021-01-01T00:00:00.300Z", "A", 20)).unwrap();
    drain_tasks(&mut pipeline, &mut worker);
    assert_eq!(pop_all(&mut pipeline, "q"), Vec::<Vec<SqlValue>>::new());
    feed(&mut pipeline, "src", reading("2021-01-01T00:00:01.001Z", "C", 1)).unwrap();
    drain_tasks(&mut pipeline, &mut worker);
    assert_eq!(
        pop_all(&mut pipeline, "q"),
        vec![
            vec![SqlValue::Text("A".to_string()), SqlValue::Integer(15)],
            vec![SqlValue::Text("B".to_string()), SqlValue::Integer(30)],
        ]
    );
}

#[test]
fn test_tumbling_window_emits_one_row_per_key_of_each_pane() {
    let mut pipeline = tumbling_avg();
    let mut worker = Worker::new();
    let inputs = [
        ("2021-01-01T00:00:00.000Z", "A", 1),
        ("2021-01-01T00:00:00.500Z", "B", 2),
        ("2021-01-01T00:00:00.999999999Z", "A", 3),
        ("2021-01-01T00:00:01.000Z", "A", 4),
        ("2021-01-01T00:00:01.100Z", "C", 5),
        ("2021-01-01T00:00:01.200Z", "B", 6),
        ("2021-01-01T00:00:01.300Z", "C", 7),
        ("2021-01-01T00:00:02.000Z", "Z", 0),
    ];
    for (t, k, v) in inputs {
        feed(&mut pipeline, "src", reading(t, k, v)).unwrap();
    }
    drain_tasks(&mut pipeline, &mut worker);
    let text = |s: &str| SqlValue::Text(s.to_string());
    assert_eq!(
        pop_all(&mut pipeline, "q"),
        vec![
            vec![text("A"), SqlValue::Integer(2)],
            vec![text("B"), SqlValue::Integer(2)],
            vec![text("A"), SqlValue::Integer(4)],
            vec![text("B"), SqlValue::Integer(6)],
            vec![text("C"), SqlValue::Integer(6)],
        ]
    );
}

#[test]
fn test_back_pressure_bounds_the_queues_and_drops_nothing() {
    let mut config = SpringConfig::new(1);
    config.queue_bound = Some(4);
    let mut pipeline = spring_open(&config).unwrap();
    run(&mut pipeline, stream("s", vec![("c1", SqlType::Integer, false)], None)).unwrap();
    run(&mut pipeline, source("src", "s")).unwrap();
    run(&mut pipeline, queue_sink("snk", "s", "q")).unwrap();
    let sink = SinkWriterName::new("snk".to_string());
    let mut delivered = Vec::new();
    let mut next: i64 = 0;
    let mut refused = 0;
    for round in 0..1100 {
        for _ in 0..10 {
            if next == 1000 {
                break;
            }
            match feed(&mut pipeline, "src", json(vec![("c1", JsonValue::Number(next))])).unwrap() {
                TaskOutcome::Yielded => next += 1,
                TaskOutcome::NoWork => {
                    refused += 1;
                    break;
                },
            }
            assert!(pipeline.engine.sink_queues.depth("snk") <= 4);
        }
        if round % 1 == 0 {
            pipeline.engine.run_sink(&sink).unwrap();
            delivered.extend(pop_all(&mut pipeline, "q"));
        }
    }
    assert!(refused > 0);
    assert_eq!(delivered.len(), 1000);
    let expected: Vec<Vec<SqlValue>> = (0..1000).map(|v| vec![SqlValue::Integer(v)]).collect();
    assert_eq!(delivered, expected);
}

#[test]
fn test_full_queue_stops_the_pump_that_feeds_it() {
    let mut config = SpringConfig::new(1);
    config.queue_bound = Some(2);
    let mut pipeline = spring_open(&config).unwrap();
    run(&mut pipeline, stream("s", vec![("c1", SqlType::Integer, false)], None)).unwrap();
    run(&mut pipeline, stream("out", vec![("c1", SqlType::Integer, false)], None)).unwrap();
    run(&mut pipeline, pump("p", "s", "out", vec!["c1"], vec![], None, vec!["c1"])).unwrap();
    run(&mut pipeline, source("src", "s")).unwrap();
    run(&mut pipeline, queue_sink("snk", "out", "q")).unwrap();
    run(&mut pipeline, start("p")).unwrap();
    let p = PumpName::new("p".to_string());
    for v in 0..2 {
        assert_eq!(feed(&mut pipeline, "src", json(vec![("c1", JsonValue::Number(v))])), Ok(TaskOutcome::Yielded));
    }
    assert_eq!(feed(&mut pipeline, "src", json(vec![("c1", JsonValue::Number(9))])), Ok(TaskOutcome::NoWork));
    assert_eq!(pipeline.engine.run_pump(&p, 0), Ok(TaskOutcome::Yielded));
    assert_eq!(pipeline.engine.run_pump(&p, 0), Ok(TaskOutcome::Yielded));
    assert_eq!(pipeline.engine.run_pump(&p, 0), Ok(TaskOutcome::NoWork));
    assert_eq!(feed(&mut pipeline, "src", json(vec![("c1", JsonValue::Number(2))])), Ok(TaskOutcome::Yielded));
    assert_eq!(pipeline.engine.run_pump(&p, 0), Ok(TaskOutcome::NoWork));
    assert_eq!(pipeline.engine.pump_queues.depth("p"), 1);
    assert_eq!(pipeline.engine.sink_queues.depth("snk"), 2);
    assert!(matches!(
        pipeline.engine.run_sink(&SinkWriterName::new("snk".to_string())),
        Ok(SinkOutcome::Delivered)
    ));
    assert_eq!(pipeline.engine.run_pump(&p, 0), Ok(TaskOutcome::Yielded));
}

#[test]
fn test_failed_command_leaves_the_pipeline_untouched() {
    let mut pipeline = passthrough();
    let version = pipeline.engine.current_pipeline().version().0;
    let collision = stream("p", vec![("c1", SqlType::Integer, false)], None);
    assert_eq!(run(&mut pipeline, collision), Err(SpringError::Sql));
    assert_eq!(pipeline.engine.current_pipeline().version().0, version);
    assert!(pipeline.engine.current_pipeline().get_stream(&StreamName::new("p".to_string())).is_err());
    let mut worker = Worker::new();
    feed(&mut pipeline, "src", json(vec![("c1", JsonValue::Number(7))])).unwrap();
    drain_tasks(&mut pipeline, &mut worker);
    assert_eq!(pop_all(&mut pipeline, "q"), vec![vec![SqlValue::Integer(7)]]);
}

#[test]
fn test_each_successful_command_raises_the_version_by_one() {
    let mut pipeline = spring_open(&SpringConfig::new(1)).unwrap();
    assert_eq!(pipeline.engine.current_pipeline().version().0, 1);
    run(&mut pipeline, stream("s", vec![("c1", SqlType::Integer, false)], None)).unwrap();
    assert_eq!(pipeline.engine.current_pipeline().version().0, 2);
    run(&mut pipeline, source("src", "s")).unwrap();
    assert_eq!(pipeline.engine.current_pipeline().version().0, 3);
    assert_eq!(pipeline.engine.current_pipeline().object_names, vec!["s".to_string(), "src".to_string()]);
}

#[test]
fn test_creating_the_same_object_twice_fails() {
    let mut pipeline = spring_open(&SpringConfig::new(1)).unwrap();
    run(&mut pipeline, stream("s", vec![("c1", SqlType::Integer, false)], None)).unwrap();
    assert_eq!(
        run(&mut pipeline, stream("s", vec![("c1", SqlType::Integer, false)], None)),
        Err(SpringError::Sql)
    );
    run(&mut pipeline, source("src", "s")).unwrap();
    assert_eq!(run(&mut pipeline, source("src", "s")), Err(SpringError::Sql));
    assert_eq!(run(&mut pipeline, queue_sink("src", "s", "q")), Err(SpringError::Sql));
    assert_eq!(pipeline.engine.current_pipeline().version().0, 3);
}

#[test]
fn test_objects_need_their_streams() {
    let mut pipeline = spring_open(&SpringConfig::new(1)).unwrap();
    run(&mut pipeline, stream("s", vec![("c1", SqlType::Integer, false)], None)).unwrap();
    assert_eq!(run(&mut pipeline, source("src", "nowhere")), Err(SpringError::Sql));
    assert_eq!(run(&mut pipeline, queue_sink("snk", "nowhere", "q")), Err(SpringError::Sql));
    assert_eq!(
        run(&mut pipeline, pump("p", "s", "nowhere", vec!["c1"], vec![], None, vec!["c1"])),
        Err(SpringError::Sql)
    );
    assert_eq!(
        run(&mut pipeline, pump("p", "nowhere", "s", vec!["c1"], vec![], None, vec!["c1"])),
        Err(SpringError::Sql)
    );
    assert_eq!(run(&mut pipeline, start("p")), Err(SpringError::Sql));
    assert_eq!(pipeline.engine.current_pipeline().version().0, 2);
    assert!(matches!(spring_pop_non_blocking(&mut pipeline, "q"), Err(SpringError::Unavailable)));
}

#[test]
fn test_starting_a_pump_twice_is_idempotent() {
    let mut pipeline = passthrough();
    let version = pipeline.engine.current_pipeline().version().0;
    run(&mut pipeline, start("p")).unwrap();
    assert_eq!(pipeline.engine.current_pipeline().as_graph().pumps[0].state, PumpState::Started);
    assert_eq!(pipeline.engine.current_pipeline().version().0, version + 1);
    let mut worker = Worker::new();
    feed(&mut pipeline, "src", json(vec![("c1", JsonValue::Number(5))])).unwrap();
    drain_tasks(&mut pipeline, &mut worker);
    assert_eq!(pop_all(&mut pipeline, "q"), vec![vec![SqlValue::Integer(5)]]);
}

#[test]
fn test_stopped_pump_is_never_picked_and_gets_no_rows() {
    let mut pipeline = passthrough();
    run(
        &mut pipeline,
        AlterPipelineCommand::AlterPump { name: PumpName::new("p".to_string()), state: PumpState::Stopped },
    )
    .unwrap();
    let mut worker = Worker::new();
    feed(&mut pipeline, "src", json(vec![("c1", JsonValue::Number(5))])).unwrap();
    assert_eq!(drain_tasks(&mut pipeline, &mut worker), 0);
    assert_eq!(pipeline.engine.run_pump(&PumpName::new("p".to_string()), 0), Ok(TaskOutcome::NoWork));
    assert_eq!(pipeline.engine.pump_queues.depth("p"), 0);
    assert_eq!(pop_all(&mut pipeline, "q"), Vec::<Vec<SqlValue>>::new());
}

#[test]
fn test_pop_on_undeclared_queue_is_unavailable() {
    let mut pipeline = passthrough();
    assert!(matches!(spring_pop_non_blocking(&mut pipeline, "nope"), Err(SpringError::Unavailable)));
}

#[test]
fn test_pop_on_empty_queue_gives_none_again_and_again() {
    let mut pipeline = passthrough();
    for _ in 0..5 {
        assert!(matches!(spring_pop_non_blocking(&mut pipeline, "q"), Ok(None)));
    }
}

#[test]
fn test_unknown_tasks_are_unavailable() {
    let mut pipeline = passthrough();
    assert_eq!(
        feed(&mut pipeline, "nobody", json(vec![("c1", JsonValue::Number(1))])),
        Err(SpringError::Unavailable)
    );
    assert_eq!(pipeline.engine.run_pump(&PumpName::new("nobody".to_string()), 0), Err(SpringError::Unavailable));
    assert!(matches!(
        pipeline.engine.run_sink(&SinkWriterName::new("nobody".to_string())),
        Err(SpringError::Unavailable)
    ));
}

#[test]
fn test_malformed_input_is_a_foreign_io_error_and_changes_nothing() {
    let mut pipeline = passthrough();
    assert_eq!(
        feed(&mut pipeline, "src", json(vec![("other", JsonValue::Number(1))])),
        Err(SpringError::ForeignIo)
    );
    assert_eq!(
        feed(&mut pipeline, "src", json(vec![("c1", JsonValue::Text("one".to_string()))])),
        Err(SpringError::ForeignIo)
    );
    assert_eq!(pipeline.engine.pump_queues.depth("p"), 0);
    let mut worker = Worker::new();
    let reader = TaskId::Source(SourceReaderName::new("src".to_string()));
    assert_eq!(worker.settle(&reader, Err(SpringError::ForeignIo)), Settle::Park(100));
    assert!(worker.retries[0].state.error_count >= 1);
    for v in 0..5 {
        feed(&mut pipeline, "src", json(vec![("c1", JsonValue::Number(v))])).unwrap();
    }
    drain_tasks(&mut pipeline, &mut worker);
    assert_eq!(pop_all(&mut pipeline, "q").len(), 5);
}

#[test]
fn test_rows_fan_out_to_every_task_downstream() {
    let mut pipeline = spring_open(&SpringConfig::new(1)).unwrap();
    run(&mut pipeline, stream("s", vec![("c1", SqlType::Integer, false)], None)).unwrap();
    run(&mut pipeline, source("src", "s")).unwrap();
    run(&mut pipeline, queue_sink("snk1", "s", "q1")).unwrap();
    run(&mut pipeline, queue_sink("snk2", "s", "q2")).unwrap();
    let mut worker = Worker::new();
    for v in [1, 2] {
        feed(&mut pipeline, "src", json(vec![("c1", JsonValue::Number(v))])).unwrap();
    }
    assert_eq!(drain_tasks(&mut pipeline, &mut worker), 4);
    let expected = vec![vec![SqlValue::Integer(1)], vec![SqlValue::Integer(2)]];
    assert_eq!(pop_all(&mut pipeline, "q1"), expected);
    assert_eq!(pop_all(&mut pipeline, "q2"), expected);
}

#[test]
fn test_sinks_run_before_pumps() {
    let mut pipeline = passthrough();
    let mut worker = Worker::new();
    feed(&mut pipeline, "src", json(vec![("c1", JsonValue::Number(1))])).unwrap();
    assert!(matches!(worker.tick(&pipeline.engine), Tick::Run(TaskId::Pump(_))));
    pipeline.engine.run_pump(&PumpName::new("p".to_string()), 0).unwrap();
    feed(&mut pipeline, "src", json(vec![("c1", JsonValue::Number(2))])).unwrap();
    assert!(matches!(worker.tick(&pipeline.engine), Tick::Run(TaskId::Sink(_))));
}

#[test]
fn test_net_sink_hands_the_row_out() {
    let mut pipeline = spring_open(&SpringConfig::new(1)).unwrap();
    run(&mut pipeline, stream("s", vec![("c1", SqlType::Integer, false)], None)).unwrap();
    run(&mut pipeline, source("src", "s")).unwrap();
    let writer = SinkWriterModel::new(
        SinkWriterName::new("net".to_string()),
        SinkWriterType::NetClient,
        StreamName::new("s".to_string()),
        Options::new(),
    )
    .unwrap();
    run(&mut pipeline, AlterPipelineCommand::CreateSinkWriter(writer)).unwrap();
    feed(&mut pipeline, "src", json(vec![("c1", JsonValue::Number(8))])).unwrap();
    let net = SinkWriterName::new("net".to_string());
    match pipeline.engine.run_sink(&net).unwrap() {
        SinkOutcome::Write(row) => assert_eq!(row.values, vec![SqlValue::Integer(8)]),
        _ => panic!("the row should be handed out"),
    }
    assert!(matches!(pipeline.engine.run_sink(&net), Ok(SinkOutcome::NoWork)));
}

#[test]
fn test_output_that_does_not_fit_is_an_internal_error() {
    let mut pipeline = spring_open(&SpringConfig::new(1)).unwrap();
    run(&mut pipeline, stream("s", vec![("c1", SqlType::Integer, false)], None)).unwrap();
    run(&mut pipeline, stream("out", vec![("c1", SqlType::Text, false)], None)).unwrap();
    run(&mut pipeline, pump("p", "s", "out", vec!["c1"], vec![], None, vec!["c1"])).unwrap();
    run(&mut pipeline, source("src", "s")).unwrap();
    run(&mut pipeline, start("p")).unwrap();
    feed(&mut pipeline, "src", json(vec![("c1", JsonValue::Number(1))])).unwrap();
    assert_eq!(pipeline.engine.run_pump(&PumpName::new("p".to_string()), 0), Err(SpringError::Internal));
}

#[test]
fn test_pump_fails_with_sql_on_absent_label() {
    let mut pipeline = spring_open(&SpringConfig::new(1)).unwrap();
    run(&mut pipeline, stream("s", vec![("c1", SqlType::Integer, false)], None)).unwrap();
    run(&mut pipeline, stream("out", vec![("c1", SqlType::Integer, false)], None)).unwrap();
    run(&mut pipeline, pump("p", "s", "out", vec!["zz"], vec![], None, vec!["c1"])).unwrap();
    run(&mut pipeline, source("src", "s")).unwrap();
    run(&mut pipeline, start("p")).unwrap();
    feed(&mut pipeline, "src", json(vec![("c1", JsonValue::Number(1))])).unwrap();
    assert_eq!(pipeline.engine.run_pump(&PumpName::new("p".to_string()), 0), Err(SpringError::Sql));
}

#[test]
fn test_purge_releases_the_window_of_a_stopped_pump() {
    let mut pipeline = tumbling_avg();
    let mut worker = Worker::new();
    feed(&mut pipeline, "src", reading("2021-01-01T00:00:00.100Z", "A", 10)).unwrap();
    drain_tasks(&mut pipeline, &mut worker);
    assert_eq!(pipeline.engine.pump_tasks[0].subtask.window.as_ref().unwrap().panes.len(), 1);
    pipeline.engine.purge();
    assert_eq!(pipeline.engine.pump_tasks[0].subtask.window.as_ref().unwrap().panes.len(), 1);
    run(
        &mut pipeline,
        AlterPipelineCommand::AlterPump { name: PumpName::new("p".to_string()), state: PumpState::Stopped },
    )
    .unwrap();
    pipeline.engine.purge();
    let window = pipeline.engine.pump_tasks[0].subtask.window.as_ref().unwrap();
    assert_eq!(window.panes.len(), 0);
    assert_eq!(window.watermark, None);
    assert_eq!(window.dispatched, 0);
}

#[test]
fn test_memory_limit_stops_the_sources_until_rows_drain() {
    let mut config = SpringConfig::new(1);
    config.memory_upper_limit_bytes = Some(24);
    let mut pipeline = spring_open(&config).unwrap();
    run(&mut pipeline, stream("s", vec![("c1", SqlType::Integer, false)], None)).unwrap();
    run(&mut pipeline, source("src", "s")).unwrap();
    run(&mut pipeline, queue_sink("snk", "s", "q")).unwrap();
    assert!(pipeline.engine.has_memory());
    for v in 0..3 {
        assert_eq!(feed(&mut pipeline, "src", json(vec![("c1", JsonValue::Number(v))])), Ok(TaskOutcome::Yielded));
    }
    assert_eq!(pipeline.engine.sink_queues.bytes(), 24);
    assert!(!pipeline.engine.has_memory());
    assert_eq!(feed(&mut pipeline, "src", json(vec![("c1", JsonValue::Number(3))])), Ok(TaskOutcome::NoWork));
    assert_eq!(pipeline.engine.sink_queues.depth("snk"), 3);
    pipeline.engine.run_sink(&SinkWriterName::new("snk".to_string())).unwrap();
    assert_eq!(pipeline.engine.sink_queues.bytes(), 16);
    assert_eq!(feed(&mut pipeline, "src", json(vec![("c1", JsonValue::Number(3))])), Ok(TaskOutcome::Yielded));
    let mut worker = Worker::new();
    drain_tasks(&mut pipeline, &mut worker);
    assert_eq!(pop_all(&mut pipeline, "q").len(), 4);
}

#[test]
fn test_created_pump_does_not_run_until_started() {
    let mut pipeline = spring_open(&SpringConfig::new(1)).unwrap();
    run(&mut pipeline, stream("s", vec![("c1", SqlType::Integer, false)], None)).unwrap();
    run(&mut pipeline, stream("out", vec![("c1", SqlType::Integer, false)], None)).unwrap();
    let mut command = pump("p", "s", "out", vec!["c1"], vec![], None, vec!["c1"]);
    if let AlterPipelineCommand::CreatePump(model) = &mut command {
        model.state = PumpState::Started;
    }
    run(&mut pipeline, command).unwrap();
    run(&mut pipeline, source("src", "s")).unwrap();
    run(&mut pipeline, queue_sink("snk", "out", "q")).unwrap();
    assert_eq!(pipeline.engine.current_pipeline().as_graph().pumps[0].state, PumpState::Stopped);
    let mut worker = Worker::new();
    feed(&mut pipeline, "src", json(vec![("c1", JsonValue::Number(1))])).unwrap();
    assert_eq!(drain_tasks(&mut pipeline, &mut worker), 0);
    assert_eq!(pipeline.engine.pump_queues.depth("p"), 0);
    run(&mut pipeline, start("p")).unwrap();
    feed(&mut pipeline, "src", json(vec![("c1", JsonValue::Number(2))])).unwrap();
    drain_tasks(&mut pipeline, &mut worker);
    assert_eq!(pop_all(&mut pipeline, "q"), vec![vec![SqlValue::Integer(2)]]);
}

#[test]
fn test_command_without_a_version_left_is_unavailable() {
    let mut pipeline = passthrough();
    pipeline.engine.pipeline.version = PipelineVersion(u64::MAX);
    let fresh = stream("fresh", vec![("c1", SqlType::Integer, false)], None);
    assert_eq!(run(&mut pipeline, fresh), Err(SpringError::Unavailable));
    let collision = stream("p", vec![("c1", SqlType::Integer, false)], None);
    assert_eq!(run(&mut pipeline, collision), Err(SpringError::Sql));
    assert_eq!(pipeline.engine.current_pipeline().version().0, u64::MAX);
    assert_eq!(pipeline.engine.current_pipeline().as_graph().streams.len(), 2);
    assert!(!pipeline.engine.current_pipeline().is_taken("fresh"));
}

#[test]
fn test_commands_tell_whether_they_are_valid_and_accepted() {
    let pipeline = passthrough();
    let current = pipeline.engine.current_pipeline();
    let fresh = stream("fresh", vec![("c1", SqlType::Integer, false)], None);
    assert!(fresh.is_valid());
    assert!(fresh.applies(current));
    assert!(!stream("p", vec![("c1", SqlType::Integer, false)], None).applies(current));
    assert!(!source("src2", "nowhere").applies(current));
    assert!(source("src2", "s").applies(current));
    assert!(start("p").applies(current));
    assert!(!start("nobody").applies(current));
    let twice = StreamShape {
        columns: vec![
            ColumnDefinition { name: col("a"), sql_type: SqlType::Integer, nullable: false },
            ColumnDefinition { name: col("a"), sql_type: SqlType::Integer, nullable: false },
        ],
        rowtime: None,
    };
    assert!(!twice.is_valid());
    let malformed =
        AlterPipelineCommand::CreateStream(Arc::new(StreamModel::new(StreamName::new("m".to_string()), twice)));
    assert!(!malformed.is_valid());
    let nameless = SinkWriterModel {
        name: SinkWriterName::new("w".to_string()),
        writer_type: SinkWriterType::InMemoryQueue,
        from_stream: StreamName::new("s".to_string()),
        options: Options::new(),
    };
    assert!(!nameless.is_valid());
    assert!(!AlterPipelineCommand::CreateSinkWriter(nameless).is_valid());
    assert!(pump("p2", "s", "out", vec!["c1"], vec![], None, vec!["c1"]).is_valid());
}

#[test]
fn test_malformed_commands_are_refused_and_change_nothing() {
    let mut pipeline = passthrough();
    let version = pipeline.engine.current_pipeline().version().0;
    let twice = StreamShape {
        columns: vec![
            ColumnDefinition { name: col("a"), sql_type: SqlType::Integer, nullable: false },
            ColumnDefinition { name: col("a"), sql_type: SqlType::Integer, nullable: false },
        ],
        rowtime: None,
    };
    let malformed =
        AlterPipelineCommand::CreateStream(Arc::new(StreamModel::new(StreamName::new("m".to_string()), twice)));
    assert_eq!(run(&mut pipeline, malformed), Err(SpringError::Sql));
    let nameless = |name: &str| {
        AlterPipelineCommand::CreateSinkWriter(SinkWriterModel {
            name: SinkWriterName::new(name.to_string()),
            writer_type: SinkWriterType::InMemoryQueue,
            from_stream: StreamName::new("out".to_string()),
            options: Options::new(),
        })
    };
    assert_eq!(run(&mut pipeline, nameless("w")), Err(SpringError::InvalidOption));
    assert_eq!(run(&mut pipeline, nameless("snk")), Err(SpringError::Sql));
    assert_eq!(pipeline.engine.current_pipeline().version().0, version);
    assert!(!pipeline.engine.current_pipeline().is_taken("m"));
    assert!(!pipeline.engine.current_pipeline().is_taken("w"));
    assert_eq!(pipeline.engine.current_pipeline().all_sinks().len(), 1);
}
