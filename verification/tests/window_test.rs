use std::sync::Arc;

use springql_core::error::SpringError;
use springql_core::name::ColumnName;
use springql_core::name::PumpName;
use springql_core::name::StreamName;
use springql_core::node_executor_tree::FinalRow;
use springql_core::node_executor_tree::NodeExecutorTree;
use springql_core::pipeline::Pipeline;
use springql_core::pipeline::PipelineVersion;
use springql_core::pump_model::InsertPlan;
use springql_core::pump_model::PumpModel;
use springql_core::pump_model::PumpState;
use springql_core::query_plan::CollectOp;
use springql_core::query_plan::EvalValueExprOp;
use springql_core::query_plan::GroupAggregateWindowOp;
use springql_core::query_plan::JoinOp;
use springql_core::query_plan::JoinType;
use springql_core::query_plan::LabelledExpr;
use springql_core::query_plan::LowerOps;
use springql_core::query_plan::ProjectionOp;
use springql_core::query_plan::QueryPlan;
use springql_core::query_plan::UpperOps;
use springql_core::query_subtask::QuerySubtask;
use springql_core::row::Field;
use springql_core::row::Row;
use springql_core::row_repository::RowRepository;
use springql_core::sql_value::SqlType;
use springql_core::sql_value::SqlValue;
use springql_core::stream_model::ColumnDefinition;
use springql_core::stream_model::StreamModel;
use springql_core::stream_model::StreamShape;
use springql_core::expression::ValueExpr;
use springql_core::tuple::Tuple;
use springql_core::window::latest_start;
use springql_core::window::AggrWindow;
use springql_core::window::AggregateFunctionParameter;
use springql_core::window::Group;
use springql_core::window::WindowKind;
use springql_core::window::WindowOperationParameter;
use springql_core::window::WindowParameter;

fn label(text: &str) -> ColumnName {
    ColumnName::new(text.to_string())
}

fn avg_by_key() -> WindowOperationParameter {
    WindowOperationParameter::GroupAggregate {
        group_by_field: label("k"),
        aggregated_field: label("v"),
        aggregated_alias: label("avg"),
        function: AggregateFunctionParameter::Avg,
    }
}

fn tick(t: i64, k: &str, v: i64) -> Tuple {
    Tuple::new(
        t,
        vec![
            Field { label: label("k"), value: SqlValue::Text(k.to_string()) },
            Field { label: label("v"), value: SqlValue::Integer(v) },
        ],
    )
}

fn results(tuples: Vec<Tuple>) -> Vec<(String, i64)> {
    tuples
        .into_iter()
        .map(|t| match (&t.fields[0].value, &t.fields[1].value) {
            (SqlValue::Text(k), SqlValue::Integer(a)) => (k.clone(), *a),
            _ => panic!("a key and an average are expected"),
        })
        .collect()
}

#[test]
fn test_window_parameter_rejects_zero_period() {
    assert_eq!(WindowParameter::new(WindowKind::TimeSliding, 10, 0), Err(SpringError::InvalidOption));
}

#[test]
fn test_window_parameter_rules() {
    assert!(WindowParameter::new(WindowKind::TimeSliding, 10, 10).is_ok());
    assert!(WindowParameter::new(WindowKind::TimeSliding, 10, 3).is_ok());
    assert_eq!(WindowParameter::new(WindowKind::TimeSliding, 10, 11), Err(SpringError::InvalidOption));
    assert_eq!(WindowParameter::new(WindowKind::TimeTumbling, 10, 5), Err(SpringError::InvalidOption));
    assert_eq!(WindowParameter::tumbling(0), Err(SpringError::InvalidOption));
    assert_eq!(WindowParameter::tumbling(u64::MAX), Err(SpringError::InvalidOption));
    let tumbling = WindowParameter::tumbling(7).unwrap();
    assert_eq!(tumbling.period, 7);
    assert!(tumbling.is_valid());
}

#[test]
fn test_latest_start_is_aligned_to_the_epoch() {
    assert_eq!(latest_start(0, 10), 0);
    assert_eq!(latest_start(9, 10), 0);
    assert_eq!(latest_start(10, 10), 10);
    assert_eq!(latest_start(-1, 10), -10);
    assert_eq!(latest_start(-10, 10), -10);
    assert_eq!(latest_start(-11, 10), -20);
    assert_eq!(latest_start(i64::MIN, 10), -9223372036854775810);
    assert_eq!(latest_start(i64::MAX, 1), i64::MAX as i128);
}

#[test]
fn test_group_average_rounds_toward_zero() {
    let group = |sum: i128, count: u64| Group { key: SqlValue::Null, sum, count };
    assert_eq!(group(30, 2).average(), 15);
    assert_eq!(group(7, 2).average(), 3);
    assert_eq!(group(-7, 2).average(), -3);
    assert_eq!(group(0, 5).average(), 0);
    assert_eq!(group(i64::MIN as i128 * 3, 3).average(), i64::MIN);
    assert_eq!(group(i64::MAX as i128 * 3, 3).average(), i64::MAX);
}

#[test]
fn test_tumbling_window_closes_panes_in_order() {
    let mut window = AggrWindow::new(WindowParameter::tumbling(10).unwrap(), avg_by_key(), 0);
    assert_eq!(results(window.dispatch(&tick(1, "b", 4)).unwrap()), vec![]);
    assert_eq!(results(window.dispatch(&tick(2, "a", 1)).unwrap()), vec![]);
    assert_eq!(results(window.dispatch(&tick(9, "b", 6)).unwrap()), vec![]);
    assert_eq!(
        results(window.dispatch(&tick(10, "c", 0)).unwrap()),
        vec![("a".to_string(), 1), ("b".to_string(), 5)]
    );
    assert_eq!(window.panes.len(), 1);
    assert_eq!(window.watermark, Some(10));
    assert_eq!(window.dispatched, 4);
    assert_eq!(results(window.dispatch(&tick(45, "d", 3)).unwrap()), vec![("c".to_string(), 0)]);
}

#[test]
fn test_several_panes_close_at_once_in_ascending_order() {
    let mut window = AggrWindow::new(WindowParameter::tumbling(10).unwrap(), avg_by_key(), 100);
    window.dispatch(&tick(25, "z", 1)).unwrap();
    window.dispatch(&tick(5, "y", 2)).unwrap();
    window.dispatch(&tick(15, "x", 3)).unwrap();
    window.dispatch(&tick(7, "a", 4)).unwrap();
    assert_eq!(window.panes.len(), 3);
    assert_eq!(
        results(window.dispatch(&tick(130, "q", 0)).unwrap()),
        vec![("a".to_string(), 4), ("y".to_string(), 2), ("x".to_string(), 3), ("z".to_string(), 1)]
    );
}

#[test]
fn test_sliding_window_records_a_tuple_in_every_pane_that_holds_it() {
    let param = WindowParameter::new(WindowKind::TimeSliding, 10, 5).unwrap();
    let mut window = AggrWindow::new(param, avg_by_key(), 0);
    assert_eq!(results(window.dispatch(&tick(7, "a", 10)).unwrap()), vec![]);
    let starts: Vec<i128> = window.panes.iter().map(|p| p.start).collect();
    assert_eq!(starts, vec![0, 5]);
    assert_eq!(results(window.dispatch(&tick(12, "a", 20)).unwrap()), vec![("a".to_string(), 10)]);
    let starts: Vec<i128> = window.panes.iter().map(|p| p.start).collect();
    assert_eq!(starts, vec![5, 10]);
    assert_eq!(results(window.dispatch(&tick(15, "a", 0)).unwrap()), vec![("a".to_string(), 15)]);
}

#[test]
fn test_watermark_waits_for_tuples_out_of_order() {
    let mut window = AggrWindow::new(WindowParameter::tumbling(10).unwrap(), avg_by_key(), 5);
    window.dispatch(&tick(8, "a", 2)).unwrap();
    assert_eq!(results(window.dispatch(&tick(12, "a", 100)).unwrap()), vec![]);
    assert_eq!(window.watermark, Some(7));
    assert_eq!(results(window.dispatch(&tick(9, "a", 4)).unwrap()), vec![]);
    assert_eq!(window.watermark, Some(7));
    assert_eq!(results(window.dispatch(&tick(15, "a", 0)).unwrap()), vec![("a".to_string(), 3)]);
}

#[test]
fn test_window_fails_with_sql_on_unreadable_tuple() {
    let mut window = AggrWindow::new(WindowParameter::tumbling(10).unwrap(), avg_by_key(), 0);
    let no_key = Tuple::new(0, vec![Field { label: label("v"), value: SqlValue::Integer(1) }]);
    assert!(matches!(window.dispatch(&no_key), Err(SpringError::Sql)));
    let text_value = Tuple::new(
        0,
        vec![
            Field { label: label("k"), value: SqlValue::Text("a".to_string()) },
            Field { label: label("v"), value: SqlValue::Text("one".to_string()) },
        ],
    );
    assert!(matches!(window.dispatch(&text_value), Err(SpringError::Sql)));
    assert_eq!(window.dispatched, 0);
    assert_eq!(window.panes.len(), 0);
    assert_eq!(window.watermark, None);
}

#[test]
fn test_window_refuses_tuples_once_its_counter_is_full() {
    let mut window = AggrWindow::new(WindowParameter::tumbling(10).unwrap(), avg_by_key(), 0);
    window.dispatched = u64::MAX;
    assert!(matches!(window.dispatch(&tick(1, "a", 1)), Err(SpringError::Unavailable)));
    assert_eq!(window.panes.len(), 0);
}

#[test]
fn test_window_handles_extreme_event_times() {
    let mut window = AggrWindow::new(WindowParameter::tumbling(i64::MAX as u64).unwrap(), avg_by_key(), u64::MAX);
    assert_eq!(results(window.dispatch(&tick(i64::MIN, "a", i64::MIN)).unwrap()), vec![]);
    assert_eq!(results(window.dispatch(&tick(i64::MAX, "a", i64::MAX)).unwrap()), vec![]);
    assert_eq!(window.panes.len(), 2);
    let mut eager = AggrWindow::new(WindowParameter::tumbling(1).unwrap(), avg_by_key(), 0);
    eager.dispatch(&tick(i64::MIN, "a", i64::MIN)).unwrap();
    eager.dispatch(&tick(i64::MIN, "a", i64::MIN)).unwrap();
    assert_eq!(results(eager.dispatch(&tick(i64::MAX, "b", 1)).unwrap()), vec![("a".to_string(), i64::MIN)]);
}

fn simple_stream() -> Arc<StreamModel> {
    let shape = StreamShape::new(
        vec![
            ColumnDefinition { name: label("a"), sql_type: SqlType::Integer, nullable: false },
            ColumnDefinition { name: label("b"), sql_type: SqlType::Integer, nullable: false },
        ],
        None,
    )
    .unwrap();
    Arc::new(StreamModel::new(StreamName::new("s".to_string()), shape))
}

fn collect(stream: &str) -> LowerOps {
    LowerOps { join: JoinOp::Collect(CollectOp { stream: StreamName::new(stream.to_string()) }) }
}

fn projection(labels: Vec<&str>) -> UpperOps {
    UpperOps {
        projection: ProjectionOp { value_expr_labels: labels.into_iter().map(label).collect() },
        eval_value_expr: None,
        group_aggr_window: None,
    }
}

#[test]
fn test_plan_refuses_joins_and_malformed_windows() {
    let join = LowerOps {
        join: JoinOp::Join {
            left: CollectOp { stream: StreamName::new("l".to_string()) },
            right: CollectOp { stream: StreamName::new("r".to_string()) },
            join_type: JoinType::LeftOuter,
            on_expr: ValueExpr::Constant(SqlValue::Boolean(true)),
        },
    };
    assert!(!join.has_window());
    assert!(matches!(QueryPlan::new(projection(vec!["a"]), join), Err(SpringError::Sql)));
    let mut upper = projection(vec!["a"]);
    upper.group_aggr_window = Some(GroupAggregateWindowOp {
        window_param: WindowParameter { kind: WindowKind::TimeTumbling, length: 10, period: 3 },
        op_param: avg_by_key(),
        max_out_of_order: 0,
    });
    assert!(upper.has_window());
    assert!(matches!(QueryPlan::new(upper, collect("s")), Err(SpringError::Sql)));
    assert!(!projection(vec!["a"]).has_window());
}

#[test]
fn test_subtask_tree_runs_from_the_leaf_to_the_root() {
    let mut upper = projection(vec!["twice", "a"]);
    upper.eval_value_expr = Some(EvalValueExprOp {
        expressions: vec![LabelledExpr {
            label: label("twice"),
            expr: ValueExpr::Binary(
                springql_core::expression::BinaryOperator::Mul,
                Box::new(ValueExpr::Field(label("b"))),
                Box::new(ValueExpr::Constant(SqlValue::Integer(2))),
            ),
        }],
    });
    let plan = QueryPlan::new(upper, collect("s")).unwrap();
    assert_eq!(plan.upstream().as_str(), "s");
    assert_eq!(plan.as_petgraph().node_count(), 3);
    assert_eq!(plan.as_petgraph().edge_count(), 2);
    let mut subtask = QuerySubtask::from(&plan);
    assert_eq!(subtask.tree.node_count(), 3);
    assert!(subtask.window.is_none());
    let mut repo = RowRepository::new();
    assert!(subtask.run("p", &mut repo).unwrap().is_none());
    repo.ensure_queue("p");
    assert!(subtask.run("p", &mut repo).unwrap().is_none());
    let row = Row::new(simple_stream(), vec![SqlValue::Integer(3), SqlValue::Integer(4)], 0).unwrap();
    repo.push("p", Arc::new(row)).unwrap();
    let out = subtask.run("p", &mut repo).unwrap().unwrap();
    assert_eq!(out.values_seq.len(), 1);
    assert_eq!(out.values_seq[0].0, vec![SqlValue::Integer(8), SqlValue::Integer(3)]);
    assert_eq!(out.in_queue_metrics_update.rows_consumed, 1);
    assert_eq!(out.in_queue_metrics_update.bytes_consumed, 16);
    assert_eq!(repo.depth("p"), 0);
}

#[test]
fn test_subtask_tree_consumes_the_row_of_a_failed_run() {
    let plan = QueryPlan::new(projection(vec!["zz"]), collect("s")).unwrap();
    let mut subtask = QuerySubtask::from(&plan);
    let mut repo = RowRepository::new();
    repo.ensure_queue("p");
    let row = Row::new(simple_stream(), vec![SqlValue::Integer(3), SqlValue::Integer(4)], 0).unwrap();
    repo.push("p", Arc::new(row)).unwrap();
    assert!(matches!(subtask.run("p", &mut repo), Err(SpringError::Sql)));
    assert_eq!(repo.depth("p"), 0);
}

#[test]
fn test_executor_tree_preserves_the_input_row() {
    let plan = QueryPlan::new(projection(vec!["a"]), collect("s")).unwrap();
    let mut tree = NodeExecutorTree::compile(&plan);
    let mut repo = RowRepository::new();
    assert!(matches!(tree.run("p", &mut repo), Err(SpringError::Unavailable)));
    repo.ensure_queue("p");
    assert!(matches!(tree.run("p", &mut repo), Err(SpringError::Unavailable)));
    let row = Row::new(simple_stream(), vec![SqlValue::Integer(3), SqlValue::Integer(4)], 0).unwrap();
    repo.push("p", Arc::new(row)).unwrap();
    match tree.run("p", &mut repo).unwrap() {
        FinalRow::Preserved(row) => assert_eq!(row.values, vec![SqlValue::Integer(3), SqlValue::Integer(4)]),
        FinalRow::NewlyCreated(_) => panic!("the input row should be preserved"),
    }
    let made = Row::new(simple_stream(), vec![SqlValue::Integer(0), SqlValue::Integer(0)], 0).unwrap();
    tree.latest_new_row = Some(made);
    let again = Row::new(simple_stream(), vec![SqlValue::Integer(1), SqlValue::Integer(1)], 0).unwrap();
    repo.push("p", Arc::new(again)).unwrap();
    match tree.run("p", &mut repo).unwrap() {
        FinalRow::NewlyCreated(row) => assert_eq!(row.values, vec![SqlValue::Integer(0), SqlValue::Integer(0)]),
        FinalRow::Preserved(_) => panic!("the new row should be the outcome"),
    }
    assert!(tree.latest_new_row.is_none());
}

#[test]
fn test_failed_pipeline_mutator_changes_nothing() {
    let mut pipeline = Pipeline::new(PipelineVersion::new());
    assert_eq!(pipeline.version().0, 1);
    assert_eq!(pipeline.add_stream(simple_stream()), Ok(()));
    assert_eq!(pipeline.version().0, 2);
    assert_eq!(pipeline.add_stream(simple_stream()), Err(SpringError::Sql));
    assert_eq!(pipeline.version().0, 2);
    assert_eq!(pipeline.as_graph().streams.len(), 1);
    assert_eq!(pipeline.object_names, vec!["s".to_string()]);
    assert!(pipeline.is_taken("s"));
    assert!(!pipeline.is_taken("t"));
    assert!(pipeline.get_stream(&StreamName::new("s".to_string())).is_ok());
    assert!(matches!(pipeline.get_stream(&StreamName::new("t".to_string())), Err(SpringError::Sql)));
}

#[test]
fn test_pump_with_a_missing_stream_reserves_no_name() {
    let mut pipeline = Pipeline::new(PipelineVersion::new());
    pipeline.add_stream(simple_stream()).unwrap();
    let pump = |to: &str| {
        let plan = QueryPlan::new(projection(vec!["a", "b"]), collect("s")).unwrap();
        let insert = InsertPlan { stream: StreamName::new(to.to_string()), column_order: vec![label("a"), label("b")] };
        PumpModel::new(PumpName::new("p".to_string()), plan, insert)
    };
    assert_eq!(pipeline.add_pump(pump("nowhere")), Err(SpringError::Sql));
    assert_eq!(pipeline.version().0, 2);
    assert_eq!(pipeline.object_names, vec!["s".to_string()]);
    assert!(pipeline.as_graph().pumps.is_empty());
    assert_eq!(pipeline.add_pump(pump("s")), Ok(()));
    assert_eq!(pipeline.version().0, 3);
    assert_eq!(pipeline.object_names, vec!["s".to_string(), "p".to_string()]);
}

#[test]
fn test_pipeline_without_a_version_left_refuses_mutations() {
    let mut pipeline = Pipeline::new(PipelineVersion(u64::MAX));
    assert_eq!(pipeline.add_stream(simple_stream()), Err(SpringError::Unavailable));
    assert_eq!(pipeline.version().0, u64::MAX);
    assert!(pipeline.object_names.is_empty());
    assert!(pipeline.as_graph().streams.is_empty());
    let mut last = Pipeline::new(PipelineVersion(u64::MAX - 1));
    assert_eq!(last.add_stream(simple_stream()), Ok(()));
    assert_eq!(last.version().0, u64::MAX);
    assert_eq!(last.add_stream(simple_stream()), Err(SpringError::Sql));
    assert_eq!(
        last.alter_pump(&PumpName::new("q".to_string()), PumpState::Started),
        Err(SpringError::Sql)
    );
}

#[test]
fn test_pump_is_created_stopped_whatever_its_model_says() {
    let mut pipeline = Pipeline::new(PipelineVersion::new());
    pipeline.add_stream(simple_stream()).unwrap();
    let plan = QueryPlan::new(projection(vec!["a", "b"]), collect("s")).unwrap();
    let insert = InsertPlan { stream: StreamName::new("s".to_string()), column_order: vec![label("a"), label("b")] };
    let mut pump = PumpModel::new(PumpName::new("p".to_string()), plan, insert);
    pump.state = PumpState::Started;
    pipeline.add_pump(pump).unwrap();
    assert_eq!(pipeline.as_graph().pumps[0].state, PumpState::Stopped);
}

#[test]
fn test_pipeline_keeps_pumps_stopped_until_started() {
    let mut pipeline = Pipeline::new(PipelineVersion::new());
    pipeline.add_stream(simple_stream()).unwrap();
    let plan = QueryPlan::new(projection(vec!["a", "b"]), collect("s")).unwrap();
    let insert = InsertPlan { stream: StreamName::new("s".to_string()), column_order: vec![label("a"), label("b")] };
    let pump = PumpModel::new(PumpName::new("p".to_string()), plan, insert);
    assert_eq!(pump.upstream().as_str(), "s");
    assert_eq!(pump.downstream().as_str(), "s");
    pipeline.add_pump(pump).unwrap();
    assert_eq!(pipeline.as_graph().pumps[0].state, PumpState::Stopped);
    let p = PumpName::new("p".to_string());
    pipeline.alter_pump(&p, PumpState::Started).unwrap();
    assert_eq!(pipeline.as_graph().pumps[0].state, PumpState::Started);
    assert_eq!(pipeline.alter_pump(&PumpName::new("q".to_string()), PumpState::Started), Err(SpringError::Sql));
    let copy = pipeline.duplicate();
    assert_eq!(copy.version(), pipeline.version());
    assert_eq!(copy.object_names, pipeline.object_names);
    assert_eq!(copy.as_graph().pumps.len(), 1);
}
