use std::sync::Arc;

use springql_core::error::SpringError;
use springql_core::foreign_input_row::ForeignInputRow;
use springql_core::foreign_input_row::JsonField;
use springql_core::foreign_input_row::JsonObject;
use springql_core::foreign_input_row::JsonValue;
use springql_core::name::same_text;
use springql_core::name::ColumnName;
use springql_core::name::QueueName;
use springql_core::name::StreamName;
use springql_core::option::Options;
use springql_core::query_subtask::SqlValues;
use springql_core::row::names_distinct;
use springql_core::row::ColumnValues;
use springql_core::row::Row;
use springql_core::row_repository::RowRepository;
use springql_core::sink_writer_model::SinkWriterModel;
use springql_core::sink_writer_model::SinkWriterType;
use springql_core::name::SinkWriterName;
use springql_core::sql_value::SqlType;
use springql_core::sql_value::SqlValue;
use springql_core::stream_model::ColumnDefinition;
use springql_core::stream_model::StreamModel;
use springql_core::stream_model::StreamShape;
use springql_core::tuple::Tuple;

fn name(text: &str) -> ColumnName {
    ColumnName::new(text.to_string())
}

fn column(text: &str, sql_type: SqlType, nullable: bool) -> ColumnDefinition {
    ColumnDefinition { name: name(text), sql_type, nullable }
}

fn trade_stream() -> Arc<StreamModel> {
    let shape = StreamShape::new(
        vec![
            column("ts", SqlType::Timestamp, false),
            column("ticker", SqlType::Text, false),
            column("amount", SqlType::Integer, true),
        ],
        Some(name("ts")),
    )
    .unwrap();
    Arc::new(StreamModel::new(StreamName::new("trade".to_string()), shape))
}

fn plain_stream() -> Arc<StreamModel> {
    let shape = StreamShape::new(
        vec![column("c1", SqlType::Integer, false), column("c2", SqlType::Text, true), column("c3", SqlType::Boolean, false)],
        None,
    )
    .unwrap();
    Arc::new(StreamModel::new(StreamName::new("plain".to_string()), shape))
}

fn object(fields: Vec<(&str, JsonValue)>) -> ForeignInputRow {
    ForeignInputRow::from_json(JsonObject {
        fields: fields.into_iter().map(|(k, v)| JsonField { key: k.to_string(), value: v }).collect(),
    })
}

#[test]
fn test_shape_refuses_duplicate_columns() {
    let res = StreamShape::new(vec![column("a", SqlType::Integer, false), column("a", SqlType::Text, false)], None);
    assert!(matches!(res, Err(SpringError::Sql)));
}

#[test]
fn test_shape_refuses_unfit_rowtime_column() {
    let columns = || vec![column("a", SqlType::Integer, false), column("t", SqlType::Timestamp, true)];
    assert!(matches!(StreamShape::new(columns(), Some(name("a"))), Err(SpringError::Sql)));
    assert!(matches!(StreamShape::new(columns(), Some(name("t"))), Err(SpringError::Sql)));
    assert!(matches!(StreamShape::new(columns(), Some(name("zz"))), Err(SpringError::Sql)));
    let shape = StreamShape::new(columns(), None).unwrap();
    assert_eq!(shape.len(), 2);
    assert_eq!(shape.position(&name("t")), Some(1));
    assert_eq!(shape.position(&name("zz")), None);
}

#[test]
fn test_shape_designates_rowtime_column() {
    let stream = trade_stream();
    assert_eq!(stream.shape().rowtime, Some(0));
    assert_eq!(stream.name().as_str(), "trade");
}

#[test]
fn test_row_takes_event_time_from_rowtime_column() {
    let values = vec![SqlValue::Timestamp(42), SqlValue::Text("ORCL".to_string()), SqlValue::Null];
    let row = Row::new(trade_stream(), values, 7).unwrap();
    assert_eq!(row.event_time, 42);
    assert_eq!(row.get(&name("ticker")), Some(&SqlValue::Text("ORCL".to_string())));
    assert_eq!(row.get(&name("zz")), None);
}

#[test]
fn test_row_takes_event_time_from_arrival_without_rowtime() {
    let values = vec![SqlValue::Integer(1), SqlValue::Null, SqlValue::Boolean(true)];
    let row = Row::new(plain_stream(), values, 7).unwrap();
    assert_eq!(row.event_time, 7);
}

#[test]
fn test_row_refuses_values_that_do_not_fit() {
    let too_few = vec![SqlValue::Integer(1)];
    assert!(matches!(Row::new(plain_stream(), too_few, 0), Err(SpringError::Sql)));
    let wrong_type = vec![SqlValue::Text("x".to_string()), SqlValue::Null, SqlValue::Boolean(true)];
    assert!(matches!(Row::new(plain_stream(), wrong_type, 0), Err(SpringError::Sql)));
    let null_in_non_null = vec![SqlValue::Integer(1), SqlValue::Null, SqlValue::Null];
    assert!(matches!(Row::new(plain_stream(), null_in_non_null, 0), Err(SpringError::Sql)));
}

#[test]
fn test_column_values_refuse_a_name_twice() {
    let mut values = ColumnValues::new();
    assert_eq!(values.insert(name("a"), SqlValue::Integer(1)), Ok(()));
    assert_eq!(values.insert(name("a"), SqlValue::Integer(2)), Err(SpringError::Sql));
    assert_eq!(values.get(&name("a")), Some(&SqlValue::Integer(1)));
    assert_eq!(values.get(&name("b")), None);
    assert_eq!(values.entries.len(), 1);
}

#[test]
fn test_row_from_column_values_follows_the_shape() {
    let mut values = ColumnValues::new();
    values.insert(name("c3"), SqlValue::Boolean(false)).unwrap();
    values.insert(name("c1"), SqlValue::Integer(5)).unwrap();
    values.insert(name("c2"), SqlValue::Text("x".to_string())).unwrap();
    let row = Row::from_column_values(plain_stream(), values, 0).unwrap();
    assert_eq!(row.values, vec![SqlValue::Integer(5), SqlValue::Text("x".to_string()), SqlValue::Boolean(false)]);
    let mut short = ColumnValues::new();
    short.insert(name("c1"), SqlValue::Integer(5)).unwrap();
    assert!(matches!(Row::from_column_values(plain_stream(), short, 0), Err(SpringError::Sql)));
}

#[test]
fn test_into_row_reorders_values_to_the_shape() {
    let values = SqlValues(vec![SqlValue::Text("two".to_string()), SqlValue::Boolean(true), SqlValue::Integer(1)]);
    let order = vec![name("c2"), name("c3"), name("c1")];
    assert!(values.can_fill(&plain_stream(), &order));
    let row = values.into_row(plain_stream(), order, 9);
    assert_eq!(row.values, vec![SqlValue::Integer(1), SqlValue::Text("two".to_string()), SqlValue::Boolean(true)]);
    assert_eq!(row.event_time, 9);
    assert_eq!(row.stream.name().as_str(), "plain");
}

#[test]
fn test_can_fill_tells_when_values_do_not_fit() {
    let stream = plain_stream();
    let good = || vec![SqlValue::Integer(1), SqlValue::Null, SqlValue::Boolean(true)];
    let order = || vec![name("c1"), name("c2"), name("c3")];
    assert!(SqlValues(good()).can_fill(&stream, &order()));
    assert!(!SqlValues(vec![SqlValue::Integer(1)]).can_fill(&stream, &order()));
    assert!(!SqlValues(good()).can_fill(&stream, &vec![name("c1"), name("c1"), name("c3")]));
    assert!(!SqlValues(good()).can_fill(&stream, &vec![name("c1"), name("c2"), name("zz")]));
    assert!(!SqlValues(good()).can_fill(&stream, &vec![name("c3"), name("c2"), name("c1")]));
    assert!(names_distinct(&order()));
    assert!(!names_distinct(&vec![name("a"), name("b"), name("a")]));
}

#[test]
fn test_tuple_of_a_row_carries_its_columns_and_event_time() {
    let values = vec![SqlValue::Timestamp(42), SqlValue::Text("ORCL".to_string()), SqlValue::Integer(3)];
    let row = Row::new(trade_stream(), values, 0).unwrap();
    let tuple = Tuple::from_row(&row);
    assert_eq!(tuple.rowtime, 42);
    assert_eq!(tuple.fields.len(), 3);
    assert_eq!(tuple.fields[1].label.as_str(), "ticker");
    assert_eq!(tuple.get_value(&name("amount")), Ok(SqlValue::Integer(3)));
}

#[test]
fn test_foreign_row_ignores_unknown_fields_and_fills_missing_nullable_ones() {
    let input = object(vec![
        ("extra", JsonValue::Other),
        ("ticker", JsonValue::Text("IBM".to_string())),
        ("ts", JsonValue::Text("1970-01-01T00:00:01Z".to_string())),
    ]);
    let row = input._into_row(trade_stream(), 5).unwrap();
    assert_eq!(
        row.values,
        vec![SqlValue::Timestamp(1_000_000_000), SqlValue::Text("IBM".to_string()), SqlValue::Null]
    );
    assert_eq!(row.event_time, 1_000_000_000);
}

#[test]
fn test_foreign_row_refuses_missing_non_null_field() {
    let input = object(vec![("ts", JsonValue::Text("1970-01-01T00:00:01Z".to_string()))]);
    assert!(matches!(input._into_row(trade_stream(), 0), Err(SpringError::ForeignIo)));
    let null = object(vec![
        ("ts", JsonValue::Text("1970-01-01T00:00:01Z".to_string())),
        ("ticker", JsonValue::Null),
    ]);
    assert!(matches!(null._into_row(trade_stream(), 0), Err(SpringError::ForeignIo)));
}

#[test]
fn test_foreign_row_refuses_rowtime_that_is_no_date_time() {
    let input = object(vec![
        ("ts", JsonValue::Text("yesterday".to_string())),
        ("ticker", JsonValue::Text("IBM".to_string())),
    ]);
    assert!(matches!(input._into_row(trade_stream(), 0), Err(SpringError::ForeignIo)));
    let number = object(vec![("ts", JsonValue::Number(5)), ("ticker", JsonValue::Text("IBM".to_string()))]);
    assert!(matches!(number._into_row(trade_stream(), 0), Err(SpringError::ForeignIo)));
}

#[test]
fn test_foreign_row_converts_each_type() {
    let input = object(vec![
        ("c1", JsonValue::Number(-3)),
        ("c2", JsonValue::Text("t".to_string())),
        ("c3", JsonValue::Bool(true)),
        ("c1", JsonValue::Number(99)),
    ]);
    let row = input._into_row(plain_stream(), 0).unwrap();
    assert_eq!(row.values, vec![SqlValue::Integer(-3), SqlValue::Text("t".to_string()), SqlValue::Boolean(true)]);
    let wrong = object(vec![("c1", JsonValue::Bool(true)), ("c3", JsonValue::Bool(true))]);
    assert!(matches!(wrong._into_row(plain_stream(), 0), Err(SpringError::ForeignIo)));
    let other = object(vec![("c1", JsonValue::Other), ("c3", JsonValue::Bool(true))]);
    assert!(matches!(other._into_row(plain_stream(), 0), Err(SpringError::ForeignIo)));
}

#[test]
fn test_repository_queues_are_first_in_first_out() {
    let mut repo = RowRepository::new();
    assert!(matches!(repo.pop("t"), Err(SpringError::Unavailable)));
    repo.ensure_queue("t");
    repo.ensure_queue("t");
    assert!(repo.contains("t"));
    assert!(!repo.contains("u"));
    assert!(matches!(repo.pop("t"), Ok(None)));
    for v in 0..3 {
        let row = Row::new(plain_stream(), vec![SqlValue::Integer(v), SqlValue::Null, SqlValue::Boolean(true)], 0);
        assert_eq!(repo.push("t", Arc::new(row.unwrap())), Ok(()));
    }
    let stray = Row::new(plain_stream(), vec![SqlValue::Integer(0), SqlValue::Null, SqlValue::Boolean(true)], 0);
    assert_eq!(repo.push("u", Arc::new(stray.unwrap())), Err(SpringError::Unavailable));
    assert_eq!(repo.depth("t"), 3);
    assert_eq!(repo.depth("u"), 0);
    for v in 0..3 {
        let row = repo.pop("t").unwrap().unwrap();
        assert_eq!(row.values[0], SqlValue::Integer(v));
    }
    assert!(matches!(repo.pop("t"), Ok(None)));
}

#[test]
fn test_options_give_the_first_value_of_a_key() {
    let mut options = Options::new();
    assert_eq!(options.get("NAME"), Err(SpringError::InvalidOption));
    options.add("NAME".to_string(), "q1".to_string());
    options.add("NAME".to_string(), "q2".to_string());
    assert_eq!(options.get("NAME"), Ok(&"q1".to_string()));
    assert_eq!(options.get("name"), Err(SpringError::InvalidOption));
}

#[test]
fn test_queue_sink_needs_a_queue_name() {
    let writer = SinkWriterModel::new(
        SinkWriterName::new("w".to_string()),
        SinkWriterType::InMemoryQueue,
        StreamName::new("s".to_string()),
        Options::new(),
    );
    assert!(matches!(writer, Err(SpringError::InvalidOption)));
    let mut options = Options::new();
    options.add("NAME".to_string(), "q".to_string());
    let writer = SinkWriterModel::new(
        SinkWriterName::new("w".to_string()),
        SinkWriterType::InMemoryQueue,
        StreamName::new("s".to_string()),
        options,
    )
    .unwrap();
    assert_eq!(writer.queue_name(), Some(QueueName::new("q".to_string())));
    assert_eq!(writer.from_stream().as_str(), "s");
    let net = SinkWriterModel::new(
        SinkWriterName::new("n".to_string()),
        SinkWriterType::NetClient,
        StreamName::new("s".to_string()),
        Options::new(),
    )
    .unwrap();
    assert_eq!(net.queue_name(), None);
}

#[test]
fn test_names_compare_by_text() {
    assert!(same_text("abc", "abc"));
    assert!(!same_text("abc", "abd"));
    assert!(name("a").same(&name("a")));
    assert!(!name("a").same(&name("b")));
    assert_eq!(name("a").duplicate(), name("a"));
}
