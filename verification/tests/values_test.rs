use springql_core::error::SpringError;
use springql_core::expression::apply_operator;
use springql_core::expression::BinaryOperator;
use springql_core::expression::ValueExpr;
use springql_core::name::ColumnName;
use springql_core::row::Field;
use springql_core::sql_value::byte_size;
use springql_core::sql_value::text_precedes;
use springql_core::sql_value::SqlType;
use springql_core::sql_value::SqlValue;
use springql_core::tuple::Tuple;

fn int_field(label: &str, value: i64) -> Field {
    Field { label: ColumnName::new(label.to_string()), value: SqlValue::Integer(value) }
}

#[test]
fn test_text_order_is_lexicographic_by_code_point() {
    assert!(text_precedes("A", "B"));
    assert!(!text_precedes("B", "A"));
    assert!(text_precedes("", "a"));
    assert!(text_precedes("ab", "abc"));
    assert!(!text_precedes("abc", "ab"));
    assert!(!text_precedes("same", "same"));
    assert!(text_precedes("Z", "a"));
    assert!(text_precedes("a", "\u{e9}"));
}

#[test]
fn test_value_order_goes_by_type_then_value() {
    let null = SqlValue::Null;
    let t = SqlValue::Boolean(true);
    let f = SqlValue::Boolean(false);
    let i = SqlValue::Integer(-5);
    let j = SqlValue::Integer(7);
    let ts = SqlValue::Timestamp(0);
    let text = SqlValue::Text("x".to_string());
    assert!(null.precedes(&f));
    assert!(f.precedes(&t));
    assert!(!t.precedes(&f));
    assert!(t.precedes(&i));
    assert!(i.precedes(&j));
    assert!(!j.precedes(&i));
    assert!(j.precedes(&ts));
    assert!(ts.precedes(&text));
    assert!(!text.precedes(&null));
    assert!(!i.precedes(&i));
}

#[test]
fn test_same_compares_values() {
    assert!(SqlValue::Text("a".to_string()).same(&SqlValue::Text("a".to_string())));
    assert!(!SqlValue::Text("a".to_string()).same(&SqlValue::Text("b".to_string())));
    assert!(!SqlValue::Integer(1).same(&SqlValue::Timestamp(1)));
    assert!(SqlValue::Null.same(&SqlValue::Null));
}

#[test]
fn test_conformance_to_column_types() {
    assert!(SqlValue::Integer(1).conforms_to(SqlType::Integer, false));
    assert!(!SqlValue::Integer(1).conforms_to(SqlType::Text, true));
    assert!(SqlValue::Null.conforms_to(SqlType::Text, true));
    assert!(!SqlValue::Null.conforms_to(SqlType::Text, false));
    assert_eq!(SqlValue::Null.sql_type(), None);
    assert_eq!(SqlValue::Timestamp(3).sql_type(), Some(SqlType::Timestamp));
}

#[test]
fn test_arithmetic_exact_results() {
    let a = SqlValue::Integer(7);
    let b = SqlValue::Integer(-2);
    assert_eq!(apply_operator(BinaryOperator::Add, &a, &b), Ok(SqlValue::Integer(5)));
    assert_eq!(apply_operator(BinaryOperator::Sub, &a, &b), Ok(SqlValue::Integer(9)));
    assert_eq!(apply_operator(BinaryOperator::Mul, &a, &b), Ok(SqlValue::Integer(-14)));
    assert_eq!(apply_operator(BinaryOperator::Div, &a, &b), Ok(SqlValue::Integer(-3)));
    assert_eq!(
        apply_operator(BinaryOperator::Div, &SqlValue::Integer(-7), &SqlValue::Integer(2)),
        Ok(SqlValue::Integer(-3))
    );
    assert_eq!(
        apply_operator(BinaryOperator::Div, &SqlValue::Integer(-7), &SqlValue::Integer(-2)),
        Ok(SqlValue::Integer(3))
    );
}

#[test]
fn test_arithmetic_failures_are_sql_errors() {
    let one = SqlValue::Integer(1);
    assert_eq!(
        apply_operator(BinaryOperator::Div, &one, &SqlValue::Integer(0)),
        Err(SpringError::Sql)
    );
    assert_eq!(
        apply_operator(BinaryOperator::Add, &SqlValue::Integer(i64::MAX), &one),
        Err(SpringError::Sql)
    );
    assert_eq!(
        apply_operator(BinaryOperator::Sub, &SqlValue::Integer(i64::MIN), &one),
        Err(SpringError::Sql)
    );
    assert_eq!(
        apply_operator(BinaryOperator::Mul, &SqlValue::Integer(i64::MAX), &SqlValue::Integer(2)),
        Err(SpringError::Sql)
    );
    assert_eq!(
        apply_operator(BinaryOperator::Div, &SqlValue::Integer(i64::MIN), &SqlValue::Integer(-1)),
        Err(SpringError::Sql)
    );
    assert_eq!(
        apply_operator(BinaryOperator::Add, &one, &SqlValue::Text("x".to_string())),
        Err(SpringError::Sql)
    );
}

#[test]
fn test_arithmetic_at_the_edges_of_the_range() {
    assert_eq!(
        apply_operator(BinaryOperator::Add, &SqlValue::Integer(i64::MAX), &SqlValue::Integer(0)),
        Ok(SqlValue::Integer(i64::MAX))
    );
    assert_eq!(
        apply_operator(BinaryOperator::Mul, &SqlValue::Integer(i64::MIN), &SqlValue::Integer(1)),
        Ok(SqlValue::Integer(i64::MIN))
    );
    assert_eq!(
        apply_operator(BinaryOperator::Div, &SqlValue::Integer(i64::MIN), &SqlValue::Integer(1)),
        Ok(SqlValue::Integer(i64::MIN))
    );
}

#[test]
fn test_null_operands_give_null() {
    assert_eq!(
        apply_operator(BinaryOperator::Add, &SqlValue::Null, &SqlValue::Integer(1)),
        Ok(SqlValue::Null)
    );
    assert_eq!(
        apply_operator(BinaryOperator::Div, &SqlValue::Integer(1), &SqlValue::Null),
        Ok(SqlValue::Null)
    );
    assert_eq!(apply_operator(BinaryOperator::Mul, &SqlValue::Null, &SqlValue::Null), Ok(SqlValue::Null));
}

#[test]
fn test_expression_evaluates_over_a_tuple() {
    let tuple = Tuple::new(0, vec![int_field("a", 1), int_field("b", 2)]);
    let sum = ValueExpr::Binary(
        BinaryOperator::Add,
        Box::new(ValueExpr::Field(ColumnName::new("a".to_string()))),
        Box::new(ValueExpr::Field(ColumnName::new("b".to_string()))),
    );
    assert_eq!(sum.eval(&tuple), Ok(SqlValue::Integer(3)));
    let nested = ValueExpr::Binary(
        BinaryOperator::Mul,
        Box::new(sum),
        Box::new(ValueExpr::Constant(SqlValue::Integer(10))),
    );
    assert_eq!(nested.eval(&tuple), Ok(SqlValue::Integer(30)));
}

#[test]
fn test_expression_fails_on_absent_field() {
    let tuple = Tuple::new(0, vec![int_field("a", 1)]);
    let missing = ValueExpr::Field(ColumnName::new("zz".to_string()));
    assert_eq!(missing.eval(&tuple), Err(SpringError::Sql));
}

#[test]
fn test_tuple_lookup_finds_first_field_of_a_label() {
    let tuple = Tuple::new(0, vec![int_field("a", 1), int_field("a", 2)]);
    assert_eq!(tuple.get_value(&ColumnName::new("a".to_string())), Ok(SqlValue::Integer(1)));
    assert_eq!(tuple.to_values(), vec![SqlValue::Integer(1), SqlValue::Integer(2)]);
}

#[test]
fn test_byte_size_of_cells() {
    let values = vec![
        SqlValue::Null,
        SqlValue::Integer(1),
        SqlValue::Boolean(true),
        SqlValue::Timestamp(5),
        SqlValue::Text("h\u{e9}".to_string()),
    ];
    assert_eq!(byte_size(&values), 0 + 8 + 1 + 8 + 3);
    assert_eq!(byte_size(&Vec::new()), 0);
}

#[test]
fn test_error_kind_names() {
    assert_eq!(SpringError::Sql.kind_name(), "Sql");
    assert_eq!(SpringError::ForeignSinkTimeout.kind_name(), "ForeignSinkTimeout");
    assert!(SpringError::ForeignIo.is_foreign_io());
    assert!(SpringError::ForeignSourceTimeout.is_foreign_io());
    assert!(!SpringError::Internal.is_foreign_io());
    assert!(!SpringError::Unavailable.is_foreign_io());
}
