//! Rows as they arrive from foreign sources.

use std::sync::Arc;
use vstd::prelude::*;
use crate::error::SpringError;
use crate::name::same_text;
use crate::row::event_time_of;
use crate::row::Row;
use crate::sql_value::SqlType;
use crate::sql_value::SqlValue;
use crate::stream_model::ColumnDefinition;
use crate::stream_model::StreamModel;
use crate::timestamp::parse_rfc3339;
use crate::timestamp::rfc3339_nanos;

verus! {

/// A value of a JSON object, as far as a row can hold it.
#[derive(Debug)]
pub enum JsonValue {
    Null,
    Bool(bool),
    /// An integer that fits 64 bits.
    Number(i64),
    Text(String),
    /// Any other value: a fraction, an array or an object.
    Other,
}

/// One field of a JSON object.
#[derive(Debug)]
pub struct JsonField {
    pub key: String,
    pub value: JsonValue,
}

/// A JSON object: its fields in the order written.
#[derive(Debug)]
pub struct JsonObject {
    pub fields: Vec<JsonField>,
}

/// Whether `i` is the first position whose field has the key `key`.
pub open spec fn first_keyed(fields: Seq<JsonField>, key: Seq<char>, i: int) -> bool {
    &&& 0 <= i < fields.len()
    &&& fields[i].key@ == key
    &&& forall|k: int| 0 <= k < i ==> (#[trigger] fields[k]).key@ != key
}

/// The value of the first field with the key `key`, if any.
pub open spec fn json_lookup(fields: Seq<JsonField>, key: Seq<char>) -> Option<JsonValue> {
    if exists|i: int| first_keyed(fields, key, i) {
        Some(fields[choose|i: int| first_keyed(fields, key, i)].value)
    } else {
        None
    }
}

/// The cell that a JSON value fills in a column. A missing field or a JSON
/// null gives NULL in a nullable column; an integer fills an INTEGER
/// column, a boolean a BOOLEAN column, a text a TEXT column, and a text
/// that is an RFC 3339 date-time a TIMESTAMP column. Anything else fails
/// with `ForeignIo`.
pub open spec fn cell_of(column: ColumnDefinition, value: Option<JsonValue>) -> Result<SqlValue, SpringError> {
    match value {
        None => if column.nullable {
            Ok(SqlValue::Null)
        } else {
            Err(SpringError::ForeignIo)
        },
        Some(JsonValue::Null) => if column.nullable {
            Ok(SqlValue::Null)
        } else {
            Err(SpringError::ForeignIo)
        },
        Some(JsonValue::Bool(b)) => if column.sql_type == SqlType::Boolean {
            Ok(SqlValue::Boolean(b))
        } else {
            Err(SpringError::ForeignIo)
        },
        Some(JsonValue::Number(n)) => if column.sql_type == SqlType::Integer {
            Ok(SqlValue::Integer(n))
        } else {
            Err(SpringError::ForeignIo)
        },
        Some(JsonValue::Text(s)) => if column.sql_type == SqlType::Text {
            Ok(SqlValue::Text(s))
        } else if column.sql_type == SqlType::Timestamp {
            match rfc3339_nanos(s@) {
                Some(t) => Ok(SqlValue::Timestamp(t)),
                None => Err(SpringError::ForeignIo),
            }
        } else {
            Err(SpringError::ForeignIo)
        },
        Some(JsonValue::Other) => Err(SpringError::ForeignIo),
    }
}

/// The cell that the object provides for a column: that of the first field
/// named like the column.
pub open spec fn cell_for(fields: Seq<JsonField>, column: ColumnDefinition) -> Result<SqlValue, SpringError> {
    cell_of(column, json_lookup(fields, column.name@))
}

/// An input row from a foreign system, to be turned into a row at the
/// boundary of the engine.
#[derive(Debug)]
pub struct ForeignInputRow(pub JsonObject);

impl ForeignInputRow {
    /// The fields of the object.
    pub open spec fn fields(self) -> Seq<JsonField> {
        self.0.fields@
    }

    /// Wraps a JSON object.
    pub fn from_json(json: JsonObject) -> (res: ForeignInputRow)
        ensures
            res.0 == json,
    {
        ForeignInputRow(json)
    }

    /// The position of the first field with the key `key`.
    fn find(&self, key: &str) -> (res: Option<usize>)
        ensures
            res matches Some(i) ==> first_keyed(self.fields(), key@, i as int) && json_lookup(self.fields(), key@)
                == Some(self.fields()[i as int].value),
            res is None ==> json_lookup(self.fields(), key@) is None,
    {
        let mut i: usize = 0;
        while i < self.0.fields.len()
            invariant
                i <= self.0.fields.len(),
                forall|k: int| 0 <= k < i ==> (#[trigger] self.fields()[k]).key@ != key@,
            decreases self.0.fields.len() - i,
        {
            if same_text(self.0.fields[i].key.as_str(), key) {
                proof {
                    let fields = self.fields();
                    assert(first_keyed(fields, key@, i as int));
                    let c = choose|c: int| first_keyed(fields, key@, c);
                    assert(first_keyed(fields, key@, c));
                    if c < i {
                        assert(fields[c].key@ != key@);
                    } else if i < c {
                        assert(fields[i as int].key@ != key@);
                    }
                }
                return Some(i);
            }
            i = i + 1;
        }
        proof {
            assert forall|c: int| !first_keyed(self.fields(), key@, c) by {
                if 0 <= c < self.fields().len() {
                    assert(self.fields()[c].key@ != key@);
                }
            }
        }
        None
    }

    /// The cell that the object provides for a column.
    fn cell(&self, column: &ColumnDefinition) -> (res: Result<SqlValue, SpringError>)
        ensures
            res == cell_for(self.fields(), *column),
    {
        let value: Option<&JsonValue> = match self.find(column.name.as_str()) {
            Some(i) => Some(&self.0.fields[i].value),
            None => None,
        };
        match value {
            None | Some(JsonValue::Null) => {
                if column.nullable {
                    Ok(SqlValue::Null)
                } else {
                    Err(SpringError::ForeignIo)
                }
            },
            Some(JsonValue::Bool(b)) => {
                if column.sql_type == SqlType::Boolean {
                    Ok(SqlValue::Boolean(*b))
                } else {
                    Err(SpringError::ForeignIo)
                }
            },
            Some(JsonValue::Number(n)) => {
                if column.sql_type == SqlType::Integer {
                    Ok(SqlValue::Integer(*n))
                } else {
                    Err(SpringError::ForeignIo)
                }
            },
            Some(JsonValue::Text(s)) => {
                if column.sql_type == SqlType::Text {
                    Ok(SqlValue::Text(s.clone()))
                } else if column.sql_type == SqlType::Timestamp {
                    match parse_rfc3339(s.as_str()) {
                        Some(t) => Ok(SqlValue::Timestamp(t)),
                        None => Err(SpringError::ForeignIo),
                    }
                } else {
                    Err(SpringError::ForeignIo)
                }
            },
            Some(JsonValue::Other) => Err(SpringError::ForeignIo),
        }
    }

    /// Turns the object into a row of `stream`: one cell per column, from
    /// the field named like the column; fields that name no column are
    /// ignored. Fails with `ForeignIo` exactly when some column gets no
    /// cell.
    pub fn _into_row(&self, stream: Arc<StreamModel>, arrival: i64) -> (res: Result<Row, SpringError>)
        requires
            stream.wf(),
        ensures
            res is Ok <==> forall|i: int|
                0 <= i < stream.shape.columns@.len() ==> cell_for(
                    self.fields(),
                    #[trigger] stream.shape.columns@[i],
                ) is Ok,
            res matches Err(e) ==> e == SpringError::ForeignIo,
            res matches Ok(row) ==> row.wf() && row.stream == stream && row.values@.len()
                == stream.shape.columns@.len() && row.event_time == event_time_of(
                stream.shape,
                row.values@,
                arrival,
            ) && forall|i: int|
                0 <= i < stream.shape.columns@.len() ==> Ok::<SqlValue, SpringError>(#[trigger] row.values@[i])
                    == cell_for(self.fields(), stream.shape.columns@[i]),
    {
        let mut values: Vec<SqlValue> = Vec::new();
        let mut i: usize = 0;
        while i < stream.shape.columns.len()
            invariant
                i <= stream.shape.columns.len(),
                values@.len() == i,
                forall|k: int|
                    0 <= k < i ==> Ok::<SqlValue, SpringError>(#[trigger] values@[k]) == cell_for(
                        self.fields(),
                        stream.shape.columns@[k],
                    ),
            decreases stream.shape.columns.len() - i,
        {
            match self.cell(&stream.shape.columns[i]) {
                Err(_) => {
                    proof {
                        assert(cell_for(self.fields(), stream.shape.columns@[i as int]) is Err);
                    }
                    return Err(SpringError::ForeignIo);
                },
                Ok(value) => {
                    values.push(value);
                },
            }
            i = i + 1;
        }
        proof {
            assert forall|k: int| 0 <= k < stream.shape.columns@.len() implies (#[trigger] values@[k]).conforms(
                stream.shape.columns@[k].sql_type,
                stream.shape.columns@[k].nullable,
            ) by {
                assert(Ok::<SqlValue, SpringError>(values@[k]) == cell_for(
                    self.fields(),
                    stream.shape.columns@[k],
                ));
            }
            assert forall|k: int| 0 <= k < stream.shape.columns@.len() implies cell_for(
                self.fields(),
                #[trigger] stream.shape.columns@[k],
            ) is Ok by {
                assert(Ok::<SqlValue, SpringError>(values@[k]) == cell_for(
                    self.fields(),
                    stream.shape.columns@[k],
                ));
            }
        }
        match Row::new(stream, values, arrival) {
            Ok(row) => Ok(row),
            Err(_) => Err(SpringError::ForeignIo),
        }
    }
}

} // verus!
