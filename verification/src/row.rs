//! Rows bound to a stream shape, and the tuples that a query plan works on.

use std::sync::Arc;
use vstd::prelude::*;
use crate::error::SpringError;
use crate::name::ColumnName;
use crate::sql_value::SqlValue;
use crate::stream_model::ColumnDefinition;
use crate::stream_model::StreamModel;
use crate::stream_model::StreamShape;

verus! {

/// Another handle on a shared value. Wraps `Arc::clone`, which the standard
/// library documents to return a pointer to the same allocation: the value
/// behind the new handle is the value behind the old one.
#[verifier::external_body]
pub(crate) fn share<T>(shared: &Arc<T>) -> (res: Arc<T>)
    ensures
        res == *shared,
{
    Arc::clone(shared)
}

/// A value under a label.
#[derive(Debug)]
pub struct Field {
    pub label: ColumnName,
    pub value: SqlValue,
}

/// Whether no two names of the list are equal.
pub open spec fn distinct_names(names: Seq<ColumnName>) -> bool {
    forall|i: int, j: int| 0 <= i < j < names.len() ==> (#[trigger] names[i])@ != (#[trigger] names[j])@
}

/// Whether no two fields share a label.
pub open spec fn distinct_labels(fields: Seq<Field>) -> bool {
    forall|i: int, j: int|
        0 <= i < j < fields.len() ==> (#[trigger] fields[i]).label@ != (#[trigger] fields[j]).label@
}

/// Whether some field carries the label `label`.
pub open spec fn has_label(fields: Seq<Field>, label: Seq<char>) -> bool {
    exists|i: int| 0 <= i < fields.len() && (#[trigger] fields[i]).label@ == label
}

/// Whether `i` is the first position whose field carries `label`.
pub open spec fn first_labelled(fields: Seq<Field>, label: Seq<char>, i: int) -> bool {
    &&& 0 <= i < fields.len()
    &&& fields[i].label@ == label
    &&& forall|k: int| 0 <= k < i ==> (#[trigger] fields[k]).label@ != label
}

/// The first position whose field carries `label`.
pub fn find_label(fields: &Vec<Field>, label: &ColumnName) -> (res: Option<usize>)
    ensures
        res matches Some(i) ==> first_labelled(fields@, label@, i as int),
        res is None ==> !has_label(fields@, label@),
{
    let mut i: usize = 0;
    while i < fields.len()
        invariant
            i <= fields.len(),
            forall|k: int| 0 <= k < i ==> (#[trigger] fields@[k]).label@ != label@,
        decreases fields.len() - i,
    {
        if fields[i].label.same(label) {
            return Some(i);
        }
        i = i + 1;
    }
    None
}

/// Whether no two names of the list are equal.
pub fn names_distinct(names: &Vec<ColumnName>) -> (res: bool)
    ensures
        res == distinct_names(names@),
{
    let mut j: usize = 0;
    while j < names.len()
        invariant
            j <= names.len(),
            forall|a: int, b: int| 0 <= a < b < j ==> (#[trigger] names@[a])@ != (#[trigger] names@[b])@,
        decreases names.len() - j,
    {
        let mut i: usize = 0;
        while i < j
            invariant
                i <= j,
                j < names.len(),
                forall|a: int| 0 <= a < i ==> (#[trigger] names@[a])@ != names@[j as int]@,
            decreases j - i,
        {
            if names[i].same(&names[j]) {
                return false;
            }
            i = i + 1;
        }
        j = j + 1;
    }
    true
}

/// Values keyed by column name. No name occurs twice.
#[derive(Debug)]
pub struct ColumnValues {
    pub entries: Vec<Field>,
}

impl ColumnValues {
    /// No name occurs twice.
    pub open spec fn wf(self) -> bool {
        distinct_labels(self.entries@)
    }

    /// An empty map.
    pub fn new() -> (res: ColumnValues)
        ensures
            res.wf(),
            res.entries@ == Seq::<Field>::empty(),
    {
        ColumnValues { entries: Vec::new() }
    }

    /// Adds a value under `name`. Fails with `Sql`, changing nothing, exactly
    /// when the name is already present.
    pub fn insert(&mut self, name: ColumnName, value: SqlValue) -> (res: Result<(), SpringError>)
        requires
            old(self).wf(),
        ensures
            final(self).wf(),
            res is Ok <==> !has_label(old(self).entries@, name@),
            res is Ok ==> final(self).entries@ == old(self).entries@.push(Field { label: name, value }),
            res matches Err(e) ==> e == SpringError::Sql && *final(self) == *old(self),
    {
        match find_label(&self.entries, &name) {
            Some(_) => Err(SpringError::Sql),
            None => {
                self.entries.push(Field { label: name, value });
                Ok(())
            },
        }
    }

    /// The value under `name`.
    pub fn get(&self, name: &ColumnName) -> (res: Option<&SqlValue>)
        ensures
            res matches Some(v) ==> exists|i: int|
                first_labelled(self.entries@, name@, i) && *v == self.entries@[i].value,
            res is None <==> !has_label(self.entries@, name@),
    {
        match find_label(&self.entries, name) {
            Some(i) => Some(&self.entries[i].value),
            None => None,
        }
    }
}

/// Whether the values fit the columns, position by position: as many values
/// as columns, each of its column's type, NULL only where the column admits it.
pub open spec fn conforms_to_shape(values: Seq<SqlValue>, columns: Seq<ColumnDefinition>) -> bool {
    &&& values.len() == columns.len()
    &&& forall|i: int|
        0 <= i < columns.len() ==> (#[trigger] values[i]).conforms(
            columns[i].sql_type,
            columns[i].nullable,
        )
}

/// The event time of a row: the value of the ROWTIME column where the shape
/// designates one, the arrival time otherwise.
pub open spec fn event_time_of(shape: StreamShape, values: Seq<SqlValue>, arrival: i64) -> i64 {
    match shape.rowtime {
        Some(r) => match values[r as int] {
            SqlValue::Timestamp(t) => t,
            _ => arrival,
        },
        None => arrival,
    }
}

/// Whether the entries fill the columns: one entry per column, each column
/// named by an entry whose value fits it.
pub open spec fn fills_shape(entries: Seq<Field>, columns: Seq<ColumnDefinition>) -> bool {
    &&& entries.len() == columns.len()
    &&& forall|i: int|
        0 <= i < columns.len() ==> exists|j: int|
            0 <= j < entries.len() && (#[trigger] entries[j]).label@ == (#[trigger] columns[i]).name@
                && entries[j].value.conforms(columns[i].sql_type, columns[i].nullable)
}

/// One record of a stream: a value for every column of the stream's shape,
/// and the event time.
#[derive(Debug)]
pub struct Row {
    pub stream: Arc<StreamModel>,
    pub values: Vec<SqlValue>,
    pub event_time: i64,
}

impl Row {
    /// The row is complete and type-conformant, and its event time is that of
    /// its ROWTIME column where the shape designates one.
    pub open spec fn wf(self) -> bool {
        &&& self.stream.wf()
        &&& conforms_to_shape(self.values@, self.stream.shape.columns@)
        &&& self.event_time == event_time_of(self.stream.shape, self.values@, self.event_time)
    }

    /// Binds values, given in the order of the shape's columns, to a stream.
    /// Fails with `Sql` exactly when they do not fit the shape.
    pub fn new(stream: Arc<StreamModel>, values: Vec<SqlValue>, arrival: i64) -> (res: Result<
        Row,
        SpringError,
    >)
        requires
            stream.wf(),
        ensures
            res is Ok <==> conforms_to_shape(values@, stream.shape.columns@),
            res matches Ok(row) ==> row.wf() && row.stream == stream && row.values == values
                && row.event_time == event_time_of(stream.shape, values@, arrival),
            res matches Err(e) ==> e == SpringError::Sql,
    {
        if values.len() != stream.shape.columns.len() {
            return Err(SpringError::Sql);
        }
        let mut i: usize = 0;
        while i < values.len()
            invariant
                i <= values.len(),
                values.len() == stream.shape.columns.len(),
                forall|k: int|
                    0 <= k < i ==> (#[trigger] values@[k]).conforms(
                        stream.shape.columns@[k].sql_type,
                        stream.shape.columns@[k].nullable,
                    ),
            decreases values.len() - i,
        {
            let column = &stream.shape.columns[i];
            if !values[i].conforms_to(column.sql_type, column.nullable) {
                return Err(SpringError::Sql);
            }
            i = i + 1;
        }
        let event_time = match stream.shape.rowtime {
            Some(r) => match &values[r] {
                SqlValue::Timestamp(t) => *t,
                _ => arrival,
            },
            None => arrival,
        };
        Ok(Row { stream, values, event_time })
    }

    /// Binds values keyed by column name to a stream, in the order of the
    /// shape's columns. Fails with `Sql` exactly when the entries do not fill
    /// the shape.
    pub fn from_column_values(stream: Arc<StreamModel>, column_values: ColumnValues, arrival: i64) -> (res:
        Result<Row, SpringError>)
        requires
            stream.wf(),
            column_values.wf(),
        ensures
            res is Ok <==> fills_shape(column_values.entries@, stream.shape.columns@),
            res matches Ok(row) ==> row.wf() && row.stream == stream && row.event_time == event_time_of(
                stream.shape,
                row.values@,
                arrival,
            ) && forall|i: int|
                0 <= i < stream.shape.columns@.len() ==> exists|j: int|
                    0 <= j < column_values.entries@.len() && (#[trigger] column_values.entries@[j]).label@
                        == stream.shape.columns@[i].name@ && (#[trigger] row.values@[i])
                        == column_values.entries@[j].value,
            res matches Err(e) ==> e == SpringError::Sql,
    {
        let n = stream.shape.columns.len();
        if column_values.entries.len() != n {
            return Err(SpringError::Sql);
        }
        let mut values: Vec<SqlValue> = Vec::new();
        let mut i: usize = 0;
        while i < n
            invariant
                i <= n,
                n == stream.shape.columns@.len(),
                column_values.entries@.len() == n,
                column_values.wf(),
                values@.len() == i,
                forall|k: int|
                    0 <= k < i ==> exists|j: int|
                        0 <= j < column_values.entries@.len() && (#[trigger] column_values.entries@[j]).label@
                            == stream.shape.columns@[k].name@ && (#[trigger] values@[k])
                            == column_values.entries@[j].value && values@[k].conforms(
                            stream.shape.columns@[k].sql_type,
                            stream.shape.columns@[k].nullable,
                        ),
            decreases n - i,
        {
            let column = &stream.shape.columns[i];
            match find_label(&column_values.entries, &column.name) {
                None => {
                    return Err(SpringError::Sql);
                },
                Some(j) => {
                    let value = &column_values.entries[j].value;
                    if !value.conforms_to(column.sql_type, column.nullable) {
                        proof {
                            lemma_unique_label(column_values.entries@, j as int);
                        }
                        return Err(SpringError::Sql);
                    }
                    values.push(value.duplicate());
                },
            }
            i = i + 1;
        }
        proof {
            assert forall|k: int| 0 <= k < n implies (#[trigger] values@[k]).conforms(
                stream.shape.columns@[k].sql_type,
                stream.shape.columns@[k].nullable,
            ) by {
                let j = choose|j: int|
                    0 <= j < column_values.entries@.len() && (#[trigger] column_values.entries@[j]).label@
                        == stream.shape.columns@[k].name@ && (#[trigger] values@[k])
                        == column_values.entries@[j].value && values@[k].conforms(
                        stream.shape.columns@[k].sql_type,
                        stream.shape.columns@[k].nullable,
                    );
            }
            assert forall|k: int| 0 <= k < n implies exists|j: int|
                0 <= j < column_values.entries@.len() && (#[trigger] column_values.entries@[j]).label@ == (
                #[trigger] stream.shape.columns@[k]).name@ && column_values.entries@[j].value.conforms(
                    stream.shape.columns@[k].sql_type,
                    stream.shape.columns@[k].nullable,
                ) by {
                let j = choose|j: int|
                    0 <= j < column_values.entries@.len() && (#[trigger] column_values.entries@[j]).label@
                        == stream.shape.columns@[k].name@ && (#[trigger] values@[k])
                        == column_values.entries@[j].value && values@[k].conforms(
                        stream.shape.columns@[k].sql_type,
                        stream.shape.columns@[k].nullable,
                    );
                assert(column_values.entries@[j].label@ == stream.shape.columns@[k].name@);
            }
        }
        Row::new(stream, values, arrival)
    }

    /// The value in the column named `name`.
    pub fn get(&self, name: &ColumnName) -> (res: Option<&SqlValue>)
        requires
            self.wf(),
        ensures
            res matches Some(v) ==> exists|i: int|
                0 <= i < self.values@.len() && self.stream.shape.columns@[i].name@ == name@ && *v
                    == self.values@[i],
            res is None <==> !crate::stream_model::has_column(self.stream.shape.columns@, name@),
    {
        match self.stream.shape.position(name) {
            Some(i) => Some(&self.values[i]),
            None => None,
        }
    }
}

/// Where labels are distinct, the field at `j` is the only one with its label.
pub proof fn lemma_unique_label(fields: Seq<Field>, j: int)
    requires
        distinct_labels(fields),
        0 <= j < fields.len(),
    ensures
        forall|k: int| 0 <= k < fields.len() && (#[trigger] fields[k]).label@ == fields[j].label@ ==> k == j,
{
    assert forall|k: int| 0 <= k < fields.len() && (#[trigger] fields[k]).label@ == fields[j].label@ implies k
        == j by {
        if k < j {
            assert(fields[k].label@ != fields[j].label@);
        } else if j < k {
            assert(fields[j].label@ != fields[k].label@);
        }
    }
}

} // verus!
