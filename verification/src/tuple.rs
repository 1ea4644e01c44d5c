//! Intermediate values of query-plan evaluation.

use vstd::prelude::*;
use crate::error::SpringError;
use crate::name::ColumnName;
use crate::row::find_label;
use crate::row::first_labelled;
use crate::row::has_label;
use crate::row::Field;
use crate::row::Row;
use crate::sql_value::SqlValue;
use crate::stream_model::ColumnDefinition;

verus! {

/// The value under `label`: that of the first field so labelled, if any.
pub open spec fn lookup(fields: Seq<Field>, label: Seq<char>) -> Option<SqlValue> {
    if has_label(fields, label) {
        Some(fields[choose|i: int| first_labelled(fields, label, i)].value)
    } else {
        None
    }
}

/// The first field so labelled is what `lookup` finds.
pub proof fn lemma_lookup_first(fields: Seq<Field>, label: Seq<char>, i: int)
    requires
        first_labelled(fields, label, i),
    ensures
        lookup(fields, label) == Some(fields[i].value),
{
    assert(has_label(fields, label));
    let c = choose|c: int| first_labelled(fields, label, c);
    assert(first_labelled(fields, label, c));
    if c < i {
        assert(fields[c].label@ != label);
    } else if i < c {
        assert(fields[i].label@ != label);
    }
}

/// The fields that stand for a row: one per column, labelled by the
/// column's name, in the order of the shape.
pub open spec fn fields_of(columns: Seq<ColumnDefinition>, values: Seq<SqlValue>) -> Seq<Field> {
    Seq::new(values.len(), |i: int| Field { label: columns[i].name, value: values[i] })
}

/// The values of the fields, in order.
pub open spec fn values_of(fields: Seq<Field>) -> Seq<SqlValue> {
    fields.map_values(|f: Field| f.value)
}

/// A flat ordered list of labelled values, not yet committed to a stream
/// shape, with the event time it inherits from the row it came from.
#[derive(Debug)]
pub struct Tuple {
    pub rowtime: i64,
    pub fields: Vec<Field>,
}

/// What a tuple holds, as a mathematical value.
pub struct TupleView {
    pub rowtime: i64,
    pub fields: Seq<Field>,
}

impl View for Tuple {
    type V = TupleView;

    open spec fn view(&self) -> TupleView {
        TupleView { rowtime: self.rowtime, fields: self.fields@ }
    }
}

/// The views of a sequence of tuples, in order.
pub open spec fn tuple_views(tuples: Seq<Tuple>) -> Seq<TupleView> {
    tuples.map_values(|t: Tuple| t@)
}

impl Tuple {
    /// A tuple of the given fields.
    pub fn new(rowtime: i64, fields: Vec<Field>) -> (res: Tuple)
        ensures
            res.rowtime == rowtime,
            res.fields == fields,
    {
        Tuple { rowtime, fields }
    }

    /// The tuple that stands for a row: its values labelled by column name,
    /// its event time.
    pub fn from_row(row: &Row) -> (res: Tuple)
        requires
            row.wf(),
        ensures
            res.rowtime == row.event_time,
            res.fields@ == fields_of(row.stream.shape.columns@, row.values@),
    {
        let mut fields: Vec<Field> = Vec::new();
        let mut i: usize = 0;
        while i < row.values.len()
            invariant
                i <= row.values.len(),
                row.values@.len() == row.stream.shape.columns@.len(),
                fields@ == fields_of(row.stream.shape.columns@, row.values@).take(i as int),
            decreases row.values.len() - i,
        {
            let label = row.stream.shape.columns[i].name.duplicate();
            let value = row.values[i].duplicate();
            fields.push(Field { label, value });
            proof {
                let all = fields_of(row.stream.shape.columns@, row.values@);
                assert(all.take(i + 1) =~= all.take(i as int).push(all[i as int]));
            }
            i = i + 1;
        }
        proof {
            let all = fields_of(row.stream.shape.columns@, row.values@);
            assert(all.take(all.len() as int) =~= all);
        }
        Tuple { rowtime: row.event_time, fields }
    }

    /// A copy of the value under `label`. Fails with `Sql` exactly when no
    /// field carries the label.
    pub fn get_value(&self, label: &ColumnName) -> (res: Result<SqlValue, SpringError>)
        ensures
            res == match lookup(self.fields@, label@) {
                Some(v) => Ok::<SqlValue, SpringError>(v),
                None => Err(SpringError::Sql),
            },
    {
        match find_label(&self.fields, label) {
            Some(i) => {
                proof {
                    lemma_lookup_first(self.fields@, label@, i as int);
                }
                Ok(self.fields[i].value.duplicate())
            },
            None => Err(SpringError::Sql),
        }
    }

    /// The values of the tuple, in order, without their labels.
    pub fn to_values(&self) -> (res: Vec<SqlValue>)
        ensures
            res@ == values_of(self.fields@),
    {
        let mut values: Vec<SqlValue> = Vec::new();
        let mut i: usize = 0;
        while i < self.fields.len()
            invariant
                i <= self.fields.len(),
                values@ == values_of(self.fields@).take(i as int),
            decreases self.fields.len() - i,
        {
            values.push(self.fields[i].value.duplicate());
            proof {
                let all = values_of(self.fields@);
                assert(all.take(i + 1) =~= all.take(i as int).push(all[i as int]));
            }
            i = i + 1;
        }
        proof {
            let all = values_of(self.fields@);
            assert(all.take(all.len() as int) =~= all);
        }
        values
    }
}

} // verus!
