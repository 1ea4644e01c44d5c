//! The executable form of a query plan: a tree of subtasks that turns one
//! input row into output values, one scheduling quantum at a time.

use std::sync::Arc;
use petgraph::graph::DiGraph;
use petgraph::graph::NodeIndex;
use petgraph::visit::EdgeRef;
use petgraph::Direction;
use vstd::prelude::*;
use crate::error::SpringError;
use crate::name::ColumnName;
use crate::query_plan::chain_edges;
use crate::query_plan::plan_edges;
use crate::query_plan::plan_nodes;
use crate::query_plan::ChildDirection;
use crate::query_plan::CollectOp;
use crate::query_plan::EvalValueExprOp;
use crate::query_plan::GroupAggregateWindowOp;
use crate::query_plan::LabelledExpr;
use crate::query_plan::ProjectionOp;
use crate::query_plan::QueryPlan;
use crate::query_plan::QueryPlanOperation;
use crate::query_plan::TreeEdge;
use crate::row::distinct_names;
use crate::row::has_label;
use crate::row::names_distinct;
use crate::row::share;
use crate::row::ColumnValues;
use crate::row::Field;
use crate::row::Row;
use crate::row_repository::RowRepository;
use crate::sql_value::byte_size;
use crate::sql_value::total_bytes;
use crate::sql_value::SqlValue;
use crate::stream_model::ColumnDefinition;
use crate::stream_model::StreamModel;
use crate::tuple::fields_of;
use crate::tuple::lookup;
use crate::tuple::tuple_views;
use crate::tuple::values_of;
use crate::tuple::Tuple;
use crate::tuple::TupleView;
use crate::window::dispatched_to;
use crate::window::outcome_views;
use crate::window::AggrWindow;

verus! {

/// What one run took from the input queue.
#[derive(Clone, Copy, Debug, PartialEq, Eq, Structural)]
pub struct InQueueMetricsUpdateByTaskExecution {
    pub rows_consumed: u64,
    pub bytes_consumed: u64,
}

/// The tuple that projecting `t` onto `labels` gives: the fields so
/// labelled, in the order of the labels. Fails with `Sql` where a label is
/// absent.
pub open spec fn projected(labels: Seq<ColumnName>, t: TupleView) -> Result<TupleView, SpringError> {
    if forall|i: int| 0 <= i < labels.len() ==> has_label(t.fields, (#[trigger] labels[i])@) {
        Ok(
            TupleView {
                rowtime: t.rowtime,
                fields: Seq::new(
                    labels.len(),
                    |i: int| Field { label: labels[i], value: lookup(t.fields, labels[i]@)->Some_0 },
                ),
            },
        )
    } else {
        Err(SpringError::Sql)
    }
}

/// One field per expression: its label and its value over `fields`.
pub open spec fn evaluated_fields(exprs: Seq<LabelledExpr>, fields: Seq<Field>) -> Seq<Field> {
    Seq::new(exprs.len(), |i: int| Field { label: exprs[i].label, value: exprs[i].expr.value(fields)->Ok_0 })
}

/// The tuple that evaluating `exprs` over `t` gives: the fields of `t`,
/// then one field per expression with its value. Fails with `Sql` where an
/// expression fails.
pub open spec fn evaluated(exprs: Seq<LabelledExpr>, t: TupleView) -> Result<TupleView, SpringError> {
    if forall|i: int| 0 <= i < exprs.len() ==> (#[trigger] exprs[i]).expr.value(t.fields) is Ok {
        Ok(TupleView { rowtime: t.rowtime, fields: t.fields + evaluated_fields(exprs, t.fields) })
    } else {
        Err(SpringError::Sql)
    }
}

/// Whether `res` is the tuple or the failure that `want` stands for.
pub open spec fn tuple_is(res: Result<Tuple, SpringError>, want: Result<TupleView, SpringError>) -> bool {
    match want {
        Ok(v) => res matches Ok(t) && t@ == v,
        Err(e) => res matches Err(e2) && e2 == e,
    }
}

/// Reads the next row of the input queue.
#[derive(Debug)]
pub struct CollectSubtask {
    pub op: Arc<CollectOp>,
}

/// Selects fields by label.
#[derive(Debug)]
pub struct ProjectionSubtask {
    pub op: Arc<ProjectionOp>,
}

/// Evaluates expressions and appends their values.
#[derive(Debug)]
pub struct EvalValueExprSubtask {
    pub op: Arc<EvalValueExprOp>,
}

/// Aggregates groups over the panes of a window.
#[derive(Debug)]
pub struct GroupAggregateWindowSubtask {
    pub op: Arc<GroupAggregateWindowOp>,
}

/// A row taken from the input queue, as a tuple, and what taking it meant
/// for the queue.
#[derive(Debug)]
pub struct CollectOut {
    pub tuple: Tuple,
    pub in_queue_metrics_update: InQueueMetricsUpdateByTaskExecution,
}

/// The tuple that stands for a row.
pub open spec fn tuple_of(row: Row) -> TupleView {
    TupleView { rowtime: row.event_time, fields: fields_of(row.stream.shape.columns@, row.values@) }
}

/// What taking a row from the queue means for the queue: one row, and its
/// size in bytes, at most `u64::MAX`.
pub open spec fn metrics_of(row: Row) -> InQueueMetricsUpdateByTaskExecution {
    InQueueMetricsUpdateByTaskExecution {
        rows_consumed: 1,
        bytes_consumed: if total_bytes(row.values@) <= u64::MAX {
            total_bytes(row.values@) as u64
        } else {
            u64::MAX
        },
    }
}

/// The row at the head of the queue of `queue`, if it has one.
pub open spec fn head_of(repo: Map<Seq<char>, Seq<Arc<Row>>>, queue: Seq<char>) -> Option<Row> {
    if repo.dom().contains(queue) && repo[queue].len() > 0 {
        Some(*repo[queue][0])
    } else {
        None
    }
}

impl CollectSubtask {
    /// Takes the oldest row from the queue of `queue`. Gives `None`,
    /// changing nothing, when there is no such queue or it is empty.
    pub fn run(&self, queue: &str, repo: &mut RowRepository) -> (res: Option<CollectOut>)
        requires
            old(repo).wf(),
        ensures
            final(repo).wf(),
            match head_of(old(repo)@, queue@) {
                None => res is None && *final(repo) == *old(repo),
                Some(row) => res matches Some(out) && out.tuple@ == tuple_of(row)
                    && out.in_queue_metrics_update == metrics_of(row) && final(repo)@ == old(repo)@.insert(
                    queue@,
                    old(repo)@[queue@].drop_first(),
                ),
            },
    {
        match repo.pop(queue) {
            Ok(Some(row)) => {
                let tuple = Tuple::from_row(&row);
                let bytes = byte_size(&row.values);
                Some(
                    CollectOut {
                        tuple,
                        in_queue_metrics_update: InQueueMetricsUpdateByTaskExecution {
                            rows_consumed: 1,
                            bytes_consumed: bytes,
                        },
                    },
                )
            },
            _ => None,
        }
    }
}

impl ProjectionSubtask {
    /// Projects a tuple onto the labels of the operation.
    pub fn run(&self, tuple: &Tuple) -> (res: Result<Tuple, SpringError>)
        ensures
            tuple_is(res, projected(self.op.value_expr_labels@, tuple@)),
    {
        let labels = &self.op.value_expr_labels;
        let mut fields: Vec<Field> = Vec::new();
        let mut i: usize = 0;
        while i < labels.len()
            invariant
                *labels == self.op.value_expr_labels,
                i <= labels.len(),
                fields@.len() == i,
                forall|k: int| 0 <= k < i ==> has_label(tuple.fields@, (#[trigger] labels@[k])@),
                forall|k: int|
                    0 <= k < i ==> (#[trigger] fields@[k]) == (Field {
                        label: labels@[k],
                        value: lookup(tuple.fields@, labels@[k]@)->Some_0,
                    }),
            decreases labels.len() - i,
        {
            match tuple.get_value(&labels[i]) {
                Err(_) => {
                    proof {
                        assert(!has_label(tuple.fields@, labels@[i as int]@));
                    }
                    return Err(SpringError::Sql);
                },
                Ok(value) => {
                    fields.push(Field { label: labels[i].duplicate(), value });
                },
            }
            i = i + 1;
        }
        let out = Tuple { rowtime: tuple.rowtime, fields };
        proof {
            assert(out@.fields =~= projected(labels@, tuple@)->Ok_0.fields);
        }
        Ok(out)
    }
}

impl EvalValueExprSubtask {
    /// Evaluates the expressions of the operation over a tuple and appends
    /// their values.
    pub fn run(&self, tuple: &Tuple) -> (res: Result<Tuple, SpringError>)
        ensures
            tuple_is(res, evaluated(self.op.expressions@, tuple@)),
    {
        let exprs = &self.op.expressions;
        let mut fields: Vec<Field> = Vec::new();
        let mut k: usize = 0;
        while k < tuple.fields.len()
            invariant
                k <= tuple.fields.len(),
                fields@ == tuple.fields@.take(k as int),
            decreases tuple.fields.len() - k,
        {
            let field = &tuple.fields[k];
            fields.push(Field { label: field.label.duplicate(), value: field.value.duplicate() });
            proof {
                assert(tuple.fields@.take(k + 1) =~= tuple.fields@.take(k as int).push(tuple.fields@[k as int]));
            }
            k = k + 1;
        }
        proof {
            assert(tuple.fields@.take(tuple.fields@.len() as int) =~= tuple.fields@);
        }
        let ghost added = evaluated_fields(exprs@, tuple.fields@);
        let mut i: usize = 0;
        proof {
            assert(fields@ =~= tuple.fields@ + added.take(0));
        }
        while i < exprs.len()
            invariant
                *exprs == self.op.expressions,
                i <= exprs.len(),
                added == evaluated_fields(exprs@, tuple.fields@),
                fields@ == tuple.fields@ + added.take(i as int),
                forall|k: int| 0 <= k < i ==> (#[trigger] exprs@[k]).expr.value(tuple.fields@) is Ok,
            decreases exprs.len() - i,
        {
            match exprs[i].expr.eval(tuple) {
                Err(_) => {
                    proof {
                        assert(exprs@[i as int].expr.value(tuple.fields@) is Err);
                    }
                    return Err(SpringError::Sql);
                },
                Ok(value) => {
                    fields.push(Field { label: exprs[i].label.duplicate(), value });
                    proof {
                        assert(fields@ =~= tuple.fields@ + added.take(i + 1));
                    }
                },
            }
            i = i + 1;
        }
        let out = Tuple { rowtime: tuple.rowtime, fields };
        proof {
            assert(added.take(added.len() as int) =~= added);
        }
        Ok(out)
    }
}

/// One node of the subtask tree.
#[derive(Debug)]
pub enum QuerySubtaskNode {
    Collect(CollectSubtask),
    EvalValueExpr(EvalValueExprSubtask),
    Projection(ProjectionSubtask),
    GroupAggregateWindow(GroupAggregateWindowSubtask),
}

impl QuerySubtaskNode {
    /// The subtask that carries out an operation.
    pub open spec fn of(op: QueryPlanOperation) -> QuerySubtaskNode {
        match op {
            QueryPlanOperation::Collect(op) => QuerySubtaskNode::Collect(CollectSubtask { op }),
            QueryPlanOperation::EvalValueExpr(op) => QuerySubtaskNode::EvalValueExpr(
                EvalValueExprSubtask { op },
            ),
            QueryPlanOperation::Projection(op) => QuerySubtaskNode::Projection(ProjectionSubtask { op }),
            QueryPlanOperation::GroupAggregateWindow(op) => QuerySubtaskNode::GroupAggregateWindow(
                GroupAggregateWindowSubtask { op },
            ),
        }
    }

    /// The subtask that carries out an operation; it shares the operation
    /// with the plan.
    pub fn from_operation(op: &QueryPlanOperation) -> (res: QuerySubtaskNode)
        ensures
            res == Self::of(*op),
    {
        match op {
            QueryPlanOperation::Collect(op) => QuerySubtaskNode::Collect(CollectSubtask { op: share(op) }),
            QueryPlanOperation::EvalValueExpr(op) => QuerySubtaskNode::EvalValueExpr(
                EvalValueExprSubtask { op: share(op) },
            ),
            QueryPlanOperation::Projection(op) => QuerySubtaskNode::Projection(
                ProjectionSubtask { op: share(op) },
            ),
            QueryPlanOperation::GroupAggregateWindow(op) => QuerySubtaskNode::GroupAggregateWindow(
                GroupAggregateWindowSubtask { op: share(op) },
            ),
        }
    }

    /// What a node without state makes of a tuple; a collect or a window
    /// leaves it as it is.
    pub open spec fn unary(self, t: TupleView) -> Result<TupleView, SpringError> {
        match self {
            QuerySubtaskNode::Projection(p) => projected(p.op.value_expr_labels@, t),
            QuerySubtaskNode::EvalValueExpr(e) => evaluated(e.op.expressions@, t),
            _ => Ok(t),
        }
    }
}

/// The node weights of a subtask tree, by node index.
pub uninterp spec fn subtask_nodes(tree: DiGraph<QuerySubtaskNode, ChildDirection>) -> Seq<QuerySubtaskNode>;

/// The edges of a subtask tree, by edge index.
pub uninterp spec fn subtask_edges(tree: DiGraph<QuerySubtaskNode, ChildDirection>) -> Seq<TreeEdge>;

/// The subtask tree of a plan tree. Wraps petgraph's `Graph::map`, which
/// builds a graph of the same structure and the same indices whose node
/// weights are the images of the old ones under the first closure and whose
/// edge weights are the images of the old ones under the second.
#[verifier::external_body]
fn compile_tree(plan: &DiGraph<QueryPlanOperation, ChildDirection>) -> (tree: DiGraph<
    QuerySubtaskNode,
    ChildDirection,
>)
    ensures
        subtask_nodes(tree) == plan_nodes(*plan).map_values(|op: QueryPlanOperation| QuerySubtaskNode::of(op)),
        subtask_edges(tree) == plan_edges(*plan),
{
    plan.map(|_, op| QuerySubtaskNode::from_operation(op), |_, direction| *direction)
}

/// The number of nodes. Wraps petgraph's `Graph::node_count`.
#[verifier::external_body]
fn tree_node_count(tree: &DiGraph<QuerySubtaskNode, ChildDirection>) -> (res: usize)
    ensures
        res == subtask_nodes(*tree).len(),
{
    tree.node_count()
}

/// The node at `idx`. Wraps petgraph's `Graph::node_weight`, which gives
/// `None` where the graph has no node of that index.
#[verifier::external_body]
fn tree_node(tree: &DiGraph<QuerySubtaskNode, ChildDirection>, idx: u32) -> (res: Option<&QuerySubtaskNode>)
    ensures
        res == (if idx < subtask_nodes(*tree).len() {
            Some(&subtask_nodes(*tree)[idx as int])
        } else {
            None
        }),
{
    tree.node_weight(NodeIndex::new(idx as usize))
}

/// Whether an edge leaves the node at `idx`. Wraps petgraph's
/// `Graph::edges_directed` with `Outgoing`: the iterator it returns yields
/// the edges whose source is that node, so its first item is missing
/// exactly when no edge has that source.
#[verifier::external_body]
fn tree_has_child(tree: &DiGraph<QuerySubtaskNode, ChildDirection>, idx: u32) -> (res: bool)
    ensures
        res == (exists|e: int|
            0 <= e < subtask_edges(*tree).len() && (#[trigger] subtask_edges(*tree)[e]).parent == idx),
{
    tree.edges_directed(NodeIndex::new(idx as usize), Direction::Outgoing).next().is_some()
}

/// The source of an edge that enters the node at `idx`. Wraps petgraph's
/// `Graph::edges_directed` with `Incoming`: the iterator it returns yields
/// the edges whose target is that node, so its first item is one of them,
/// and is missing exactly when no edge has that target.
#[verifier::external_body]
fn tree_parent(tree: &DiGraph<QuerySubtaskNode, ChildDirection>, idx: u32) -> (res: Option<u32>)
    ensures
        res is None <==> (forall|e: int|
            0 <= e < subtask_edges(*tree).len() ==> (#[trigger] subtask_edges(*tree)[e]).child != idx),
        res matches Some(p) ==> (exists|e: int|
            0 <= e < subtask_edges(*tree).len() && (#[trigger] subtask_edges(*tree)[e]).child == idx
                && subtask_edges(*tree)[e].parent == p),
{
    tree.edges_directed(NodeIndex::new(idx as usize), Direction::Incoming).next().map(
        |edge| edge.source().index() as u32,
    )
}

/// Whether some value, matched to the name at its position in
/// `column_order`, is named like `column` and fits it.
pub open spec fn fits_column(values: Seq<SqlValue>, column_order: Seq<ColumnName>, column: ColumnDefinition) -> bool {
    exists|j: int|
        0 <= j < column_order.len() && (#[trigger] column_order[j])@ == column.name@ && values[j].conforms(
            column.sql_type,
            column.nullable,
        )
}

/// Whether the values, matched to the columns that `column_order` names,
/// fill the columns of a stream: one value per name, no name twice, and
/// every column named by one whose value fits it.
pub open spec fn fills(values: Seq<SqlValue>, column_order: Seq<ColumnName>, columns: Seq<ColumnDefinition>) -> bool {
    &&& values.len() == column_order.len()
    &&& distinct_names(column_order)
    &&& column_order.len() == columns.len()
    &&& forall|i: int| 0 <= i < columns.len() ==> fits_column(values, column_order, #[trigger] columns[i])
}

/// Whether `v` is the value matched to the name `name` in `column_order`.
pub open spec fn placed_under(values: Seq<SqlValue>, column_order: Seq<ColumnName>, name: Seq<char>, v: SqlValue) -> bool {
    exists|j: int| 0 <= j < column_order.len() && (#[trigger] column_order[j])@ == name && values[j] == v
}

/// Whether `out` holds, for each column in turn, the value matched to the
/// column's name in `column_order`.
pub open spec fn placed(
    values: Seq<SqlValue>,
    column_order: Seq<ColumnName>,
    columns: Seq<ColumnDefinition>,
    out: Seq<SqlValue>,
) -> bool {
    &&& out.len() == columns.len()
    &&& forall|i: int|
        0 <= i < columns.len() ==> placed_under(values, column_order, columns[i].name@, #[trigger] out[i])
}

/// The first position at which `name` stands in the list.
pub fn find_name(names: &Vec<ColumnName>, name: &ColumnName) -> (res: Option<usize>)
    ensures
        res matches Some(j) ==> j < names@.len() && names@[j as int]@ == name@ && forall|m: int|
            0 <= m < j ==> (#[trigger] names@[m])@ != name@,
        res is None ==> forall|m: int| 0 <= m < names@.len() ==> (#[trigger] names@[m])@ != name@,
{
    let mut j: usize = 0;
    while j < names.len()
        invariant
            j <= names.len(),
            forall|m: int| 0 <= m < j ==> (#[trigger] names@[m])@ != name@,
        decreases names.len() - j,
    {
        if names[j].same(name) {
            return Some(j);
        }
        j = j + 1;
    }
    None
}

/// The values that a query yields for one output row, in the order of the
/// query's output.
#[derive(Debug)]
pub struct SqlValues(pub Vec<SqlValue>);

impl View for SqlValues {
    type V = Seq<SqlValue>;

    open spec fn view(&self) -> Seq<SqlValue> {
        self.0@
    }
}

impl SqlValues {
    /// Whether the values fill the columns of `stream` in the given order:
    /// the condition under which `into_row` may be called.
    pub fn can_fill(&self, stream: &StreamModel, column_order: &Vec<ColumnName>) -> (res: bool)
        ensures
            res == fills(self@, column_order@, stream.shape.columns@),
    {
        let columns = &stream.shape.columns;
        if self.0.len() != column_order.len() || column_order.len() != columns.len() {
            return false;
        }
        if !names_distinct(column_order) {
            return false;
        }
        let mut i: usize = 0;
        while i < columns.len()
            invariant
                *columns == stream.shape.columns,
                i <= columns.len(),
                self@.len() == column_order@.len(),
                column_order@.len() == columns@.len(),
                distinct_names(column_order@),
                forall|k: int| 0 <= k < i ==> fits_column(self@, column_order@, #[trigger] columns@[k]),
            decreases columns.len() - i,
        {
            match find_name(column_order, &columns[i].name) {
                None => {
                    proof {
                        assert(!fits_column(self@, column_order@, columns@[i as int]));
                    }
                    return false;
                },
                Some(j) => {
                    if !self.0[j].conforms_to(columns[i].sql_type, columns[i].nullable) {
                        proof {
                            assert forall|m: int|
                                0 <= m < column_order@.len() && (#[trigger] column_order@[m])@
                                    == columns@[i as int].name@ implies m == j by {
                                if m < j {
                                    assert(column_order@[m]@ != column_order@[j as int]@);
                                } else if j < m {
                                    assert(column_order@[j as int]@ != column_order@[m]@);
                                }
                            }
                            assert(!fits_column(self@, column_order@, columns@[i as int]));
                        }
                        return false;
                    }
                    proof {
                        assert(fits_column(self@, column_order@, columns@[i as int]));
                    }
                },
            }
            i = i + 1;
        }
        true
    }

    /// Binds the values to the columns of the downstream stream: the value
    /// at position `j` goes to the column that `column_order[j]` names.
    ///
    /// The values must fill the stream's columns; `can_fill` tests that.
    pub fn into_row(self, stream_model: Arc<StreamModel>, column_order: Vec<ColumnName>, arrival: i64) -> (row:
        Row)
        requires
            stream_model.wf(),
            fills(self@, column_order@, stream_model.shape.columns@),
        ensures
            row.wf(),
            row.stream == stream_model,
            row.event_time == crate::row::event_time_of(stream_model.shape, row.values@, arrival),
            placed(self@, column_order@, stream_model.shape.columns@, row.values@),
    {
        let ghost values = self@;
        let ghost columns = stream_model.shape.columns@;
        let ghost order = column_order@;
        let column_values = self.mk_column_values(column_order);
        proof {
            assert forall|i: int| 0 <= i < columns.len() implies exists|j: int|
                0 <= j < column_values.entries@.len() && (#[trigger] column_values.entries@[j]).label@ == (
                #[trigger] columns[i]).name@ && column_values.entries@[j].value.conforms(
                    columns[i].sql_type,
                    columns[i].nullable,
                ) by {
                assert(fits_column(values, order, columns[i]));
                let j = choose|j: int|
                    0 <= j < order.len() && (#[trigger] order[j])@ == columns[i].name@ && values[j].conforms(
                        columns[i].sql_type,
                        columns[i].nullable,
                    );
                assert(column_values.entries@[j].label@ == columns[i].name@);
            }
        }
        let row = Row::from_column_values(stream_model, column_values, arrival).unwrap();
        proof {
            assert forall|i: int| 0 <= i < columns.len() implies placed_under(
                values,
                order,
                columns[i].name@,
                #[trigger] row.values@[i],
            ) by {
                let j = choose|j: int|
                    0 <= j < column_values.entries@.len() && (#[trigger] column_values.entries@[j]).label@
                        == columns[i].name@ && (#[trigger] row.values@[i]) == column_values.entries@[j].value;
                assert(order[j]@ == columns[i].name@);
            }
        }
        row
    }

    /// The values keyed by the names in `column_order`, position by
    /// position.
    fn mk_column_values(self, column_order: Vec<ColumnName>) -> (res: ColumnValues)
        requires
            self@.len() == column_order@.len(),
            distinct_names(column_order@),
        ensures
            res.wf(),
            res.entries@.len() == column_order@.len(),
            forall|j: int|
                0 <= j < column_order@.len() ==> (#[trigger] res.entries@[j]).label == column_order@[j]
                    && res.entries@[j].value == self@[j],
    {
        let mut column_values = ColumnValues::new();
        let mut j: usize = 0;
        while j < column_order.len()
            invariant
                j <= column_order.len(),
                self@.len() == column_order@.len(),
                distinct_names(column_order@),
                column_values.wf(),
                column_values.entries@.len() == j,
                forall|m: int|
                    0 <= m < j ==> (#[trigger] column_values.entries@[m]).label == column_order@[m]
                        && column_values.entries@[m].value == self@[m],
            decreases column_order.len() - j,
        {
            let name = column_order[j].duplicate();
            let value = self.0[j].duplicate();
            proof {
                assert forall|m: int| 0 <= m < column_values.entries@.len() implies (
                #[trigger] column_values.entries@[m]).label@ != name@ by {
                    assert(column_order@[m]@ != column_order@[j as int]@);
                }
            }
            let inserted = column_values.insert(name, value);
            inserted.unwrap();
            j = j + 1;
        }
        column_values
    }
}

/// What one run of a subtask tree yields: the values of each output row,
/// in order, and what the run took from the input queue.
#[derive(Debug)]
pub struct QuerySubtaskOut {
    pub values_seq: Vec<SqlValues>,
    pub in_queue_metrics_update: InQueueMetricsUpdateByTaskExecution,
}

impl QuerySubtaskOut {
    /// The output of a run.
    pub fn new(values_seq: Vec<SqlValues>, in_queue_metrics_update: InQueueMetricsUpdateByTaskExecution) -> (res:
        QuerySubtaskOut)
        ensures
            res.values_seq == values_seq,
            res.in_queue_metrics_update == in_queue_metrics_update,
    {
        QuerySubtaskOut { values_seq, in_queue_metrics_update }
    }

    /// The values of each output row, in order.
    pub open spec fn value_views(self) -> Seq<Seq<SqlValue>> {
        self.values_seq@.map_values(|v: SqlValues| v@)
    }
}

/// Whether the nodes, root first, form a subtask tree: an optional window
/// at the root, then a projection, then an optional expression evaluation,
/// and a collect at the leaf.
pub open spec fn subtask_shaped(nodes: Seq<QuerySubtaskNode>) -> bool {
    let n = nodes.len() as int;
    let w: int = if n > 0 && nodes[0] is GroupAggregateWindow {
        1
    } else {
        0
    };
    &&& w + 2 <= n <= w + 3
    &&& nodes[w] is Projection
    &&& n == w + 3 ==> nodes[w + 1] is EvalValueExpr
    &&& nodes[n - 1] is Collect
    &&& nodes[0] matches QuerySubtaskNode::GroupAggregateWindow(g) ==> g.op.window_param.wf()
}

/// What the nodes above the node at `idx`, up to the root or to the window
/// below it, make of the tuple `t` that the node at `idx` yields.
pub open spec fn climb(nodes: Seq<QuerySubtaskNode>, idx: int, t: TupleView) -> Result<TupleView, SpringError>
    decreases idx,
{
    if idx <= 0 || nodes[idx - 1] is GroupAggregateWindow {
        Ok(t)
    } else {
        match nodes[idx - 1].unary(t) {
            Err(e) => Err(e),
            Ok(next) => climb(nodes, idx - 1, next),
        }
    }
}

/// The values of each tuple, in order.
pub open spec fn row_values(tuples: Seq<TupleView>) -> Seq<Seq<SqlValue>> {
    tuples.map_values(|t: TupleView| values_of(t.fields))
}

/// Whether `res` carries the values of the tuples, or the failure, that
/// `tuples` stands for, along with `metrics`.
pub open spec fn out_is(
    res: Result<Option<QuerySubtaskOut>, SpringError>,
    tuples: Result<Seq<TupleView>, SpringError>,
    metrics: InQueueMetricsUpdateByTaskExecution,
) -> bool {
    match tuples {
        Err(e) => res matches Err(e2) && e2 == e,
        Ok(ts) => res matches Ok(Some(out)) && out.value_views() == row_values(ts)
            && out.in_queue_metrics_update == metrics,
    }
}

/// The subtask tree of one pump, with the state of its window.
pub struct QuerySubtask {
    pub tree: DiGraph<QuerySubtaskNode, ChildDirection>,
    /// The state of the window at the root, where there is one.
    pub window: Option<AggrWindow>,
}

/// Whether one run leads the subtask tree from `pre` to `post` and the
/// queues from `repo0` to `repo1` with the outcome `res`.
///
/// Where the queue is missing or empty the outcome is `None` and nothing
/// changes. Otherwise the row at its head leaves the queue and climbs the
/// tree as a tuple: a failure on the way is the outcome; without a window
/// the outcome is the one tuple that reaches the root; with a window it is
/// what the window makes of that tuple.
pub open spec fn ran(
    pre: QuerySubtask,
    queue: Seq<char>,
    repo0: Map<Seq<char>, Seq<Arc<Row>>>,
    post: QuerySubtask,
    repo1: Map<Seq<char>, Seq<Arc<Row>>>,
    res: Result<Option<QuerySubtaskOut>, SpringError>,
) -> bool {
    let nodes = subtask_nodes(pre.tree);
    &&& post.tree == pre.tree
    &&& match head_of(repo0, queue) {
        None => res matches Ok(None) && repo1 == repo0 && post.window == pre.window,
        Some(row) => {
            &&& repo1 == repo0.insert(queue, repo0[queue].drop_first())
            &&& match climb(nodes, nodes.len() - 1, tuple_of(row)) {
                Err(e) => (res matches Err(e2) && e2 == e) && post.window == pre.window,
                Ok(t) => match pre.window {
                    None => post.window is None && out_is(res, Ok(seq![t]), metrics_of(row)),
                    Some(w) => post.window matches Some(w2) && exists|r: Result<Seq<TupleView>, SpringError>|
                        #![trigger dispatched_to(w, t, w2, r)]
                        dispatched_to(w, t, w2, r) && out_is(res, r, metrics_of(row)),
                },
            }
        },
    }
}

/// Whether `post` is `pre` with the state of its window released: the same
/// tree, and a window without panes or watermark where `pre` has one.
pub open spec fn released(pre: QuerySubtask, post: QuerySubtask) -> bool {
    &&& post.tree == pre.tree
    &&& match pre.window {
        None => post.window is None,
        Some(w) => post.window matches Some(f) && f.param == w.param && f.op == w.op && f.max_out_of_order
            == w.max_out_of_order && f.watermark is None && f.dispatched == 0 && f.panes@.len() == 0,
    }
}

impl QuerySubtask {
    /// The nodes of the tree, root first.
    pub open spec fn nodes(self) -> Seq<QuerySubtaskNode> {
        subtask_nodes(self.tree)
    }

    /// The tree is a chain from the root to the collect leaf, and the window
    /// state belongs to the window at the root.
    pub open spec fn wf(self) -> bool {
        &&& subtask_shaped(self.nodes())
        &&& subtask_edges(self.tree) == chain_edges(self.nodes().len() as int)
        &&& match self.nodes()[0] {
            QuerySubtaskNode::GroupAggregateWindow(g) => self.window matches Some(w) && w.wf() && w.param
                == g.op.window_param && w.op == g.op.op_param && w.max_out_of_order == g.op.max_out_of_order,
            _ => self.window is None,
        }
    }

    /// Compiles a plan into its subtask tree: one subtask per operation,
    /// linked as the operations are, and a fresh window state where the plan
    /// has a window.
    pub fn from(query_plan: &QueryPlan) -> (res: QuerySubtask)
        requires
            query_plan.wf(),
        ensures
            res.wf(),
            res.nodes() == query_plan.operations().map_values(|op: QueryPlanOperation| QuerySubtaskNode::of(op)),
            res.window matches Some(w) ==> w.watermark is None && w.dispatched == 0 && w.panes@.len() == 0,
    {
        let plan_tree = query_plan.as_petgraph();
        let subtask_tree = compile_tree(plan_tree);
        let window = match tree_node(&subtask_tree, 0) {
            Some(QuerySubtaskNode::GroupAggregateWindow(g)) => Some(
                AggrWindow::new(g.op.window_param, g.op.op_param.duplicate(), g.op.max_out_of_order),
            ),
            _ => None,
        };
        QuerySubtask { tree: subtask_tree, window }
    }

    /// Runs the tree for one scheduling quantum on the queue of `queue`.
    ///
    /// Gives `None`, changing nothing, when the queue is missing or empty.
    /// Otherwise the oldest row leaves the queue and climbs from the leaf to
    /// the root; the outcome is the values of the tuples that the root
    /// yields, or the failure of the first node that fails.
    pub fn run(&mut self, queue: &str, repo: &mut RowRepository) -> (res: Result<
        Option<QuerySubtaskOut>,
        SpringError,
    >)
        requires
            old(self).wf(),
            old(repo).wf(),
        ensures
            final(self).wf(),
            final(repo).wf(),
            ran(*old(self), queue@, old(repo)@, *final(self), final(repo)@, res),
    {
        let ghost nodes = self.nodes();
        let ghost n = nodes.len() as int;
        let ghost w0 = self.window;
        let ghost repo0 = repo@;
        let mut next_idx = self.leaf_node_idx();
        let leaf_query_subtask_out = match self.run_leaf(next_idx, queue, repo) {
            None => {
                return Ok(None);
            },
            Some(out) => out,
        };
        let ghost row = head_of(repo0, queue@)->Some_0;
        let ghost t0 = tuple_of(row);
        let metrics = leaf_query_subtask_out.in_queue_metrics_update;
        let mut next_tuples: Vec<Tuple> = Vec::new();
        next_tuples.push(leaf_query_subtask_out.tuple);
        let ghost mut done = false;
        let mut parent = self.parent_node_idx(next_idx);
        while parent.is_some()
            invariant
                self.wf(),
                repo.wf(),
                self.tree == old(self).tree,
                nodes == self.nodes(),
                n == nodes.len(),
                w0 == old(self).window,
                repo0 == old(repo)@,
                head_of(repo0, queue@) == Some(row),
                t0 == tuple_of(row),
                repo@ == repo0.insert(queue@, repo0[queue@].drop_first()),
                next_idx < n,
                parent == (if next_idx > 0 {
                    Some((next_idx - 1) as u32)
                } else {
                    None
                }),
                !done ==> self.window == w0 && next_tuples@.len() == 1 && climb(nodes, n - 1, t0) == climb(
                    nodes,
                    next_idx as int,
                    next_tuples@[0]@,
                ) && (next_idx == 0 ==> !(nodes[0] is GroupAggregateWindow)),
                done ==> next_idx == 0 && (climb(nodes, n - 1, t0) matches Ok(t) && w0 matches Some(w)
                    && self.window matches Some(w2) && dispatched_to(
                    w,
                    t,
                    w2,
                    Ok(tuple_views(next_tuples@)),
                )),
            decreases next_idx,
        {
            next_idx = parent.unwrap();
            let ghost t = next_tuples@[0]@;
            let mut produced: Vec<Tuple> = Vec::new();
            let mut k: usize = 0;
            while k < next_tuples.len()
                invariant
                    self.wf(),
                    repo.wf(),
                    self.tree == old(self).tree,
                    nodes == self.nodes(),
                    n == nodes.len(),
                    w0 == old(self).window,
                    repo0 == old(repo)@,
                    head_of(repo0, queue@) == Some(row),
                    t0 == tuple_of(row),
                    repo@ == repo0.insert(queue@, repo0[queue@].drop_first()),
                    next_idx < n - 1,
                    next_tuples@.len() == 1,
                    next_tuples@[0]@ == t,
                    climb(nodes, n - 1, t0) == climb(nodes, next_idx + 1, t),
                    k <= 1,
                    k == 0 ==> produced@.len() == 0 && self.window == w0,
                    k == 1 ==> match nodes[next_idx as int] {
                        QuerySubtaskNode::GroupAggregateWindow(_) => w0 matches Some(w)
                            && self.window matches Some(w2) && dispatched_to(
                            w,
                            t,
                            w2,
                            Ok(tuple_views(produced@)),
                        ),
                        node => self.window == w0 && produced@.len() == 1 && node.unary(t) == Ok::<
                            TupleView,
                            SpringError,
                        >(produced@[0]@),
                    },
                decreases next_tuples.len() - k,
            {
                let mut part = match self.run_non_leaf(next_idx, &next_tuples[k]) {
                    Err(e) => {
                        proof {
                            if nodes[next_idx as int] is GroupAggregateWindow {
                                assert(dispatched_to(
                                    w0->Some_0,
                                    t,
                                    self.window->Some_0,
                                    Err::<Seq<TupleView>, SpringError>(e),
                                ));
                            }
                        }
                        return Err(e);
                    },
                    Ok(part) => part,
                };
                let ghost yielded = part@;
                proof {
                    assert(Seq::<Tuple>::empty() + yielded =~= yielded);
                    assert(tuple_views(yielded).len() == yielded.len());
                    if !(nodes[next_idx as int] is GroupAggregateWindow) {
                        assert(yielded.len() == 1);
                        assert(tuple_views(yielded)[0] == yielded[0]@);
                    }
                }
                produced.append(&mut part);
                assert(produced@ == yielded);
                k = k + 1;
            }
            next_tuples = produced;
            proof {
                if nodes[next_idx as int] is GroupAggregateWindow {
                    done = true;
                }
            }
            parent = self.parent_node_idx(next_idx);
        }
        let mut values_seq: Vec<SqlValues> = Vec::new();
        let mut i: usize = 0;
        let ghost want = row_values(tuple_views(next_tuples@));
        proof {
            assert(values_seq@.map_values(|v: SqlValues| v@) =~= want.take(0));
        }
        while i < next_tuples.len()
            invariant
                i <= next_tuples.len(),
                want == row_values(tuple_views(next_tuples@)),
                values_seq@.map_values(|v: SqlValues| v@) == want.take(i as int),
            decreases next_tuples.len() - i,
        {
            let values = SqlValues(next_tuples[i].to_values());
            let ghost earlier = values_seq@;
            values_seq.push(values);
            proof {
                assert(values_seq@.map_values(|v: SqlValues| v@) =~= earlier.map_values(|v: SqlValues| v@).push(
                    values@,
                ));
                assert(want.take(i + 1) =~= want.take(i as int).push(want[i as int]));
            }
            i = i + 1;
        }
        proof {
            assert(want.take(want.len() as int) =~= want);
            if !done {
                assert(tuple_views(next_tuples@) =~= seq![next_tuples@[0]@]);
            }
        }
        Ok(Some(QuerySubtaskOut::new(values_seq, metrics)))
    }

    /// Releases the state of the window, where there is one: every pane
    /// goes, and the watermark with them.
    pub fn release_window(&mut self)
        requires
            old(self).wf(),
        ensures
            final(self).wf(),
            released(*old(self), *final(self)),
    {
        match &mut self.window {
            Some(window) => {
                window.clear();
            },
            None => {},
        }
    }

    /// The index of the leaf: the first node that no edge leaves.
    fn leaf_node_idx(&self) -> (res: u32)
        requires
            self.wf(),
        ensures
            res == self.nodes().len() - 1,
    {
        let count = tree_node_count(&self.tree);
        let mut idx: u32 = 0;
        while (idx as usize) < count
            invariant
                self.wf(),
                count == self.nodes().len(),
                idx <= count - 1,
            decreases count - idx,
        {
            if !tree_has_child(&self.tree, idx) {
                proof {
                    if idx < count - 1 {
                        assert(subtask_edges(self.tree)[idx as int].parent == idx);
                    }
                }
                return idx;
            }
            proof {
                if idx == count - 1 {
                    let e = choose|e: int|
                        0 <= e < subtask_edges(self.tree).len() && (#[trigger] subtask_edges(self.tree)[e]).parent
                            == idx;
                    assert(subtask_edges(self.tree)[e].parent == e);
                }
            }
            idx = idx + 1;
        }
        idx
    }

    /// The index of the parent of the node at `node_idx`; none for the root.
    fn parent_node_idx(&self, node_idx: u32) -> (res: Option<u32>)
        requires
            self.wf(),
            node_idx < self.nodes().len(),
        ensures
            res == (if node_idx > 0 {
                Some((node_idx - 1) as u32)
            } else {
                None
            }),
    {
        let res = tree_parent(&self.tree, node_idx);
        proof {
            let edges = subtask_edges(self.tree);
            match res {
                Some(p) => {
                    let e = choose|e: int|
                        0 <= e < edges.len() && (#[trigger] edges[e]).child == node_idx && edges[e].parent == p;
                    assert(edges[e].child == e + 1);
                },
                None => {
                    if node_idx > 0 {
                        assert(edges[node_idx - 1].child == node_idx);
                    }
                },
            }
        }
        res
    }

    /// Runs the leaf: takes the oldest row from the queue of `queue`. Gives
    /// `None`, changing nothing, when there is no such queue or it is empty.
    fn run_leaf(&self, subtask_idx: u32, queue: &str, repo: &mut RowRepository) -> (res: Option<CollectOut>)
        requires
            self.wf(),
            old(repo).wf(),
            subtask_idx == self.nodes().len() - 1,
        ensures
            final(repo).wf(),
            match head_of(old(repo)@, queue@) {
                None => res is None && *final(repo) == *old(repo),
                Some(row) => res matches Some(out) && out.tuple@ == tuple_of(row)
                    && out.in_queue_metrics_update == metrics_of(row) && final(repo)@ == old(repo)@.insert(
                    queue@,
                    old(repo)@[queue@].drop_first(),
                ),
            },
    {
        match tree_node(&self.tree, subtask_idx) {
            Some(QuerySubtaskNode::Collect(collect_subtask)) => collect_subtask.run(queue, repo),
            _ => {
                proof {
                    assert(false);
                }
                None
            },
        }
    }

    /// Runs the node at `subtask_idx`, which is no leaf, on the tuple its
    /// child yielded. A projection or an expression evaluation yields one
    /// tuple; a window yields one per group of each pane it closes.
    fn run_non_leaf(&mut self, subtask_idx: u32, child_tuple: &Tuple) -> (res: Result<Vec<Tuple>, SpringError>)
        requires
            old(self).wf(),
            subtask_idx < old(self).nodes().len() - 1,
        ensures
            final(self).wf(),
            final(self).tree == old(self).tree,
            match old(self).nodes()[subtask_idx as int] {
                QuerySubtaskNode::GroupAggregateWindow(_) => old(self).window matches Some(w)
                    && final(self).window matches Some(w2) && dispatched_to(
                    w,
                    child_tuple@,
                    w2,
                    outcome_views(res),
                ),
                node => final(self).window == old(self).window && match node.unary(child_tuple@) {
                    Ok(v) => res matches Ok(out) && tuple_views(out@) == seq![v],
                    Err(e) => res matches Err(e2) && e2 == e,
                },
            },
    {
        let subtask = tree_node(&self.tree, subtask_idx);
        match subtask {
            Some(QuerySubtaskNode::Projection(projection_subtask)) => {
                let tuple = match projection_subtask.run(child_tuple) {
                    Err(e) => {
                        return Err(e);
                    },
                    Ok(t) => t,
                };
                let mut out: Vec<Tuple> = Vec::new();
                out.push(tuple);
                proof {
                    assert(tuple_views(out@) =~= seq![tuple@]);
                }
                Ok(out)
            },
            Some(QuerySubtaskNode::EvalValueExpr(eval_value_expr_subtask)) => {
                let tuple = match eval_value_expr_subtask.run(child_tuple) {
                    Err(e) => {
                        return Err(e);
                    },
                    Ok(t) => t,
                };
                let mut out: Vec<Tuple> = Vec::new();
                out.push(tuple);
                proof {
                    assert(tuple_views(out@) =~= seq![tuple@]);
                }
                Ok(out)
            },
            Some(QuerySubtaskNode::GroupAggregateWindow(_)) => {
                match &mut self.window {
                    Some(window) => window.dispatch(child_tuple),
                    None => {
                        proof {
                            assert(false);
                        }
                        Err(SpringError::Internal)
                    },
                }
            },
            _ => {
                proof {
                    assert(false);
                }
                Err(SpringError::Internal)
            },
        }
    }
}

} // verus!
