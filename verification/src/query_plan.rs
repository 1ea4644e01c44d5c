//! Query plans: the operations of a continuous query and the tree that
//! links them.

use std::sync::Arc;
use petgraph::graph::DiGraph;
use petgraph::graph::NodeIndex;
use vstd::prelude::*;
use crate::error::SpringError;
use crate::expression::ValueExpr;
use crate::name::ColumnName;
use crate::name::StreamName;
use crate::window::WindowOperationParameter;
use crate::window::WindowParameter;

verus! {

/// petgraph's `Graph`: nodes and edges with weights, addressed by index.
#[verifier::external_type_specification]
#[verifier::external_body]
#[verifier::reject_recursive_types(N)]
#[verifier::reject_recursive_types(E)]
#[verifier::reject_recursive_types(Ty)]
#[verifier::reject_recursive_types(Ix)]
pub struct ExGraph<N, E, Ty, Ix>(petgraph::graph::Graph<N, E, Ty, Ix>);

/// petgraph's marker for graphs with directed edges.
#[verifier::external_type_specification]
#[verifier::external_body]
pub struct ExDirected(petgraph::Directed);

/// Selects fields of a tuple by label, in the order given.
#[derive(Debug)]
pub struct ProjectionOp {
    pub value_expr_labels: Vec<ColumnName>,
}

/// An expression and the label its value gets.
#[derive(Debug)]
pub struct LabelledExpr {
    pub label: ColumnName,
    pub expr: ValueExpr,
}

/// Evaluates expressions over a tuple and appends their values to it.
#[derive(Debug)]
pub struct EvalValueExprOp {
    pub expressions: Vec<LabelledExpr>,
}

/// Groups the tuples of each pane of a window and aggregates each group.
#[derive(Debug)]
pub struct GroupAggregateWindowOp {
    pub window_param: WindowParameter,
    pub op_param: WindowOperationParameter,
    /// By how many nanoseconds a tuple may lag behind the latest one.
    pub max_out_of_order: u64,
}

/// Reads the rows of a stream.
#[derive(Debug)]
pub struct CollectOp {
    pub stream: StreamName,
}

/// The kinds of join.
#[derive(Clone, Copy, Debug, PartialEq, Eq, Structural)]
pub enum JoinType {
    LeftOuter,
}

/// The input of a query: one collected stream, or two joined on a
/// predicate.
#[derive(Debug)]
pub enum JoinOp {
    Collect(CollectOp),
    Join { left: CollectOp, right: CollectOp, join_type: JoinType, on_expr: ValueExpr },
}

/// The operations above the input: expression evaluation, projection and,
/// optionally, a windowed group aggregation at the root.
#[derive(Debug)]
pub struct UpperOps {
    pub projection: ProjectionOp,
    pub eval_value_expr: Option<EvalValueExprOp>,
    pub group_aggr_window: Option<GroupAggregateWindowOp>,
}

impl UpperOps {
    /// Whether the plan aggregates over a window.
    pub fn has_window(&self) -> (res: bool)
        ensures
            res == self.group_aggr_window is Some,
    {
        self.group_aggr_window.is_some()
    }
}

/// The operations that provide the input.
#[derive(Debug)]
pub struct LowerOps {
    pub join: JoinOp,
}

impl LowerOps {
    /// Whether the input carries a window of its own: it never does.
    pub fn has_window(&self) -> (res: bool)
        ensures
            !res,
    {
        false
    }
}

/// One node of a query plan.
#[derive(Debug)]
pub enum QueryPlanOperation {
    Collect(Arc<CollectOp>),
    EvalValueExpr(Arc<EvalValueExprOp>),
    Projection(Arc<ProjectionOp>),
    GroupAggregateWindow(Arc<GroupAggregateWindowOp>),
}

/// On which side of its parent a node hangs.
#[derive(Clone, Copy, Debug, PartialEq, Eq, Structural)]
pub enum ChildDirection {
    Left,
    Right,
}

/// An edge of a plan tree: from the parent's index to the child's.
pub struct TreeEdge {
    pub parent: int,
    pub child: int,
    pub direction: ChildDirection,
}

/// The edges of a chain of `n` nodes: each node but the last is the parent
/// of the next, which hangs on its left.
pub open spec fn chain_edges(n: int) -> Seq<TreeEdge> {
    Seq::new(
        (if n > 0 {
            n - 1
        } else {
            0
        }) as nat,
        |i: int| TreeEdge { parent: i, child: i + 1, direction: ChildDirection::Left },
    )
}

/// The node weights of a plan tree, by node index.
pub uninterp spec fn plan_nodes(tree: DiGraph<QueryPlanOperation, ChildDirection>) -> Seq<QueryPlanOperation>;

/// The edges of a plan tree, by edge index.
pub uninterp spec fn plan_edges(tree: DiGraph<QueryPlanOperation, ChildDirection>) -> Seq<TreeEdge>;

/// An empty plan tree. Wraps petgraph's `Graph::new`, which creates a
/// directed graph without nodes or edges.
#[verifier::external_body]
fn plan_tree_new() -> (tree: DiGraph<QueryPlanOperation, ChildDirection>)
    ensures
        plan_nodes(tree) == Seq::<QueryPlanOperation>::empty(),
        plan_edges(tree) == Seq::<TreeEdge>::empty(),
{
    DiGraph::new()
}

/// Adds a node. Wraps petgraph's `Graph::add_node`, which appends the node
/// after the existing ones, returns its index and leaves the edges alone; it
/// panics when the graph holds as many nodes as a 32-bit index can address,
/// which the precondition excludes.
#[verifier::external_body]
fn plan_tree_add_node(tree: &mut DiGraph<QueryPlanOperation, ChildDirection>, op: QueryPlanOperation) -> (res:
    u32)
    requires
        plan_nodes(*old(tree)).len() < u32::MAX,
    ensures
        plan_nodes(*final(tree)) == plan_nodes(*old(tree)).push(op),
        plan_edges(*final(tree)) == plan_edges(*old(tree)),
        res == plan_nodes(*old(tree)).len(),
{
    tree.add_node(op).index() as u32
}

/// Adds an edge from `parent` to `child`. Wraps petgraph's
/// `Graph::add_edge`, which appends the edge after the existing ones and
/// leaves the nodes alone; it panics when either node is missing or the
/// graph holds as many edges as a 32-bit index can address, which the
/// precondition excludes.
#[verifier::external_body]
fn plan_tree_add_edge(
    tree: &mut DiGraph<QueryPlanOperation, ChildDirection>,
    parent: u32,
    child: u32,
    direction: ChildDirection,
)
    requires
        parent < plan_nodes(*old(tree)).len(),
        child < plan_nodes(*old(tree)).len(),
        plan_edges(*old(tree)).len() < u32::MAX,
    ensures
        plan_nodes(*final(tree)) == plan_nodes(*old(tree)),
        plan_edges(*final(tree)) == plan_edges(*old(tree)).push(
            TreeEdge { parent: parent as int, child: child as int, direction },
        ),
{
    tree.add_edge(NodeIndex::new(parent as usize), NodeIndex::new(child as usize), direction);
}

/// Whether the operations, root first, form a plan: an optional window at
/// the root, then a projection, then an optional expression evaluation, and
/// a collect at the leaf.
pub open spec fn plan_shaped(nodes: Seq<QueryPlanOperation>) -> bool {
    let n = nodes.len() as int;
    let w: int = if n > 0 && nodes[0] is GroupAggregateWindow {
        1
    } else {
        0
    };
    &&& w + 2 <= n <= w + 3
    &&& nodes[w] is Projection
    &&& n == w + 3 ==> nodes[w + 1] is EvalValueExpr
    &&& nodes[n - 1] is Collect
    &&& nodes[0] matches QueryPlanOperation::GroupAggregateWindow(op) ==> op.window_param.wf()
}

/// The plan of one pump: a tree of operations with one collect leaf. A
/// plan is made by `QueryPlan::new` alone, which links its tree as a
/// chain; every plan that runs is well formed.
pub struct QueryPlan {
    tree: DiGraph<QueryPlanOperation, ChildDirection>,
    /// The collect at the leaf.
    collect: Arc<CollectOp>,
}

impl QueryPlan {
    /// The tree of operations.
    pub closed spec fn graph(self) -> DiGraph<QueryPlanOperation, ChildDirection> {
        self.tree
    }

    /// The collect at the leaf.
    pub closed spec fn leaf(self) -> Arc<CollectOp> {
        self.collect
    }

    /// The tree is a chain from the root to the collect leaf.
    pub open spec fn wf(self) -> bool {
        &&& plan_shaped(plan_nodes(self.graph()))
        &&& plan_edges(self.graph()) == chain_edges(plan_nodes(self.graph()).len() as int)
        &&& plan_nodes(self.graph()).last() == QueryPlanOperation::Collect(self.leaf())
    }

    /// The invariant of the type: every plan that runs is well formed.
    #[verifier::type_invariant]
    pub open spec fn well_formed(self) -> bool {
        self.wf()
    }

    /// The operations of the plan, root first.
    pub open spec fn operations(self) -> Seq<QueryPlanOperation> {
        plan_nodes(self.graph())
    }

    /// Whether a window parameter, where there is one, is well formed.
    pub open spec fn window_ok(upper: UpperOps) -> bool {
        upper.group_aggr_window matches Some(w) ==> w.window_param.wf()
    }

    /// Links the operations of a query into a tree. Fails with `Sql` exactly
    /// when the input is a join or a window parameter is malformed.
    pub fn new(upper_ops: UpperOps, lower_ops: LowerOps) -> (res: Result<QueryPlan, SpringError>)
        ensures
            res is Ok <==> lower_ops.join is Collect && Self::window_ok(upper_ops),
            res matches Err(e) ==> e == SpringError::Sql,
            res matches Ok(plan) ==> {
                let ops = plan.operations();
                let w: int = if upper_ops.group_aggr_window is Some {
                    1
                } else {
                    0
                };
                let e: int = if upper_ops.eval_value_expr is Some {
                    1
                } else {
                    0
                };
                &&& plan.wf()
                &&& ops.len() == w + e + 2
                &&& upper_ops.group_aggr_window matches Some(window) ==> (ops[0]
                    matches QueryPlanOperation::GroupAggregateWindow(op) && op == window)
                &&& ops[w] matches QueryPlanOperation::Projection(op) && op == upper_ops.projection
                &&& upper_ops.eval_value_expr matches Some(eval) ==> (ops[w + 1]
                    matches QueryPlanOperation::EvalValueExpr(op) && op == eval)
                &&& ops[w + e + 1] matches QueryPlanOperation::Collect(op) && op == lower_ops.join->Collect_0
                &&& plan.leaf() == lower_ops.join->Collect_0
            },
    {
        let collect = match lower_ops.join {
            JoinOp::Collect(c) => c,
            JoinOp::Join { .. } => {
                return Err(SpringError::Sql);
            },
        };
        let UpperOps { projection, eval_value_expr, group_aggr_window } = upper_ops;
        let mut tree = plan_tree_new();
        let mut parent: Option<u32> = None;
        if let Some(window) = group_aggr_window {
            if !window.window_param.is_valid() {
                return Err(SpringError::Sql);
            }
            let idx = plan_tree_add_node(&mut tree, QueryPlanOperation::GroupAggregateWindow(Arc::new(window)));
            parent = Some(idx);
        }
        let idx = plan_tree_add_node(&mut tree, QueryPlanOperation::Projection(Arc::new(projection)));
        if let Some(p) = parent {
            plan_tree_add_edge(&mut tree, p, idx, ChildDirection::Left);
        }
        let mut parent: u32 = idx;
        if let Some(eval) = eval_value_expr {
            let idx = plan_tree_add_node(&mut tree, QueryPlanOperation::EvalValueExpr(Arc::new(eval)));
            plan_tree_add_edge(&mut tree, parent, idx, ChildDirection::Left);
            parent = idx;
        }
        let collect = Arc::new(collect);
        let idx = plan_tree_add_node(&mut tree, QueryPlanOperation::Collect(crate::row::share(&collect)));
        plan_tree_add_edge(&mut tree, parent, idx, ChildDirection::Left);
        proof {
            assert(plan_edges(tree) =~= chain_edges(plan_nodes(tree).len() as int));
        }
        Ok(QueryPlan { tree, collect })
    }

    /// The tree of operations.
    pub fn as_petgraph(&self) -> (res: &DiGraph<QueryPlanOperation, ChildDirection>)
        ensures
            *res == self.graph(),
    {
        &self.tree
    }

    /// The collect at the leaf.
    pub fn collect(&self) -> (res: &Arc<CollectOp>)
        ensures
            *res == self.leaf(),
    {
        &self.collect
    }

    /// The stream whose rows the plan reads.
    pub fn upstream(&self) -> (res: &StreamName)
        ensures
            *res == self.leaf().stream,
    {
        &self.collect.stream
    }
}

} // verus!
