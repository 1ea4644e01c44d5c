//! The executor tree of a plan that hands rows on as they are.

use std::sync::Arc;
use vstd::prelude::*;
use crate::error::SpringError;
use crate::name::StreamName;
use crate::query_plan::CollectOp;
use crate::query_plan::QueryPlan;
use crate::query_subtask::head_of;
use crate::row::Row;
use crate::row_repository::RowRepository;

verus! {

/// The row that a plan yields.
#[derive(Debug)]
pub enum FinalRow {
    /// The same row as the plan's input.
    Preserved(Arc<Row>),
    /// A row made while the plan ran.
    NewlyCreated(Row),
}

/// Collects the rows of a stream.
#[derive(Debug)]
pub struct CollectExecutor {
    pub stream: StreamName,
}

impl CollectExecutor {
    /// An executor that collects the rows of `stream`.
    pub fn new(stream: StreamName) -> (res: CollectExecutor)
        ensures
            res.stream == stream,
    {
        CollectExecutor { stream }
    }

    /// Takes the oldest row from the queue of `queue`. Fails with
    /// `Unavailable`, changing nothing, when there is no such queue or it
    /// is empty.
    pub fn run(&self, queue: &str, row_repo: &mut RowRepository) -> (res: Result<Arc<Row>, SpringError>)
        requires
            old(row_repo).wf(),
        ensures
            final(row_repo).wf(),
            match head_of(old(row_repo)@, queue@) {
                None => res matches Err(e) && e == SpringError::Unavailable && *final(row_repo) == *old(row_repo),
                Some(row) => res matches Ok(r) && *r == row && r == old(row_repo)@[queue@][0] && final(row_repo)@ == old(row_repo)@.insert(queue@, old(row_repo)@[queue@].drop_first()),
            },
    {
        match row_repo.pop(queue) {
            Ok(Some(row)) => Ok(row),
            _ => Err(SpringError::Unavailable),
        }
    }
}

/// The executors of leaf nodes.
#[derive(Debug)]
pub enum CollectNodeExecutor {
    Collect(CollectExecutor),
}

/// The executor of one node of a plan.
#[derive(Debug)]
pub enum NodeExecutor {
    Collect(CollectNodeExecutor),
}

/// The executor tree of a plan.
#[derive(Debug)]
pub struct NodeExecutorTree {
    pub root: NodeExecutor,
    /// `Some` means that the output of the plan is this row; `None` that
    /// it is the plan's input.
    pub latest_new_row: Option<Row>,
}

impl NodeExecutorTree {
    /// The executor tree of a plan: it collects the rows of the stream that
    /// the plan reads.
    pub fn compile(query_plan: &QueryPlan) -> (res: NodeExecutorTree)
        ensures
            res.latest_new_row is None,
            res.root matches NodeExecutor::Collect(CollectNodeExecutor::Collect(e)) && e.stream
                == query_plan.leaf().stream,
    {
        let root = Self::compile_node(query_plan.collect());
        NodeExecutorTree { root, latest_new_row: None }
    }

    fn compile_node(plan_node: &CollectOp) -> (res: NodeExecutor)
        ensures
            res matches NodeExecutor::Collect(CollectNodeExecutor::Collect(e)) && e.stream == plan_node.stream,
    {
        NodeExecutor::Collect(CollectNodeExecutor::Collect(CollectExecutor::new(plan_node.stream.duplicate())))
    }

    /// Runs the tree once on the queue of `queue`. Fails with
    /// `Unavailable`, changing nothing, when no input is at hand. Otherwise
    /// the oldest row leaves the queue; the outcome is the row made while
    /// the plan ran, if there is one, and else the input row itself.
    pub fn run(&mut self, queue: &str, row_repo: &mut RowRepository) -> (res: Result<FinalRow, SpringError>)
        requires
            old(row_repo).wf(),
        ensures
            final(row_repo).wf(),
            final(self).root == old(self).root,
            match head_of(old(row_repo)@, queue@) {
                None => res matches Err(e) && e == SpringError::Unavailable && *final(row_repo) == *old(row_repo)
                    && *final(self) == *old(self),
                Some(row) => final(self).latest_new_row is None && final(row_repo)@ == old(row_repo)@.insert(
                    queue@,
                    old(row_repo)@[queue@].drop_first(),
                ) && match old(self).latest_new_row {
                    Some(new_row) => res matches Ok(FinalRow::NewlyCreated(r)) && r == new_row,
                    None => res matches Ok(FinalRow::Preserved(r)) && *r == row,
                },
            },
    {
        let row = match Self::run_dfs_post_order(&self.root, &mut self.latest_new_row, queue, row_repo) {
            Err(e) => {
                return Err(e);
            },
            Ok(row) => row,
        };
        match self.latest_new_row.take() {
            Some(new_row) => Ok(FinalRow::NewlyCreated(new_row)),
            None => Ok(FinalRow::Preserved(row)),
        }
    }

    fn run_dfs_post_order(
        executor: &NodeExecutor,
        latest_new_row: &mut Option<Row>,
        queue: &str,
        row_repo: &mut RowRepository,
    ) -> (res: Result<Arc<Row>, SpringError>)
        requires
            old(row_repo).wf(),
        ensures
            final(row_repo).wf(),
            *final(latest_new_row) == *old(latest_new_row),
            match head_of(old(row_repo)@, queue@) {
                None => res matches Err(e) && e == SpringError::Unavailable && *final(row_repo) == *old(row_repo),
                Some(row) => res matches Ok(r) && *r == row && final(row_repo)@ == old(row_repo)@.insert(
                    queue@,
                    old(row_repo)@[queue@].drop_first(),
                ),
            },
    {
        match executor {
            NodeExecutor::Collect(e) => match e {
                CollectNodeExecutor::Collect(executor) => executor.run(queue, row_repo),
            },
        }
    }
}

} // verus!
