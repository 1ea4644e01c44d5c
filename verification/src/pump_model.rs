//! Pumps: continuously running queries between two streams.

use std::sync::Arc;
use vstd::prelude::*;
use crate::name::ColumnName;
use crate::name::PumpName;
use crate::name::StreamName;
use crate::query_plan::QueryPlan;
use crate::row::share;

verus! {

/// Whether a pump is scheduled.
#[derive(Clone, Copy, Debug, PartialEq, Eq, Structural)]
pub enum PumpState {
    /// Kept in the graph but never picked.
    Stopped,
    /// Scheduled.
    Started,
}

/// Where the output of a query goes: the downstream stream, and the column
/// that each output value fills, position by position.
#[derive(Debug)]
pub struct InsertPlan {
    pub stream: StreamName,
    pub column_order: Vec<ColumnName>,
}

/// A pump: its name, the plan of its query, where its output goes and
/// whether it runs.
pub struct PumpModel {
    pub name: PumpName,
    pub query_plan: Arc<QueryPlan>,
    pub insert_plan: Arc<InsertPlan>,
    pub state: PumpState,
}

impl PumpModel {
    /// The plan is well formed.
    pub open spec fn wf(self) -> bool {
        self.query_plan.wf()
    }

    /// The name of the stream the pump reads.
    pub open spec fn upstream_name(self) -> Seq<char> {
        self.query_plan.leaf().stream@
    }

    /// The name of the stream the pump writes.
    pub open spec fn downstream_name(self) -> Seq<char> {
        self.insert_plan.stream@
    }

    /// A stopped pump.
    pub fn new(name: PumpName, query_plan: QueryPlan, insert_plan: InsertPlan) -> (res: PumpModel)
        ensures
            res.name == name,
            *res.query_plan == query_plan,
            *res.insert_plan == insert_plan,
            res.state == PumpState::Stopped,
    {
        PumpModel {
            name,
            query_plan: Arc::new(query_plan),
            insert_plan: Arc::new(insert_plan),
            state: PumpState::Stopped,
        }
    }

    /// The name of the pump.
    pub fn name(&self) -> (res: &PumpName)
        ensures
            *res == self.name,
    {
        &self.name
    }

    /// The stream the pump reads.
    pub fn upstream(&self) -> (res: &StreamName)
        ensures
            res@ == self.upstream_name(),
    {
        self.query_plan.upstream()
    }

    /// The stream the pump writes.
    pub fn downstream(&self) -> (res: &StreamName)
        ensures
            res@ == self.downstream_name(),
    {
        &self.insert_plan.stream
    }

    /// The same pump in the given state.
    pub fn with_state(&self, state: PumpState) -> (res: PumpModel)
        ensures
            res == (PumpModel { state, ..*self }),
    {
        PumpModel {
            name: self.name.duplicate(),
            query_plan: share(&self.query_plan),
            insert_plan: share(&self.insert_plan),
            state,
        }
    }

    /// A copy of the pump that shares its plans.
    pub fn duplicate(&self) -> (res: PumpModel)
        ensures
            res == *self,
    {
        self.with_state(self.state)
    }
}

} // verus!
