//! An embedded streaming SQL engine core: the pipeline graph, the query
//! subtask tree, window state, row queues, the task scheduler and the engine
//! handle, each with a machine-checked contract.

pub mod api;
pub mod command;
pub mod error;
pub mod expression;
pub mod foreign_input_row;
pub mod laws;
pub mod name;
pub mod node_executor_tree;
pub mod option;
pub mod pipeline;
pub mod pipeline_graph;
pub mod pump_model;
pub mod query_plan;
pub mod query_subtask;
pub mod row;
pub mod row_repository;
pub mod scheduler;
pub mod sink_writer_model;
pub mod source_reader_model;
pub mod sql_value;
pub mod stream_engine;
pub mod stream_model;
pub mod task;
pub mod timestamp;
pub mod tuple;
pub mod window;
pub mod worker;
