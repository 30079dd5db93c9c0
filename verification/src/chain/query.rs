//! Queries as directed acyclic graphs of operators.

pub mod query_dag;
