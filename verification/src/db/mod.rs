//! The stored state and the queries and updates on it.
pub mod learning_repo;
pub mod row;
pub mod store;
pub mod task_repo;
