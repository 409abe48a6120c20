//! The rules of the task system and the services that carry them out.
pub mod blocker_laws;
pub mod choice_laws;
pub mod cleanup_laws;
pub mod completion_laws;
pub mod context;
pub mod context_laws;
pub mod laws;
pub mod learning_laws;
pub mod order_laws;
pub mod readiness;
pub mod ready_laws;
pub mod row_laws;
pub mod rules;
pub mod start_laws;
pub mod task_service;
pub mod workflow_laws;
pub mod workflow_service;
