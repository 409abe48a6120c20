//! The commands of the program.
pub mod answer_laws;
pub mod args;
pub mod data;
pub mod laws;
pub mod learning;
pub mod record_laws;
pub mod task;
pub mod vcs;
