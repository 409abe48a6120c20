//! The human-readable output.
pub mod forest;
pub mod forest_laws;
pub mod laws;
pub mod paint;
pub mod report;
pub mod status;
pub mod tree;
