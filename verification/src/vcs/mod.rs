//! The version-control systems that tasks are worked on in.
pub mod backend;
pub mod git;
pub mod jj;
pub mod laws;
