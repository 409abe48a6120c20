//! Task orchestration: a three-level task hierarchy with blockers, learnings and
//! workflow rules that tie tasks to version control.

pub mod commands;
pub mod db;
pub mod error;
pub mod id;
pub mod keep;
pub mod model;
pub mod order;
pub mod output;
pub mod path_laws;
pub mod paths;
pub mod service;
pub mod table_laws;
pub mod text;
pub mod text_laws;
pub mod time;
pub mod types;
pub mod vcs;
