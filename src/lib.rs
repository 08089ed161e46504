//! Log analysis and diagnostics for a supervised development stack.
//!
//! The core reads process output one line at a time: `parser` classifies a
//! line into a typed signal, `context` groups query activity by request and
//! finds N+1 patterns (`query`), `database` scores database health from
//! query timings, and `exception` assembles exceptions with their backtraces
//! and groups them. Around the core sit the command palette (`command`,
//! `history`, `registry`), display helpers (`display`, `formatting`), project
//! set-up (`project`, `config`), test-suite and frontend output readers
//! (`testrun`, `frontend_log`) and request counters (`stats`).

pub mod text;
pub mod rank;
pub mod query;
pub mod parser;
pub mod context;
pub mod database;
pub mod exception;
pub mod history;
pub mod command;
pub mod registry;
pub mod formatting;
pub mod display;
pub mod project;
pub mod config;
pub mod stats;
pub mod testrun;
pub mod frontend_log;
pub mod explain;
