//! The rules of a team of coding agents: who gets which message and when,
//! how agents are launched and go on with their sessions, how their panes are
//! laid out, and how their branches land on `main`.
//!
//! Nothing here reads a file or runs a program. Facts come in as plain values
//! and decisions go out as plain values, so every rule has a contract that is
//! proved.

pub mod assignment;
pub mod assignment_laws;
pub mod clock;
pub mod dashboard;
pub mod dashboard_text;
pub mod dashboard_text_laws;
pub mod digits;
pub mod inbox;
pub mod inbox_commands;
pub mod inbox_laws;
pub mod inbox_queue;
pub mod inbox_tiered;
pub mod init;
pub mod jsonl;
pub mod launch_laws;
pub mod launch_script;
pub mod launch_state;
pub mod launcher;
pub mod layout;
pub mod layout_laws;
pub mod layout_window;
pub mod learnings;
pub mod learnings_laws;
pub mod load;
pub mod mail;
pub mod mcp;
pub mod merge;
pub mod message;
pub mod messaging;
pub mod messaging_laws;
pub mod metrics;
pub mod metrics_laws;
pub mod order;
pub mod paths;
pub mod project_laws;
pub mod ranking;
pub mod ratio;
pub mod relevance;
pub mod relevance_laws;
pub mod run_export;
pub mod sessions;
pub mod shell;
pub mod spawn;
pub mod team;
pub mod text;
pub mod text_laws;
pub mod throughput;
pub mod words;
