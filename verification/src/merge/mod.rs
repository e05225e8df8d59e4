//! Landing an engineer's branch on `main`.
//!
//! The daemon reports facts (what git answered, what the tests said) and this
//! module decides what happens next. Nothing here runs a command: a request
//! names the command, and the reply comes back as a plain value.

pub mod branch;
pub mod completion;
pub mod completion_laws;
pub mod git_laws;
pub mod git_ops;
pub mod lock;
pub mod multi_repo;
pub mod operations;
pub mod repository;
pub mod scope;
pub mod verification;
pub mod verification_laws;
