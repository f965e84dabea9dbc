//! Fan-out pushing of one branch to many mirror remotes: URL-to-name
//! matching, target filtering, the round-based retry state machine and the
//! final report, together with the saved remote configuration and the git
//! invocations the tool issues.

pub mod text;

pub mod alias;
pub mod apply;
pub mod config;
pub mod engine;
pub mod git;
pub mod hook;
pub mod matcher;
pub mod run;
pub mod summary;
pub mod targets;
pub mod utils;
pub mod status;
