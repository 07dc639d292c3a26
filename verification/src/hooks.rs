//! The hook-running server: plugins fired by requests or run by hand,
//! their dependencies, and named tasks.
pub mod config;
pub mod plugin;
pub mod runner;
pub mod plan;
pub mod policy;
pub mod plan_order;
pub mod cli;
